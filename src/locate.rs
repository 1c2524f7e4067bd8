//! Resolution of a full or abbreviated identifier among the stored objects.
//! An object with identifier `id` is kept in directory `id[..2]` under the
//! file name `id[2..]`.

use vstd::prelude::*;

use crate::errors::ObjectError;

verus! {

/// A lowercase hexadecimal digit.
pub open spec fn is_hex_char(c: char) -> bool {
    ('0' <= c && c <= '9') || ('a' <= c && c <= 'f')
}

/// An identifier or prefix has between 2 and 40 characters.
pub open spec fn length_ok(p: Seq<char>) -> bool {
    2 <= p.len() <= 40
}

/// Every character is a lowercase hexadecimal digit.
pub open spec fn all_hex(p: Seq<char>) -> bool {
    forall|i: int| 0 <= i < p.len() ==> is_hex_char(#[trigger] p[i])
}

/// Whether the file `name`, in the directory that `p` selects, holds an
/// object that `p` names: the very file for a full identifier, any file
/// whose name starts with the rest of `p` for an abbreviation.
pub open spec fn name_matches(p: Seq<char>, name: Seq<char>) -> bool {
    &&& length_ok(p)
    &&& all_hex(p)
    &&& if p.len() == 40 {
        name == p.subrange(2, 40)
    } else {
        name.len() >= p.len() - 2 && name.subrange(0, p.len() - 2) == p.subrange(2, p.len() as int)
    }
}

/// Whether every character of `p` is a lowercase hex digit.
fn check_hex(p: &str) -> (r: bool)
    ensures
        r == all_hex(p@),
{
    let n = p.unicode_len();
    let mut i: usize = 0;
    while i < n
        invariant
            n == p@.len(),
            i <= n,
            forall|j: int| 0 <= j < i ==> is_hex_char(#[trigger] p@[j]),
        decreases n - i,
    {
        let c = p.get_char(i);
        if !(('0' <= c && c <= '9') || ('a' <= c && c <= 'f')) {
            return false;
        }
        i = i + 1;
    }
    true
}

/// Whether `name` matches `p`, for a `p` of valid length made of hex digits.
fn matches_name(p: &str, name: &str) -> (r: bool)
    requires
        length_ok(p@),
        all_hex(p@),
    ensures
        r == name_matches(p@, name@),
{
    let plen = p.unicode_len();
    let nlen = name.unicode_len();
    if plen == 40 {
        if nlen != 38 {
            return false;
        }
    } else if nlen < plen - 2 {
        return false;
    }
    let mut i: usize = 2;
    while i < plen
        invariant
            plen == p@.len(),
            nlen == name@.len(),
            2 <= i <= plen,
            nlen >= plen - 2,
            forall|j: int| 2 <= j < i ==> #[trigger] p@[j] == name@[j - 2],
        decreases plen - i,
    {
        if p.get_char(i) != name.get_char(i - 2) {
            assert(name@.subrange(0, plen - 2)[i - 2] != p@.subrange(2, plen as int)[i - 2]);
            return false;
        }
        i = i + 1;
    }
    assert(name@.subrange(0, plen - 2) =~= p@.subrange(2, plen as int));
    if plen == 40 {
        assert(name@ =~= name@.subrange(0, 38));
    }
    true
}

/// The directory that an identifier or prefix selects. Fails with
/// `InvalidHashLength` outside 2 to 40 characters, and with `NotFound` where
/// a character is not a lowercase hex digit, since no identifier has one.
pub fn shard_dir(prefix: &str) -> (r: Result<String, ObjectError>)
    ensures
        match r {
            Ok(d) => length_ok(prefix@) && all_hex(prefix@) && d@ == prefix@.subrange(0, 2),
            Err(ObjectError::InvalidHashLength(s)) => !length_ok(prefix@) && s@ == prefix@,
            Err(ObjectError::NotFound(s)) => length_ok(prefix@) && !all_hex(prefix@) && s@
                == prefix@,
            Err(_) => false,
        },
{
    let n = prefix.unicode_len();
    if n < 2 || n > 40 {
        return Err(ObjectError::InvalidHashLength(prefix.to_owned()));
    }
    if !check_hex(prefix) {
        return Err(ObjectError::NotFound(prefix.to_owned()));
    }
    Ok(prefix.substring_char(0, 2).to_owned())
}

/// Splits a full identifier into its directory and file names.
pub fn split_id(id: &str) -> (r: (String, String))
    requires
        id@.len() >= 2,
    ensures
        r.0@ == id@.subrange(0, 2),
        r.1@ == id@.subrange(2, id@.len() as int),
{
    let n = id.unicode_len();
    (id.substring_char(0, 2).to_owned(), id.substring_char(2, n).to_owned())
}

/// Picks the one stored object that `prefix` names among the file names of
/// the directory it selects, and returns its index. Zero matches is
/// `NotFound`, more than one is `MultipleObjectsFound`: abbreviations must
/// be unambiguous.
pub fn find_hash(prefix: &str, names: &Vec<String>) -> (r: Result<usize, ObjectError>)
    ensures
        match r {
            Ok(i) => i < names@.len() && name_matches(prefix@, names@[i as int]@) && forall|j: int|
                0 <= j < names@.len() && j != i ==> !name_matches(prefix@, #[trigger] names@[j]@),
            Err(ObjectError::InvalidHashLength(s)) => !length_ok(prefix@) && s@ == prefix@,
            Err(ObjectError::NotFound(s)) => length_ok(prefix@) && s@ == prefix@ && forall|j: int|
                0 <= j < names@.len() ==> !name_matches(prefix@, #[trigger] names@[j]@),
            Err(ObjectError::MultipleObjectsFound(s)) => length_ok(prefix@) && s@ == prefix@
                && exists|a: int, b: int|
                0 <= a < b < names@.len() && name_matches(prefix@, #[trigger] names@[a]@)
                    && name_matches(prefix@, #[trigger] names@[b]@),
            Err(_) => false,
        },
        length_ok(prefix@) && (forall|j: int|
            0 <= j < names@.len() ==> !name_matches(prefix@, #[trigger] names@[j]@)) ==> r matches Err(
            ObjectError::NotFound(_),
        ),
        (exists|a: int, b: int|
            0 <= a < b < names@.len() && name_matches(prefix@, #[trigger] names@[a]@)
                && name_matches(prefix@, #[trigger] names@[b]@)) ==> r matches Err(
            ObjectError::MultipleObjectsFound(_),
        ),
{
    let n = prefix.unicode_len();
    if n < 2 || n > 40 {
        return Err(ObjectError::InvalidHashLength(prefix.to_owned()));
    }
    if !check_hex(prefix) {
        return Err(ObjectError::NotFound(prefix.to_owned()));
    }
    let mut found: Option<usize> = None;
    let mut i: usize = 0;
    while i < names.len()
        invariant
            i <= names@.len(),
            length_ok(prefix@),
            all_hex(prefix@),
            match found {
                None => forall|j: int| 0 <= j < i ==> !name_matches(prefix@, #[trigger] names@[j]@),
                Some(f) => f < i && name_matches(prefix@, names@[f as int]@) && forall|j: int|
                    0 <= j < i && j != f ==> !name_matches(prefix@, #[trigger] names@[j]@),
            },
        decreases names@.len() - i,
    {
        if matches_name(prefix, names[i].as_str()) {
            match found {
                Some(f) => {
                    assert(name_matches(prefix@, names@[f as int]@));
                    assert(name_matches(prefix@, names@[i as int]@));
                    return Err(ObjectError::MultipleObjectsFound(prefix.to_owned()));
                },
                None => {
                    found = Some(i);
                },
            }
        }
        i = i + 1;
    }
    match found {
        Some(f) => Ok(f),
        None => Err(ObjectError::NotFound(prefix.to_owned())),
    }
}

} // verus!
