//! Tree payloads: the packed `<mode> <name>\0<20-byte id>` entry format, and
//! the rendering of objects as text.

use vstd::prelude::*;
use vstd::slice::slice_to_vec;
use vstd::utf8::{decode_utf8, valid_utf8};

use crate::errors::{LSTreeError, ObjectError};
use crate::primitives::{hex_chars, hex_encode, utf8_text};
use crate::scan::{find_byte, find_byte_from, lemma_find_byte, lemma_find_byte_at};
use crate::types::{bytes_equal, GitObject, ObjectType};

verus! {

/// The raw fields of one tree entry: mode, name and binary child identifier.
pub type RawEntry = (Seq<u8>, Seq<u8>, Seq<u8>);

/// A decoded entry as text: mode, name, hex child identifier, implied kind.
pub type EntryView = (Seq<char>, Seq<char>, Seq<char>, ObjectType);

/// The entries of a tree payload from offset `pos` on, in storage order, or
/// `None` where the payload ends mid-entry.
pub open spec fn tree_from(s: Seq<u8>, pos: int) -> Option<Seq<RawEntry>>
    decreases s.len() - pos,
{
    if pos < 0 || pos >= s.len() {
        Some(Seq::empty())
    } else {
        let sp = find_byte(s, pos, 32u8);
        let nul = find_byte(s, sp + 1, 0u8);
        if sp >= s.len() || nul >= s.len() || nul + 21 > s.len() {
            None
        } else {
            proof {
                lemma_find_byte(s, pos, 32u8);
                lemma_find_byte(s, sp + 1, 0u8);
            }
            match tree_from(s, nul + 21) {
                Some(rest) => Some(
                    seq![(s.subrange(pos, sp), s.subrange(sp + 1, nul), s.subrange(nul + 1, nul + 21))]
                        + rest,
                ),
                None => None,
            }
        }
    }
}

/// The mode that marks a subtree.
pub open spec fn subtree_mode() -> Seq<u8> {
    seq![52u8, 48u8, 48u8, 48u8, 48u8]
}

/// The kind an entry's mode implies: a subtree for `40000`, else a blob.
pub open spec fn entry_kind(mode: Seq<u8>) -> ObjectType {
    if mode == subtree_mode() {
        ObjectType::Tree
    } else {
        ObjectType::Blob
    }
}

/// Every mode and name is valid UTF-8.
pub open spec fn texts_valid(raws: Seq<RawEntry>) -> bool {
    forall|i: int| 0 <= i < raws.len() ==> valid_utf8((#[trigger] raws[i]).0) && valid_utf8(raws[i].1)
}

/// The text view of a raw entry.
pub open spec fn raw_view(r: RawEntry) -> EntryView {
    (decode_utf8(r.0), decode_utf8(r.1), hex_chars(r.2), entry_kind(r.0))
}

/// The decoded entries of a tree payload, or `None` where it is malformed.
pub open spec fn tree_view(c: Seq<u8>) -> Option<Seq<EntryView>> {
    match tree_from(c, 0) {
        Some(raws) => if texts_valid(raws) {
            Some(raws.map_values(|r: RawEntry| raw_view(r)))
        } else {
            None
        },
        None => None,
    }
}

/// One decoded tree entry.
#[derive(Debug, Clone)]
pub struct TreeEntry {
    pub mode: String,
    pub name: String,
    /// The child's identifier as 40 lowercase hex characters.
    pub child_id: String,
    /// `Tree` for mode `40000`, `Blob` otherwise.
    pub object_type: ObjectType,
}

impl View for TreeEntry {
    type V = EntryView;

    open spec fn view(&self) -> EntryView {
        (self.mode@, self.name@, self.child_id@, self.object_type)
    }
}

/// Decodes a tree payload into its entries, in storage order. An empty
/// payload is an empty tree.
pub fn decode_tree(c: &[u8]) -> (r: Result<Vec<TreeEntry>, ObjectError>)
    ensures
        match r {
            Ok(v) => tree_view(c@) == Some(v@.map_values(|e: TreeEntry| e@)),
            Err(e) => e == ObjectError::InvalidObject && tree_view(c@) is None,
        },
        c@.len() == 0 ==> (r matches Ok(v) && v@.len() == 0),
{
    let mut entries: Vec<TreeEntry> = Vec::new();
    let ghost mut done: Seq<RawEntry> = Seq::empty();
    let mut pos: usize = 0;
    assert(done + Seq::<RawEntry>::empty() =~= done);
    while pos < c.len()
        invariant
            pos <= c@.len(),
            tree_from(c@, 0) == (match tree_from(c@, pos as int) {
                Some(rest) => Some(done + rest),
                None => None::<Seq<RawEntry>>,
            }),
            entries@.len() == done.len(),
            texts_valid(done),
            forall|i: int| 0 <= i < done.len() ==> #[trigger] entries@[i]@ == raw_view(done[i]),
        decreases c@.len() - pos,
    {
        let sp = find_byte_from(c, pos, 32u8);
        proof {
            lemma_find_byte(c@, pos as int, 32u8);
        }
        if sp >= c.len() {
            return Err(ObjectError::InvalidObject);
        }
        let nul = find_byte_from(c, sp + 1, 0u8);
        proof {
            lemma_find_byte(c@, sp + 1, 0u8);
        }
        if nul >= c.len() || c.len() - (nul + 1) < 20 {
            return Err(ObjectError::InvalidObject);
        }
        let ghost raw: RawEntry = (
            c@.subrange(pos as int, sp as int),
            c@.subrange(sp + 1, nul as int),
            c@.subrange(nul + 1, nul + 21),
        );
        let ghost rest = tree_from(c@, nul + 21);
        assert(tree_from(c@, pos as int) == match rest {
            Some(t) => Some(seq![raw] + t),
            None => None::<Seq<RawEntry>>,
        });
        let ghost at = done.len() as int;
        assert(forall|t: Seq<RawEntry>| #[trigger] (done + (seq![raw] + t))[at] == raw);
        let mode_bytes = slice_to_vec(&c[pos..sp]);
        let is_subtree = bytes_equal(mode_bytes.as_slice(), &[52u8, 48u8, 48u8, 48u8, 48u8]);
        let mode = match utf8_text(mode_bytes) {
            Some(m) => m,
            None => {
                proof {
                    if let Some(t) = rest {
                        assert(!valid_utf8((done + (seq![raw] + t))[at].0));
                    }
                }
                return Err(ObjectError::InvalidObject);
            },
        };
        let name = match utf8_text(slice_to_vec(&c[sp + 1..nul])) {
            Some(n) => n,
            None => {
                proof {
                    if let Some(t) = rest {
                        assert(!valid_utf8((done + (seq![raw] + t))[at].1));
                    }
                }
                return Err(ObjectError::InvalidObject);
            },
        };
        let child_id = hex_encode(&c[nul + 1..nul + 21]);
        let object_type = if is_subtree {
            ObjectType::Tree
        } else {
            ObjectType::Blob
        };
        entries.push(TreeEntry { mode, name, child_id, object_type });
        proof {
            if let Some(t) = rest {
                assert(done + (seq![raw] + t) =~= done.push(raw) + t);
            }
            done = done.push(raw);
        }
        pos = nul + 21;
    }
    assert(tree_from(c@, pos as int) == Some(Seq::<RawEntry>::empty()));
    assert(done + Seq::<RawEntry>::empty() =~= done);
    assert(entries@.map_values(|e: TreeEntry| e@) =~= done.map_values(|r: RawEntry| raw_view(r)));
    Ok(entries)
}


/// A payload that ends right after an entry's NUL, with fewer than 20 bytes
/// left for the child identifier, is malformed.
pub proof fn lemma_truncated_tree(mode: Seq<u8>, name: Seq<u8>, tail: Seq<u8>)
    requires
        forall|i: int| 0 <= i < mode.len() ==> mode[i] != 32u8,
        forall|i: int| 0 <= i < name.len() ==> name[i] != 0u8,
        tail.len() < 20,
    ensures
        tree_view(mode + seq![32u8] + name + seq![0u8] + tail) is None,
{
    let s = mode + seq![32u8] + name + seq![0u8] + tail;
    let sp = mode.len() as int;
    let nul = sp + 1 + name.len();
    assert forall|i: int| 0 <= i < sp implies s[i] != 32u8 by {
        assert(s[i] == mode[i]);
    }
    lemma_find_byte_at(s, 0, sp, 32u8);
    assert forall|i: int| sp + 1 <= i < nul implies s[i] != 0u8 by {
        assert(s[i] == name[i - sp - 1]);
    }
    lemma_find_byte_at(s, sp + 1, nul, 0u8);
}

/// A mode left-aligned in a field six characters wide.
pub open spec fn pad_mode(m: Seq<char>) -> Seq<char> {
    if m.len() >= 6 {
        m
    } else {
        m + Seq::new((6 - m.len()) as nat, |i: int| ' ')
    }
}

/// The word that names an entry's implied kind in a listing.
pub open spec fn kind_word(k: ObjectType) -> Seq<char> {
    if k == ObjectType::Tree {
        seq!['t', 'r', 'e', 'e']
    } else {
        seq!['b', 'l', 'o', 'b']
    }
}

/// One line of a listing: `<mode> <tree|blob> <child id> <name>`, or the
/// name alone.
pub open spec fn entry_line(e: EntryView, name_only: bool) -> Seq<char> {
    if name_only {
        e.1 + seq!['\n']
    } else {
        pad_mode(e.0) + seq![' '] + kind_word(e.3) + seq![' '] + e.2 + seq![' '] + e.1 + seq!['\n']
    }
}

/// The lines of all entries, in order.
pub open spec fn listing(es: Seq<EntryView>, name_only: bool) -> Seq<char>
    decreases es.len(),
{
    if es.len() == 0 {
        Seq::empty()
    } else {
        listing(es.drop_last(), name_only) + entry_line(es.last(), name_only)
    }
}

/// Renders decoded entries one line each.
pub fn render_entries(entries: &Vec<TreeEntry>, name_only: bool) -> (r: String)
    ensures
        r@ == listing(entries@.map_values(|e: TreeEntry| e@), name_only),
{
    let ghost views = entries@.map_values(|e: TreeEntry| e@);
    let mut out = String::new();
    let mut i: usize = 0;
    while i < entries.len()
        invariant
            i <= entries@.len(),
            views == entries@.map_values(|e: TreeEntry| e@),
            out@ == listing(views.subrange(0, i as int), name_only),
        decreases entries@.len() - i,
    {
        proof {
            reveal_strlit(" ");
            reveal_strlit("\n");
            reveal_strlit("tree");
            reveal_strlit("blob");
        }
        let e = &entries[i];
        let ghost before = out@;
        if !name_only {
            out.append(e.mode.as_str());
            let mut w: usize = e.mode.as_str().unicode_len();
            let ghost padded_from = out@;
            while w < 6
                invariant
                    e.mode@.len() <= w <= 6 || (e.mode@.len() == w && w > 6),
                    out@ == padded_from + Seq::new((w - e.mode@.len()) as nat, |k: int| ' '),
                decreases 6 - w,
            {
                proof {
                    reveal_strlit(" ");
                }
                out.append(" ");
                w = w + 1;
                assert(out@ =~= padded_from + Seq::new((w - e.mode@.len()) as nat, |k: int| ' '));
            }
            assert(out@ =~= before + pad_mode(e.mode@));
            out.append(" ");
            if e.object_type == ObjectType::Tree {
                out.append("tree");
            } else {
                out.append("blob");
            }
            out.append(" ");
            out.append(e.child_id.as_str());
            out.append(" ");
        }
        out.append(e.name.as_str());
        out.append("\n");
        assert(out@ =~= before + entry_line(views[i as int], name_only));
        assert(views.subrange(0, i + 1).drop_last() =~= views.subrange(0, i as int));
        i = i + 1;
    }
    assert(views.subrange(0, i as int) =~= views);
    out
}

impl GitObject {
    /// The object as text: a blob's payload, or a tree's entries one line
    /// each. Other kinds are not rendered.
    pub fn pretty_print(&self) -> (r: Result<String, ObjectError>)
        ensures
            match self.object_type {
                ObjectType::Blob => match r {
                    Ok(s) => valid_utf8(self.object_content@) && s@ == decode_utf8(
                        self.object_content@,
                    ),
                    Err(e) => e == ObjectError::InvalidObject && !valid_utf8(self.object_content@),
                },
                ObjectType::Tree => match tree_view(self.object_content@) {
                    Some(es) => r matches Ok(s) && s@ == listing(es, false),
                    None => r == Err::<String, ObjectError>(ObjectError::InvalidObject),
                },
                _ => r == Err::<String, ObjectError>(ObjectError::Unsupported),
            },
    {
        match self.object_type {
            ObjectType::Blob => match utf8_text(self.object_content.clone()) {
                Some(s) => Ok(s),
                None => Err(ObjectError::InvalidObject),
            },
            ObjectType::Tree => {
                let entries = decode_tree(self.object_content.as_slice())?;
                Ok(render_entries(&entries, false))
            },
            _ => Err(ObjectError::Unsupported),
        }
    }
}

/// Shows an object as `pretty_print` does: a tree's entries one line
/// each (or, with `name_only`, their names alone), a blob's text. A
/// malformed tree, a blob that is not UTF-8 text, and the kinds that are not
/// rendered are all `InvalidObject`.
pub fn ls_tree(object: &GitObject, name_only: bool) -> (r: Result<String, LSTreeError>)
    ensures
        match object.object_type {
            ObjectType::Tree => match tree_view(object.object_content@) {
                Some(es) => r matches Ok(s) && s@ == listing(es, name_only),
                None => r == Err::<String, LSTreeError>(LSTreeError::InvalidObject),
            },
            ObjectType::Blob => if valid_utf8(object.object_content@) {
                r matches Ok(s) && s@ == decode_utf8(object.object_content@)
            } else {
                r == Err::<String, LSTreeError>(LSTreeError::InvalidObject)
            },
            _ => r == Err::<String, LSTreeError>(LSTreeError::InvalidObject),
        },
{
    if name_only && object.object_type == ObjectType::Tree {
        return match decode_tree(object.object_content.as_slice()) {
            Ok(entries) => Ok(render_entries(&entries, true)),
            Err(_) => Err(LSTreeError::InvalidObject),
        };
    }
    match object.pretty_print() {
        Ok(s) => Ok(s),
        Err(_) => Err(LSTreeError::InvalidObject),
    }
}

} // verus!
