//! The tree object: a directory snapshot, and the payload that it is written
//! as.

use vstd::prelude::*;
use crate::bytes::{append_bytes, lemma_position_delimited, NUL, SPACE};
use crate::error::StoreError;
use crate::hexadecimal::hex_decode;
use crate::object::{tree_kind, tree_tag, GitObject};
use crate::tree::entry::{normal_mode, GitTreeLeaf, TreeEntry};
use crate::tree::order::{
    arranged, canonical_indices, canonical_order, is_ordered, lemma_canonical_order,
    lemma_canonical_order_keeps, lemma_canonical_order_unique, sort_keys_distinct,
};
use crate::tree::parse::{entries_of, parse_entries, parse_entry, tree_parse};

verus! {

/// The written forms of the entries, one after another in the order given.
pub open spec fn encode_entries(entries: Seq<TreeEntry>) -> Seq<u8>
    decreases entries.len(),
{
    if entries.len() == 0 {
        Seq::empty()
    } else {
        entries[0].encoded() + encode_entries(entries.drop_first())
    }
}

/// The payload of a tree: its entries written in canonical order.
pub open spec fn tree_payload(entries: Seq<TreeEntry>) -> Seq<u8> {
    encode_entries(canonical_order(entries))
}

/// Writing one more entry appends its written form.
pub proof fn lemma_encode_entries_push(entries: Seq<TreeEntry>, entry: TreeEntry)
    ensures
        encode_entries(entries.push(entry)) == encode_entries(entries) + entry.encoded(),
    decreases entries.len(),
{
    if entries.len() == 0 {
        assert(entries.push(entry).drop_first() =~= Seq::empty());
        assert(encode_entries(Seq::empty()) =~= Seq::empty());
        assert(encode_entries(entries) =~= Seq::empty());
        assert(entries.push(entry)[0] == entry);
        assert(encode_entries(entries.push(entry)) =~= encode_entries(entries) + entry.encoded());
    } else {
        lemma_encode_entries_push(entries.drop_first(), entry);
        assert(entries.push(entry).drop_first() =~= entries.drop_first().push(entry));
        assert(encode_entries(entries.push(entry)) =~= encode_entries(entries) + entry.encoded());
    }
}

/// A directory snapshot: the members of one directory. The order in which
/// the leaves are held does not matter to the payload.
#[derive(Debug, PartialEq, Eq)]
pub struct GitTree {
    /// The members.
    pub leaves: Vec<GitTreeLeaf>,
}

impl View for GitTree {
    type V = Seq<TreeEntry>;

    open spec fn view(&self) -> Seq<TreeEntry> {
        entries_of(self.leaves@)
    }
}

impl GitObject for GitTree {
    open spec fn kind(&self) -> Seq<u8> {
        tree_kind()
    }

    open spec fn well_formed(&self) -> bool {
        forall|i: int| 0 <= i < self.leaves@.len() ==> (#[trigger] self.leaves@[i]).well_formed()
    }

    open spec fn payload(&self) -> Seq<u8> {
        tree_payload(self@)
    }

    open spec fn decoded(data: Seq<u8>) -> Result<Seq<TreeEntry>, StoreError> {
        parse_entries(data)
    }

    fn fmt(&self) -> (tag: &[u8]) {
        tree_tag()
    }

    /// Writes the leaves in canonical order, each as its mode in six digits,
    /// a space, its path, a NUL and its raw digest.
    fn serialize(&self) -> (out: Vec<u8>) {
        let order = canonical_indices(&self.leaves);
        let ghost sorted = canonical_order(self@);
        let mut result: Vec<u8> = Vec::new();
        let mut j: usize = 0;
        assert(sorted.take(0) =~= Seq::empty());
        while j < order.len()
            invariant
                j <= order@.len(),
                order@.len() == self.leaves@.len(),
                self.well_formed(),
                forall|k: int| 0 <= k < order@.len() ==> (#[trigger] order@[k]) < self.leaves@.len(),
                sorted == arranged(self@, order@),
                result@ == encode_entries(sorted.take(j as int)),
            decreases order@.len() - j,
        {
            let leaf = &self.leaves[order[j]];
            let ghost before = result@;
            assert(leaf@ == sorted[j as int]);
            assert(leaf.well_formed());
            if leaf.mode.len() == 5 {
                result.push(0x30);
            }
            append_bytes(&mut result, leaf.mode.as_slice());
            result.push(SPACE);
            append_bytes(&mut result, leaf.path.as_str().as_bytes());
            result.push(NUL);
            let digest = hex_decode(leaf.sha_hash.as_str()).unwrap();
            append_bytes(&mut result, digest.as_slice());
            proof {
                assert(result@ =~= before + leaf@.encoded());
                lemma_encode_entries_push(sorted.take(j as int), sorted[j as int]);
                assert(sorted.take(j + 1) =~= sorted.take(j as int).push(sorted[j as int]));
            }
            j += 1;
        }
        assert(sorted.take(order@.len() as int) =~= sorted);
        result
    }

    fn deserialize(&mut self, data: &[u8]) -> (done: Result<(), StoreError>) {
        match tree_parse(data) {
            Ok(leaves) => {
                self.leaves = leaves;
                Ok(())
            },
            Err(e) => Err(e),
        }
    }
}

impl GitTree {
    /// Whether every leaf is well formed, so that the tree can be
    /// serialized.
    pub fn is_valid(&self) -> (valid: bool)
        ensures
            valid == self.well_formed(),
    {
        let mut i: usize = 0;
        while i < self.leaves.len()
            invariant
                i <= self.leaves@.len(),
                forall|k: int| 0 <= k < i ==> (#[trigger] self.leaves@[k]).well_formed(),
            decreases self.leaves@.len() - i,
        {
            if !self.leaves[i].is_valid() {
                return false;
            }
            i += 1;
        }
        true
    }
}

/// Every entry is well formed.
pub open spec fn all_well_formed(entries: Seq<TreeEntry>) -> bool {
    forall|i: int| 0 <= i < entries.len() ==> (#[trigger] entries[i]).well_formed()
}

/// The entries with each mode in six digits.
pub open spec fn normalize_all(entries: Seq<TreeEntry>) -> Seq<TreeEntry> {
    Seq::new(entries.len(), |i: int| entries[i].normalized())
}

/// No two entries have the same path.
pub open spec fn paths_distinct(entries: Seq<TreeEntry>) -> bool {
    forall|i: int, j: int| 0 <= i < j < entries.len() ==> entries[i].path != entries[j].path
}

/// Some regular file is named as some other entry that is not one, with the
/// separator behind it. Two such entries have different paths and yet the
/// same sort key.
pub open spec fn separator_clash(entries: Seq<TreeEntry>) -> bool {
    exists|i: int, j: int|
        0 <= i < entries.len() && 0 <= j < entries.len() && entries[i].is_regular_file()
            && !entries[j].is_regular_file() && #[trigger] entries[i].path
            == (#[trigger] entries[j].sort_key())
}

/// What is written for a well-formed entry parses as that entry with its
/// mode in six digits, and takes exactly the bytes that were written.
pub proof fn lemma_parse_encoded_entry(entry: TreeEntry, tail: Seq<u8>)
    requires
        entry.well_formed(),
    ensures
        parse_entry(entry.encoded() + tail) == Ok::<(TreeEntry, int), StoreError>(
            (entry.normalized(), entry.encoded().len() as int),
        ),
        (entry.encoded() + tail).skip(entry.encoded().len() as int) == tail,
{
    let mode = normal_mode(entry.mode);
    let name = entry.path_bytes();
    let s = entry.encoded() + tail;
    let rest = name + seq![NUL] + (entry.digest + tail);
    assert(mode.len() == 6);
    assert forall|i: int| 0 <= i < mode.len() implies mode[i] != SPACE by {
        if entry.mode.len() == 5 && i > 0 {
            assert(mode[i] == entry.mode[i - 1]);
        }
    }
    assert(!mode.contains(SPACE));
    assert(s =~= mode + seq![SPACE] + rest);
    lemma_position_delimited(mode, SPACE, rest);
    lemma_position_delimited(name, NUL, entry.digest + tail);
    vstd::utf8::encode_utf8_valid_utf8(entry.path);
    vstd::utf8::encode_utf8_decode_utf8(entry.path);
    assert(rest.subrange(name.len() as int + 1, name.len() as int + 21) =~= entry.digest);
    assert(crate::tree::entry::is_mode(mode)) by {
        assert forall|i: int| 0 <= i < mode.len() implies crate::tree::entry::is_octal_digit(
            #[trigger] mode[i],
        ) by {
            if entry.mode.len() == 5 && i > 0 {
                assert(mode[i] == entry.mode[i - 1]);
            }
        }
    }
    assert(normal_mode(mode) == mode);
    assert(s.skip(entry.encoded().len() as int) =~= tail);
}

/// What is written for well-formed entries parses as those entries, in the
/// order written, each with its mode in six digits.
pub proof fn lemma_parse_encoded_entries(entries: Seq<TreeEntry>)
    requires
        all_well_formed(entries),
    ensures
        parse_entries(encode_entries(entries)) == Ok::<Seq<TreeEntry>, StoreError>(
            normalize_all(entries),
        ),
    decreases entries.len(),
{
    if entries.len() == 0 {
        assert(normalize_all(entries) =~= Seq::empty());
    } else {
        let tail = encode_entries(entries.drop_first());
        assert(entries[0].well_formed());
        lemma_parse_encoded_entry(entries[0], tail);
        assert(all_well_formed(entries.drop_first())) by {
            assert forall|i: int| 0 <= i < entries.drop_first().len() implies (
            #[trigger] entries.drop_first()[i]).well_formed() by {
                assert(entries[i + 1].well_formed());
            }
        }
        lemma_parse_encoded_entries(entries.drop_first());
        assert(seq![entries[0].normalized()] + normalize_all(entries.drop_first())
            =~= normalize_all(entries));
    }
}

/// Parsing what a tree serializes to gives the tree's entries back: the same
/// entries as often as they were given, in canonical order, each with its
/// mode in six digits.
pub proof fn lemma_tree_round_trip(entries: Seq<TreeEntry>)
    requires
        all_well_formed(entries),
    ensures
        parse_entries(tree_payload(entries)) == Ok::<Seq<TreeEntry>, StoreError>(
            normalize_all(canonical_order(entries)),
        ),
        is_ordered(canonical_order(entries)),
        canonical_order(entries).to_multiset() == entries.to_multiset(),
{
    lemma_canonical_order(entries);
    lemma_canonical_order_keeps(entries, |e: TreeEntry| e.well_formed());
    lemma_parse_encoded_entries(canonical_order(entries));
}

/// Entries with distinct paths have distinct sort keys, unless a regular
/// file is named as another entry with the separator behind it.
pub proof fn lemma_distinct_paths_distinct_keys(entries: Seq<TreeEntry>)
    requires
        paths_distinct(entries),
        !separator_clash(entries),
    ensures
        sort_keys_distinct(entries),
{
    assert forall|i: int, j: int| 0 <= i < j < entries.len() implies entries[i].sort_key()
        != entries[j].sort_key() by {
        let a = entries[i];
        let b = entries[j];
        if a.sort_key() == b.sort_key() {
            if a.is_regular_file() && !b.is_regular_file() {
                assert(a.path == b.sort_key());
            } else if !a.is_regular_file() && b.is_regular_file() {
                assert(b.path == a.sort_key());
            } else if !a.is_regular_file() {
                assert(a.path =~= a.sort_key().drop_last());
                assert(b.path =~= b.sort_key().drop_last());
            }
        }
    }
}

/// The payload of a tree does not depend on the order in which its entries
/// are given: two arrangements of the same entries, all paths distinct and no
/// regular file named as another entry with the separator behind it,
/// serialize to the same bytes.
pub proof fn lemma_tree_payload_ignores_order(first: Seq<TreeEntry>, second: Seq<TreeEntry>)
    requires
        first.to_multiset() == second.to_multiset(),
        paths_distinct(first),
        !separator_clash(first),
    ensures
        canonical_order(first) == canonical_order(second),
        tree_payload(first) == tree_payload(second),
{
    lemma_distinct_paths_distinct_keys(first);
    lemma_canonical_order_unique(first, second);
}

} // verus!
