//! The canonical order of a tree's entries: by sort key, entries with equal
//! keys staying in the order in which they were given.

use vstd::prelude::*;
use vstd::multiset::Multiset;
use crate::bytes::{bytes_le, lemma_lex_antisymmetric, lemma_lex_total, lemma_lex_transitive};
use crate::tree::entry::{entry_le, tree_leaf_sort_key, GitTreeLeaf, TreeEntry};
use crate::tree::parse::entries_of;

verus! {

/// `entry` put into `sorted` behind the last member that may stand before it.
pub open spec fn insert_entry(sorted: Seq<TreeEntry>, entry: TreeEntry) -> Seq<TreeEntry>
    decreases sorted.len(),
{
    if sorted.len() == 0 {
        seq![entry]
    } else if entry_le(sorted.last(), entry) {
        sorted.push(entry)
    } else {
        insert_entry(sorted.drop_last(), entry).push(sorted.last())
    }
}

/// The entries in canonical order: each one inserted, in the order given,
/// among those before it, so that entries with equal keys stay in the order
/// in which they were given. The result is ordered by sort key and holds the
/// same entries as often as they were given (`lemma_canonical_order`).
pub open spec fn canonical_order(entries: Seq<TreeEntry>) -> Seq<TreeEntry>
    decreases entries.len(),
{
    if entries.len() == 0 {
        Seq::empty()
    } else {
        insert_entry(canonical_order(entries.drop_last()), entries.last())
    }
}

/// Every entry may stand before each one that follows it.
pub open spec fn is_ordered(entries: Seq<TreeEntry>) -> bool {
    forall|i: int, j: int| 0 <= i < j < entries.len() ==> entry_le(entries[i], entries[j])
}

/// No two entries have the same sort key.
pub open spec fn sort_keys_distinct(entries: Seq<TreeEntry>) -> bool {
    forall|i: int, j: int|
        0 <= i < j < entries.len() ==> entries[i].sort_key() != entries[j].sort_key()
}

/// The entries picked from `entries` by the indices in `order`.
pub open spec fn arranged(entries: Seq<TreeEntry>, order: Seq<usize>) -> Seq<TreeEntry> {
    Seq::new(order.len(), |j: int| entries[order[j] as int])
}

/// Inserting puts the entry at the index behind which nothing may stand
/// before it and at which the member in front may.
pub proof fn lemma_insert_at(sorted: Seq<TreeEntry>, entry: TreeEntry, at: int)
    requires
        0 <= at <= sorted.len(),
        at > 0 ==> entry_le(sorted[at - 1], entry),
        forall|k: int| at <= k < sorted.len() ==> !entry_le(sorted[k], entry),
    ensures
        insert_entry(sorted, entry) == sorted.insert(at, entry),
    decreases sorted.len(),
{
    if sorted.len() == 0 {
        assert(seq![entry] =~= sorted.insert(at, entry));
    } else if at == sorted.len() {
        assert(sorted.push(entry) =~= sorted.insert(at, entry));
    } else {
        assert(!entry_le(sorted[sorted.len() - 1], entry));
        lemma_insert_at(sorted.drop_last(), entry, at);
        assert(sorted.drop_last().insert(at, entry).push(sorted.last()) =~= sorted.insert(
            at,
            entry,
        ));
    }
}

/// Inserting into an ordered sequence keeps it ordered and adds the entry
/// once.
pub proof fn lemma_insert_entry(sorted: Seq<TreeEntry>, entry: TreeEntry)
    requires
        is_ordered(sorted),
    ensures
        is_ordered(insert_entry(sorted, entry)),
        insert_entry(sorted, entry).len() == sorted.len() + 1,
        insert_entry(sorted, entry).to_multiset() == sorted.to_multiset().insert(entry),
    decreases sorted.len(),
{
    broadcast use vstd::seq_lib::to_multiset_build;

    let out = insert_entry(sorted, entry);
    if sorted.len() == 0 {
        assert(out =~= sorted.push(entry));
    } else if entry_le(sorted.last(), entry) {
        assert forall|i: int, j: int| 0 <= i < j < out.len() implies entry_le(out[i], out[j]) by {
            if j == sorted.len() && i < sorted.len() - 1 {
                assert(entry_le(sorted[i], sorted[sorted.len() - 1]));
                lemma_lex_transitive(
                    sorted[i].sort_key_bytes(),
                    sorted.last().sort_key_bytes(),
                    entry.sort_key_bytes(),
                );
            }
        }
    } else {
        let front = sorted.drop_last();
        let inner = insert_entry(front, entry);
        assert forall|i: int, j: int| 0 <= i < j < front.len() implies entry_le(
            front[i],
            front[j],
        ) by {
            assert(entry_le(sorted[i], sorted[j]));
        }
        lemma_insert_entry(front, entry);
        lemma_lex_total(sorted.last().sort_key_bytes(), entry.sort_key_bytes());
        assert forall|i: int| 0 <= i < inner.len() implies entry_le(inner[i], sorted.last()) by {
            assert(inner.to_multiset().count(inner[i]) > 0) by {
                broadcast use vstd::seq_lib::to_multiset_contains;

                assert(inner.contains(inner[i]));
            }
            if inner[i] != entry {
                broadcast use vstd::seq_lib::to_multiset_contains;
                broadcast use vstd::multiset::group_multiset_axioms;

                assert(front.to_multiset().count(inner[i]) > 0);
                assert(front.contains(inner[i]));
                let k = choose|k: int| 0 <= k < front.len() && front[k] == inner[i];
                assert(entry_le(sorted[k], sorted[sorted.len() - 1]));
            }
        }
        assert forall|i: int, j: int| 0 <= i < j < out.len() implies entry_le(out[i], out[j]) by {
            if j < inner.len() {
                assert(entry_le(inner[i], inner[j]));
            }
        }
        assert(sorted =~= front.push(sorted.last()));
        assert(out.to_multiset() =~= sorted.to_multiset().insert(entry)) by {
            broadcast use vstd::multiset::group_multiset_axioms;

        }
    }
}

/// The canonical order is ordered by sort key and is a rearrangement of the
/// entries given: each occurs as often as before.
pub proof fn lemma_canonical_order(entries: Seq<TreeEntry>)
    ensures
        is_ordered(canonical_order(entries)),
        canonical_order(entries).len() == entries.len(),
        canonical_order(entries).to_multiset() == entries.to_multiset(),
    decreases entries.len(),
{
    broadcast use vstd::seq_lib::to_multiset_build;

    if entries.len() == 0 {
        assert(entries =~= Seq::empty());
    } else {
        lemma_canonical_order(entries.drop_last());
        lemma_insert_entry(canonical_order(entries.drop_last()), entries.last());
        assert(entries =~= entries.drop_last().push(entries.last()));
    }
}

/// Whatever holds of every entry given holds of every entry in canonical
/// order.
pub proof fn lemma_canonical_order_keeps(entries: Seq<TreeEntry>, holds: spec_fn(TreeEntry) -> bool)
    requires
        forall|i: int| 0 <= i < entries.len() ==> holds(#[trigger] entries[i]),
    ensures
        forall|i: int|
            0 <= i < canonical_order(entries).len() ==> holds(#[trigger] canonical_order(entries)[i]),
{
    broadcast use vstd::seq_lib::to_multiset_contains;

    lemma_canonical_order(entries);
    let sorted = canonical_order(entries);
    assert forall|i: int| 0 <= i < sorted.len() implies holds(#[trigger] sorted[i]) by {
        assert(sorted.contains(sorted[i]));
        assert(sorted.to_multiset().count(sorted[i]) > 0);
        assert(entries.contains(sorted[i]));
        let k = choose|k: int| 0 <= k < entries.len() && entries[k] == sorted[i];
        assert(holds(entries[k]));
    }
}

/// Two ordered sequences that hold the same entries, none of them sharing a
/// sort key with another, are the same sequence.
pub proof fn lemma_ordered_unique(x: Seq<TreeEntry>, y: Seq<TreeEntry>)
    requires
        is_ordered(x),
        is_ordered(y),
        x.to_multiset() == y.to_multiset(),
        forall|a: TreeEntry, b: TreeEntry|
            x.contains(a) && x.contains(b) && a.sort_key() == b.sort_key() ==> a == b,
    ensures
        x == y,
    decreases x.len(),
{
    broadcast use vstd::multiset::group_multiset_axioms;
    broadcast use vstd::seq_lib::group_to_multiset_ensures;

    vstd::seq_lib::to_multiset_len(x);
    vstd::seq_lib::to_multiset_len(y);
    if x.len() == 0 {
        assert(x =~= y);
    } else {
        assert(x.contains(x[0]));
        assert(y.contains(y[0]));
        assert(x.to_multiset().count(y[0]) > 0);
        assert(y.to_multiset().count(x[0]) > 0);
        let i = choose|i: int| 0 <= i < x.len() && x[i] == y[0];
        let j = choose|j: int| 0 <= j < y.len() && y[j] == x[0];
        lemma_lex_total(x[0].sort_key_bytes(), x[0].sort_key_bytes());
        lemma_lex_total(y[0].sort_key_bytes(), y[0].sort_key_bytes());
        assert(entry_le(x[0], x[i]));
        assert(entry_le(y[0], y[j]));
        lemma_lex_antisymmetric(x[0].sort_key_bytes(), y[0].sort_key_bytes());
        vstd::utf8::encode_utf8_decode_utf8(x[0].sort_key());
        vstd::utf8::encode_utf8_decode_utf8(y[0].sort_key());
        assert(x[0] == y[0]);
        let xs = x.drop_first();
        let ys = y.drop_first();
        assert(xs.to_multiset() =~= x.to_multiset().remove(x[0])) by {
            assert(xs =~= x.remove(0));
        }
        assert(ys.to_multiset() =~= y.to_multiset().remove(y[0])) by {
            assert(ys =~= y.remove(0));
        }
        assert forall|i: int, j: int| 0 <= i < j < xs.len() implies entry_le(xs[i], xs[j]) by {
            assert(entry_le(x[i + 1], x[j + 1]));
        }
        assert forall|i: int, j: int| 0 <= i < j < ys.len() implies entry_le(ys[i], ys[j]) by {
            assert(entry_le(y[i + 1], y[j + 1]));
        }
        assert forall|a: TreeEntry, b: TreeEntry|
            xs.contains(a) && xs.contains(b) && a.sort_key() == b.sort_key() implies a == b by {
            let p = choose|p: int| 0 <= p < xs.len() && xs[p] == a;
            let q = choose|q: int| 0 <= q < xs.len() && xs[q] == b;
            assert(x[p + 1] == a && x[q + 1] == b);
        }
        lemma_ordered_unique(xs, ys);
        assert(x =~= seq![x[0]] + xs);
        assert(y =~= seq![y[0]] + ys);
    }
}

/// Entries whose sort keys are distinct have one canonical order, however
/// they are arranged when given.
pub proof fn lemma_canonical_order_unique(a: Seq<TreeEntry>, b: Seq<TreeEntry>)
    requires
        a.to_multiset() == b.to_multiset(),
        sort_keys_distinct(a),
    ensures
        canonical_order(a) == canonical_order(b),
{
    broadcast use vstd::seq_lib::to_multiset_contains;

    lemma_canonical_order(a);
    lemma_canonical_order(b);
    let x = canonical_order(a);
    assert forall|p: TreeEntry, q: TreeEntry|
        x.contains(p) && x.contains(q) && p.sort_key() == q.sort_key() implies p == q by {
        assert(x.to_multiset().count(p) > 0);
        assert(x.to_multiset().count(q) > 0);
        assert(a.contains(p) && a.contains(q));
        let i = choose|i: int| 0 <= i < a.len() && a[i] == p;
        let j = choose|j: int| 0 <= j < a.len() && a[j] == q;
        if i < j {
            assert(a[i].sort_key() != a[j].sort_key());
        } else if j < i {
            assert(a[j].sort_key() != a[i].sort_key());
        }
    }
    lemma_ordered_unique(x, canonical_order(b));
}

/// Whether the key `a` is at or before the key `b`.
fn key_le(a: &String, b: &String) -> (le: bool)
    ensures
        le == crate::bytes::lex_le(vstd::utf8::encode_utf8(a@), vstd::utf8::encode_utf8(b@)),
{
    bytes_le(a.as_str().as_bytes(), b.as_str().as_bytes())
}

/// The indices of `leaves` in canonical order: the leaf to be written first
/// is `leaves[order[0]]`, and so on. Every index occurs once.
pub fn canonical_indices(leaves: &Vec<GitTreeLeaf>) -> (order: Vec<usize>)
    ensures
        order@.len() == leaves@.len(),
        forall|j: int| 0 <= j < order@.len() ==> (#[trigger] order@[j]) < leaves@.len(),
        arranged(entries_of(leaves@), order@) == canonical_order(entries_of(leaves@)),
{
    let ghost entries = entries_of(leaves@);
    let mut keys: Vec<String> = Vec::new();
    let mut i: usize = 0;
    while i < leaves.len()
        invariant
            i <= leaves@.len(),
            keys@.len() == i,
            entries == entries_of(leaves@),
            forall|k: int| 0 <= k < i ==> (#[trigger] keys@[k])@ == entries[k].sort_key(),
        decreases leaves@.len() - i,
    {
        keys.push(tree_leaf_sort_key(&leaves[i]));
        i += 1;
    }
    let mut order: Vec<usize> = Vec::new();
    let mut i: usize = 0;
    assert(entries.take(0) =~= Seq::empty());
    assert(arranged(entries, order@) =~= canonical_order(entries.take(0)));
    while i < leaves.len()
        invariant
            i <= leaves@.len(),
            keys@.len() == leaves@.len(),
            entries == entries_of(leaves@),
            forall|k: int| 0 <= k < keys@.len() ==> (#[trigger] keys@[k])@ == entries[k].sort_key(),
            order@.len() == i,
            forall|j: int| 0 <= j < order@.len() ==> (#[trigger] order@[j]) < i,
            arranged(entries, order@) == canonical_order(entries.take(i as int)),
        decreases leaves@.len() - i,
    {
        let ghost sorted = arranged(entries, order@);
        let mut at: usize = order.len();
        while at > 0 && !key_le(&keys[order[at - 1]], &keys[i])
            invariant
                at <= order@.len(),
                i < leaves@.len(),
                keys@.len() == leaves@.len(),
                entries == entries_of(leaves@),
                forall|k: int|
                    0 <= k < keys@.len() ==> (#[trigger] keys@[k])@ == entries[k].sort_key(),
                forall|j: int| 0 <= j < order@.len() ==> (#[trigger] order@[j]) < i,
                sorted == arranged(entries, order@),
                forall|k: int| at <= k < sorted.len() ==> !entry_le(sorted[k], entries[i as int]),
            decreases at,
        {
            at -= 1;
        }
        proof {
            lemma_insert_at(sorted, entries[i as int], at as int);
            assert(entries.take(i + 1).drop_last() =~= entries.take(i as int));
        }
        order.insert(at, i);
        assert(arranged(entries, order@) =~= sorted.insert(at as int, entries[i as int]));
        i += 1;
    }
    assert(entries.take(leaves@.len() as int) =~= entries);
    order
}

} // verus!
