//! The order in which the entries of a directory are listed: directories
//! first, then by name.

use crate::text::{
    lemma_text_before_chain, lemma_text_before_decides, lemma_text_before_one_way, text_before,
    text_less,
};
use vstd::multiset::Multiset;
use vstd::prelude::*;

verus! {

/// An entry of a directory as the contracts see it: whether it is a
/// directory itself, and its name.
pub type Entry = (bool, Seq<char>);

/// The entries that a vector of entries stands for.
pub open spec fn entries_of(entries: Seq<(bool, String)>) -> Seq<Entry> {
    entries.map_values(|e: (bool, String)| (e.0, e.1@))
}

/// The order of entries: a directory comes before a file; two of a kind
/// go by name.
pub open spec fn entry_before(a: Entry, b: Entry) -> bool {
    if a.0 != b.0 {
        a.0
    } else {
        text_before(a.1, b.1)
    }
}

/// No entry comes before one that stands earlier.
pub open spec fn in_order(entries: Seq<Entry>) -> bool {
    forall|i: int, j: int|
        0 <= i < j < entries.len() ==> !entry_before(#[trigger] entries[j], #[trigger] entries[i])
}

/// Of two entries, at most one comes before the other.
pub proof fn lemma_entry_before_one_way(a: Entry, b: Entry)
    requires
        entry_before(a, b),
    ensures
        !entry_before(b, a),
{
    if a.0 == b.0 {
        lemma_text_before_one_way(a.1, b.1);
    }
}

/// The order of entries carries over an entry in between.
pub proof fn lemma_entry_before_chain(a: Entry, b: Entry, c: Entry)
    requires
        entry_before(a, b),
        entry_before(b, c),
    ensures
        entry_before(a, c),
{
    if a.0 == b.0 && b.0 == c.0 {
        lemma_text_before_chain(a.1, b.1, c.1);
    }
}

/// Of two entries that differ, one comes before the other.
pub proof fn lemma_entry_before_decides(a: Entry, b: Entry)
    ensures
        a == b || entry_before(a, b) || entry_before(b, a),
{
    lemma_text_before_decides(a.1, b.1);
}

/// The order of entries as a relation: `a` stands at or before `b`.
pub open spec fn entry_leq() -> spec_fn(Entry, Entry) -> bool {
    |a: Entry, b: Entry| !entry_before(b, a)
}

/// The order of entries is a total order.
pub proof fn lemma_entry_order_total()
    ensures
        vstd::relations::total_ordering(entry_leq()),
{
    let leq = entry_leq();
    assert forall|a: Entry| #[trigger] leq(a, a) by {
        if entry_before(a, a) {
            lemma_entry_before_one_way(a, a);
        }
    }
    assert forall|a: Entry, b: Entry| #[trigger] leq(a, b) && #[trigger] leq(b, a) implies a
        == b by {
        lemma_entry_before_decides(a, b);
    }
    assert forall|a: Entry, b: Entry, c: Entry| #[trigger]
        leq(a, b) && #[trigger] leq(b, c) implies leq(a, c) by {
        if entry_before(c, a) {
            lemma_entry_before_decides(b, a);
            lemma_entry_before_decides(c, b);
            if a == b || b == c {
            } else {
                lemma_entry_before_chain(a, b, c);
                lemma_entry_before_one_way(c, a);
            }
        }
    }
    assert forall|a: Entry, b: Entry| #[trigger] leq(a, b) || #[trigger] leq(b, a) by {
        if entry_before(b, a) {
            lemma_entry_before_one_way(b, a);
        }
    }
}

/// The entries in the order of the listing: directories first, then by name.
pub open spec fn sorted_entries(entries: Seq<Entry>) -> Seq<Entry> {
    entries.sort_by(entry_leq())
}

/// The entries in the order of the listing are in order, and they are the
/// same entries, each as often as before.
pub proof fn lemma_sorted_entries(entries: Seq<Entry>)
    ensures
        in_order(sorted_entries(entries)),
        sorted_entries(entries).to_multiset() == entries.to_multiset(),
{
    lemma_entry_order_total();
    entries.lemma_sort_by_ensures(entry_leq());
    let out = sorted_entries(entries);
    assert forall|i: int, j: int| 0 <= i < j < out.len() implies !entry_before(
        #[trigger] out[j],
        #[trigger] out[i],
    ) by {
        assert(entry_leq()(out[i], out[j]));
    }
}

/// Tells whether the entry `a` comes before the entry `b`.
pub fn entry_less(a: &(bool, String), b: &(bool, String)) -> (r: bool)
    ensures
        r == entry_before((a.0, a.1@), (b.0, b.1@)),
{
    if a.0 != b.0 {
        a.0
    } else {
        text_less(a.1.as_str(), b.1.as_str())
    }
}

/// A sequence with one more item has that item once more.
pub proof fn lemma_insert_counts<T>(s: Seq<T>, i: int, x: T)
    requires
        0 <= i <= s.len(),
    ensures
        s.insert(i, x).to_multiset() == s.to_multiset().insert(x),
{
    let t = s.insert(i, x);
    assert(t.remove(i) =~= s);
    vstd::seq_lib::to_multiset_remove(t, i);
    t.to_multiset_ensures();
    assert(t.contains(x)) by {
        assert(t[i] == x);
    }
    assert(t.to_multiset() =~= s.to_multiset().insert(x));
}

/// Puts the entries in the order of the listing: directories first, then
/// by name.
pub fn sort_entries(entries: Vec<(bool, String)>) -> (out: Vec<(bool, String)>)
    ensures
        entries_of(out@) == sorted_entries(entries_of(entries@)),
{
    let ghost all = entries_of(entries@);
    let mut rest = entries;
    let mut out: Vec<(bool, String)> = Vec::new();
    assert(entries_of(out@) =~= Seq::<Entry>::empty());
    assert(entries_of(out@).to_multiset().add(all.to_multiset()) =~= all.to_multiset()) by {
        entries_of(out@).to_multiset_ensures();
        assert(entries_of(out@).to_multiset().len() == 0);
    }
    while rest.len() > 0
        invariant
            in_order(entries_of(out@)),
            entries_of(out@).to_multiset().add(entries_of(rest@).to_multiset())
                == all.to_multiset(),
        decreases rest@.len(),
    {
        let ghost rest_before = entries_of(rest@);
        let ghost out_before = entries_of(out@);
        let x = rest.pop().unwrap();
        let ghost xv: Entry = (x.0, x.1@);
        proof {
            assert(rest_before =~= entries_of(rest@).push(xv));
            vstd::seq_lib::to_multiset_build(entries_of(rest@), xv);
        }
        let mut p: usize = 0;
        while p < out.len() && !entry_less(&x, &out[p])
            invariant
                p <= out@.len(),
                xv == (x.0, x.1@),
                out_before == entries_of(out@),
                forall|i: int| 0 <= i < p ==> !entry_before(xv, #[trigger] out_before[i]),
            decreases out@.len() - p,
        {
            assert(out_before[p as int] == (out@[p as int].0, out@[p as int].1@));
            p += 1;
        }
        proof {
            if p < out@.len() {
                assert(out_before[p as int] == (out@[p as int].0, out@[p as int].1@));
            }
        }
        out.insert(p, x);
        proof {
            let now = entries_of(out@);
            assert(now =~= out_before.insert(p as int, xv));
            lemma_insert_counts(out_before, p as int, xv);
            assert forall|i: int, j: int| 0 <= i < j < now.len() implies !entry_before(
                #[trigger] now[j],
                #[trigger] now[i],
            ) by {
                if j < p {
                    assert(now[i] == out_before[i] && now[j] == out_before[j]);
                } else if j == p {
                    assert(now[i] == out_before[i]);
                } else if i < p {
                    assert(now[i] == out_before[i] && now[j] == out_before[j - 1]);
                } else if i == p {
                    let first = out_before[p as int];
                    let other = out_before[j - 1];
                    if entry_before(other, xv) {
                        lemma_entry_before_chain(other, xv, first);
                        lemma_entry_before_one_way(xv, first);
                    }
                } else {
                    assert(now[i] == out_before[i - 1] && now[j] == out_before[j - 1]);
                }
            }
            assert(now.to_multiset().add(entries_of(rest@).to_multiset()) =~= all.to_multiset());
        }
    }
    proof {
        entries_of(rest@).to_multiset_ensures();
        assert(entries_of(rest@).to_multiset() =~= Multiset::<Entry>::empty()) by {
            assert(entries_of(rest@).to_multiset().len() == 0);
        }
        assert(entries_of(out@).to_multiset() =~= all.to_multiset());
        lemma_entry_order_total();
        lemma_sorted_entries(all);
        assert(vstd::relations::sorted_by(entries_of(out@), entry_leq())) by {
            let now = entries_of(out@);
            assert forall|i: int, j: int| 0 <= i < j < now.len() implies #[trigger] entry_leq()(
                now[i],
                now[j],
            ) by {
                assert(!entry_before(now[j], now[i]));
            }
        }
        all.lemma_sort_by_ensures(entry_leq());
        vstd::seq_lib::lemma_sorted_unique(entries_of(out@), sorted_entries(all), entry_leq());
    }
    out
}

} // verus!
