use crate::model::{Entry, EntryView};
use vstd::multiset::Multiset;
use vstd::prelude::*;

verus! {

/// Entries in non-increasing publication order: the most recent first.
pub open spec fn sorted_desc(s: Seq<EntryView>) -> bool {
    forall|i: int, j: int|
        0 <= i <= j < s.len() ==> (#[trigger] s[i]).published.secs
            >= (#[trigger] s[j]).published.secs
}

/// Sorts the aggregated entries by publication instant, most recent first,
/// keeping exactly the given entries (equal instants in any order).
pub fn sort_entries(entries: Vec<Entry>) -> (r: Vec<Entry>)
    ensures
        sorted_desc(r.deep_view()),
        r.deep_view().to_multiset() == entries.deep_view().to_multiset(),
        r.deep_view().len() == entries.deep_view().len(),
{
    broadcast use {
        vstd::seq_lib::group_to_multiset_ensures,
        vstd::multiset::group_multiset_axioms,
    };

    let mut rest = entries;
    let mut out: Vec<Entry> = Vec::new();
    proof {
        assert(out.deep_view() =~= Seq::<EntryView>::empty());
        assert(out.deep_view().to_multiset().add(rest.deep_view().to_multiset())
            =~= rest.deep_view().to_multiset());
    }
    let ghost whole = rest.deep_view().to_multiset();
    while rest.len() > 0
        invariant
            sorted_desc(out.deep_view()),
            out.deep_view().to_multiset().add(rest.deep_view().to_multiset()) == whole,
        decreases rest.len(),
    {
        let ghost rest_prev = rest.deep_view();
        let e = rest.remove(0);
        let ghost edv = e.deep_view();
        proof {
            assert(rest.deep_view() =~= rest_prev.remove(0));
            vstd::seq_lib::to_multiset_remove(rest_prev, 0);
            assert(edv == rest_prev[0]);
            assert(rest_prev.contains(rest_prev[0]));
            vstd::seq_lib::to_multiset_contains(rest_prev, rest_prev[0]);
        }
        // find the first position whose entry is strictly older than e
        let mut j: usize = 0;
        while j < out.len() && out[j].published.secs >= e.published.secs
            invariant
                j <= out@.len(),
                edv == e.deep_view(),
                forall|k: int|
                    0 <= k < j ==> (#[trigger] out.deep_view()[k]).published.secs
                        >= edv.published.secs,
            decreases out@.len() - j,
        {
            proof {
                assert(out.deep_view()[j as int] == out@[j as int].deep_view());
            }
            j += 1;
        }
        let ghost out_prev = out.deep_view();
        proof {
            if j < out@.len() {
                assert(out.deep_view()[j as int] == out@[j as int].deep_view());
                assert(out.deep_view()[j as int].published.secs < edv.published.secs);
            }
        }
        out.insert(j, e);
        proof {
            assert(out.deep_view() =~= out_prev.insert(j as int, edv));
            vstd::seq_lib::to_multiset_insert(out_prev, j as int, edv);
            assert(out.deep_view().to_multiset().add(rest.deep_view().to_multiset()) =~= whole);
            assert forall|a: int, b: int|
                0 <= a <= b < out.deep_view().len() implies (#[trigger] out.deep_view()[a]).published.secs
                >= (#[trigger] out.deep_view()[b]).published.secs by {
                let dv = out.deep_view();
                let jj = j as int;
                if a < jj {
                    assert(dv[a] == out_prev[a]);
                }
                if b < jj {
                    assert(dv[b] == out_prev[b]);
                }
                if a > jj {
                    assert(dv[a] == out_prev[a - 1]);
                }
                if b > jj {
                    assert(dv[b] == out_prev[b - 1]);
                }
            }
        }
    }
    proof {
        assert(rest.deep_view() =~= Seq::<EntryView>::empty());
        vstd::seq_lib::to_multiset_len(rest.deep_view());
        vstd::multiset::lemma_multiset_empty_len(rest.deep_view().to_multiset());
        assert(out.deep_view().to_multiset() =~= whole);
        vstd::seq_lib::to_multiset_len(out.deep_view());
        vstd::seq_lib::to_multiset_len(entries.deep_view());
    }
    out
}

} // verus!
