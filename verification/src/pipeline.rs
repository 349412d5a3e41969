use crate::feed::{all_entries_valid, collect_entries, spec_collect};
use crate::model::{Channel, Entry, EntryView};
use crate::order::{sort_entries, sorted_desc};
use crate::partition::{
    bucket_filter, buckets_ok, lemma_bucket_filter_membership, split_by_group, BucketView,
};
use crate::render::{render_digest, render_text};
use vstd::prelude::*;

verus! {

/// The recency window: the trailing 365 days.
pub const RECENCY_WINDOW_SECS: i64 = 365 * 86400;

/// The recency cutoff for a run started at `now_secs`: the instant one
/// window earlier, saturating at the representable minimum.
pub fn recency_cutoff(now_secs: i64) -> (r: i64)
    ensures
        r == if now_secs >= i64::MIN + RECENCY_WINDOW_SECS {
            (now_secs - RECENCY_WINDOW_SECS) as int
        } else {
            i64::MIN as int
        },
{
    if now_secs >= i64::MIN + RECENCY_WINDOW_SECS {
        now_secs - RECENCY_WINDOW_SECS
    } else {
        i64::MIN
    }
}

/// One rendered output: the file stem it should be written under, and its
/// digest text.
pub struct Digest {
    pub name: String,
    pub text: String,
}

/// The mathematical shape of a `Digest`.
pub ghost struct DigestView {
    pub name: Seq<char>,
    pub text: Seq<char>,
}

impl View for Digest {
    type V = DigestView;

    open spec fn view(&self) -> DigestView {
        DigestView { name: self.name@, text: self.text@ }
    }
}

impl DeepView for Digest {
    type V = DigestView;

    open spec fn deep_view(&self) -> DigestView {
        self.view()
    }
}

/// The output stem of a bucket key: the empty key is written as `all`.
pub open spec fn stem_of(key: Seq<char>) -> Seq<char> {
    if key == Seq::<char>::empty() {
        "all"@
    } else {
        key
    }
}

/// The stem a bucket's output file carries.
pub fn file_stem(key: &String) -> (r: String)
    ensures
        r@ == stem_of(key@),
{
    if key.as_str().is_empty() {
        proof {
            assert(key@ =~= Seq::<char>::empty());
        }
        "all".to_owned()
    } else {
        key.clone()
    }
}

/// Digests correspond one to one to buckets: same order, each named by the
/// stem of its bucket's key and carrying that bucket's rendered text.
pub open spec fn digests_match(ds: Seq<DigestView>, bks: Seq<BucketView>) -> bool {
    &&& ds.len() == bks.len()
    &&& forall|i: int|
        0 <= i < ds.len() ==> (#[trigger] ds[i]).name == stem_of(bks[i].key) && ds[i].text
            == render_text(bks[i].entries)
}

/// Validity of every entry is kept under reordering.
proof fn lemma_valid_permutation(a: Seq<EntryView>, b: Seq<EntryView>)
    requires
        a.to_multiset() == b.to_multiset(),
        all_entries_valid(a),
    ensures
        all_entries_valid(b),
{
    broadcast use vstd::seq_lib::group_to_multiset_ensures;

    assert forall|k: int| 0 <= k < b.len() implies crate::date::ts_valid(
        (#[trigger] b[k]).published,
    ) by {
        assert(b.contains(b[k]));
        assert(b.to_multiset().count(b[k]) > 0);
        assert(a.contains(b[k]));
        let m = choose|m: int| 0 <= m < a.len() && a[m] == b[k];
        assert(crate::date::ts_valid(a[m].published));
    }
}

/// The pipeline after the fetch barrier: parse every payload with format
/// fallback, aggregate in channel order, sort most recent first, partition
/// into overlapping named buckets, and render each bucket as a digest.
pub fn run_pipeline(
    channels: &Vec<Channel>,
    payloads: &Vec<Option<Vec<u8>>>,
    cutoff: i64,
) -> (r: Vec<Digest>)
    requires
        channels@.len() == payloads@.len(),
    ensures
        exists|sorted: Seq<EntryView>, bks: Seq<BucketView>|
            {
                &&& sorted.to_multiset() == spec_collect(
                    channels.deep_view(),
                    payloads.deep_view(),
                ).to_multiset()
                &&& sorted_desc(sorted)
                &&& #[trigger] buckets_ok(bks, sorted, cutoff)
                &&& digests_match(r.deep_view(), bks)
            },
{
    let entries = collect_entries(channels, payloads);
    let ghost collected = entries.deep_view();
    let sorted = sort_entries(entries);
    let ghost sdv = sorted.deep_view();
    proof {
        lemma_valid_permutation(collected, sdv);
    }
    let buckets = split_by_group(&sorted, cutoff);
    let ghost bdv = buckets.deep_view();
    let mut out: Vec<Digest> = Vec::new();
    let n = buckets.len();
    let mut i: usize = 0;
    while i < n
        invariant
            n == buckets@.len(),
            i <= n,
            sdv == sorted.deep_view(),
            bdv == buckets.deep_view(),
            all_entries_valid(sdv),
            buckets_ok(bdv, sdv, cutoff),
            out.deep_view().len() == i,
            forall|a: int|
                0 <= a < i ==> (#[trigger] out.deep_view()[a]).name == stem_of(bdv[a].key)
                    && out.deep_view()[a].text == render_text(bdv[a].entries),
        decreases n - i,
    {
        let b = &buckets[i];
        proof {
            assert(bdv[i as int] == b.view());
            assert(b.entries.deep_view() == bucket_filter(sdv, bdv[i as int].key, cutoff));
            assert forall|k: int|
                0 <= k < b.entries.deep_view().len() implies crate::date::ts_valid(
                (#[trigger] b.entries.deep_view()[k]).published,
            ) by {
                let bes = b.entries.deep_view();
                assert(bes.contains(bes[k]));
                lemma_bucket_filter_membership(sdv, bdv[i as int].key, cutoff, bes[k]);
                assert(sdv.contains(bes[k]));
                let m = choose|m: int| 0 <= m < sdv.len() && sdv[m] == bes[k];
                assert(crate::date::ts_valid(sdv[m].published));
            }
        }
        let text = render_digest(&b.entries);
        let name = file_stem(&b.key);
        let ghost prev = out.deep_view();
        out.push(Digest { name, text });
        proof {
            assert(out.deep_view() =~= prev.push(
                DigestView {
                    name: stem_of(bdv[i as int].key),
                    text: render_text(bdv[i as int].entries),
                },
            ));
        }
        i += 1;
    }
    proof {
        assert(buckets_ok(bdv, sdv, cutoff));
        assert(digests_match(out.deep_view(), bdv));
        assert(sdv.to_multiset() == spec_collect(
            channels.deep_view(),
            payloads.deep_view(),
        ).to_multiset());
    }
    out
}

} // verus!
