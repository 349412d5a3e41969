use crate::model::{Entry, EntryView};
use crate::order::sorted_desc;
use vstd::prelude::*;

verus! {

/// The key of the recency bucket.
pub open spec fn this_year_key() -> Seq<char> {
    "this-year"@
}

/// Bucket membership: every entry belongs to the bucket keyed by the empty
/// string; an entry with a non-empty group belongs to the bucket keyed by
/// that group; an entry published at or after the cutoff belongs to the
/// recency bucket.
pub open spec fn in_bucket(e: EntryView, key: Seq<char>, cutoff: i64) -> bool {
    ||| key == Seq::<char>::empty()
    ||| (key == e.group && e.group.len() > 0)
    ||| (key == this_year_key() && e.published.secs >= cutoff)
}

/// The member list of the bucket keyed `key`: the entries that belong to
/// it, in their order in `es`.
pub open spec fn bucket_filter(es: Seq<EntryView>, key: Seq<char>, cutoff: i64) -> Seq<EntryView> {
    es.filter(|e: EntryView| in_bucket(e, key, cutoff))
}

/// A named partition of the aggregated entries.
pub struct Bucket {
    pub key: String,
    pub entries: Vec<Entry>,
}

/// The mathematical shape of a `Bucket`.
pub ghost struct BucketView {
    pub key: Seq<char>,
    pub entries: Seq<EntryView>,
}

impl View for Bucket {
    type V = BucketView;

    open spec fn view(&self) -> BucketView {
        BucketView { key: self.key@, entries: self.entries.deep_view() }
    }
}

impl DeepView for Bucket {
    type V = BucketView;

    open spec fn deep_view(&self) -> BucketView {
        self.view()
    }
}

/// Some bucket carries this key.
pub open spec fn bucket_key_in(bks: Seq<BucketView>, key: Seq<char>) -> bool {
    exists|i: int| 0 <= i < bks.len() && (#[trigger] bks[i]).key == key
}

/// What the partitioner promises: bucket keys are distinct; each bucket
/// holds exactly its members, in input order; every bucket is inhabited;
/// and a bucket exists for the empty key (when there are entries at all),
/// for every non-empty group, and for the recency window (when some entry
/// falls inside it).
pub open spec fn buckets_ok(bks: Seq<BucketView>, es: Seq<EntryView>, cutoff: i64) -> bool {
    &&& forall|i: int, j: int|
        0 <= i < j < bks.len() ==> (#[trigger] bks[i]).key != (#[trigger] bks[j]).key
    &&& forall|i: int|
        0 <= i < bks.len() ==> (#[trigger] bks[i]).entries == bucket_filter(es, bks[i].key, cutoff)
    &&& forall|i: int| 0 <= i < bks.len() ==> (#[trigger] bks[i]).entries.len() > 0
    &&& es.len() > 0 ==> bucket_key_in(bks, Seq::<char>::empty())
    &&& forall|k: int|
        0 <= k < es.len() && (#[trigger] es[k]).group.len() > 0 ==> bucket_key_in(bks, es[k].group)
    &&& (exists|k: int| 0 <= k < es.len() && (#[trigger] es[k]).published.secs >= cutoff)
        ==> bucket_key_in(bks, this_year_key())
}

/// An entry is a member of the bucket's list exactly when it occurs in the
/// input and belongs to the bucket.
pub proof fn lemma_bucket_filter_membership(
    es: Seq<EntryView>,
    key: Seq<char>,
    cutoff: i64,
    e: EntryView,
)
    ensures
        bucket_filter(es, key, cutoff).contains(e) <==> es.contains(e) && in_bucket(
            e,
            key,
            cutoff,
        ),
    decreases es.len(),
{
    reveal(Seq::filter);
    if es.len() > 0 {
        lemma_bucket_filter_membership(es.drop_last(), key, cutoff, e);
        assert(es.drop_last().contains(e) ==> es.contains(e)) by {
            if es.drop_last().contains(e) {
                let m = choose|m: int|
                    0 <= m < es.drop_last().len() && es.drop_last()[m] == e;
                assert(es[m] == e);
            }
        }
        if es.contains(e) && in_bucket(e, key, cutoff) {
            let m = choose|m: int| 0 <= m < es.len() && es[m] == e;
            if m < es.len() - 1 {
                assert(es.drop_last()[m] == e);
            }
        }
    }
}

/// A bucket of a sorted input is itself sorted.
pub proof fn lemma_bucket_filter_sorted(es: Seq<EntryView>, key: Seq<char>, cutoff: i64)
    requires
        sorted_desc(es),
    ensures
        sorted_desc(bucket_filter(es, key, cutoff)),
    decreases es.len(),
{
    reveal(Seq::filter);
    if es.len() > 0 {
        assert(sorted_desc(es.drop_last()));
        lemma_bucket_filter_sorted(es.drop_last(), key, cutoff);
        let fl = bucket_filter(es, key, cutoff);
        let pre = bucket_filter(es.drop_last(), key, cutoff);
        if in_bucket(es.last(), key, cutoff) {
            assert(fl == pre.push(es.last()));
            assert forall|i: int, j: int| 0 <= i <= j < fl.len() implies (
            #[trigger] fl[i]).published.secs >= (#[trigger] fl[j]).published.secs by {
                if j < fl.len() - 1 {
                    assert(fl[i] == pre[i] && fl[j] == pre[j]);
                } else if i < fl.len() - 1 {
                    assert(fl[i] == pre[i]);
                    assert(pre.contains(pre[i]));
                    lemma_bucket_filter_membership(es.drop_last(), key, cutoff, pre[i]);
                    let m = choose|m: int|
                        0 <= m < es.drop_last().len() && es.drop_last()[m] == pre[i];
                    assert(es[m] == pre[i]);
                    assert(es[m].published.secs >= es[es.len() - 1].published.secs);
                }
            }
        }
    }
}

/// Whether this entry belongs to the bucket keyed `key`.
fn entry_in_bucket(e: &Entry, key: &String, cutoff: i64) -> (r: bool)
    ensures
        r == in_bucket(e@, key@, cutoff),
{
    if key.as_str().is_empty() {
        proof {
            assert(key@ =~= Seq::<char>::empty());
        }
        return true;
    }
    if *key == e.group && !e.group.as_str().is_empty() {
        return true;
    }
    let ty: String = "this-year".to_owned();
    if *key == ty && e.published.secs >= cutoff {
        return true;
    }
    false
}

/// The members of one bucket, in input order.
fn filter_bucket(entries: &Vec<Entry>, key: &String, cutoff: i64) -> (r: Vec<Entry>)
    ensures
        r.deep_view() == bucket_filter(entries.deep_view(), key@, cutoff),
{
    let ghost es = entries.deep_view();
    let mut out: Vec<Entry> = Vec::new();
    let n = entries.len();
    let mut i: usize = 0;
    proof {
        reveal(Seq::filter);
        assert(es.take(0) =~= Seq::<EntryView>::empty());
        assert(out.deep_view() =~= bucket_filter(es.take(0), key@, cutoff));
    }
    while i < n
        invariant
            n == entries@.len(),
            i <= n,
            es == entries.deep_view(),
            out.deep_view() == bucket_filter(es.take(i as int), key@, cutoff),
        decreases n - i,
    {
        let ghost prev = out.deep_view();
        proof {
            reveal(Seq::filter);
            assert(es.take(i as int + 1).drop_last() =~= es.take(i as int));
            assert(es.take(i as int + 1).last() == es[i as int]);
            assert(es[i as int] == entries@[i as int]@);
        }
        if entry_in_bucket(&entries[i], key, cutoff) {
            out.push(entries[i].clone());
            proof {
                assert(out.deep_view() =~= prev.push(es[i as int]));
            }
        }
        i += 1;
    }
    proof {
        assert(es.take(n as int) =~= es);
    }
    out
}

/// Whether one of the collected keys reads `k`.
fn contains_key(keys: &Vec<String>, k: &String) -> (r: bool)
    ensures
        r == keys.deep_view().contains(k@),
{
    let n = keys.len();
    let mut i: usize = 0;
    while i < n
        invariant
            n == keys@.len(),
            i <= n,
            forall|m: int| 0 <= m < i ==> keys.deep_view()[m] != k@,
        decreases n - i,
    {
        if keys[i] == *k {
            proof {
                assert(keys.deep_view()[i as int] == k@);
            }
            return true;
        }
        proof {
            assert(keys.deep_view()[i as int] == keys@[i as int]@);
        }
        i += 1;
    }
    false
}

/// Some entry belongs to the bucket keyed `key`.
pub open spec fn key_inhabited(es: Seq<EntryView>, key: Seq<char>, cutoff: i64) -> bool {
    exists|k: int| 0 <= k < es.len() && in_bucket(#[trigger] es[k], key, cutoff)
}

/// The distinct bucket keys this entry list calls for, each with a member.
fn collect_keys(entries: &Vec<Entry>, cutoff: i64) -> (keys: Vec<String>)
    ensures
        forall|i: int, j: int|
            0 <= i < j < keys.deep_view().len() ==> keys.deep_view()[i] != keys.deep_view()[j],
        forall|i: int|
            0 <= i < keys.deep_view().len() ==> #[trigger] key_inhabited(
                entries.deep_view(),
                keys.deep_view()[i],
                cutoff,
            ),
        entries.deep_view().len() > 0 ==> keys.deep_view().contains(Seq::<char>::empty()),
        forall|k: int|
            0 <= k < entries.deep_view().len() && (#[trigger] entries.deep_view()[k]).group.len()
                > 0 ==> keys.deep_view().contains(entries.deep_view()[k].group),
        (exists|k: int|
            0 <= k < entries.deep_view().len() && (#[trigger] entries.deep_view()[k]).published.secs
                >= cutoff) ==> keys.deep_view().contains(this_year_key()),
{
    let ghost es = entries.deep_view();
    let mut keys: Vec<String> = Vec::new();
    let n = entries.len();
    if n > 0 {
        keys.push(String::new());
        proof {
            assert(keys.deep_view()[0] == Seq::<char>::empty());
            assert(in_bucket(es[0], Seq::<char>::empty(), cutoff));
            assert(key_inhabited(es, keys.deep_view()[0], cutoff));
        }
    }
    let mut i: usize = 0;
    while i < n
        invariant
            n == entries@.len(),
            i <= n,
            es == entries.deep_view(),
            forall|a: int, b: int|
                0 <= a < b < keys.deep_view().len() ==> keys.deep_view()[a] != keys.deep_view()[b],
            forall|a: int|
                0 <= a < keys.deep_view().len() ==> #[trigger] key_inhabited(
                    es,
                    keys.deep_view()[a],
                    cutoff,
                ),
            n > 0 ==> keys.deep_view().contains(Seq::<char>::empty()),
            forall|k: int|
                0 <= k < i && (#[trigger] es[k]).group.len() > 0 ==> keys.deep_view().contains(
                    es[k].group,
                ),
        decreases n - i,
    {
        let ghost kprev = keys.deep_view();
        let e = &entries[i];
        proof {
            assert(es[i as int] == entries@[i as int]@);
        }
        if !e.group.as_str().is_empty() {
            if !contains_key(&keys, &e.group) {
                keys.push(e.group.clone());
                proof {
                    let kd2 = keys.deep_view();
                    assert(kd2 =~= kprev.push(es[i as int].group));
                    assert(kd2[kprev.len() as int] == es[i as int].group);
                    assert(in_bucket(es[i as int], es[i as int].group, cutoff));
                    assert forall|a: int|
                        0 <= a < kd2.len() implies #[trigger] key_inhabited(
                        es,
                        kd2[a],
                        cutoff,
                    ) by {
                        if a < kprev.len() {
                            assert(kd2[a] == kprev[a]);
                            assert(key_inhabited(es, kprev[a], cutoff));
                        } else {
                            assert(kd2[a] == es[i as int].group);
                            assert(key_inhabited(es, kd2[a], cutoff));
                        }
                    }
                    assert forall|k: int|
                        0 <= k < es.len() && (#[trigger] es[k]).group.len() > 0 && kprev.contains(
                            es[k].group,
                        ) implies kd2.contains(es[k].group) by {
                        let m = choose|m: int| 0 <= m < kprev.len() && kprev[m] == es[k].group;
                        assert(kd2[m] == es[k].group);
                    }
                    assert(n > 0 ==> kd2.contains(Seq::<char>::empty())) by {
                        if kprev.contains(Seq::<char>::empty()) {
                            let m = choose|m: int|
                                0 <= m < kprev.len() && kprev[m] == Seq::<char>::empty();
                            assert(kd2[m] == Seq::<char>::empty());
                        }
                    }
                }
            }
        }
        i += 1;
    }
    // the recency bucket's key, where some entry falls inside the window
    let mut any_recent = false;
    let ghost mut wit: int = 0;
    let mut k: usize = 0;
    while k < n
        invariant
            n == entries@.len(),
            k <= n,
            es == entries.deep_view(),
            any_recent ==> 0 <= wit < es.len() && es[wit].published.secs >= cutoff,
            !any_recent ==> forall|m: int| 0 <= m < k ==> (#[trigger] es[m]).published.secs < cutoff,
        decreases n - k,
    {
        if entries[k].published.secs >= cutoff {
            any_recent = true;
            proof {
                wit = k as int;
                assert(es[k as int] == entries@[k as int]@);
            }
        }
        k += 1;
    }
    if any_recent {
        let ty: String = "this-year".to_owned();
        if !contains_key(&keys, &ty) {
            let ghost kprev = keys.deep_view();
            keys.push(ty);
            proof {
                let kd2 = keys.deep_view();
                assert(kd2 =~= kprev.push(this_year_key()));
                assert(kd2[kprev.len() as int] == this_year_key());
                assert(in_bucket(es[wit], this_year_key(), cutoff));
                assert forall|a: int|
                    0 <= a < kd2.len() implies #[trigger] key_inhabited(es, kd2[a], cutoff) by {
                    if a < kprev.len() {
                        assert(kd2[a] == kprev[a]);
                        assert(key_inhabited(es, kprev[a], cutoff));
                    } else {
                        assert(kd2[a] == this_year_key());
                        assert(key_inhabited(es, kd2[a], cutoff));
                    }
                }
                assert forall|k2: int|
                    0 <= k2 < es.len() && (#[trigger] es[k2]).group.len() > 0 implies kd2.contains(
                    es[k2].group,
                ) by {
                    let m = choose|m: int| 0 <= m < kprev.len() && kprev[m] == es[k2].group;
                    assert(kd2[m] == es[k2].group);
                }
                assert(n > 0 ==> kd2.contains(Seq::<char>::empty())) by {
                    if kprev.contains(Seq::<char>::empty()) {
                        let m = choose|m: int|
                            0 <= m < kprev.len() && kprev[m] == Seq::<char>::empty();
                        assert(kd2[m] == Seq::<char>::empty());
                    }
                }
            }
        }
    }
    keys
}

/// Splits the aggregated, already sorted entries into named buckets: one
/// for everything, one per non-empty group, one for the recency window;
/// membership may overlap, each bucket keeps input order, and only
/// inhabited buckets exist.
pub fn split_by_group(entries: &Vec<Entry>, cutoff: i64) -> (r: Vec<Bucket>)
    ensures
        buckets_ok(r.deep_view(), entries.deep_view(), cutoff),
{
    let ghost es = entries.deep_view();
    let keys = collect_keys(entries, cutoff);
    let ghost kd = keys.deep_view();
    let mut out: Vec<Bucket> = Vec::new();
    let n = keys.len();
    let mut i: usize = 0;
    while i < n
        invariant
            n == keys@.len(),
            i <= n,
            es == entries.deep_view(),
            kd == keys.deep_view(),
            out.deep_view().len() == i,
            forall|a: int| 0 <= a < i ==> (#[trigger] out.deep_view()[a]).key == kd[a],
            forall|a: int|
                0 <= a < i ==> (#[trigger] out.deep_view()[a]).entries == bucket_filter(
                    es,
                    kd[a],
                    cutoff,
                ),
        decreases n - i,
    {
        let ghost prev = out.deep_view();
        let members = filter_bucket(entries, &keys[i], cutoff);
        proof {
            assert(kd[i as int] == keys@[i as int]@);
        }
        let b = Bucket { key: keys[i].clone(), entries: members };
        out.push(b);
        proof {
            assert(out.deep_view() =~= prev.push(
                BucketView { key: kd[i as int], entries: bucket_filter(es, kd[i as int], cutoff) },
            ));
        }
        i += 1;
    }
    proof {
        let bks = out.deep_view();
        assert forall|a: int| 0 <= a < bks.len() implies (#[trigger] bks[a]).entries.len()
            > 0 by {
            assert(key_inhabited(es, kd[a], cutoff));
            let k = choose|k: int| 0 <= k < es.len() && in_bucket(#[trigger] es[k], kd[a], cutoff);
            assert(es.contains(es[k]));
            lemma_bucket_filter_membership(es, kd[a], cutoff, es[k]);
            assert(bucket_filter(es, kd[a], cutoff).contains(es[k]));
            assert(bks[a].entries == bucket_filter(es, kd[a], cutoff));
        }
        assert forall|k: int|
            0 <= k < es.len() && (#[trigger] es[k]).group.len() > 0 implies bucket_key_in(
            bks,
            es[k].group,
        ) by {
            let m = choose|m: int| 0 <= m < kd.len() && kd[m] == es[k].group;
            assert(bks[m].key == es[k].group);
        }
        if es.len() > 0 {
            let m = choose|m: int| 0 <= m < kd.len() && kd[m] == Seq::<char>::empty();
            assert(bks[m].key == Seq::<char>::empty());
        }
        if exists|k: int| 0 <= k < es.len() && (#[trigger] es[k]).published.secs >= cutoff {
            let m = choose|m: int| 0 <= m < kd.len() && kd[m] == this_year_key();
            assert(bks[m].key == this_year_key());
        }
    }
    out
}

/// Under the empty key every entry belongs, so that bucket's filter is the
/// identity.
proof fn lemma_empty_key_filter_id(es: Seq<EntryView>, cutoff: i64)
    ensures
        bucket_filter(es, Seq::<char>::empty(), cutoff) == es,
    decreases es.len(),
{
    reveal(Seq::filter);
    if es.len() > 0 {
        lemma_empty_key_filter_id(es.drop_last(), cutoff);
        assert(in_bucket(es.last(), Seq::<char>::empty(), cutoff));
        assert(bucket_filter(es, Seq::<char>::empty(), cutoff) =~= es);
    }
}

/// The bucket keyed by the empty string holds every aggregated entry, in
/// input order, and only those.
pub proof fn lemma_all_bucket(bks: Seq<BucketView>, es: Seq<EntryView>, cutoff: i64, i: int)
    requires
        buckets_ok(bks, es, cutoff),
        0 <= i < bks.len(),
        bks[i].key == Seq::<char>::empty(),
    ensures
        bks[i].entries == es,
{
    lemma_empty_key_filter_id(es, cutoff);
}

/// Buckets of a sorted input keep entries in non-increasing publication
/// order, so each rendered digest lists entries most recent first.
pub proof fn lemma_buckets_sorted(bks: Seq<BucketView>, es: Seq<EntryView>, cutoff: i64)
    requires
        buckets_ok(bks, es, cutoff),
        sorted_desc(es),
    ensures
        forall|i: int| 0 <= i < bks.len() ==> sorted_desc((#[trigger] bks[i]).entries),
{
    assert forall|i: int| 0 <= i < bks.len() implies sorted_desc((#[trigger] bks[i]).entries) by {
        lemma_bucket_filter_sorted(es, bks[i].key, cutoff);
    }
}

/// An entry with a non-empty group lies in the bucket keyed by that group,
/// and in no bucket besides that one, the all bucket, and the recency
/// bucket.
pub proof fn lemma_group_membership(
    bks: Seq<BucketView>,
    es: Seq<EntryView>,
    cutoff: i64,
    k: int,
)
    requires
        buckets_ok(bks, es, cutoff),
        0 <= k < es.len(),
        es[k].group.len() > 0,
    ensures
        bucket_key_in(bks, es[k].group),
        forall|i: int|
            0 <= i < bks.len() && (#[trigger] bks[i]).key == es[k].group ==> bks[i].entries.contains(
                es[k],
            ),
        forall|i: int|
            0 <= i < bks.len() && (#[trigger] bks[i]).key != es[k].group && bks[i].key
                != Seq::<char>::empty() && bks[i].key != this_year_key()
                ==> !bks[i].entries.contains(es[k]),
{
    assert(es.contains(es[k]));
    assert forall|i: int|
        0 <= i < bks.len() && (#[trigger] bks[i]).key == es[k].group implies bks[i].entries.contains(
        es[k],
    ) by {
        lemma_bucket_filter_membership(es, bks[i].key, cutoff, es[k]);
        assert(in_bucket(es[k], bks[i].key, cutoff));
    }
    assert forall|i: int|
        0 <= i < bks.len() && (#[trigger] bks[i]).key != es[k].group && bks[i].key
            != Seq::<char>::empty() && bks[i].key != this_year_key() implies !bks[i].entries.contains(
        es[k],
    ) by {
        lemma_bucket_filter_membership(es, bks[i].key, cutoff, es[k]);
        assert(!in_bucket(es[k], bks[i].key, cutoff));
    }
}

/// An entry published at or after the cutoff lies in the recency bucket; an
/// entry strictly older does not, unless the recency key happens to name
/// its own group.
pub proof fn lemma_recency_membership(
    bks: Seq<BucketView>,
    es: Seq<EntryView>,
    cutoff: i64,
    k: int,
)
    requires
        buckets_ok(bks, es, cutoff),
        0 <= k < es.len(),
    ensures
        es[k].published.secs >= cutoff ==> bucket_key_in(bks, this_year_key()) && forall|i: int|
            0 <= i < bks.len() && (#[trigger] bks[i]).key == this_year_key()
                ==> bks[i].entries.contains(es[k]),
        es[k].published.secs < cutoff && es[k].group != this_year_key() ==> forall|i: int|
            0 <= i < bks.len() && (#[trigger] bks[i]).key == this_year_key()
                ==> !bks[i].entries.contains(es[k]),
{
    assert(es.contains(es[k]));
    if es[k].published.secs >= cutoff {
        assert(bucket_key_in(bks, this_year_key()));
        assert forall|i: int|
            0 <= i < bks.len() && (#[trigger] bks[i]).key == this_year_key() implies bks[i].entries.contains(
            es[k],
        ) by {
            lemma_bucket_filter_membership(es, bks[i].key, cutoff, es[k]);
            assert(in_bucket(es[k], bks[i].key, cutoff));
        }
    }
    if es[k].published.secs < cutoff && es[k].group != this_year_key() {
        assert forall|i: int|
            0 <= i < bks.len() && (#[trigger] bks[i]).key == this_year_key() implies !bks[i].entries.contains(
            es[k],
        ) by {
            lemma_bucket_filter_membership(es, bks[i].key, cutoff, es[k]);
            assert(this_year_key() != Seq::<char>::empty()) by {
                reveal_strlit("this-year");
                assert(this_year_key().len() == 9);
            }
            assert(!in_bucket(es[k], bks[i].key, cutoff));
        }
    }
}

} // verus!
