use crate::date::{checked_date_of, ts_valid, Timestamp};
use crate::model::{Channel, ChannelView, Entry, EntryView, ParseError};
use vstd::prelude::*;

verus! {

/// One raw item of a channel-and-items payload, before normalization:
/// exactly the three fields the digest reads, each optional in the wire
/// format.
pub struct RssItem {
    pub title: Option<String>,
    pub pub_date: Option<String>,
    pub link: Option<String>,
}

/// The mathematical shape of an `RssItem`.
pub ghost struct RssItemView {
    pub title: Option<Seq<char>>,
    pub pub_date: Option<Seq<char>>,
    pub link: Option<Seq<char>>,
}

impl View for RssItem {
    type V = RssItemView;

    open spec fn view(&self) -> RssItemView {
        RssItemView {
            title: self.title.deep_view(),
            pub_date: self.pub_date.deep_view(),
            link: self.link.deep_view(),
        }
    }
}

impl DeepView for RssItem {
    type V = RssItemView;

    open spec fn deep_view(&self) -> RssItemView {
        self.view()
    }
}

/// One raw entry of an entry-list payload, before normalization. The wire
/// format parses its own timestamps and always carries an update time; the
/// publication time and the first link are optional.
pub struct AtomEntry {
    pub title: String,
    pub published: Option<Timestamp>,
    pub updated: Timestamp,
    pub link: Option<String>,
}

/// The mathematical shape of an `AtomEntry`.
pub ghost struct AtomEntryView {
    pub title: Seq<char>,
    pub published: Option<Timestamp>,
    pub updated: Timestamp,
    pub link: Option<Seq<char>>,
}

impl View for AtomEntry {
    type V = AtomEntryView;

    open spec fn view(&self) -> AtomEntryView {
        AtomEntryView {
            title: self.title@,
            published: self.published,
            updated: self.updated,
            link: self.link.deep_view(),
        }
    }
}

impl DeepView for AtomEntry {
    type V = AtomEntryView;

    open spec fn deep_view(&self) -> AtomEntryView {
        self.view()
    }
}

/// What the channel-and-items parser makes of a payload: its item list read
/// as this library's raw items, or nothing where the payload does not match
/// that format. A function of the bytes alone.
pub uninterp spec fn rss_read_of(bytes: Seq<u8>) -> Option<Seq<RssItemView>>;

/// What the entry-list parser makes of a payload, read as this library's
/// raw entries (timestamps as calendar fields, the first link's target), or
/// nothing where the payload does not match that format. A function of the
/// bytes alone.
pub uninterp spec fn atom_read_of(bytes: Seq<u8>) -> Option<Seq<AtomEntryView>>;

/// Relies on `rss::Channel::read_from` to recognise and parse the
/// channel-and-items format; the item fields are carried over one for one.
#[verifier::external_body]
fn read_rss(bytes: &[u8]) -> (r: Option<Vec<RssItem>>)
    ensures
        match r {
            Some(items) => rss_read_of(bytes@) == Some(items.deep_view()),
            None => rss_read_of(bytes@) is None,
        },
{
    match rss::Channel::read_from(bytes) {
        Ok(c) => Some(
            c.items.into_iter().map(|i| RssItem { title: i.title, pub_date: i.pub_date, link: i.link }).collect(),
        ),
        Err(_) => None,
    }
}

/// Relies on `atom_syndication::Feed::read_from` to recognise and parse the
/// entry-list format, and on chrono's `timestamp`, `year`, `month` and `day`
/// accessors to read each parsed timestamp's instant and calendar fields;
/// the entry fields are carried over one for one.
#[verifier::external_body]
fn read_atom(bytes: &[u8]) -> (r: Option<Vec<AtomEntry>>)
    ensures
        match r {
            Some(entries) => atom_read_of(bytes@) == Some(entries.deep_view()),
            None => atom_read_of(bytes@) is None,
        },
{
    let ts = |d: &chrono::DateTime<chrono::FixedOffset>| Timestamp {
        secs: d.timestamp(),
        year: chrono::Datelike::year(d),
        month: chrono::Datelike::month(d),
        day: chrono::Datelike::day(d),
    };
    atom_syndication::Feed::read_from(bytes).ok().map(|f| f.entries.iter().map(|e| AtomEntry {
        title: e.title.value.clone(),
        published: e.published.as_ref().map(ts),
        updated: ts(&e.updated),
        link: e.links.first().map(|l| l.href.clone()),
    }).collect())
}

/// The entry an accepted raw item becomes: a missing title is the empty
/// string, author and group come from the owning channel, `t` is the item's
/// parsed date.
pub open spec fn rss_entry_of(it: RssItemView, ch: ChannelView, t: Timestamp) -> EntryView {
    EntryView {
        title: match it.title {
            Some(s) => s,
            None => Seq::empty(),
        },
        author: ch.author,
        published: t,
        url: match it.link {
            Some(u) => u,
            None => Seq::empty(),
        },
        group: ch.group,
    }
}

/// Normalization of a raw item list, item by item in payload order. An item
/// without a date fails the whole channel; an item whose date is present but
/// not parseable is skipped alone; an item that would be rendered but has no
/// link fails the whole channel.
pub open spec fn spec_rss_entries(items: Seq<RssItemView>, ch: ChannelView) -> Result<
    Seq<EntryView>,
    ParseError,
>
    decreases items.len(),
{
    if items.len() == 0 {
        Ok(Seq::empty())
    } else {
        let it = items.first();
        match it.pub_date {
            None => Err(ParseError::MissingDate),
            Some(ds) => match checked_date_of(ds) {
                None => spec_rss_entries(items.drop_first(), ch),
                Some(t) => match it.link {
                    None => Err(ParseError::MissingLink),
                    Some(_) => match spec_rss_entries(items.drop_first(), ch) {
                        Ok(rest) => Ok(seq![rss_entry_of(it, ch, t)] + rest),
                        Err(e) => Err(e),
                    },
                },
            },
        }
    }
}

/// The timestamp an entry-list entry is dated by: its publication time
/// where present, else its update time.
pub open spec fn atom_ts_of(e: AtomEntryView) -> Timestamp {
    match e.published {
        Some(t) => t,
        None => e.updated,
    }
}

/// The entry an accepted raw entry becomes.
pub open spec fn atom_entry_of(e: AtomEntryView, ch: ChannelView) -> EntryView {
    EntryView {
        title: e.title,
        author: ch.author,
        published: atom_ts_of(e),
        url: match e.link {
            Some(u) => u,
            None => Seq::empty(),
        },
        group: ch.group,
    }
}

/// Normalization of a raw entry list, entry by entry in payload order. An
/// entry whose timestamp falls outside the printable calendar range is
/// skipped alone; an entry without a link fails the whole channel.
pub open spec fn spec_atom_entries(entries: Seq<AtomEntryView>, ch: ChannelView) -> Result<
    Seq<EntryView>,
    ParseError,
>
    decreases entries.len(),
{
    if entries.len() == 0 {
        Ok(Seq::empty())
    } else {
        let e = entries.first();
        if !ts_valid(atom_ts_of(e)) {
            spec_atom_entries(entries.drop_first(), ch)
        } else {
            match e.link {
                None => Err(ParseError::MissingLink),
                Some(_) => match spec_atom_entries(entries.drop_first(), ch) {
                    Ok(rest) => Ok(seq![atom_entry_of(e, ch)] + rest),
                    Err(err) => Err(err),
                },
            }
        }
    }
}

/// The view of a normalization result.
pub open spec fn entries_result_view(r: Result<Vec<Entry>, ParseError>) -> Result<
    Seq<EntryView>,
    ParseError,
> {
    match r {
        Ok(v) => Ok(v.deep_view()),
        Err(e) => Err(e),
    }
}

/// Every entry is printable and credits the owning channel.
pub open spec fn entries_wf(es: Seq<EntryView>, ch: ChannelView) -> bool {
    forall|k: int|
        0 <= k < es.len() ==> ts_valid((#[trigger] es[k]).published) && es[k].author == ch.author
            && es[k].group == ch.group
}

/// Normalizes a raw item list against its owning channel.
pub fn rss_entries(items: &Vec<RssItem>, ch: &Channel) -> (r: Result<Vec<Entry>, ParseError>)
    ensures
        entries_result_view(r) == spec_rss_entries(items.deep_view(), ch@),
        r matches Ok(es) ==> entries_wf(es.deep_view(), ch@),
{
    let ghost iv = items.deep_view();
    let ghost chv = ch@;
    let mut out: Vec<Entry> = Vec::new();
    let n = items.len();
    let mut i: usize = 0;
    proof {
        assert(iv.skip(0) =~= iv);
        if spec_rss_entries(iv, chv) is Ok {
            assert(out.deep_view() + spec_rss_entries(iv, chv)->Ok_0 =~= spec_rss_entries(
                iv,
                chv,
            )->Ok_0);
        }
    }
    while i < n
        invariant
            n == items@.len(),
            i <= n,
            iv == items.deep_view(),
            chv == ch@,
            entries_wf(out.deep_view(), chv),
            spec_rss_entries(iv, chv) == (match spec_rss_entries(iv.skip(i as int), chv) {
                Ok(rest) => Ok::<Seq<EntryView>, ParseError>(out.deep_view() + rest),
                Err(e) => Err::<Seq<EntryView>, ParseError>(e),
            }),
        decreases n - i,
    {
        let it = &items[i];
        proof {
            assert(iv.skip(i as int).first() == iv[i as int]);
            assert(iv.skip(i as int).drop_first() =~= iv.skip(i as int + 1));
            assert(iv[i as int] == it.view());
        }
        match &it.pub_date {
            None => {
                return Err(ParseError::MissingDate);
            },
            Some(ds) => {
                match crate::date::parse_feed_date(ds.as_str()) {
                    None => {},
                    Some(t) => {
                        match &it.link {
                            None => {
                                return Err(ParseError::MissingLink);
                            },
                            Some(u) => {
                                let title = match &it.title {
                                    Some(s) => s.clone(),
                                    None => String::new(),
                                };
                                let e = Entry {
                                    title,
                                    author: ch.author.clone(),
                                    published: t,
                                    url: u.clone(),
                                    group: ch.group.clone(),
                                };
                                let ghost prev = out.deep_view();
                                proof {
                                    assert(e@ == rss_entry_of(iv[i as int], chv, t));
                                }
                                out.push(e);
                                proof {
                                    let x = rss_entry_of(iv[i as int], chv, t);
                                    assert(out.deep_view() =~= prev.push(x));
                                    if spec_rss_entries(iv.skip(i as int + 1), chv) is Ok {
                                        let rest = spec_rss_entries(
                                            iv.skip(i as int + 1),
                                            chv,
                                        )->Ok_0;
                                        assert(prev + (seq![x] + rest) =~= out.deep_view() + rest);
                                    }
                                }
                            },
                        }
                    },
                }
            },
        }
        i += 1;
    }
    proof {
        assert(iv.skip(n as int) =~= Seq::<RssItemView>::empty());
        assert(out.deep_view() + Seq::<EntryView>::empty() =~= out.deep_view());
    }
    Ok(out)
}

/// Normalizes a raw entry list against its owning channel.
pub fn atom_entries(entries: &Vec<AtomEntry>, ch: &Channel) -> (r: Result<Vec<Entry>, ParseError>)
    ensures
        entries_result_view(r) == spec_atom_entries(entries.deep_view(), ch@),
        r matches Ok(es) ==> entries_wf(es.deep_view(), ch@),
{
    let ghost ev = entries.deep_view();
    let ghost chv = ch@;
    let mut out: Vec<Entry> = Vec::new();
    let n = entries.len();
    let mut i: usize = 0;
    proof {
        assert(ev.skip(0) =~= ev);
        if spec_atom_entries(ev, chv) is Ok {
            assert(out.deep_view() + spec_atom_entries(ev, chv)->Ok_0 =~= spec_atom_entries(
                ev,
                chv,
            )->Ok_0);
        }
    }
    while i < n
        invariant
            n == entries@.len(),
            i <= n,
            ev == entries.deep_view(),
            chv == ch@,
            entries_wf(out.deep_view(), chv),
            spec_atom_entries(ev, chv) == (match spec_atom_entries(ev.skip(i as int), chv) {
                Ok(rest) => Ok::<Seq<EntryView>, ParseError>(out.deep_view() + rest),
                Err(e) => Err::<Seq<EntryView>, ParseError>(e),
            }),
        decreases n - i,
    {
        let e = &entries[i];
        proof {
            assert(ev.skip(i as int).first() == ev[i as int]);
            assert(ev.skip(i as int).drop_first() =~= ev.skip(i as int + 1));
            assert(ev[i as int] == e.view());
        }
        let t = match &e.published {
            Some(t) => *t,
            None => e.updated,
        };
        assert(t == atom_ts_of(ev[i as int]));
        if 0 <= t.year && t.year <= 9999 && 1 <= t.month && t.month <= 12 && 1 <= t.day && t.day
            <= 31 {
            match &e.link {
                None => {
                    return Err(ParseError::MissingLink);
                },
                Some(u) => {
                    let item = Entry {
                        title: e.title.clone(),
                        author: ch.author.clone(),
                        published: t,
                        url: u.clone(),
                        group: ch.group.clone(),
                    };
                    let ghost prev = out.deep_view();
                    proof {
                        assert(item@ == atom_entry_of(ev[i as int], chv));
                    }
                    out.push(item);
                    proof {
                        let x = atom_entry_of(ev[i as int], chv);
                        assert(out.deep_view() =~= prev.push(x));
                        if spec_atom_entries(ev.skip(i as int + 1), chv) is Ok {
                            let rest = spec_atom_entries(ev.skip(i as int + 1), chv)->Ok_0;
                            assert(prev + (seq![x] + rest) =~= out.deep_view() + rest);
                        }
                    }
                },
            }
        }
        i += 1;
    }
    proof {
        assert(ev.skip(n as int) =~= Seq::<AtomEntryView>::empty());
        assert(out.deep_view() + Seq::<EntryView>::empty() =~= out.deep_view());
    }
    Ok(out)
}

/// What one payload contributes, after format detection with fallback: the
/// channel-and-items reading where the payload matches it, else the
/// entry-list reading, else a format error.
pub open spec fn spec_parse_payload(bytes: Seq<u8>, ch: ChannelView) -> Result<
    Seq<EntryView>,
    ParseError,
> {
    match rss_read_of(bytes) {
        Some(items) => spec_rss_entries(items, ch),
        None => match atom_read_of(bytes) {
            Some(es) => spec_atom_entries(es, ch),
            None => Err(ParseError::UnknownFormat),
        },
    }
}

/// Parses one channel's payload: tries the channel-and-items format first,
/// falls back to the entry-list format, and reports a format error where
/// neither matches.
pub fn parse_payload(bytes: &[u8], ch: &Channel) -> (r: Result<Vec<Entry>, ParseError>)
    ensures
        entries_result_view(r) == spec_parse_payload(bytes@, ch@),
        r matches Ok(es) ==> entries_wf(es.deep_view(), ch@),
{
    match read_rss(bytes) {
        Some(items) => rss_entries(&items, ch),
        None => match read_atom(bytes) {
            Some(entries) => atom_entries(&entries, ch),
            None => Err(ParseError::UnknownFormat),
        },
    }
}

/// What one channel contributes to the aggregated list: its normalized
/// entries on success, nothing where the fetch or the parse failed.
pub open spec fn spec_channel_entries(p: Option<Seq<u8>>, ch: ChannelView) -> Seq<EntryView> {
    match p {
        Some(bytes) => match spec_parse_payload(bytes, ch) {
            Ok(es) => es,
            Err(_) => Seq::empty(),
        },
        None => Seq::empty(),
    }
}

/// The aggregated entry list: every channel's contribution, in channel
/// order, failed channels contributing nothing.
pub open spec fn spec_collect(chs: Seq<ChannelView>, ps: Seq<Option<Seq<u8>>>) -> Seq<EntryView>
    recommends
        chs.len() == ps.len(),
    decreases chs.len(),
{
    if chs.len() == 0 {
        Seq::empty()
    } else {
        spec_collect(chs.drop_last(), ps.drop_last()) + spec_channel_entries(
            ps.last(),
            chs.last(),
        )
    }
}

/// Every aggregated entry is printable.
pub open spec fn all_entries_valid(es: Seq<EntryView>) -> bool {
    forall|k: int| 0 <= k < es.len() ==> ts_valid((#[trigger] es[k]).published)
}

/// Merges all channels' parsed entries into one list, in channel order.
/// A channel whose payload is absent (fetch failed) or unreadable
/// contributes nothing; the run goes on.
pub fn collect_entries(channels: &Vec<Channel>, payloads: &Vec<Option<Vec<u8>>>) -> (r: Vec<Entry>)
    requires
        channels@.len() == payloads@.len(),
    ensures
        r.deep_view() == spec_collect(channels.deep_view(), payloads.deep_view()),
        all_entries_valid(r.deep_view()),
{
    let ghost chs = channels.deep_view();
    let ghost ps = payloads.deep_view();
    let mut out: Vec<Entry> = Vec::new();
    let n = channels.len();
    let mut i: usize = 0;
    while i < n
        invariant
            n == channels@.len(),
            channels@.len() == payloads@.len(),
            i <= n,
            chs == channels.deep_view(),
            ps == payloads.deep_view(),
            out.deep_view() == spec_collect(chs.take(i as int), ps.take(i as int)),
            all_entries_valid(out.deep_view()),
        decreases n - i,
    {
        let ghost prev = out.deep_view();
        proof {
            assert(chs.take(i as int + 1).drop_last() =~= chs.take(i as int));
            assert(ps.take(i as int + 1).drop_last() =~= ps.take(i as int));
            assert(chs.take(i as int + 1).last() == chs[i as int]);
            assert(ps.take(i as int + 1).last() == ps[i as int]);
            assert(chs[i as int] == channels@[i as int]@);
            assert(ps[i as int] == payloads@[i as int].deep_view());
        }
        match &payloads[i] {
            Some(bytes) => {
                proof {
                    assert(bytes.deep_view() =~= bytes@);
                }
                match parse_payload(bytes.as_slice(), &channels[i]) {
                    Ok(mut es) => {
                        let ghost esv = es.deep_view();
                        out.append(&mut es);
                        proof {
                            assert(spec_channel_entries(ps[i as int], chs[i as int]) == esv);
                            assert(out.deep_view() =~= prev + esv);
                        }
                    },
                    Err(_) => {
                        proof {
                            assert(spec_channel_entries(ps[i as int], chs[i as int])
                                =~= Seq::<EntryView>::empty());
                            assert(out.deep_view() =~= prev + Seq::<EntryView>::empty());
                        }
                    },
                }
            },
            None => {
                proof {
                    assert(out.deep_view() =~= prev + Seq::<EntryView>::empty());
                }
            },
        }
        i += 1;
    }
    proof {
        assert(chs.take(n as int) =~= chs);
        assert(ps.take(n as int) =~= ps);
    }
    out
}

} // verus!
