use crate::model::{Channel, ChannelView, ConfigError};
use vstd::prelude::*;

verus! {

/// One feed item inside a grouped container of the subscription outline:
/// the attributes the loader reads, each optional in the wire format.
pub struct OutlineChild {
    pub feed_type: Option<String>,
    pub xml_url: Option<String>,
    pub title: Option<String>,
}

/// The mathematical shape of an `OutlineChild`.
pub ghost struct OutlineChildView {
    pub feed_type: Option<Seq<char>>,
    pub xml_url: Option<Seq<char>>,
    pub title: Option<Seq<char>>,
}

impl View for OutlineChild {
    type V = OutlineChildView;

    open spec fn view(&self) -> OutlineChildView {
        OutlineChildView {
            feed_type: self.feed_type.deep_view(),
            xml_url: self.xml_url.deep_view(),
            title: self.title.deep_view(),
        }
    }
}

impl DeepView for OutlineChild {
    type V = OutlineChildView;

    open spec fn deep_view(&self) -> OutlineChildView {
        self.view()
    }
}

/// One top-level item of the subscription outline: either a typed feed
/// item, or an untyped container whose text names the group its children
/// share.
pub struct OutlineItem {
    pub feed_type: Option<String>,
    pub text: String,
    pub xml_url: Option<String>,
    pub title: Option<String>,
    pub children: Vec<OutlineChild>,
}

/// The mathematical shape of an `OutlineItem`.
pub ghost struct OutlineItemView {
    pub feed_type: Option<Seq<char>>,
    pub text: Seq<char>,
    pub xml_url: Option<Seq<char>>,
    pub title: Option<Seq<char>>,
    pub children: Seq<OutlineChildView>,
}

impl View for OutlineItem {
    type V = OutlineItemView;

    open spec fn view(&self) -> OutlineItemView {
        OutlineItemView {
            feed_type: self.feed_type.deep_view(),
            text: self.text@,
            xml_url: self.xml_url.deep_view(),
            title: self.title.deep_view(),
            children: self.children.deep_view(),
        }
    }
}

impl DeepView for OutlineItem {
    type V = OutlineItemView;

    open spec fn deep_view(&self) -> OutlineItemView {
        self.view()
    }
}

/// The one accepted outline type attribute.
pub open spec fn feed_type_label() -> Seq<char> {
    "rss"@
}

/// The channel a typed outline entry describes, under the given group:
/// the type must read as the accepted label, and the endpoint and the
/// display name must both be present.
pub open spec fn spec_entry_channel(
    feed_type: Option<Seq<char>>,
    xml_url: Option<Seq<char>>,
    title: Option<Seq<char>>,
    group: Seq<char>,
) -> Result<ChannelView, ConfigError> {
    match feed_type {
        None => Err(ConfigError::MissingType),
        Some(t) => if t != feed_type_label() {
            Err(ConfigError::NotFeedType)
        } else {
            match xml_url {
                None => Err(ConfigError::MissingUrl),
                Some(u) => match title {
                    None => Err(ConfigError::MissingTitle),
                    Some(name) => Ok(ChannelView { url: u, author: name, group }),
                },
            }
        },
    }
}

/// The channels of one container's children, in outline order; the first
/// offending child aborts the whole load.
pub open spec fn spec_group_channels(cs: Seq<OutlineChildView>, group: Seq<char>) -> Result<
    Seq<ChannelView>,
    ConfigError,
>
    decreases cs.len(),
{
    if cs.len() == 0 {
        Ok(Seq::empty())
    } else {
        let c = cs.first();
        match spec_entry_channel(c.feed_type, c.xml_url, c.title, group) {
            Err(e) => Err(e),
            Ok(ch) => match spec_group_channels(cs.drop_first(), group) {
                Ok(rest) => Ok(seq![ch] + rest),
                Err(e) => Err(e),
            },
        }
    }
}

/// The flat channel list of the whole outline: a typed top-level item is an
/// ungrouped channel, an untyped item is a container whose children share
/// its text as their group; any malformed item aborts the whole load.
pub open spec fn spec_channels_of(items: Seq<OutlineItemView>) -> Result<
    Seq<ChannelView>,
    ConfigError,
>
    decreases items.len(),
{
    if items.len() == 0 {
        Ok(Seq::empty())
    } else {
        let it = items.first();
        let head: Result<Seq<ChannelView>, ConfigError> = match it.feed_type {
            Some(_) => match spec_entry_channel(
                it.feed_type,
                it.xml_url,
                it.title,
                Seq::empty(),
            ) {
                Ok(ch) => Ok(seq![ch]),
                Err(e) => Err(e),
            },
            None => spec_group_channels(it.children, it.text),
        };
        match head {
            Err(e) => Err(e),
            Ok(chs) => match spec_channels_of(items.drop_first()) {
                Ok(rest) => Ok(chs + rest),
                Err(e) => Err(e),
            },
        }
    }
}

/// The view of a loaded channel list.
pub open spec fn channels_result_view(r: Result<Vec<Channel>, ConfigError>) -> Result<
    Seq<ChannelView>,
    ConfigError,
> {
    match r {
        Ok(v) => Ok(v.deep_view()),
        Err(e) => Err(e),
    }
}

/// Builds one channel from a typed outline entry's attributes.
fn entry_channel(
    feed_type: &Option<String>,
    xml_url: &Option<String>,
    title: &Option<String>,
    group: &String,
) -> (r: Result<Channel, ConfigError>)
    ensures
        (match r {
            Ok(ch) => spec_entry_channel(
                feed_type.deep_view(),
                xml_url.deep_view(),
                title.deep_view(),
                group@,
            ) == Ok::<ChannelView, ConfigError>(ch@),
            Err(e) => spec_entry_channel(
                feed_type.deep_view(),
                xml_url.deep_view(),
                title.deep_view(),
                group@,
            ) == Err::<ChannelView, ConfigError>(e),
        }),
{
    let label: String = "rss".to_owned();
    match feed_type {
        None => Err(ConfigError::MissingType),
        Some(t) => {
            if *t != label {
                Err(ConfigError::NotFeedType)
            } else {
                match xml_url {
                    None => Err(ConfigError::MissingUrl),
                    Some(u) => match title {
                        None => Err(ConfigError::MissingTitle),
                        Some(name) => Ok(
                            Channel {
                                url: u.clone(),
                                author: name.clone(),
                                group: group.clone(),
                            },
                        ),
                    },
                }
            }
        },
    }
}

/// The channels of one container's children.
fn group_channels(children: &Vec<OutlineChild>, group: &String) -> (r: Result<
    Vec<Channel>,
    ConfigError,
>)
    ensures
        channels_result_view(r) == spec_group_channels(children.deep_view(), group@),
{
    let ghost cv = children.deep_view();
    let mut out: Vec<Channel> = Vec::new();
    let n = children.len();
    let mut i: usize = 0;
    proof {
        assert(cv.skip(0) =~= cv);
        if spec_group_channels(cv, group@) is Ok {
            assert(out.deep_view() + spec_group_channels(cv, group@)->Ok_0
                =~= spec_group_channels(cv, group@)->Ok_0);
        }
    }
    while i < n
        invariant
            n == children@.len(),
            i <= n,
            cv == children.deep_view(),
            spec_group_channels(cv, group@) == (match spec_group_channels(
                cv.skip(i as int),
                group@,
            ) {
                Ok(rest) => Ok::<Seq<ChannelView>, ConfigError>(out.deep_view() + rest),
                Err(e) => Err::<Seq<ChannelView>, ConfigError>(e),
            }),
        decreases n - i,
    {
        let c = &children[i];
        proof {
            assert(cv.skip(i as int).first() == cv[i as int]);
            assert(cv.skip(i as int).drop_first() =~= cv.skip(i as int + 1));
            assert(cv[i as int] == c.view());
        }
        match entry_channel(&c.feed_type, &c.xml_url, &c.title, group) {
            Err(e) => {
                return Err(e);
            },
            Ok(ch) => {
                let ghost prev = out.deep_view();
                let ghost chv = ch@;
                out.push(ch);
                proof {
                    assert(out.deep_view() =~= prev.push(chv));
                    if spec_group_channels(cv.skip(i as int + 1), group@) is Ok {
                        let rest = spec_group_channels(cv.skip(i as int + 1), group@)->Ok_0;
                        assert(prev + (seq![chv] + rest) =~= out.deep_view() + rest);
                    }
                }
            },
        }
        i += 1;
    }
    proof {
        assert(cv.skip(n as int) =~= Seq::<OutlineChildView>::empty());
        assert(out.deep_view() + Seq::<ChannelView>::empty() =~= out.deep_view());
    }
    Ok(out)
}

/// Flattens the subscription outline into the channel list: typed items
/// stand alone and ungrouped, untyped items contribute their children under
/// the container's text as group; the first malformed item aborts the whole
/// load, before any network activity.
pub fn channels_of_outline(items: &Vec<OutlineItem>) -> (r: Result<Vec<Channel>, ConfigError>)
    ensures
        channels_result_view(r) == spec_channels_of(items.deep_view()),
{
    let ghost iv = items.deep_view();
    let mut out: Vec<Channel> = Vec::new();
    let n = items.len();
    let mut i: usize = 0;
    proof {
        assert(iv.skip(0) =~= iv);
        if spec_channels_of(iv) is Ok {
            assert(out.deep_view() + spec_channels_of(iv)->Ok_0 =~= spec_channels_of(iv)->Ok_0);
        }
    }
    while i < n
        invariant
            n == items@.len(),
            i <= n,
            iv == items.deep_view(),
            spec_channels_of(iv) == (match spec_channels_of(iv.skip(i as int)) {
                Ok(rest) => Ok::<Seq<ChannelView>, ConfigError>(out.deep_view() + rest),
                Err(e) => Err::<Seq<ChannelView>, ConfigError>(e),
            }),
        decreases n - i,
    {
        let it = &items[i];
        proof {
            assert(iv.skip(i as int).first() == iv[i as int]);
            assert(iv.skip(i as int).drop_first() =~= iv.skip(i as int + 1));
            assert(iv[i as int] == it.view());
        }
        let is_typed = match &it.feed_type {
            Some(_) => true,
            None => false,
        };
        if is_typed {
            let empty_group = String::new();
            match entry_channel(&it.feed_type, &it.xml_url, &it.title, &empty_group) {
                Err(e) => {
                    return Err(e);
                },
                Ok(ch) => {
                    let ghost prev = out.deep_view();
                    let ghost chv = ch@;
                    out.push(ch);
                    proof {
                        assert(out.deep_view() =~= prev.push(chv));
                        if spec_channels_of(iv.skip(i as int + 1)) is Ok {
                            let rest = spec_channels_of(iv.skip(i as int + 1))->Ok_0;
                            assert(prev + (seq![chv] + rest) =~= out.deep_view() + rest);
                        }
                    }
                },
            }
        } else {
            match group_channels(&it.children, &it.text) {
                Err(e) => {
                    return Err(e);
                },
                Ok(mut chs) => {
                    let ghost prev = out.deep_view();
                    let ghost chsv = chs.deep_view();
                    out.append(&mut chs);
                    proof {
                        assert(out.deep_view() =~= prev + chsv);
                        if spec_channels_of(iv.skip(i as int + 1)) is Ok {
                            let rest = spec_channels_of(iv.skip(i as int + 1))->Ok_0;
                            assert(prev + (chsv + rest) =~= out.deep_view() + rest);
                        }
                    }
                },
            }
        }
        i += 1;
    }
    proof {
        assert(iv.skip(n as int) =~= Seq::<OutlineItemView>::empty());
        assert(out.deep_view() + Seq::<ChannelView>::empty() =~= out.deep_view());
    }
    Ok(out)
}

} // verus!
