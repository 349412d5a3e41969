use crate::date::Timestamp;
use vstd::prelude::*;

verus! {

/// One configured feed subscription: where to fetch, whom to credit, and
/// the optional grouping label (the empty string means "ungrouped").
pub struct Channel {
    pub url: String,
    pub author: String,
    pub group: String,
}

/// The mathematical shape of a `Channel`.
pub ghost struct ChannelView {
    pub url: Seq<char>,
    pub author: Seq<char>,
    pub group: Seq<char>,
}

impl View for Channel {
    type V = ChannelView;

    open spec fn view(&self) -> ChannelView {
        ChannelView { url: self.url@, author: self.author@, group: self.group@ }
    }
}

impl DeepView for Channel {
    type V = ChannelView;

    open spec fn deep_view(&self) -> ChannelView {
        self.view()
    }
}

/// One normalized feed item, ready for aggregation and rendering. The
/// author and group are copied from the owning channel at creation time.
pub struct Entry {
    pub title: String,
    pub author: String,
    pub published: Timestamp,
    pub url: String,
    pub group: String,
}

/// The mathematical shape of an `Entry`.
pub ghost struct EntryView {
    pub title: Seq<char>,
    pub author: Seq<char>,
    pub published: Timestamp,
    pub url: Seq<char>,
    pub group: Seq<char>,
}

impl View for Entry {
    type V = EntryView;

    open spec fn view(&self) -> EntryView {
        EntryView {
            title: self.title@,
            author: self.author@,
            published: self.published,
            url: self.url@,
            group: self.group@,
        }
    }
}

impl DeepView for Entry {
    type V = EntryView;

    open spec fn deep_view(&self) -> EntryView {
        self.view()
    }
}

impl Clone for Entry {
    fn clone(&self) -> (r: Self)
        ensures
            r@ == self@,
    {
        Entry {
            title: self.title.clone(),
            author: self.author.clone(),
            published: self.published,
            url: self.url.clone(),
            group: self.group.clone(),
        }
    }
}

/// Why one channel's payload yielded no entries.
#[derive(Clone, Copy, PartialEq, Eq, Structural, Debug)]
pub enum ParseError {
    /// An item of a channel-and-items payload carries no publication date.
    MissingDate,
    /// An item that should be rendered carries no link.
    MissingLink,
    /// The payload matches neither recognized feed format.
    UnknownFormat,
}

/// Why the subscription outline was rejected; any of these aborts the run.
#[derive(Clone, Copy, PartialEq, Eq, Structural, Debug)]
pub enum ConfigError {
    /// A typed outline item is not of the one accepted type.
    NotFeedType,
    /// An item inside a group carries no type at all.
    MissingType,
    /// A feed item carries no feed endpoint.
    MissingUrl,
    /// A feed item carries no display name.
    MissingTitle,
}

} // verus!
