//! From a fetched payload to feed items: the entries of a feed as they were
//! read, and the rule that turns an entry into an item.

use crate::models::{item_views, ApplicationError, HnItem, HnItemView};
use crate::utils::stripped;
use vstd::prelude::*;

verus! {

/// One entry of a feed as read: each of its texts may be missing.
#[derive(Debug)]
pub struct FeedEntry {
    /// The entry's title.
    pub title: Option<String>,
    /// The entry's description, markup included.
    pub description: Option<String>,
    /// The value of the entry's GUID.
    pub guid: Option<String>,
}

/// The mathematical value of an entry.
pub ghost struct FeedEntryView {
    pub title: Option<Seq<char>>,
    pub description: Option<Seq<char>>,
    pub guid: Option<Seq<char>>,
}

/// The text of an optional string.
pub open spec fn text_of(text: Option<String>) -> Option<Seq<char>> {
    match text {
        Some(s) => Some(s@),
        None => None,
    }
}

impl View for FeedEntry {
    type V = FeedEntryView;

    open spec fn view(&self) -> FeedEntryView {
        FeedEntryView {
            title: text_of(self.title),
            description: text_of(self.description),
            guid: text_of(self.guid),
        }
    }
}

/// The text of an optional string slice.
pub open spec fn borrowed_text_of(text: Option<&str>) -> Option<Seq<char>> {
    match text {
        Some(s) => Some(s@),
        None => None,
    }
}

/// The owned copy of an optional text.
fn owned(text: Option<&str>) -> (copy: Option<String>)
    ensures
        text_of(copy) == borrowed_text_of(text),
{
    match text {
        Some(s) => Some(s.to_owned()),
        None => None,
    }
}

impl FeedEntry {
    /// An entry with the given texts.
    pub fn new(title: Option<&str>, description: Option<&str>, guid: Option<&str>) -> (entry: Self)
        ensures
            entry@ == (FeedEntryView {
                title: borrowed_text_of(title),
                description: borrowed_text_of(description),
                guid: borrowed_text_of(guid),
            }),
    {
        Self { title: owned(title), description: owned(description), guid: owned(guid) }
    }
}

/// The first text that an entry lacks, as the complaint about it; `None` for
/// a complete entry.
pub open spec fn complaint(entry: FeedEntryView) -> Option<Seq<char>> {
    if entry.title is None {
        Some("Missing title"@)
    } else if entry.description is None {
        Some("Missing description"@)
    } else if entry.guid is None {
        Some("Missing guid"@)
    } else {
        None
    }
}

/// The item that a complete entry stands for: its title and GUID as they
/// are, its description with markup removed. An incomplete entry stands for
/// none.
pub open spec fn converted(entry: FeedEntryView) -> Option<HnItemView> {
    if complaint(entry) is None {
        Some(
            HnItemView {
                title: entry.title->0,
                snippet: stripped(entry.description->0),
                guid: entry.guid->0,
            },
        )
    } else {
        None
    }
}

/// A trait for converting an object to an `HnItem`.
pub trait ConvertibleToHnItem {
    /// Converts the object to an `HnItem`, if it holds all that an item needs.
    fn convert_to_hn_item(&self) -> Option<HnItem>;
}

impl ConvertibleToHnItem for FeedEntry {
    fn convert_to_hn_item(&self) -> (item: Option<HnItem>)
        ensures
            match item {
                Some(made) => converted(self@) == Some(made@),
                None => converted(self@) is None,
            },
    {
        match (&self.title, &self.description, &self.guid) {
            (Some(title), Some(description), Some(guid)) => Some(
                HnItem::new(title.as_str(), description.as_str(), guid.as_str()),
            ),
            _ => None,
        }
    }
}

impl HnItem {
    /// Converts an entry to an item, or says which text is missing first.
    pub fn try_from(entry: &FeedEntry) -> (item: Result<Self, &'static str>)
        ensures
            match item {
                Ok(made) => converted(entry@) == Some(made@),
                Err(message) => complaint(entry@) == Some(message@),
            },
    {
        match &entry.title {
            None => Err("Missing title"),
            Some(title) => match &entry.description {
                None => Err("Missing description"),
                Some(description) => match &entry.guid {
                    None => Err("Missing guid"),
                    Some(guid) => Ok(
                        HnItem::new(title.as_str(), description.as_str(), guid.as_str()),
                    ),
                },
            },
        }
    }
}

/// The values of a sequence of entries, in order.
pub open spec fn entry_views(entries: Seq<FeedEntry>) -> Seq<FeedEntryView> {
    entries.map_values(|entry: FeedEntry| entry@)
}

/// The items that the first `n` entries stand for, in order; incomplete
/// entries are passed over.
pub open spec fn converted_prefix(entries: Seq<FeedEntryView>, n: int) -> Seq<HnItemView>
    decreases n,
{
    if n <= 0 {
        Seq::empty()
    } else {
        match converted(entries[n - 1]) {
            Some(item) => converted_prefix(entries, n - 1).push(item),
            None => converted_prefix(entries, n - 1),
        }
    }
}

/// The items that the entries of a feed stand for, in feed order.
pub open spec fn converted_all(entries: Seq<FeedEntryView>) -> Seq<HnItemView> {
    converted_prefix(entries, entries.len() as int)
}

/// Converts the entries of a feed to items, in order, and passes over the
/// incomplete ones.
pub fn collect_items(entries: &Vec<FeedEntry>) -> (items: Vec<HnItem>)
    ensures
        item_views(items@) == converted_all(entry_views(entries@)),
{
    let mut items: Vec<HnItem> = Vec::new();
    for i in 0..entries.len()
        invariant
            item_views(items@) == converted_prefix(entry_views(entries@), i as int),
    {
        let ghost before = item_views(items@);
        match HnItem::try_from(&entries[i]) {
            Ok(item) => {
                items.push(item);
                assert(item_views(items@) =~= before.push(item@));
            },
            Err(_) => {},
        }
    }
    items
}

/// The error of the `rss` crate's reader: carried through, never looked into.
#[verifier::external_type_specification]
#[verifier::external_body]
pub struct ExRssError(rss::Error);

/// What the `rss` crate's reader makes of a payload: the items of the channel
/// it builds, in the order in which `Channel::items` gives them, each with
/// the title, description and GUID value that it carries; `None` for a
/// payload that the reader refuses.
pub uninterp spec fn feed_entries(payload: Seq<u8>) -> Option<Seq<FeedEntryView>>;

/// Reads a payload with `rss::Channel::read_from` and copies, for each item
/// of the channel in order, what `Item::title`, `Item::description` and the
/// `Guid::value` of `Item::guid` return. The outcome depends on the payload
/// alone; it is not proved, but named: `feed_entries`.
#[verifier::external_body]
fn read_entries(payload: &[u8]) -> (entries: Result<Vec<FeedEntry>, rss::Error>)
    ensures
        match entries {
            Ok(found) => feed_entries(payload@) == Some(entry_views(found@)),
            Err(_) => feed_entries(payload@) is None,
        },
{
    let channel = rss::Channel::read_from(payload)?;
    Ok(
        channel.items().iter().map(
            |item|
                FeedEntry::new(
                    item.title(),
                    item.description(),
                    item.guid().map(rss::Guid::value),
                ),
        ).collect(),
    )
}

/// Parses a fetched payload into feed items: the complete entries of the
/// feed, in feed order. A payload that the reader refuses is a parsing error.
pub fn parse_feed(payload: &[u8]) -> (items: Result<Vec<HnItem>, ApplicationError>)
    ensures
        match items {
            Ok(found) => feed_entries(payload@) is Some && item_views(found@) == converted_all(
                feed_entries(payload@)->0,
            ),
            Err(error) => feed_entries(payload@) is None && error == ApplicationError::Parsing,
        },
{
    match read_entries(payload) {
        Ok(entries) => Ok(collect_items(&entries)),
        Err(_) => Err(ApplicationError::Parsing),
    }
}

} // verus!
