//! Data models: feed items and the bounded history that tells new items
//! from those already seen.

use crate::history::{
    absorbed_prefix, after_batch, distinct, fresh, fresh_prefix, lemma_absorbed_prefix_step,
    lemma_distinct_front, lemma_seen_counts, lemma_seen_drop_last, lemma_seen_front, offered,
    remembers, seen, truncated, CAPACITY,
};
use crate::utils::{strip_html, stripped};
use std::collections::VecDeque;
use std::hash::{Hash, Hasher};
use std::rc::Rc;
use vstd::hash_set::StringHashSet;
use vstd::prelude::*;
use vstd::string::StringExecFns;

verus! {

/// The ways one polling cycle can end without anything to send.
#[derive(Debug, Clone, Copy, PartialEq, Eq, Structural)]
pub enum ApplicationError {
    /// The feed could not be fetched.
    Fetching,
    /// The fetched payload is not a feed.
    Parsing,
    /// New items were found on the first run and are held back.
    SkippingFirstRun,
    /// The feed holds nothing that has not been seen.
    NoNewItems,
}

/// A feed item.
#[derive(Debug)]
pub struct HnItem {
    /// The title of the item.
    pub title: String,
    /// The snippet of the item, with markup removed.
    pub snippet: String,
    /// The GUID of the item: its identity.
    pub guid: String,
}

/// The mathematical value of an item: its three texts.
pub ghost struct HnItemView {
    pub title: Seq<char>,
    pub snippet: Seq<char>,
    pub guid: Seq<char>,
}

impl View for HnItem {
    type V = HnItemView;

    open spec fn view(&self) -> HnItemView {
        HnItemView { title: self.title@, snippet: self.snippet@, guid: self.guid@ }
    }
}

/// The text sent for an item: its title on a first line, its snippet below.
pub open spec fn message_text(item: HnItemView) -> Seq<char> {
    "Title: "@ + item.title + seq!['\n'] + item.snippet
}

impl HnItem {
    /// Creates a new `HnItem`, stripping markup from the snippet.
    pub fn new(title: &str, snippet: &str, guid: &str) -> (item: Self)
        ensures
            item@ == (HnItemView { title: title@, snippet: stripped(snippet@), guid: guid@ }),
    {
        let snippet = strip_html(snippet);

        Self { title: title.to_owned(), snippet, guid: guid.to_owned() }
    }

    /// The message that announces this item.
    pub fn to_string(&self) -> (text: String)
        ensures
            text@ == message_text(self@),
    {
        let mut text = "Title: ".to_owned();
        text.append(self.title.as_str());
        text.push('\n');
        text.append(self.snippet.as_str());
        text
    }
}

impl Clone for HnItem {
    /// A copy with the same three texts.
    fn clone(&self) -> (copy: Self)
        ensures
            copy@ == self@,
    {
        Self { title: self.title.clone(), snippet: self.snippet.clone(), guid: self.guid.clone() }
    }
}

impl PartialEq for HnItem {
    /// Two items are the same item when their GUIDs are equal.
    fn eq(&self, other: &Self) -> (same: bool) {
        self.guid == other.guid
    }
}

impl vstd::std_specs::cmp::PartialEqSpecImpl for HnItem {
    open spec fn obeys_eq_spec() -> bool {
        true
    }

    open spec fn eq_spec(&self, other: &Self) -> bool {
        self.guid@ == other.guid@
    }
}

impl Eq for HnItem {}

impl Hash for HnItem {
    /// Feeds the GUID, and nothing else, to the hasher through `String::hash`,
    /// so that equal items hash alike. Nothing is claimed of the hasher's state.
    #[verifier::external_body]
    fn hash<H: Hasher>(&self, state: &mut H) {
        self.guid.hash(state);
    }
}

/// The values of a batch of items, in order.
pub open spec fn item_views(items: Seq<HnItem>) -> Seq<HnItemView> {
    items.map_values(|item: HnItem| item@)
}

/// The values of shared items, in order.
pub open spec fn shared_views(items: Seq<Rc<HnItem>>) -> Seq<HnItemView> {
    items.map_values(|item: Rc<HnItem>| item@)
}

/// `Rc::clone` hands out another pointer to the same item.
#[verifier::external_body]
fn share(item: &Rc<HnItem>) -> (other: Rc<HnItem>)
    ensures
        other == *item,
{
    Rc::clone(item)
}

/// What offering one item to the history did.
pub enum AddItemResult {
    /// The item was new; it is now the most recent one of the history.
    Added(Rc<HnItem>),
    /// An item of the same GUID is in the history, which did not change.
    AlreadyExists,
}

/// The items seen lately: a set of GUIDs for membership, and the items
/// themselves from the most recently added to the oldest.
pub struct HackerNews {
    items: StringHashSet,
    history: VecDeque<Rc<HnItem>>,
}

impl View for HackerNews {
    type V = Seq<HnItemView>;

    /// The remembered items, most recent first.
    closed spec fn view(&self) -> Seq<HnItemView> {
        shared_views(self.history@)
    }
}

impl HackerNews {
    /// The set and the sequence tell the same story, and no GUID occurs twice.
    #[verifier::type_invariant]
    spec fn consistent(self) -> bool {
        &&& distinct(shared_views(self.history@))
        &&& self.items@ == seen(shared_views(self.history@))
    }

    /// The GUIDs held for membership tests.
    pub closed spec fn seen(&self) -> Set<Seq<char>> {
        self.items@
    }

    /// Creates an empty history.
    pub fn new() -> (tracker: Self)
        ensures
            tracker@ == Seq::<HnItemView>::empty(),
            tracker.seen() == Set::<Seq<char>>::empty(),
    {
        let items = StringHashSet::new();
        let history: VecDeque<Rc<HnItem>> = VecDeque::new();
        proof {
            assert(shared_views(history@) =~= Seq::<HnItemView>::empty());
            assert(seen(shared_views(history@)) =~= Set::<Seq<char>>::empty());
        }
        Self { items, history }
    }

    /// The number of remembered items, which is also the number of GUIDs held.
    pub fn len(&self) -> (n: usize)
        ensures
            n == self@.len(),
            n == self.seen().len(),
            distinct(self@),
            self.seen() == seen(self@),
    {
        proof {
            use_type_invariant(self);
            lemma_seen_counts(self@);
        }
        self.history.len()
    }

    /// The most recently added item, if any.
    pub fn front(&self) -> (item: Option<&Rc<HnItem>>)
        ensures
            match item {
                Some(newest) => self@.len() > 0 && newest@ == self@[0],
                None => self@.len() == 0,
            },
    {
        if self.history.len() > 0 {
            Some(&self.history[0])
        } else {
            None
        }
    }

    /// The oldest remembered item, if any: the next one to leave.
    pub fn back(&self) -> (item: Option<&Rc<HnItem>>)
        ensures
            match item {
                Some(oldest) => self@.len() > 0 && oldest@ == self@[self@.len() - 1],
                None => self@.len() == 0,
            },
    {
        let n = self.history.len();
        if n > 0 {
            Some(&self.history[n - 1])
        } else {
            None
        }
    }

    /// The item at a position counted from the most recent one, if there is one.
    pub fn get(&self, index: usize) -> (item: Option<&Rc<HnItem>>)
        ensures
            match item {
                Some(found) => index < self@.len() && found@ == self@[index as int],
                None => index >= self@.len(),
            },
    {
        if index < self.history.len() {
            Some(&self.history[index])
        } else {
            None
        }
    }

    /// Whether an item of the same GUID is remembered.
    pub fn contains(&self, item: &HnItem) -> (known: bool)
        ensures
            known == remembers(self@, item@.guid),
    {
        proof {
            use_type_invariant(self);
        }
        self.items.contains(item.guid.as_str())
    }

    /// Returns the new items in the feed.
    ///
    /// Each item of the batch is offered in turn, so a GUID that occurs twice
    /// in one batch is new only the first time. The capacity is enforced once
    /// the whole batch is in: an item can be reported as new by the very call
    /// that drops it again. No new item at all is reported as `None`.
    pub fn whats_new(&mut self, items: Vec<HnItem>) -> (new_items: Option<Vec<Rc<HnItem>>>)
        ensures
            final(self)@ == after_batch(old(self)@, item_views(items@)),
            match new_items {
                Some(found) => found@.len() > 0 && shared_views(found@) == fresh(
                    old(self)@,
                    item_views(items@),
                ),
                None => fresh(old(self)@, item_views(items@)).len() == 0,
            },
            final(self)@.len() <= CAPACITY,
            distinct(final(self)@),
            final(self).seen() == seen(final(self)@),
            final(self).seen().len() == final(self)@.len(),
    {
        let ghost order = self@;
        let ghost batch = item_views(items@);
        let mut new_items: Vec<Rc<HnItem>> = Vec::new();
        proof {
            assert(absorbed_prefix(order, batch, 0) =~= order);
        }

        for item in it: items
            invariant
                batch == item_views(it.seq()),
                self@ == absorbed_prefix(order, batch, it.index() as int),
                shared_views(new_items@) == fresh_prefix(order, batch, it.index() as int),
        {
            proof {
                lemma_absorbed_prefix_step(order, batch, it.index() + 1);
            }
            match self.add_item_if_not_exists(item) {
                AddItemResult::Added(new_item) => {
                    new_items.push(new_item);
                },
                AddItemResult::AlreadyExists => {},
            }
        }

        self.truncate();
        proof {
            lemma_seen_counts(self@);
        }

        if new_items.is_empty() {
            None
        } else {
            Some(new_items)
        }
    }

    /// Offers one item to the history: an unknown GUID puts the item in front,
    /// a known one changes nothing, and the remembered copy keeps its texts.
    pub fn add_item_if_not_exists(&mut self, item: HnItem) -> (result: AddItemResult)
        ensures
            final(self)@ == offered(old(self)@, item@),
            match result {
                AddItemResult::Added(shared) => !remembers(old(self)@, item@.guid) && shared@
                    == item@,
                AddItemResult::AlreadyExists => remembers(old(self)@, item@.guid),
            },
            distinct(final(self)@),
            final(self).seen() == seen(final(self)@),
    {
        proof {
            use_type_invariant(&*self);
        }
        match self.items.contains(item.guid.as_str()) {
            true => AddItemResult::AlreadyExists,
            false => {
                let item = Rc::new(item);
                let mut taken = HackerNews::new();
                std::mem::swap(self, &mut taken);
                let HackerNews { mut items, mut history } = taken;
                proof {
                    lemma_seen_front(shared_views(history@), item@);
                    lemma_distinct_front(shared_views(history@), item@);
                    assert(shared_views(seq![item] + history@) =~= seq![item@] + shared_views(
                        history@,
                    ));
                }
                items.insert(item.guid.clone());
                history.push_front(share(&item));
                *self = HackerNews { items, history };
                AddItemResult::Added(item)
            },
        }
    }

    /// Enforces the capacity: while more than `CAPACITY` items are remembered,
    /// the oldest one leaves.
    pub fn truncate(&mut self)
        ensures
            final(self)@ == truncated(old(self)@),
            final(self)@.len() <= CAPACITY,
            distinct(final(self)@),
            final(self).seen() == seen(final(self)@),
    {
        proof {
            use_type_invariant(&*self);
        }
        let mut taken = HackerNews::new();
        std::mem::swap(self, &mut taken);
        let HackerNews { mut items, mut history } = taken;
        let ghost order = shared_views(history@);

        while history.len() > CAPACITY
            invariant
                history@.len() <= order.len(),
                history@.len() >= CAPACITY || history@.len() == order.len(),
                shared_views(history@) == order.take(history@.len() as int),
                distinct(shared_views(history@)),
                items@ == seen(shared_views(history@)),
            decreases history@.len(),
        {
            proof {
                lemma_seen_drop_last(shared_views(history@));
                assert(shared_views(history@.drop_last()) =~= shared_views(history@).drop_last());
                assert(order.take(history@.len() - 1) =~= order.take(
                    history@.len() as int,
                ).drop_last());
            }
            match history.pop_back() {
                Some(oldest) => {
                    items.remove(oldest.guid.as_str());
                },
                None => {},
            }
        }
        *self = HackerNews { items, history };
    }
}

} // verus!
