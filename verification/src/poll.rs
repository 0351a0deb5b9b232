//! What one polling cycle decides: from what was fetched, and from what the
//! history holds, to either the items to send or the reason for sending none.

use crate::conversions::{converted_all, feed_entries, parse_feed};
use crate::history::{after_batch, fresh};
use crate::models::{item_views, shared_views, ApplicationError, HackerNews, HnItem, HnItemView};
use std::rc::Rc;
use vstd::prelude::*;

verus! {

/// How a cycle ends for a batch of fetched items: nothing new, new items held
/// back because this is the first run, or the new items to send.
pub open spec fn verdict(order: Seq<HnItemView>, first_run: bool, batch: Seq<HnItemView>) -> Result<
    Seq<HnItemView>,
    ApplicationError,
> {
    if fresh(order, batch).len() == 0 {
        Err(ApplicationError::NoNewItems)
    } else if first_run {
        Err(ApplicationError::SkippingFirstRun)
    } else {
        Ok(fresh(order, batch))
    }
}

/// Whether the next cycle still counts as the first run: the first run lasts
/// until a cycle has held new items back.
pub open spec fn still_first_run(order: Seq<HnItemView>, first_run: bool, batch: Seq<HnItemView>) -> bool {
    first_run && fresh(order, batch).len() == 0
}

/// The outcome of a cycle says what `verdict` says.
pub open spec fn agrees(
    outcome: Result<Vec<Rc<HnItem>>, ApplicationError>,
    expected: Result<Seq<HnItemView>, ApplicationError>,
) -> bool {
    match outcome {
        Ok(found) => expected == Ok::<Seq<HnItemView>, ApplicationError>(shared_views(found@)),
        Err(error) => expected == Err::<Seq<HnItemView>, ApplicationError>(error),
    }
}

/// Ends a cycle whose fetch and parse went well: the items go through the
/// history, which remembers the new ones whatever the verdict.
pub fn report(hacker_news: &mut HackerNews, first_run: &mut bool, items: Vec<HnItem>) -> (outcome:
    Result<Vec<Rc<HnItem>>, ApplicationError>)
    ensures
        final(hacker_news)@ == after_batch(old(hacker_news)@, item_views(items@)),
        agrees(outcome, verdict(old(hacker_news)@, *old(first_run), item_views(items@))),
        *final(first_run) == still_first_run(
            old(hacker_news)@,
            *old(first_run),
            item_views(items@),
        ),
{
    match hacker_news.whats_new(items) {
        None => Err(ApplicationError::NoNewItems),
        Some(new_items) => {
            if *first_run {
                *first_run = false;
                Err(ApplicationError::SkippingFirstRun)
            } else {
                Ok(new_items)
            }
        },
    }
}

/// Runs the deciding part of one cycle on what the fetch brought: `None` for
/// a failed fetch, else the payload. A failed fetch and a payload that is not
/// a feed leave the history and the first-run mark as they were.
pub fn poll(hacker_news: &mut HackerNews, first_run: &mut bool, payload: Option<&[u8]>) -> (outcome:
    Result<Vec<Rc<HnItem>>, ApplicationError>)
    ensures
        match payload {
            None => {
                &&& outcome == Err::<Vec<Rc<HnItem>>, ApplicationError>(ApplicationError::Fetching)
                &&& final(hacker_news)@ == old(hacker_news)@
                &&& *final(first_run) == *old(first_run)
            },
            Some(bytes) => match feed_entries(bytes@) {
                None => {
                    &&& outcome == Err::<Vec<Rc<HnItem>>, ApplicationError>(
                        ApplicationError::Parsing,
                    )
                    &&& final(hacker_news)@ == old(hacker_news)@
                    &&& *final(first_run) == *old(first_run)
                },
                Some(entries) => {
                    &&& final(hacker_news)@ == after_batch(
                        old(hacker_news)@,
                        converted_all(entries),
                    )
                    &&& agrees(
                        outcome,
                        verdict(old(hacker_news)@, *old(first_run), converted_all(entries)),
                    )
                    &&& *final(first_run) == still_first_run(
                        old(hacker_news)@,
                        *old(first_run),
                        converted_all(entries),
                    )
                },
            },
        },
{
    match payload {
        None => Err(ApplicationError::Fetching),
        Some(bytes) => match parse_feed(bytes) {
            Err(error) => Err(error),
            Ok(items) => report(hacker_news, first_run, items),
        },
    }
}

} // verus!
