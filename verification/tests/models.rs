use hn_tracker::models::{AddItemResult, HackerNews, HnItem};
use std::collections::hash_map::DefaultHasher;
use std::hash::{Hash, Hasher};
use std::rc::Rc;

#[test]
fn it_creates_a_new_instance_of_hnitem() {
    let instance = HnItem::new("title", "snippet", "guid");
    assert_eq!(instance.title, "title");
    assert_eq!(instance.snippet, "snippet");
}

#[test]
fn it_strips_html_from_snippet() {
    let instance = HnItem::new("title", "<p>snippet</p>", "");
    assert_eq!(instance.snippet, "snippet");
}

#[test]
fn it_adds_items_to_history() {
    let mut instance = HackerNews::new();
    let item = HnItem::new("title", "snippet", "");
    instance.add_item_if_not_exists(item);
    assert_eq!(instance.len(), 1);
}

#[test]
fn it_does_not_add_duplicate_items_to_history() {
    let mut instance = HackerNews::new();
    let item = HnItem::new("title", "snippet", "guid");
    instance.add_item_if_not_exists(item.clone());
    instance.add_item_if_not_exists(item);
    assert_eq!(instance.len(), 1);
}

#[test]
fn it_truncates_history() {
    let mut instance = HackerNews::new();
    let mut items = Vec::new();
    assert_eq!(instance.len(), 0);

    for i in 0..111 {
        let item = HnItem::new("title", "snippet", &i.to_string());
        items.push(item);
    }

    instance.whats_new(items);

    assert_eq!(instance.len(), 100);
}

#[test]
fn it_retains_the_latest_items_when_it_truncates() {
    let mut instance = HackerNews::new();
    let mut items = Vec::new();

    assert_eq!(instance.len(), 0);

    for i in 0..111 {
        let numbered_title = format!("title{}", i);
        let item = HnItem::new(&numbered_title, "snippet", &i.to_string());
        items.push(item);
    }

    instance.whats_new(items);

    assert_eq!(instance.len(), 100);
    assert_eq!(instance.front().unwrap().title, "title110");
    assert_eq!(instance.back().unwrap().title, "title11");
}

#[test]
fn it_returns_new_items() {
    let mut instance = HackerNews::new();
    let item = HnItem::new("title", "snippet", "");
    let items = vec![item.clone()];
    let new_items = instance.whats_new(items);

    assert_eq!(new_items, Some(vec![Rc::new(item)]));
    assert_eq!(instance.len(), 1);
}

#[test]
fn it_does_not_return_items_that_are_already_in_history() {
    let mut instance = HackerNews::new();
    let item = HnItem::new("title", "snippet", "guid");
    instance.add_item_if_not_exists(item.clone());
    let items = vec![item.clone()];
    let new_items = instance.whats_new(items);

    assert_eq!(new_items, None);

    let item2 = HnItem::new("title2", "snippet2", "guid 2");
    let items2 = vec![item.clone(), item2.clone()];
    let new_items2 = instance.whats_new(items2);

    assert_eq!(new_items2, Some(vec![Rc::new(item2)]));
}

fn numbered(i: usize) -> HnItem {
    HnItem::new(&format!("title{}", i), "snippet", &i.to_string())
}

fn guids(found: &Option<Vec<Rc<HnItem>>>) -> Vec<String> {
    match found {
        Some(items) => items.iter().map(|item| item.guid.clone()).collect(),
        None => Vec::new(),
    }
}

#[test]
fn a_new_item_keeps_its_three_texts() {
    let item = HnItem::new("A title", "<p>Some <b>bold</b> text</p>", "guid-7");
    assert_eq!(item.title, "A title");
    assert_eq!(item.snippet, "Some bold text");
    assert_eq!(item.guid, "guid-7");
}

#[test]
fn items_are_equal_when_their_guids_are() {
    let one = HnItem::new("title", "snippet", "guid");
    let other = HnItem::new("another title", "another snippet", "guid");
    let third = HnItem::new("title", "snippet", "guid 2");
    assert!(one == other);
    assert!(one != third);
}

#[test]
fn equal_items_hash_alike() {
    let one = HnItem::new("title", "snippet", "guid");
    let other = HnItem::new("another title", "another snippet", "guid");
    let mut first = DefaultHasher::new();
    let mut second = DefaultHasher::new();
    let mut plain = DefaultHasher::new();
    one.hash(&mut first);
    other.hash(&mut second);
    "guid".to_string().hash(&mut plain);
    assert_eq!(first.finish(), second.finish());
    assert_eq!(first.finish(), plain.finish());
}

#[test]
fn a_clone_has_the_same_texts() {
    let item = HnItem::new("title", "snippet", "guid");
    let copy = item.clone();
    assert_eq!(copy.title, "title");
    assert_eq!(copy.snippet, "snippet");
    assert_eq!(copy.guid, "guid");
}

#[test]
fn the_message_has_the_title_line_and_the_snippet() {
    let item = HnItem::new("Show HN", "<p>A thing</p>", "guid");
    assert_eq!(item.to_string(), "Title: Show HN\nA thing");
    let empty = HnItem::new("", "", "");
    assert_eq!(empty.to_string(), "Title: \n");
}

#[test]
fn a_fresh_history_is_empty() {
    let instance = HackerNews::new();
    assert_eq!(instance.len(), 0);
    assert!(instance.front().is_none());
    assert!(instance.back().is_none());
    assert!(!instance.contains(&numbered(0)));
}

#[test]
fn an_empty_batch_yields_nothing_and_changes_nothing() {
    let mut instance = HackerNews::new();
    assert_eq!(instance.whats_new(Vec::new()), None);
    assert_eq!(instance.len(), 0);
    instance.whats_new(vec![numbered(1)]);
    assert_eq!(instance.whats_new(Vec::new()), None);
    assert_eq!(instance.len(), 1);
}

#[test]
fn adding_says_whether_the_item_was_known() {
    let mut instance = HackerNews::new();
    match instance.add_item_if_not_exists(HnItem::new("title", "snippet", "guid")) {
        AddItemResult::Added(item) => assert_eq!(item.title, "title"),
        AddItemResult::AlreadyExists => panic!("a fresh history knows no item"),
    }
    assert!(matches!(
        instance.add_item_if_not_exists(HnItem::new("title2", "snippet2", "guid")),
        AddItemResult::AlreadyExists
    ));
    assert_eq!(instance.len(), 1);
    assert_eq!(instance.front().unwrap().title, "title");
}

#[test]
fn the_remembered_copy_keeps_its_texts_when_its_guid_comes_again() {
    let mut instance = HackerNews::new();
    instance.whats_new(vec![HnItem::new("first title", "first", "guid")]);
    let again = instance.whats_new(vec![HnItem::new("second title", "second", "guid")]);
    assert_eq!(again, None);
    assert_eq!(instance.len(), 1);
    assert_eq!(instance.front().unwrap().title, "first title");
    assert_eq!(instance.front().unwrap().snippet, "first");
}

#[test]
fn a_known_item_does_not_move_to_the_front() {
    let mut instance = HackerNews::new();
    instance.whats_new(vec![numbered(1), numbered(2), numbered(3)]);
    instance.whats_new(vec![numbered(1)]);
    assert_eq!(instance.front().unwrap().guid, "3");
    assert_eq!(instance.back().unwrap().guid, "1");
}

#[test]
fn the_latest_item_of_a_batch_is_in_front() {
    let mut instance = HackerNews::new();
    instance.whats_new(vec![numbered(1), numbered(2)]);
    assert_eq!(instance.front().unwrap().guid, "2");
    assert_eq!(instance.back().unwrap().guid, "1");
    instance.whats_new(vec![numbered(3), numbered(4)]);
    assert_eq!(instance.front().unwrap().guid, "4");
    assert_eq!(instance.back().unwrap().guid, "1");
}

#[test]
fn the_same_item_twice_in_a_row_is_new_only_once() {
    let mut instance = HackerNews::new();
    let item = HnItem::new("title", "snippet", "guid");
    let first = instance.whats_new(vec![item.clone()]);
    let second = instance.whats_new(vec![item.clone()]);
    assert_eq!(first, Some(vec![Rc::new(item)]));
    assert_eq!(second, None);
}

#[test]
fn the_same_batch_twice_in_a_row_is_new_only_once() {
    let mut instance = HackerNews::new();
    let batch: Vec<HnItem> = (0..100).map(numbered).collect();
    let first = instance.whats_new(batch.clone());
    let second = instance.whats_new(batch);
    assert_eq!(guids(&first).len(), 100);
    assert_eq!(second, None);
}

#[test]
fn an_item_twice_in_one_batch_is_new_only_the_first_time() {
    let mut instance = HackerNews::new();
    let first = HnItem::new("first", "snippet", "guid");
    let twin = HnItem::new("twin", "snippet", "guid");
    let found = instance.whats_new(vec![first, twin]).unwrap();
    assert_eq!(found.len(), 1);
    assert_eq!(found[0].title, "first");
    assert_eq!(instance.len(), 1);
    assert_eq!(instance.front().unwrap().title, "first");
}

#[test]
fn new_items_come_back_in_batch_order() {
    let mut instance = HackerNews::new();
    instance.whats_new(vec![numbered(2), numbered(4)]);
    let found = instance.whats_new(vec![
        numbered(5),
        numbered(4),
        numbered(1),
        numbered(5),
        numbered(2),
        numbered(3),
    ]);
    assert_eq!(guids(&found), vec!["5", "1", "3"]);
    assert_eq!(instance.len(), 5);
    assert_eq!(instance.front().unwrap().guid, "3");
    assert_eq!(instance.back().unwrap().guid, "2");
}

#[test]
fn a_batch_beyond_the_capacity_reports_all_and_keeps_the_latest_hundred() {
    let mut instance = HackerNews::new();
    let batch: Vec<HnItem> = (0..111).map(numbered).collect();
    let found = instance.whats_new(batch);
    let expected: Vec<String> = (0..111).map(|i: usize| i.to_string()).collect();
    assert_eq!(guids(&found), expected);
    assert_eq!(instance.len(), 100);
    assert_eq!(instance.front().unwrap().guid, "110");
    assert_eq!(instance.back().unwrap().guid, "11");
    for i in 0..11 {
        assert!(!instance.contains(&numbered(i)));
    }
    for i in 11..111 {
        assert!(instance.contains(&numbered(i)));
    }
}

#[test]
fn an_item_dropped_by_the_call_that_reported_it_is_new_again() {
    let mut instance = HackerNews::new();
    instance.whats_new((0..111).map(numbered).collect());
    let found = instance.whats_new(vec![numbered(0), numbered(50)]);
    assert_eq!(guids(&found), vec!["0"]);
    assert_eq!(instance.len(), 100);
    assert_eq!(instance.front().unwrap().guid, "0");
    assert_eq!(instance.back().unwrap().guid, "12");
}

#[test]
fn the_capacity_is_enforced_only_when_the_whole_batch_is_in() {
    let mut instance = HackerNews::new();
    let mut batch: Vec<HnItem> = (0..111).map(numbered).collect();
    batch.push(numbered(0));
    let found = instance.whats_new(batch);
    assert_eq!(guids(&found).len(), 111);
    assert_eq!(instance.len(), 100);
    assert_eq!(instance.front().unwrap().guid, "110");
}

#[test]
fn a_known_item_is_reported_alone_when_it_comes_with_a_new_one() {
    let mut instance = HackerNews::new();
    instance.whats_new(vec![HnItem::new("title", "snippet", "guid-1")]);
    let found = instance.whats_new(vec![
        HnItem::new("title", "snippet", "guid-1"),
        HnItem::new("title", "snippet", "guid-2"),
    ]);
    assert_eq!(guids(&found), vec!["guid-2"]);
}

#[test]
fn the_history_never_grows_beyond_the_capacity_over_many_calls() {
    let mut instance = HackerNews::new();
    for round in 0..30 {
        let batch: Vec<HnItem> = (round * 7..round * 7 + 12).map(numbered).collect();
        instance.whats_new(batch);
        assert!(instance.len() <= 100);
    }
    assert_eq!(instance.len(), 100);
    assert_eq!(instance.front().unwrap().guid, "214");
    assert_eq!(instance.back().unwrap().guid, "115");
}

#[test]
fn the_survivors_are_the_latest_hundred_in_order() {
    let mut instance = HackerNews::new();
    instance.whats_new((0..60).map(numbered).collect());
    instance.whats_new((40..130).map(numbered).collect());
    assert_eq!(instance.len(), 100);
    for position in 0..100 {
        assert_eq!(instance.get(position).unwrap().guid, (129 - position).to_string());
    }
    assert!(instance.get(100).is_none());
}

#[test]
fn no_guid_is_held_twice() {
    let mut instance = HackerNews::new();
    instance.whats_new(vec![numbered(1), numbered(2), numbered(1), numbered(3), numbered(2)]);
    instance.whats_new(vec![numbered(3), numbered(4), numbered(4), numbered(1)]);
    assert_eq!(instance.len(), 4);
    for position in 0..instance.len() {
        for other in 0..position {
            assert_ne!(
                instance.get(position).unwrap().guid,
                instance.get(other).unwrap().guid
            );
        }
    }
}

#[test]
fn truncating_drops_the_oldest_beyond_the_capacity() {
    let mut instance = HackerNews::new();
    for i in 0..105 {
        instance.add_item_if_not_exists(numbered(i));
    }
    assert_eq!(instance.len(), 105);
    instance.truncate();
    assert_eq!(instance.len(), 100);
    assert_eq!(instance.front().unwrap().guid, "104");
    assert_eq!(instance.back().unwrap().guid, "5");
    assert!(!instance.contains(&numbered(4)));
    instance.truncate();
    assert_eq!(instance.len(), 100);
}

#[test]
fn a_reported_item_is_the_one_the_history_holds() {
    let mut instance = HackerNews::new();
    let found = instance.whats_new(vec![numbered(1)]).unwrap();
    assert!(Rc::ptr_eq(&found[0], instance.front().unwrap()));
}
