use feedwatch::date_time::DateTime;
use feedwatch::dedup::select;
use feedwatch::rss::{Guid, Item, RawItem, Rss};

const T: i64 = 1_577_836_800;

fn at(offset: i64) -> DateTime {
    DateTime { secs: T + offset, nanos: 0 }
}

fn entry(id: &str, offset: u32) -> Item {
    Item::try_from(&RawItem {
        title: Some(id.to_string()),
        link: None,
        description: None,
        guid: Some(Guid { value: id.to_string(), permalink: false }),
        pub_date: Some(format!("Wed, 01 Jan 2020 00:00:{:02} +0000", offset)),
    })
    .unwrap()
}

fn titles(items: &[Item]) -> Vec<&str> {
    items.iter().map(|i| i.title().unwrap()).collect()
}

#[test]
fn a_new_store_knows_no_source() {
    let store = Rss::new();
    assert_eq!(store.watermark("https://example.org/feed"), None);
    assert_eq!(Rss::default().watermark(""), None);
}

#[test]
fn get_or_init_seeds_a_source_without_watermark() {
    let mut store = Rss::new();
    assert_eq!(store.get_or_init("a", at(3)), (None, at(3)));
    assert_eq!(store.watermark("a"), Some(at(3)));
    assert_eq!(store.watermark("b"), None);
}

#[test]
fn get_or_init_leaves_a_watermark_as_it_is() {
    let mut store = Rss::new();
    store.get_or_init("a", at(3));
    assert_eq!(store.get_or_init("a", at(9)), (Some(at(3)), at(3)));
    assert_eq!(store.watermark("a"), Some(at(3)));
    assert_eq!(store.get_or_init("a", at(1)), (Some(at(3)), at(3)));
    assert_eq!(store.watermark("a"), Some(at(3)));
}

#[test]
fn advance_takes_a_later_date() {
    let mut store = Rss::new();
    store.get_or_init("a", at(3));
    store.advance("a", at(4));
    assert_eq!(store.watermark("a"), Some(at(4)));
    store.advance("a", DateTime { secs: T + 4, nanos: 1 });
    assert_eq!(store.watermark("a"), Some(DateTime { secs: T + 4, nanos: 1 }));
}

#[test]
fn advance_never_moves_back() {
    let mut store = Rss::new();
    store.get_or_init("a", at(3));
    store.advance("a", at(2));
    assert_eq!(store.watermark("a"), Some(at(3)));
    store.advance("a", at(3));
    assert_eq!(store.watermark("a"), Some(at(3)));
}

#[test]
fn advance_sets_what_is_not_set() {
    let mut store = Rss::new();
    store.advance("a", at(-5));
    assert_eq!(store.watermark("a"), Some(at(-5)));
}

#[test]
fn sources_do_not_touch_each_other() {
    let mut store = Rss::new();
    store.get_or_init("a", at(1));
    store.get_or_init("b", at(2));
    store.advance("a", at(7));
    assert_eq!(store.watermark("a"), Some(at(7)));
    assert_eq!(store.watermark("b"), Some(at(2)));
}

#[test]
fn select_keeps_what_is_strictly_newer() {
    let fetched = vec![entry("d", 4), entry("c", 3), entry("b", 2), entry("a", 1)];
    assert_eq!(titles(&select(&fetched, at(3))), vec!["d"]);
    assert_eq!(titles(&select(&fetched, at(2))), vec!["c", "d"]);
}

#[test]
fn select_leaves_out_the_entry_at_the_watermark() {
    let fetched = vec![entry("c", 3), entry("b", 2), entry("a", 1)];
    let kept = select(&fetched, at(2));
    assert_eq!(titles(&kept), vec!["c"]);
    assert_eq!(select(&fetched, at(3)).len(), 0);
}

#[test]
fn select_hands_out_oldest_first() {
    let fetched = vec![entry("c", 3), entry("b", 2), entry("a", 1)];
    assert_eq!(titles(&select(&fetched, at(0))), vec!["a", "b", "c"]);
}

#[test]
fn select_sorts_whatever_order_it_is_given() {
    let fetched = vec![entry("b", 2), entry("d", 4), entry("a", 1), entry("c", 3)];
    assert_eq!(titles(&select(&fetched, at(1))), vec!["b", "c", "d"]);
}

#[test]
fn select_keeps_entries_of_one_date_in_their_order() {
    let fetched = vec![entry("x", 5), entry("y", 5), entry("z", 4)];
    assert_eq!(titles(&select(&fetched, at(0))), vec!["z", "x", "y"]);
}

#[test]
fn select_of_nothing_is_nothing() {
    assert_eq!(select(&Vec::new(), at(0)).len(), 0);
    let fetched = vec![entry("a", 1)];
    assert_eq!(select(&fetched, at(59)).len(), 0);
}

#[test]
fn select_counts_nanoseconds() {
    let fetched = vec![entry("a", 1)];
    assert_eq!(select(&fetched, DateTime { secs: T, nanos: 999_999_999 }).len(), 1);
    assert_eq!(select(&fetched, DateTime { secs: T + 1, nanos: 1 }).len(), 0);
}
