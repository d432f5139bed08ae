use feedwatch::date_time::DateTime;
use feedwatch::rss::{entries, feed, newest_date, newest_first, oldest_first, Error, Guid, Item, RawItem};

const T: i64 = 1_577_836_800;

fn stamp(offset: u32) -> String {
    format!("Wed, 01 Jan 2020 00:00:{:02} +0000", offset)
}

fn raw(id: &str, date: Option<&str>) -> RawItem {
    RawItem {
        title: Some(format!("title of {}", id)),
        link: Some(format!("https://example.org/{}", id)),
        description: None,
        guid: Some(Guid { value: id.to_string(), permalink: false }),
        pub_date: date.map(|d| d.to_string()),
    }
}

fn entry(id: &str, offset: u32) -> Item {
    Item::try_from(&raw(id, Some(&stamp(offset)))).unwrap()
}

fn ids(items: &[Item]) -> Vec<String> {
    items.iter().map(|i| i.title().unwrap().replace("title of ", "")).collect()
}

#[test]
fn try_from_keeps_what_the_feed_gave() {
    let item = Item::try_from(&RawItem {
        title: Some("Release notes".to_string()),
        link: Some("https://example.org/notes".to_string()),
        description: Some("What is new".to_string()),
        guid: Some(Guid { value: "notes-1".to_string(), permalink: true }),
        pub_date: Some("Wed, 01 Jan 2020 00:00:07 +0000".to_string()),
    })
    .unwrap();
    assert_eq!(item.title(), Some("Release notes"));
    assert_eq!(item.url(), Some("https://example.org/notes"));
    assert_eq!(item.description(), Some("What is new"));
    assert_eq!(*item.date(), DateTime { secs: T + 7, nanos: 0 });
}

#[test]
fn try_from_decodes_entities_in_title_and_description() {
    let item = Item::try_from(&RawItem {
        title: Some("Tom &amp; Jerry &#8211; again".to_string()),
        link: Some("https://example.org/?a=1&amp;b=2".to_string()),
        description: Some("&lt;b&gt;bold&lt;/b&gt; &quot;news&quot;".to_string()),
        guid: Some(Guid { value: "x".to_string(), permalink: false }),
        pub_date: Some(stamp(0)),
    })
    .unwrap();
    assert_eq!(item.title(), Some("Tom & Jerry \u{2013} again"));
    assert_eq!(item.description(), Some("<b>bold</b> \"news\""));
    assert_eq!(item.url(), Some("https://example.org/?a=1&amp;b=2"));
}

#[test]
fn try_from_leaves_absent_fields_absent() {
    let item = Item::try_from(&RawItem {
        title: None,
        link: None,
        description: None,
        guid: Some(Guid { value: "bare".to_string(), permalink: false }),
        pub_date: Some(stamp(1)),
    })
    .unwrap();
    assert_eq!(item.title(), None);
    assert_eq!(item.url(), None);
    assert_eq!(item.description(), None);
}

#[test]
fn try_from_needs_a_date() {
    let r = Item::try_from(&raw("a", None));
    assert_eq!(r.err(), Some(Error::Conversion));
}

#[test]
fn try_from_needs_a_date_that_can_be_read() {
    let r = Item::try_from(&raw("a", Some("2020-01-01 00:00:00")));
    assert_eq!(r.err(), Some(Error::Conversion));
}

#[test]
fn try_from_needs_an_identifier() {
    let mut item = raw("a", Some(&stamp(0)));
    item.guid = None;
    assert_eq!(Item::try_from(&item).err(), Some(Error::Conversion));
}

#[test]
fn entries_are_equal_by_identifier() {
    let a = entry("same", 1);
    let mut other = raw("same", Some(&stamp(9)));
    other.title = Some("another title".to_string());
    let b = Item::try_from(&other).unwrap();
    let c = entry("different", 1);
    assert!(a == b);
    assert!(a != c);
    let mut permalink = raw("same", Some(&stamp(1)));
    permalink.guid = Some(Guid { value: "same".to_string(), permalink: true });
    assert!(a != Item::try_from(&permalink).unwrap());
}

#[test]
fn entries_compare_newest_first() {
    let old = entry("old", 1);
    let new = entry("new", 2);
    assert!(new < old);
    assert!(old > new);
    assert_eq!(new.cmp(&old), std::cmp::Ordering::Less);
    assert_eq!(old.cmp(&new), std::cmp::Ordering::Greater);
    assert_eq!(old.cmp(&entry("twin", 1)), std::cmp::Ordering::Equal);
    assert_eq!(old.partial_cmp(&new), Some(std::cmp::Ordering::Greater));
    assert!(!(old < entry("twin", 1)));
    assert!(!(old > entry("twin", 1)));
}

#[test]
fn clone_keeps_every_field() {
    let item = Item::try_from(&RawItem {
        title: Some("t".to_string()),
        link: Some("l".to_string()),
        description: Some("d".to_string()),
        guid: Some(Guid { value: "g".to_string(), permalink: true }),
        pub_date: Some(stamp(3)),
    })
    .unwrap();
    let copy = item.clone();
    assert!(copy == item);
    assert_eq!(copy.title(), Some("t"));
    assert_eq!(copy.url(), Some("l"));
    assert_eq!(copy.description(), Some("d"));
    assert_eq!(copy.date(), item.date());
}

#[test]
fn newest_first_sorts_descending_and_keeps_ties() {
    let items = vec![entry("a", 1), entry("b", 3), entry("c", 1), entry("d", 2)];
    assert_eq!(ids(&newest_first(&items)), vec!["b", "d", "a", "c"]);
}

#[test]
fn oldest_first_sorts_ascending_and_keeps_ties() {
    let items = vec![entry("a", 2), entry("b", 3), entry("c", 1), entry("d", 2)];
    assert_eq!(ids(&oldest_first(&items)), vec!["c", "a", "d", "b"]);
}

#[test]
fn newest_date_is_the_maximum() {
    assert_eq!(newest_date(&Vec::new()), None);
    let items = vec![entry("a", 2), entry("b", 5), entry("c", 1)];
    assert_eq!(newest_date(&items), Some(DateTime { secs: T + 5, nanos: 0 }));
    let sorted = newest_first(&items);
    assert_eq!(newest_date(&sorted), Some(*sorted[0].date()));
}

#[test]
fn entries_skips_what_cannot_be_converted() {
    let mut no_guid = raw("no-guid", Some(&stamp(8)));
    no_guid.guid = None;
    let raws = vec![
        raw("a", Some(&stamp(1))),
        raw("no-date", None),
        raw("b", Some(&stamp(2))),
        no_guid,
        raw("bad-date", Some("soon")),
    ];
    assert_eq!(ids(&entries(&raws)), vec!["b", "a"]);
    assert_eq!(entries(&Vec::new()).len(), 0);
}

fn document(items: &str) -> Vec<u8> {
    format!(
        "<?xml version=\"1.0\" encoding=\"UTF-8\"?><rss version=\"2.0\"><channel>\
         <title>News</title><link>https://example.org/</link><description>All of it</description>\
         {}</channel></rss>",
        items
    )
    .into_bytes()
}

#[test]
fn feed_reads_the_items_newest_first() {
    let content = document(
        "<item><title>title of one</title><link>https://example.org/1</link>\
         <description>first &amp;amp; foremost</description>\
         <guid isPermaLink=\"false\">one</guid><pubDate>Wed, 01 Jan 2020 00:00:01 +0000</pubDate></item>\
         <item><title>title of three</title><guid>three</guid>\
         <pubDate>Wed, 01 Jan 2020 00:00:03 +0000</pubDate></item>\
         <item><title>title of two</title><guid>two</guid>\
         <pubDate>Wed, 01 Jan 2020 00:00:02 +0000</pubDate></item>",
    );
    let items = feed(&content).unwrap();
    assert_eq!(ids(&items), vec!["three", "two", "one"]);
    assert_eq!(items[2].url(), Some("https://example.org/1"));
    assert_eq!(items[2].description(), Some("first & foremost"));
    assert_eq!(*items[0].date(), DateTime { secs: T + 3, nanos: 0 });
    assert_eq!(items[0].url(), None);
}

#[test]
fn feed_skips_items_without_date_or_identifier() {
    let content = document(
        "<item><title>title of dateless</title><guid>dateless</guid></item>\
         <item><title>title of kept</title><guid>kept</guid>\
         <pubDate>Wed, 01 Jan 2020 00:00:05 +0000</pubDate></item>\
         <item><title>title of nameless</title>\
         <pubDate>Wed, 01 Jan 2020 00:00:06 +0000</pubDate></item>\
         <item><title>title of garbled</title><guid>garbled</guid><pubDate>last week</pubDate></item>",
    );
    assert_eq!(ids(&feed(&content).unwrap()), vec!["kept"]);
}

#[test]
fn feed_without_items_is_empty() {
    assert_eq!(feed(&document("")).unwrap().len(), 0);
}

#[test]
fn feed_rejects_what_is_no_feed() {
    assert_eq!(feed(b"<html><body>moved</body></html>").err(), Some(Error::Rss));
    assert_eq!(feed(b"").err(), Some(Error::Rss));
    assert_eq!(feed(b"<rss><channel><title>cut").err(), Some(Error::Rss));
}

#[test]
fn feed_errors_describe_themselves() {
    assert_eq!(Error::Request.to_string(), "request error");
    assert_eq!(Error::Rss.to_string(), "rss error");
    assert_eq!(Error::Conversion.to_string(), "conversion error");
}

#[test]
fn from_parts_makes_an_entry_of_identifier_and_date() {
    let date = DateTime { secs: T + 5, nanos: 250 };
    let item = Item::from_parts(
        Some(Guid { value: "g".to_string(), permalink: true }),
        Some("https://example.org/g".to_string()),
        Some("a &amp; b".to_string()),
        None,
        Some(date),
    )
    .unwrap();
    assert_eq!(item.url(), Some("https://example.org/g"));
    assert_eq!(item.title(), Some("a &amp; b"));
    assert_eq!(item.description(), None);
    assert_eq!(*item.date(), date);
    assert!(item == Item::from_parts(
        Some(Guid { value: "g".to_string(), permalink: true }),
        None,
        None,
        None,
        Some(DateTime { secs: 0, nanos: 0 }),
    )
    .unwrap());
}

#[test]
fn from_parts_needs_identifier_and_date() {
    let guid = || Some(Guid { value: "g".to_string(), permalink: false });
    let date = Some(DateTime { secs: T, nanos: 0 });
    assert_eq!(Item::from_parts(None, None, None, None, date).err(), Some(Error::Conversion));
    assert_eq!(Item::from_parts(guid(), None, None, None, None).err(), Some(Error::Conversion));
    assert_eq!(Item::from_parts(None, None, None, None, None).err(), Some(Error::Conversion));
    assert!(Item::from_parts(guid(), None, None, None, date).is_ok());
}
