//! Feed entries: what a feed document holds, how a raw item becomes an
//! entry, and the order in which entries are handed on.

use crate::date_time::{parsed_date, DateTime};
use crate::order::{
    is_newest_first, is_oldest_first, lemma_newest_first_is_unique, lemma_oldest_first_is_unique,
    newest_first_order, oldest_first_order,
};
use crate::text::{borrow_text, clone_text, str_view, text_view};
use std::cmp::Ordering;
use vstd::hash_map::StringHashMap;
use vstd::prelude::*;
use vstd::std_specs::cmp::{PartialEqSpecImpl, PartialOrdSpecImpl};

verus! {

/// Why a feed could not be turned into entries.
#[derive(Debug, Clone, Copy, PartialEq, Eq, Structural)]
pub enum Error {
    /// The feed could not be retrieved.
    Request,
    /// The document is no feed.
    Rss,
    /// An item lacks its date or its identifier.
    Conversion,
}

impl Error {
    /// The text that describes each error.
    pub open spec fn message(self) -> Seq<char> {
        match self {
            Error::Request => "request error"@,
            Error::Rss => "rss error"@,
            Error::Conversion => "conversion error"@,
        }
    }

    /// A short description of the error.
    pub fn to_string(&self) -> (r: String)
        ensures
            r@ == self.message(),
    {
        match self {
            Error::Request => "request error".to_owned(),
            Error::Rss => "rss error".to_owned(),
            Error::Conversion => "conversion error".to_owned(),
        }
    }
}

/// The identifier that a feed gives an item, and whether it is the item's
/// permanent address.
#[derive(Debug)]
pub struct Guid {
    pub value: String,
    pub permalink: bool,
}

/// A `Guid` with its text as a sequence of characters.
pub struct GuidView {
    pub value: Seq<char>,
    pub permalink: bool,
}

impl View for Guid {
    type V = GuidView;

    open spec fn view(&self) -> GuidView {
        GuidView { value: self.value@, permalink: self.permalink }
    }
}

impl Clone for Guid {
    fn clone(&self) -> (r: Self)
        ensures
            r == *self,
    {
        Guid { value: self.value.clone(), permalink: self.permalink }
    }
}

/// The stable identity of an entry.
#[derive(Debug)]
pub struct Id(Guid);

impl View for Id {
    type V = GuidView;

    closed spec fn view(&self) -> GuidView {
        self.0@
    }
}

impl Clone for Id {
    fn clone(&self) -> (r: Self)
        ensures
            r == *self,
    {
        Id(self.0.clone())
    }
}

/// One item of a feed document as it was read, before any check.
#[derive(Debug)]
pub struct RawItem {
    pub title: Option<String>,
    pub link: Option<String>,
    pub description: Option<String>,
    pub guid: Option<Guid>,
    pub pub_date: Option<String>,
}

/// A `RawItem` with its texts as sequences of characters.
pub struct RawItemView {
    pub title: Option<Seq<char>>,
    pub link: Option<Seq<char>>,
    pub description: Option<Seq<char>>,
    pub guid: Option<GuidView>,
    pub pub_date: Option<Seq<char>>,
}

impl View for RawItem {
    type V = RawItemView;

    open spec fn view(&self) -> RawItemView {
        RawItemView {
            title: text_view(self.title),
            link: text_view(self.link),
            description: text_view(self.description),
            guid: match self.guid {
                Some(g) => Some(g@),
                None => None,
            },
            pub_date: text_view(self.pub_date),
        }
    }
}

impl Clone for RawItem {
    fn clone(&self) -> (r: Self)
        ensures
            r == *self,
    {
        RawItem {
            title: clone_text(&self.title),
            link: clone_text(&self.link),
            description: clone_text(&self.description),
            guid: match &self.guid {
                Some(guid) => Some(guid.clone()),
                None => None,
            },
            pub_date: clone_text(&self.pub_date),
        }
    }
}

/// One entry of a feed: it has an identity and a date, and may have a
/// title, a description and an address.
#[derive(Debug)]
pub struct Item {
    id: Id,
    url: Option<String>,
    title: Option<String>,
    description: Option<String>,
    date: DateTime,
}

/// An `Item` with its texts as sequences of characters.
pub struct ItemView {
    pub id: GuidView,
    pub url: Option<Seq<char>>,
    pub title: Option<Seq<char>>,
    pub description: Option<Seq<char>>,
    pub date: DateTime,
}

impl View for Item {
    type V = ItemView;

    closed spec fn view(&self) -> ItemView {
        ItemView {
            id: self.id@,
            url: text_view(self.url),
            title: text_view(self.title),
            description: text_view(self.description),
            date: self.date,
        }
    }
}

impl Clone for Item {
    fn clone(&self) -> (r: Self)
        ensures
            r == *self,
    {
        Item {
            id: self.id.clone(),
            url: clone_text(&self.url),
            title: clone_text(&self.title),
            description: clone_text(&self.description),
            date: self.date,
        }
    }
}

/// Two entries are the same entry where their identifiers are the same,
/// whatever else they hold.
impl PartialEq for Item {
    fn eq(&self, other: &Self) -> (r: bool) {
        self.id.0.value == other.id.0.value && self.id.0.permalink == other.id.0.permalink
    }
}

impl PartialEqSpecImpl for Item {
    open spec fn obeys_eq_spec() -> bool {
        true
    }

    open spec fn eq_spec(&self, other: &Item) -> bool {
        self@.id == other@.id
    }
}

impl Eq for Item {

}

/// How one entry stands to another in the order of entries: the newer of
/// two is the lesser, and entries of one date are equal.
pub open spec fn standing(a: ItemView, b: ItemView) -> Ordering {
    if b.date.before(a.date) {
        Ordering::Less
    } else if a.date.before(b.date) {
        Ordering::Greater
    } else {
        Ordering::Equal
    }
}

/// Entries are ordered by date, the newer one first.
impl PartialOrd for Item {
    fn partial_cmp(&self, b: &Item) -> (r: Option<Ordering>) {
        if b.date.is_before(&self.date) {
            Some(Ordering::Less)
        } else if self.date.is_before(&b.date) {
            Some(Ordering::Greater)
        } else {
            Some(Ordering::Equal)
        }
    }
}

impl PartialOrdSpecImpl for Item {
    open spec fn obeys_partial_cmp_spec() -> bool {
        true
    }

    open spec fn partial_cmp_spec(&self, b: &Item) -> Option<Ordering> {
        Some(standing(self@, b@))
    }
}

/// The text that html_escape makes of a text by replacing each character
/// reference that ends in `;` with the character it names.
pub uninterp spec fn decoded_entities(text: Seq<char>) -> Seq<char>;

/// An optional text with its character references replaced.
pub open spec fn decoded(text: Option<Seq<char>>) -> Option<Seq<char>> {
    match text {
        Some(t) => Some(decoded_entities(t)),
        None => None,
    }
}

/// The entry that its parts make: it needs an identifier and a date, the
/// rest is taken as it is.
pub open spec fn assembled(
    id: Option<GuidView>,
    url: Option<Seq<char>>,
    title: Option<Seq<char>>,
    description: Option<Seq<char>>,
    date: Option<DateTime>,
) -> Option<ItemView> {
    match (id, date) {
        (Some(id), Some(date)) => Some(ItemView { id, url, title, description, date }),
        _ => None,
    }
}

/// The date that a raw item was published at, where it names one that can
/// be read.
pub open spec fn published(raw: RawItemView) -> Option<DateTime> {
    match raw.pub_date {
        Some(text) => parsed_date(text),
        None => None,
    }
}

/// The entry that a raw item stands for: it needs a date that can be read
/// and an identifier; title and description have their character
/// references replaced, the address is taken as it is.
pub open spec fn converted(raw: RawItemView) -> Option<ItemView> {
    assembled(raw.guid, raw.link, decoded(raw.title), decoded(raw.description), published(raw))
}

/// Calls `html_escape::decode_html_entities`. Trusted: the result is that
/// function's, which depends on the text alone.
#[verifier::external_body]
fn decode_html_entities(text: &str) -> (r: String)
    ensures
        r@ == decoded_entities(text@),
{
    html_escape::decode_html_entities(text).to_string()
}

fn decode_text(text: &Option<String>) -> (r: Option<String>)
    ensures
        text_view(r) == decoded(text_view(*text)),
{
    match text {
        Some(t) => Some(decode_html_entities(t.as_str())),
        None => None,
    }
}

impl Item {
    /// The title, if the feed gave one.
    pub fn title(&self) -> (r: Option<&str>)
        ensures
            str_view(r) == self@.title,
    {
        borrow_text(&self.title)
    }

    /// The address, if the feed gave one.
    pub fn url(&self) -> (r: Option<&str>)
        ensures
            str_view(r) == self@.url,
    {
        borrow_text(&self.url)
    }

    /// The description, if the feed gave one.
    pub fn description(&self) -> (r: Option<&str>)
        ensures
            str_view(r) == self@.description,
    {
        borrow_text(&self.description)
    }

    /// When the entry was published.
    pub fn date(&self) -> (r: &DateTime)
        ensures
            *r == self@.date,
    {
        &self.date
    }

    /// How this entry stands to another: the newer of two comes first, and
    /// entries of one date are equal in this order.
    pub fn cmp(&self, b: &Item) -> (r: Ordering)
        ensures
            r == standing(self@, b@),
    {
        if b.date.is_before(&self.date) {
            Ordering::Less
        } else if self.date.is_before(&b.date) {
            Ordering::Greater
        } else {
            Ordering::Equal
        }
    }

    /// Makes an entry of its parts. Without an identifier there is no entry,
    /// nor without a date.
    pub fn from_parts(
        id: Option<Guid>,
        url: Option<String>,
        title: Option<String>,
        description: Option<String>,
        date: Option<DateTime>,
    ) -> (r: Result<Item, Error>)
        ensures
            match assembled(
                match id {
                    Some(guid) => Some(guid@),
                    None => None,
                },
                text_view(url),
                text_view(title),
                text_view(description),
                date,
            ) {
                Some(entry) => r is Ok && r->Ok_0@ == entry,
                None => r == Err::<Item, Error>(Error::Conversion),
            },
    {
        match (id, date) {
            (Some(guid), Some(date)) => Ok(Item { id: Id(guid), url, title, description, date }),
            _ => Err(Error::Conversion),
        }
    }

    /// Makes an entry of a raw item, or says that it cannot be one: the
    /// date is read, and the character references in title and description
    /// are replaced.
    pub fn try_from(item: &RawItem) -> (r: Result<Item, Error>)
        ensures
            match converted(item@) {
                Some(entry) => r is Ok && r->Ok_0@ == entry,
                None => r == Err::<Item, Error>(Error::Conversion),
            },
    {
        let date = match &item.pub_date {
            Some(text) => DateTime::parse_rfc2822(text.as_str()),
            None => None,
        };
        let id = match &item.guid {
            Some(guid) => Some(guid.clone()),
            None => None,
        };
        Item::from_parts(
            id,
            clone_text(&item.link),
            decode_text(&item.title),
            decode_text(&item.description),
            date,
        )
    }
}

/// The entries of a list, each by its view.
pub open spec fn views(items: Seq<Item>) -> Seq<ItemView> {
    Seq::new(items.len(), |i: int| items[i]@)
}

/// The raw items of a list, each by its view.
pub open spec fn raw_views(items: Seq<RawItem>) -> Seq<RawItemView> {
    Seq::new(items.len(), |i: int| items[i]@)
}

/// The dates of a list of entries, in the list's order.
pub open spec fn dates_of(entries: Seq<ItemView>) -> Seq<DateTime> {
    Seq::new(entries.len(), |i: int| entries[i].date)
}

/// The entries of `entries` read in the order that `perm` names.
pub open spec fn arranged(entries: Seq<ItemView>, perm: Seq<usize>) -> Seq<ItemView> {
    Seq::new(perm.len(), |i: int| entries[perm[i] as int])
}

/// `sorted` holds the entries of `entries`, each once, newest first; entries
/// of one date keep the order they had.
pub open spec fn is_newest_first_of(sorted: Seq<ItemView>, entries: Seq<ItemView>) -> bool {
    exists|perm: Seq<usize>| #[trigger]
        is_newest_first(dates_of(entries), perm) && sorted == arranged(entries, perm)
}

/// `sorted` holds the entries of `entries`, each once, oldest first; entries
/// of one date keep the order they had.
pub open spec fn is_oldest_first_of(sorted: Seq<ItemView>, entries: Seq<ItemView>) -> bool {
    exists|perm: Seq<usize>| #[trigger]
        is_oldest_first(dates_of(entries), perm) && sorted == arranged(entries, perm)
}

/// Entries can be arranged newest first in one way only.
pub proof fn lemma_newest_first_of_is_unique(
    sorted: Seq<ItemView>,
    other: Seq<ItemView>,
    entries: Seq<ItemView>,
)
    requires
        is_newest_first_of(sorted, entries),
        is_newest_first_of(other, entries),
    ensures
        sorted == other,
{
    let p = choose|perm: Seq<usize>| #[trigger]
        is_newest_first(dates_of(entries), perm) && sorted == arranged(entries, perm);
    let q = choose|perm: Seq<usize>| #[trigger]
        is_newest_first(dates_of(entries), perm) && other == arranged(entries, perm);
    lemma_newest_first_is_unique(dates_of(entries), p, q);
}

/// Entries can be arranged oldest first in one way only.
pub proof fn lemma_oldest_first_of_is_unique(
    sorted: Seq<ItemView>,
    other: Seq<ItemView>,
    entries: Seq<ItemView>,
)
    requires
        is_oldest_first_of(sorted, entries),
        is_oldest_first_of(other, entries),
    ensures
        sorted == other,
{
    let p = choose|perm: Seq<usize>| #[trigger]
        is_oldest_first(dates_of(entries), perm) && sorted == arranged(entries, perm);
    let q = choose|perm: Seq<usize>| #[trigger]
        is_oldest_first(dates_of(entries), perm) && other == arranged(entries, perm);
    lemma_oldest_first_is_unique(dates_of(entries), p, q);
}

/// The raw items that make an entry, converted, in the order they had.
pub open spec fn valid_items(raws: Seq<RawItemView>) -> Seq<ItemView>
    decreases raws.len(),
{
    if raws.len() == 0 {
        Seq::empty()
    } else {
        match converted(raws.last()) {
            Some(entry) => valid_items(raws.drop_last()).push(entry),
            None => valid_items(raws.drop_last()),
        }
    }
}

/// The date of the newest entry of a list; `None` for an empty list.
pub open spec fn newest_of(entries: Seq<ItemView>) -> Option<DateTime>
    decreases entries.len(),
{
    if entries.len() == 0 {
        None
    } else {
        match newest_of(entries.drop_last()) {
            Some(date) => Some(date.later_of(entries.last().date)),
            None => Some(entries.last().date),
        }
    }
}

/// The newest date of a list that is not empty is the date of one of its
/// entries, and no entry is newer.
pub proof fn lemma_newest_is_latest(entries: Seq<ItemView>)
    requires
        entries.len() > 0,
    ensures
        newest_of(entries) is Some,
        dates_of(entries).contains(newest_of(entries).unwrap()),
        forall|i: int|
            0 <= i < entries.len() ==> !newest_of(entries).unwrap().before((#[trigger] entries[i]).date),
    decreases entries.len(),
{
    let rest = entries.drop_last();
    let last = entries.len() - 1;
    if rest.len() == 0 {
        assert(dates_of(entries)[last] == entries.last().date);
    } else {
        lemma_newest_is_latest(rest);
        let best = newest_of(rest).unwrap();
        if best.before(entries.last().date) {
            assert(dates_of(entries)[last] == entries.last().date);
        } else {
            let k = choose|k: int| 0 <= k < dates_of(rest).len() && dates_of(rest)[k] == best;
            assert(dates_of(entries)[k] == best);
        }
        assert forall|i: int| 0 <= i < entries.len() implies !newest_of(entries).unwrap().before(
            (#[trigger] entries[i]).date,
        ) by {
            if i < last {
                assert(rest[i] == entries[i]);
            }
        }
    }
}

/// A list that runs newest first has its newest date in front.
pub proof fn lemma_newest_comes_first(entries: Seq<ItemView>)
    requires
        entries.len() > 0,
        forall|i: int, j: int|
            0 <= i < j < entries.len() ==> !(#[trigger] entries[i]).date.before((#[trigger] entries[j]).date),
    ensures
        newest_of(entries) == Some(entries[0].date),
{
    lemma_newest_is_latest(entries);
    let best = newest_of(entries).unwrap();
    let k = choose|k: int| 0 <= k < dates_of(entries).len() && dates_of(entries)[k] == best;
    assert(entries[k].date == best);
    if k > 0 {
        assert(!entries[0].date.before(entries[k].date));
    }
}

fn dates(items: &Vec<Item>) -> (r: Vec<DateTime>)
    ensures
        r@ == dates_of(views(items@)),
{
    let mut r: Vec<DateTime> = Vec::new();
    let mut i: usize = 0;
    while i < items.len()
        invariant
            i <= items@.len(),
            r@.len() == i,
            forall|k: int| 0 <= k < i ==> #[trigger] r@[k] == items@[k]@.date,
        decreases items@.len() - i,
    {
        r.push(*items[i].date());
        i += 1;
    }
    assert(r@ =~= dates_of(views(items@)));
    r
}

fn arrange(items: &Vec<Item>, perm: &Vec<usize>) -> (r: Vec<Item>)
    requires
        forall|i: int| 0 <= i < perm@.len() ==> (#[trigger] perm@[i]) < items@.len(),
    ensures
        views(r@) == arranged(views(items@), perm@),
{
    let mut r: Vec<Item> = Vec::new();
    let mut i: usize = 0;
    while i < perm.len()
        invariant
            i <= perm@.len(),
            r@.len() == i,
            forall|k: int| 0 <= k < perm@.len() ==> (#[trigger] perm@[k]) < items@.len(),
            forall|k: int| 0 <= k < i ==> #[trigger] r@[k] == items@[perm@[k] as int],
        decreases perm@.len() - i,
    {
        r.push(items[perm[i]].clone());
        i += 1;
    }
    assert(views(r@) =~= arranged(views(items@), perm@));
    r
}

/// The entries newest first; entries of one date keep their order.
pub fn newest_first(items: &Vec<Item>) -> (r: Vec<Item>)
    ensures
        is_newest_first_of(views(r@), views(items@)),
{
    let perm = newest_first_order(&dates(items));
    let r = arrange(items, &perm);
    assert(is_newest_first(dates_of(views(items@)), perm@));
    r
}

/// The entries oldest first; entries of one date keep their order.
pub fn oldest_first(items: &Vec<Item>) -> (r: Vec<Item>)
    ensures
        is_oldest_first_of(views(r@), views(items@)),
{
    let perm = oldest_first_order(&dates(items));
    let r = arrange(items, &perm);
    assert(is_oldest_first(dates_of(views(items@)), perm@));
    r
}

/// The date of the newest entry; `None` for an empty list.
pub fn newest_date(items: &Vec<Item>) -> (r: Option<DateTime>)
    ensures
        r == newest_of(views(items@)),
{
    let mut r: Option<DateTime> = None;
    let mut i: usize = 0;
    while i < items.len()
        invariant
            i <= items@.len(),
            r == newest_of(views(items@).take(i as int)),
        decreases items@.len() - i,
    {
        let date = *items[i].date();
        proof {
            let next = views(items@).take(i + 1);
            assert(next.drop_last() =~= views(items@).take(i as int));
            assert(next.last().date == date);
        }
        r = match r {
            Some(best) => if best.is_before(&date) { Some(date) } else { Some(best) },
            None => Some(date),
        };
        i += 1;
    }
    assert(views(items@).take(i as int) =~= views(items@));
    r
}

/// The raw items of a feed document as the rss crate reads them, each by its
/// view; `None` for a document that the crate rejects.
pub uninterp spec fn channel_items(content: Seq<u8>) -> Option<Seq<RawItemView>>;

/// Calls `rss::Channel::read_from` on the document and hands back, of each
/// item, the title, link, description, guid and publication date as they
/// were read; `None` where the crate reports an error. Trusted: the result
/// is the crate's, a function of the document alone. The crate reads nested
/// extension elements by recursion, so the call takes stack in proportion
/// to the nesting of the document.
#[verifier::external_body]
fn read_channel(content: &[u8]) -> (r: Option<Vec<RawItem>>)
    ensures
        match r {
            Some(items) => channel_items(content@) == Some(raw_views(items@)),
            None => channel_items(content@) is None,
        },
{
    match ::rss::Channel::read_from(content) {
        Ok(channel) => Some(channel.into_items().into_iter().map(|i| RawItem {
            title: i.title,
            link: i.link,
            description: i.description,
            guid: i.guid.map(|g| Guid { value: g.value, permalink: g.permalink }),
            pub_date: i.pub_date,
        }).collect()),
        Err(_) => None,
    }
}

/// The entries among raw items, newest first. Raw items that make no entry
/// are left out.
pub fn entries(raws: &Vec<RawItem>) -> (r: Vec<Item>)
    ensures
        is_newest_first_of(views(r@), valid_items(raw_views(raws@))),
{
    let mut kept: Vec<Item> = Vec::new();
    let mut i: usize = 0;
    while i < raws.len()
        invariant
            i <= raws@.len(),
            views(kept@) == valid_items(raw_views(raws@).take(i as int)),
        decreases raws@.len() - i,
    {
        let ghost before = views(kept@);
        proof {
            let next = raw_views(raws@).take(i + 1);
            assert(next.drop_last() =~= raw_views(raws@).take(i as int));
            assert(next.last() == raws@[i as int]@);
        }
        match Item::try_from(&raws[i]) {
            Ok(item) => {
                kept.push(item);
                assert(views(kept@) =~= before.push(item@));
            },
            Err(_) => {},
        }
        i += 1;
    }
    assert(raw_views(raws@).take(i as int) =~= raw_views(raws@));
    newest_first(&kept)
}

/// The entries of a feed document, newest first: `Error::Rss` for a
/// document that is no feed; items without a readable date or without an
/// identifier are left out.
pub fn feed(content: &[u8]) -> (r: Result<Vec<Item>, Error>)
    ensures
        match channel_items(content@) {
            Some(raws) => r is Ok && is_newest_first_of(views(r->Ok_0@), valid_items(raws)),
            None => r == Err::<Vec<Item>, Error>(Error::Rss),
        },
{
    match read_channel(content) {
        Some(raws) => Ok(entries(&raws)),
        None => Err(Error::Rss),
    }
}

/// The date of the newest entry announced so far, for each source that has
/// been fetched at least once.
pub struct Rss {
    cached_date_time: StringHashMap<DateTime>,
}

impl View for Rss {
    type V = Map<Seq<char>, DateTime>;

    closed spec fn view(&self) -> Map<Seq<char>, DateTime> {
        self.cached_date_time@
    }
}

/// The watermark that a store holds for a source, if any.
pub open spec fn watermark_of(store: Map<Seq<char>, DateTime>, source: Seq<char>) -> Option<
    DateTime,
> {
    if store.contains_key(source) {
        Some(store[source])
    } else {
        None
    }
}

/// The store after a source was seen with `newest_seen` as its newest date:
/// a source without a watermark gets that date, any other keeps what it has.
pub open spec fn initialized(
    store: Map<Seq<char>, DateTime>,
    source: Seq<char>,
    newest_seen: DateTime,
) -> Map<Seq<char>, DateTime> {
    if store.contains_key(source) {
        store
    } else {
        store.insert(source, newest_seen)
    }
}

/// The store after `candidate` was offered as a source's watermark: it is
/// taken where the source has none or an older one, and ignored otherwise.
pub open spec fn advanced(
    store: Map<Seq<char>, DateTime>,
    source: Seq<char>,
    candidate: DateTime,
) -> Map<Seq<char>, DateTime> {
    if store.contains_key(source) && !store[source].before(candidate) {
        store
    } else {
        store.insert(source, candidate)
    }
}

impl Rss {
    /// A store that knows no source.
    pub fn new() -> (r: Rss)
        ensures
            r@ == Map::<Seq<char>, DateTime>::empty(),
    {
        Rss { cached_date_time: StringHashMap::new() }
    }

    /// The watermark of a source; `None` for one that was never fetched.
    pub fn watermark(&self, source: &str) -> (r: Option<DateTime>)
        ensures
            r == watermark_of(self@, source@),
    {
        match self.cached_date_time.get(source) {
            Some(date) => Some(*date),
            None => None,
        }
    }

    /// Reads the watermark of a source and, where it has none, sets it to
    /// `newest_seen`. Returns the watermark as it was before the call and
    /// as it is after it.
    pub fn get_or_init(&mut self, source: &str, newest_seen: DateTime) -> (r: (
        Option<DateTime>,
        DateTime,
    ))
        ensures
            r.0 == watermark_of(old(self)@, source@),
            r.1 == match r.0 {
                Some(date) => date,
                None => newest_seen,
            },
            final(self)@ == initialized(old(self)@, source@, newest_seen),
    {
        match self.watermark(source) {
            Some(date) => (Some(date), date),
            None => {
                self.cached_date_time.insert(source.to_owned(), newest_seen);
                (None, newest_seen)
            },
        }
    }

    /// Moves the watermark of a source forward to `candidate`; a candidate
    /// that is not later than the watermark changes nothing.
    pub fn advance(&mut self, source: &str, candidate: DateTime)
        ensures
            final(self)@ == advanced(old(self)@, source@, candidate),
    {
        let newer = match self.watermark(source) {
            Some(date) => date.is_before(&candidate),
            None => true,
        };
        if newer {
            self.cached_date_time.insert(source.to_owned(), candidate);
        }
    }
}

impl Default for Rss {
    fn default() -> (r: Rss)
        ensures
            r@ == Map::<Seq<char>, DateTime>::empty(),
    {
        Rss::new()
    }
}

} // verus!
