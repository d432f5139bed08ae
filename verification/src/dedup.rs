//! Selection of the entries that have not been announced yet.

use crate::date_time::DateTime;
use crate::order::{comes_first, is_oldest_first, is_rearrangement};
use crate::rss::{
    arranged, dates_of, is_oldest_first_of, lemma_oldest_first_of_is_unique, oldest_first, views,
    Item, ItemView,
};
use vstd::prelude::*;

verus! {

/// The entries published strictly after `watermark`, in the order they had.
pub open spec fn newer_than(entries: Seq<ItemView>, watermark: DateTime) -> Seq<ItemView>
    decreases entries.len(),
{
    if entries.len() == 0 {
        Seq::empty()
    } else if watermark.before(entries.last().date) {
        newer_than(entries.drop_last(), watermark).push(entries.last())
    } else {
        newer_than(entries.drop_last(), watermark)
    }
}

/// Every entry that `newer_than` keeps is one of the entries given and was
/// published strictly after the watermark.
pub proof fn lemma_newer_than_keeps_later(entries: Seq<ItemView>, watermark: DateTime)
    ensures
        newer_than(entries, watermark).len() <= entries.len(),
        forall|k: int|
            0 <= k < newer_than(entries, watermark).len() ==> {
                &&& watermark.before((#[trigger] newer_than(entries, watermark)[k]).date)
                &&& entries.contains(newer_than(entries, watermark)[k])
            },
    decreases entries.len(),
{
    if entries.len() > 0 {
        let rest = entries.drop_last();
        lemma_newer_than_keeps_later(rest, watermark);
        assert forall|k: int| 0 <= k < newer_than(entries, watermark).len() implies entries.contains(
            #[trigger] newer_than(entries, watermark)[k],
        ) by {
            let kept = newer_than(entries, watermark)[k];
            if k < newer_than(rest, watermark).len() {
                assert(rest.contains(kept));
                let i = choose|i: int| 0 <= i < rest.len() && rest[i] == kept;
                assert(entries[i] == kept);
            } else {
                assert(entries[entries.len() - 1] == kept);
            }
        }
    }
}

/// Every entry published strictly after the watermark is kept.
pub proof fn lemma_newer_than_keeps_all(entries: Seq<ItemView>, watermark: DateTime, i: int)
    requires
        0 <= i < entries.len(),
        watermark.before(entries[i].date),
    ensures
        newer_than(entries, watermark).contains(entries[i]),
    decreases entries.len(),
{
    let rest = entries.drop_last();
    let kept = newer_than(entries, watermark);
    if i == entries.len() - 1 {
        assert(kept[kept.len() - 1] == entries[i]);
    } else {
        lemma_newer_than_keeps_all(rest, watermark, i);
        let k = choose|k: int| 0 <= k < newer_than(rest, watermark).len() && newer_than(rest, watermark)[k] == rest[i];
        assert(kept[k] == entries[i]);
    }
}

/// What an arrangement oldest first holds: as many entries as were given,
/// each of them one of those, and none published before one that precedes
/// it.
pub proof fn lemma_oldest_first_ascends(sorted: Seq<ItemView>, entries: Seq<ItemView>)
    requires
        is_oldest_first_of(sorted, entries),
    ensures
        sorted.len() == entries.len(),
        forall|k: int| 0 <= k < sorted.len() ==> entries.contains(#[trigger] sorted[k]),
        forall|i: int, j: int|
            0 <= i < j < sorted.len() ==> !(#[trigger] sorted[j]).date.before((#[trigger] sorted[i]).date),
{
    let perm = choose|perm: Seq<usize>| #[trigger]
        is_oldest_first(dates_of(entries), perm) && sorted == arranged(entries, perm);
    assert forall|k: int| 0 <= k < sorted.len() implies entries.contains(#[trigger] sorted[k]) by {
        assert(entries[perm[k] as int] == sorted[k]);
    }
    assert forall|i: int, j: int| 0 <= i < j < sorted.len() implies !(#[trigger] sorted[j]).date.before(
        (#[trigger] sorted[i]).date,
    ) by {
        assert(comes_first(dates_of(entries), perm[i] as int, perm[j] as int));
    }
}

/// Entries whose dates all differ come out in strictly increasing order of
/// date.
pub proof fn lemma_distinct_dates_strictly_ascend(sorted: Seq<ItemView>, entries: Seq<ItemView>)
    requires
        is_oldest_first_of(sorted, entries),
        forall|a: int, b: int|
            0 <= a < b < entries.len() ==> (#[trigger] entries[a]).date != (#[trigger] entries[b]).date,
    ensures
        forall|i: int, j: int|
            0 <= i < j < sorted.len() ==> (#[trigger] sorted[i]).date.before((#[trigger] sorted[j]).date),
{
    let perm = choose|perm: Seq<usize>| #[trigger]
        is_oldest_first(dates_of(entries), perm) && sorted == arranged(entries, perm);
    assert forall|i: int, j: int| 0 <= i < j < sorted.len() implies (#[trigger] sorted[i]).date.before(
        (#[trigger] sorted[j]).date,
    ) by {
        let a = perm[i] as int;
        let b = perm[j] as int;
        assert(comes_first(dates_of(entries), a, b));
        if a < b {
            assert(entries[a].date != entries[b].date);
        }
    }
}

/// Where every entry was published strictly after the watermark, all are
/// kept.
pub proof fn lemma_newer_than_keeps_everything(entries: Seq<ItemView>, watermark: DateTime)
    requires
        forall|i: int| 0 <= i < entries.len() ==> watermark.before((#[trigger] entries[i]).date),
    ensures
        newer_than(entries, watermark) == entries,
    decreases entries.len(),
{
    if entries.len() > 0 {
        let rest = entries.drop_last();
        assert forall|i: int| 0 <= i < rest.len() implies watermark.before((#[trigger] rest[i]).date) by {
            assert(rest[i] == entries[i]);
        }
        lemma_newer_than_keeps_everything(rest, watermark);
        assert(rest.push(entries.last()) =~= entries);
    } else {
        assert(newer_than(entries, watermark) =~= entries);
    }
}

/// Of a list in which no entry is newer than one before it, the entries
/// kept are the ones in front.
pub proof fn lemma_newer_than_is_front(entries: Seq<ItemView>, watermark: DateTime)
    requires
        forall|i: int, j: int|
            0 <= i < j < entries.len() ==> !(#[trigger] entries[i]).date.before((#[trigger] entries[j]).date),
    ensures
        newer_than(entries, watermark).len() <= entries.len(),
        newer_than(entries, watermark) == entries.take(newer_than(entries, watermark).len() as int),
    decreases entries.len(),
{
    if entries.len() > 0 {
        let rest = entries.drop_last();
        let last = entries.len() - 1;
        assert forall|i: int, j: int| 0 <= i < j < rest.len() implies !(#[trigger] rest[i]).date.before(
            (#[trigger] rest[j]).date,
        ) by {
            assert(rest[i] == entries[i] && rest[j] == entries[j]);
        }
        if watermark.before(entries.last().date) {
            assert forall|i: int| 0 <= i < entries.len() implies watermark.before(
                (#[trigger] entries[i]).date,
            ) by {
                if i < last {
                    assert(!entries[i].date.before(entries[last].date));
                }
            }
            lemma_newer_than_keeps_everything(entries, watermark);
            assert(entries.take(entries.len() as int) =~= entries);
        } else {
            lemma_newer_than_is_front(rest, watermark);
            let kept = newer_than(rest, watermark).len() as int;
            assert(rest.take(kept) =~= entries.take(kept));
        }
    } else {
        assert(newer_than(entries, watermark) =~= entries.take(0));
    }
}

/// Of a list that runs strictly newest first, and is no longer than a list
/// in memory can be, the selection is the run of entries in front that are
/// newer than the watermark, read backwards.
pub proof fn lemma_selection_of_newest_first(
    sorted: Seq<ItemView>,
    entries: Seq<ItemView>,
    watermark: DateTime,
)
    requires
        entries.len() <= usize::MAX,
        forall|i: int, j: int|
            0 <= i < j < entries.len() ==> (#[trigger] entries[j]).date.before((#[trigger] entries[i]).date),
        is_oldest_first_of(sorted, newer_than(entries, watermark)),
    ensures
        sorted.len() <= entries.len(),
        sorted == entries.take(sorted.len() as int).reverse(),
{
    lemma_newer_than_is_front(entries, watermark);
    let fresh = newer_than(entries, watermark);
    let count = fresh.len() as int;
    let backwards = Seq::new(fresh.len(), |i: int| (count - 1 - i) as usize);
    assert forall|k: usize| k < fresh.len() implies #[trigger] backwards.contains(k) by {
        assert(backwards[count - 1 - k] == k);
    }
    assert(is_rearrangement(fresh.len(), backwards));
    assert forall|i: int, j: int| 0 <= i < j < backwards.len() implies comes_first(
        dates_of(fresh),
        #[trigger] backwards[i] as int,
        #[trigger] backwards[j] as int,
    ) by {
        assert(fresh[count - 1 - i] == entries[count - 1 - i]);
        assert(fresh[count - 1 - j] == entries[count - 1 - j]);
    }
    assert(is_oldest_first(dates_of(fresh), backwards));
    assert(arranged(fresh, backwards) =~= fresh.reverse());
    assert(is_oldest_first_of(fresh.reverse(), fresh));
    lemma_oldest_first_of_is_unique(sorted, fresh.reverse(), fresh);
}

/// The entries published strictly after `watermark`, oldest first. An entry
/// dated exactly at the watermark counts as announced and is left out.
pub fn select(entries: &Vec<Item>, watermark: DateTime) -> (r: Vec<Item>)
    ensures
        is_oldest_first_of(views(r@), newer_than(views(entries@), watermark)),
        forall|k: int| 0 <= k < r@.len() ==> watermark.before((#[trigger] r@[k])@.date),
        forall|i: int, j: int|
            0 <= i < j < r@.len() ==> !(#[trigger] r@[j])@.date.before((#[trigger] r@[i])@.date),
{
    let mut kept: Vec<Item> = Vec::new();
    let mut i: usize = 0;
    while i < entries.len()
        invariant
            i <= entries@.len(),
            views(kept@) == newer_than(views(entries@).take(i as int), watermark),
        decreases entries@.len() - i,
    {
        let ghost before = views(kept@);
        proof {
            let next = views(entries@).take(i + 1);
            assert(next.drop_last() =~= views(entries@).take(i as int));
            assert(next.last() == entries@[i as int]@);
        }
        if entries[i].date().is_after(&watermark) {
            kept.push(entries[i].clone());
            assert(views(kept@) =~= before.push(entries@[i as int]@));
        }
        i += 1;
    }
    assert(views(entries@).take(i as int) =~= views(entries@));
    let r = oldest_first(&kept);
    proof {
        let fresh = newer_than(views(entries@), watermark);
        lemma_newer_than_keeps_later(views(entries@), watermark);
        lemma_oldest_first_ascends(views(r@), fresh);
        assert forall|k: int| 0 <= k < r@.len() implies watermark.before((#[trigger] r@[k])@.date) by {
            assert(fresh.contains(views(r@)[k]));
        }
        assert forall|i: int, j: int| 0 <= i < j < r@.len() implies !(#[trigger] r@[j])@.date.before(
            (#[trigger] r@[i])@.date,
        ) by {
            assert(!views(r@)[j].date.before(views(r@)[i].date));
        }
    }
    r
}

} // verus!
