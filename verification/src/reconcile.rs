//! Reconciliation: desired shortcuts are merged into a stored catalog by
//! identity, and the result is listed in catalog order.

use vstd::prelude::*;
use vstd::std_specs::btree::{increasing_seq, spec_btree_map_iter};
use vstd::std_specs::iter::IteratorSpec;
use std::collections::BTreeMap;
use crate::catalog::{
    catalog_before, catalog_of, index_by_id, is_catalog_of, keyed_by_id,
    lemma_catalog_before_total, lemma_catalog_before_transitive, lemma_catalog_unique,
    lemma_listing_covers, lemma_listing_well_formed, lemma_merged_keyed, merged, reconciled,
    strictly_sorted, upsert_desired, well_formed,
};
use crate::codec::{decode_catalog, decoded_catalog, encode_catalog, shortcut_bytes};
use crate::error::SyncError;
use crate::keys::lemma_increasing_ids;
use crate::shortcut::{DesiredModel, DesiredShortcut, ShortcutModel, ShortcutRecord};
use crate::text::{decimal, decimal_string, text_lt};

verus! {

/// The records of a map, as plain values.
spec fn map_models(by_id: Map<u32, ShortcutRecord>) -> Map<u32, ShortcutModel> {
    by_id.map_values(|r: ShortcutRecord| r@)
}

/// Tells whether `a` comes before `b` in catalog order.
fn record_lt(a: &ShortcutRecord, b: &ShortcutRecord) -> (before: bool)
    ensures
        before == catalog_before(a@, b@),
{
    if text_lt(a.app_name.as_str(), b.app_name.as_str()) {
        true
    } else if a.app_name == b.app_name {
        a.app_id < b.app_id
    } else {
        false
    }
}

/// Puts `record` at its place in a sorted list and returns that place.
fn insert_sorted(sorted: &mut Vec<ShortcutRecord>, record: ShortcutRecord) -> (place: usize)
    requires
        strictly_sorted(old(sorted).deep_view()),
        forall|i: int| 0 <= i < old(sorted).len() ==> old(sorted)[i].app_id != record.app_id,
    ensures
        place <= old(sorted).len(),
        final(sorted).len() == old(sorted).len() + 1,
        final(sorted).deep_view() == old(sorted).deep_view().insert(place as int, record@),
        strictly_sorted(final(sorted).deep_view()),
{
    let ghost before = sorted.deep_view();
    let mut place: usize = 0;
    while place < sorted.len() && record_lt(&sorted[place], &record)
        invariant
            place <= sorted.len(),
            sorted.deep_view() == before,
            forall|i: int| 0 <= i < place ==> catalog_before(#[trigger] before[i], record@),
        decreases sorted.len() - place,
    {
        place += 1;
    }
    proof {
        assert forall|j: int| place <= j < before.len() implies catalog_before(
            record@,
            #[trigger] before[j],
        ) by {
            lemma_catalog_before_total(before[place as int], record@);
            if place < j {
                lemma_catalog_before_transitive(record@, before[place as int], before[j]);
            }
        }
    }
    sorted.insert(place, record);
    proof {
        let after = before.insert(place as int, record@);
        assert forall|i: int, j: int| 0 <= i < j < after.len() implies catalog_before(
            #[trigger] after[i],
            #[trigger] after[j],
        ) by {
            if place < i {
                assert(catalog_before(before[i - 1], before[j - 1]));
            }
        }
    }
    place
}

/// The records of `by_id` in catalog order.
fn sorted_values(by_id: &BTreeMap<u32, ShortcutRecord>) -> (sorted: Vec<ShortcutRecord>)
    requires
        keyed_by_id(map_models(by_id@)),
    ensures
        sorted.len() == by_id@.dom().len(),
        strictly_sorted(sorted.deep_view()),
        forall|i: int|
            0 <= i < sorted.len() ==> {
                &&& by_id@.contains_key((#[trigger] sorted[i]).app_id)
                &&& sorted[i]@ == by_id@[sorted[i].app_id]@
            },
{
    let mut sorted: Vec<ShortcutRecord> = Vec::new();
    for kv in it: by_id.iter()
        invariant
            it.seq() == spec_btree_map_iter(by_id).remaining(),
            increasing_seq(it.seq().map_values(|kv: (&u32, &ShortcutRecord)| *kv.0)),
            keyed_by_id(map_models(by_id@)),
            sorted.len() == it.index(),
            strictly_sorted(sorted.deep_view()),
            forall|i: int|
                0 <= i < sorted.len() ==> {
                    &&& by_id@.contains_key((#[trigger] sorted[i]).app_id)
                    &&& sorted[i]@ == by_id@[sorted[i].app_id]@
                },
            forall|i: int, j: int|
                0 <= i < sorted.len() && it.index() <= j < it.seq().len() ==> (
                #[trigger] sorted[i]).app_id < *(#[trigger] it.seq()[j]).0,
    {
        let ghost seen = it.index();
        let ghost pairs = it.seq();
        let ghost earlier = sorted.deep_view();
        proof {
            assert(map_models(by_id@)[*kv.0].app_id == *kv.0);
            lemma_increasing_ids(pairs.map_values(|kv: (&u32, &ShortcutRecord)| *kv.0));
        }
        let record = kv.1.clone();
        let ghost copied = record;
        let place = insert_sorted(&mut sorted, record);
        proof {
            assert forall|i: int| 0 <= i < sorted.len() implies {
                &&& by_id@.contains_key((#[trigger] sorted[i]).app_id)
                &&& sorted[i]@ == by_id@[sorted[i].app_id]@
            } by {
                if i == place {
                    assert(sorted.deep_view()[i] == copied@);
                } else if i < place {
                    assert(sorted.deep_view()[i] == earlier[i]);
                } else {
                    assert(sorted.deep_view()[i] == earlier[i - 1]);
                }
            }
            let ids = pairs.map_values(|kv: (&u32, &ShortcutRecord)| *kv.0);
            assert forall|i: int, j: int|
                0 <= i < sorted.len() && seen + 1 <= j < pairs.len() implies (
            #[trigger] sorted[i]).app_id < *(#[trigger] pairs[j]).0 by {
                assert(ids[seen] < ids[j]);
                assert(sorted[i]@ == sorted.deep_view()[i]);
            }
        }
    }
    sorted
}

/// Numbers each record with its position.
fn renumber(records: Vec<ShortcutRecord>) -> (numbered: Vec<ShortcutRecord>)
    ensures
        numbered.len() == records.len(),
        forall|i: int|
            0 <= i < numbered.len() ==> (#[trigger] numbered[i])@ == records[i]@.with_order(
                decimal(i as nat),
            ),
{
    let mut numbered = records;
    let count = numbered.len();
    for i in 0..count
        invariant
            count == numbered.len(),
            numbered.len() == records.len(),
            forall|j: int|
                0 <= j < i ==> (#[trigger] numbered[j])@ == records[j]@.with_order(
                    decimal(j as nat),
                ),
            forall|j: int| i <= j < count ==> numbered[j] == records[j],
    {
        numbered[i].order = decimal_string(i);
    }
    numbered
}

/// The stored records by identity.
fn index_records(existing: Vec<ShortcutRecord>) -> (by_id: BTreeMap<u32, ShortcutRecord>)
    ensures
        map_models(by_id@) == index_by_id(existing.deep_view()),
{
    let ghost stored = existing.deep_view();
    let mut by_id: BTreeMap<u32, ShortcutRecord> = BTreeMap::new();
    for record in it: existing
        invariant
            it.seq() == existing@,
            stored == existing.deep_view(),
            map_models(by_id@) == index_by_id(stored.take(it.index())),
    {
        let ghost held = by_id@;
        proof {
            let upto = stored.take(it.index() + 1);
            assert(upto.drop_last() =~= stored.take(it.index()));
        }
        by_id.insert(record.app_id, record);
        assert(map_models(by_id@) =~= map_models(held).insert(record.app_id, record@));
    }
    assert(stored.take(stored.len() as int) =~= stored);
    by_id
}

/// Puts each desired shortcut under its identity.
fn upsert_records(by_id: &mut BTreeMap<u32, ShortcutRecord>, desired: &Vec<DesiredShortcut>)
    ensures
        map_models(final(by_id)@) == upsert_desired(map_models(old(by_id)@), desired.deep_view()),
{
    let ghost base = map_models(by_id@);
    let ghost wanted = desired.deep_view();
    for i in 0..desired.len()
        invariant
            wanted == desired.deep_view(),
            map_models(by_id@) == upsert_desired(base, wanted.take(i as int)),
    {
        let ghost held = by_id@;
        let record = desired[i].make_owned(i);
        proof {
            let upto = wanted.take(i + 1);
            assert(upto.drop_last() =~= wanted.take(i as int));
        }
        by_id.insert(record.app_id, record);
        assert(map_models(by_id@) =~= map_models(held).insert(record.app_id, record@));
    }
    assert(wanted.take(wanted.len() as int) =~= wanted);
}

/// Merges the desired shortcuts into the stored records and lists the result:
/// a desired shortcut replaces the record of the same identity, every other
/// record is carried through, and the list comes out in catalog order with
/// each record numbered by its position.
pub fn reconcile(existing: Vec<ShortcutRecord>, desired: &Vec<DesiredShortcut>) -> (catalog: Vec<
    ShortcutRecord,
>)
    ensures
        is_catalog_of(catalog.deep_view(), merged(existing.deep_view(), desired.deep_view())),
        catalog.deep_view() == reconciled(existing.deep_view(), desired.deep_view()),
        well_formed(catalog.deep_view()),
{
    let ghost kept = merged(existing.deep_view(), desired.deep_view());
    let mut by_id = index_records(existing);
    upsert_records(&mut by_id, desired);
    proof {
        lemma_merged_keyed(existing.deep_view(), desired.deep_view());
    }
    let sorted = sorted_values(&by_id);
    let ghost listed = sorted.deep_view();
    let catalog = renumber(sorted);
    proof {
        let numbered = catalog.deep_view();
        assert(kept.dom() =~= by_id@.dom());
        assert forall|i: int| 0 <= i < numbered.len() implies {
            &&& kept.contains_key((#[trigger] numbered[i]).app_id)
            &&& numbered[i] == kept[numbered[i].app_id].with_order(decimal(i as nat))
        } by {
            assert(listed[i] == sorted[i]@);
        }
        assert forall|i: int, j: int| 0 <= i < j < numbered.len() implies catalog_before(
            #[trigger] numbered[i],
            #[trigger] numbered[j],
        ) by {
            assert(catalog_before(listed[i], listed[j]));
        }
        lemma_listing_covers(numbered, kept);
        lemma_listing_well_formed(numbered, kept);
        lemma_catalog_unique(numbered, catalog_of(kept), kept);
    }
    catalog
}

/// What a catalog file holds after a rewrite, given what it held before;
/// `None` where that was no catalog.
pub open spec fn rewritten(existing: Seq<u8>, desired: Seq<DesiredModel>) -> Option<Seq<u8>> {
    match decoded_catalog(existing) {
        Some(stored) => Some(shortcut_bytes(reconciled(stored, desired))),
        None => None,
    }
}

/// Rewrites a stored catalog so that it holds the desired shortcuts.
///
/// `existing` is what the catalog file holds; no bytes at all stand for a
/// catalog that was never written. The result is what the file is to hold
/// afterwards. Bytes that are no catalog are refused, and then nothing is to
/// be written.
pub fn write_steam_shortcuts(existing: &[u8], desired_vec: Vec<DesiredShortcut>) -> (written:
    Result<Vec<u8>, SyncError>)
    ensures
        match written {
            Ok(bytes) => rewritten(existing@, desired_vec.deep_view()) == Some(bytes@),
            Err(e) => e is Format && rewritten(existing@, desired_vec.deep_view()).is_none(),
        },
{
    match decode_catalog(existing) {
        Ok(stored) => {
            let catalog = reconcile(stored, &desired_vec);
            Ok(encode_catalog(&catalog))
        },
        Err(e) => Err(e),
    }
}

} // verus!
