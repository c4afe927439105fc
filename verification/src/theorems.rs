//! What reconciliation guarantees, proved of the definitions in `catalog`.

use vstd::prelude::*;
use crate::catalog::{
    catalog_of, index_by_id, is_catalog_of, keyed_by_id, lemma_catalog_exists,
    lemma_catalog_unique, lemma_listing_well_formed, lemma_merged_keyed, merged, reconciled,
    strictly_sorted, upsert_desired, well_formed,
};
use crate::codec::{decoded_catalog, shortcut_bytes, survives_format};
use crate::reconcile::rewritten;
use crate::shortcut::{desired_record, DesiredModel, ShortcutModel};
use crate::text::decimal;

verus! {

/// The place of the last stored record with identity `id`, if there is one.
pub open spec fn last_stored(records: Seq<ShortcutModel>, id: u32) -> Option<int>
    decreases records.len(),
{
    if records.len() == 0 {
        None
    } else if records.last().app_id == id {
        Some(records.len() - 1)
    } else {
        last_stored(records.drop_last(), id)
    }
}

/// The place of the last desired shortcut with identity `id`, if there is one.
pub open spec fn last_desired(desired: Seq<DesiredModel>, id: u32) -> Option<int>
    decreases desired.len(),
{
    if desired.len() == 0 {
        None
    } else if desired.last().app_id() == id {
        Some(desired.len() - 1)
    } else {
        last_desired(desired.drop_last(), id)
    }
}

/// The record that a rewrite keeps under `id`: the last desired shortcut of
/// that identity, else the last stored record of that identity, else none.
pub open spec fn kept_record(
    existing: Seq<ShortcutModel>,
    desired: Seq<DesiredModel>,
    id: u32,
) -> Option<ShortcutModel> {
    match last_desired(desired, id) {
        Some(j) => Some(desired_record(desired[j], j as nat)),
        None => match last_stored(existing, id) {
            Some(i) => Some(existing[i]),
            None => None,
        },
    }
}

/// `record` stands in `catalog`, numbered with its place there.
pub open spec fn listed_as(catalog: Seq<ShortcutModel>, record: ShortcutModel) -> bool {
    exists|p: int|
        0 <= p < catalog.len() && #[trigger] catalog[p] == record.with_order(decimal(p as nat))
}

/// The two maps keep the same identities, and under each the same record but
/// for its `order`.
pub open spec fn same_up_to_order(a: Map<u32, ShortcutModel>, b: Map<u32, ShortcutModel>) -> bool {
    &&& forall|id: u32| a.contains_key(id) <==> b.contains_key(id)
    &&& forall|id: u32|
        a.contains_key(id) ==> (#[trigger] a[id]).with_order(Seq::empty()) == b[id].with_order(
            Seq::empty(),
        )
}

/// `last_stored` finds the last record of an identity, or none where no
/// record has it.
pub proof fn lemma_last_stored(records: Seq<ShortcutModel>, id: u32)
    ensures
        match last_stored(records, id) {
            Some(i) => {
                &&& 0 <= i < records.len()
                &&& records[i].app_id == id
                &&& forall|k: int| i < k < records.len() ==> (#[trigger] records[k]).app_id != id
            },
            None => forall|k: int| 0 <= k < records.len() ==> (#[trigger] records[k]).app_id != id,
        },
    decreases records.len(),
{
    if records.len() > 0 {
        let earlier = records.drop_last();
        lemma_last_stored(earlier, id);
        assert forall|k: int| 0 <= k < earlier.len() implies earlier[k] == records[k] by {}
        if records.last().app_id != id {
            match last_stored(earlier, id) {
                Some(i) => {
                    assert forall|k: int| i < k < records.len() implies (
                    #[trigger] records[k]).app_id != id by {
                        if k < earlier.len() {
                            assert(earlier[k].app_id != id);
                        }
                    }
                },
                None => {
                    assert forall|k: int| 0 <= k < records.len() implies (
                    #[trigger] records[k]).app_id != id by {
                        if k < earlier.len() {
                            assert(earlier[k].app_id != id);
                        }
                    }
                },
            }
        }
    }
}

/// `last_desired` finds the last desired shortcut of an identity, or none
/// where no desired shortcut has it.
pub proof fn lemma_last_desired(desired: Seq<DesiredModel>, id: u32)
    ensures
        match last_desired(desired, id) {
            Some(j) => {
                &&& 0 <= j < desired.len()
                &&& desired[j].app_id() == id
                &&& forall|k: int| j < k < desired.len() ==> (#[trigger] desired[k]).app_id() != id
            },
            None => forall|k: int|
                0 <= k < desired.len() ==> (#[trigger] desired[k]).app_id() != id,
        },
    decreases desired.len(),
{
    if desired.len() > 0 {
        let earlier = desired.drop_last();
        lemma_last_desired(earlier, id);
        assert forall|k: int| 0 <= k < earlier.len() implies earlier[k] == desired[k] by {}
        if desired.last().app_id() != id {
            match last_desired(earlier, id) {
                Some(j) => {
                    assert forall|k: int| j < k < desired.len() implies (
                    #[trigger] desired[k]).app_id() != id by {
                        if k < earlier.len() {
                            assert(earlier[k].app_id() != id);
                        }
                    }
                },
                None => {
                    assert forall|k: int| 0 <= k < desired.len() implies (
                    #[trigger] desired[k]).app_id() != id by {
                        if k < earlier.len() {
                            assert(earlier[k].app_id() != id);
                        }
                    }
                },
            }
        }
    }
}

/// A shortcut that no later one of its identity follows is the last of it.
pub proof fn lemma_last_desired_is(desired: Seq<DesiredModel>, j: int)
    requires
        0 <= j < desired.len(),
        forall|k: int| j < k < desired.len() ==> (#[trigger] desired[k]).app_id() != desired[j].app_id(),
    ensures
        last_desired(desired, desired[j].app_id()) == Some(j),
{
    lemma_last_desired(desired, desired[j].app_id());
}

/// What the index of stored records holds under `id`.
pub proof fn lemma_index_lookup(records: Seq<ShortcutModel>, id: u32)
    ensures
        match last_stored(records, id) {
            Some(i) => index_by_id(records).contains_key(id) && index_by_id(records)[id]
                == records[i],
            None => !index_by_id(records).contains_key(id),
        },
    decreases records.len(),
{
    if records.len() > 0 {
        let earlier = records.drop_last();
        lemma_index_lookup(earlier, id);
        lemma_last_stored(earlier, id);
        if let Some(i) = last_stored(earlier, id) {
            assert(earlier[i] == records[i]);
        }
    }
}

/// What an upserted map holds under `id`.
pub proof fn lemma_upsert_lookup(base: Map<u32, ShortcutModel>, desired: Seq<DesiredModel>, id: u32)
    ensures
        match last_desired(desired, id) {
            Some(j) => upsert_desired(base, desired).contains_key(id) && upsert_desired(
                base,
                desired,
            )[id] == desired_record(desired[j], j as nat),
            None => {
                &&& upsert_desired(base, desired).contains_key(id) == base.contains_key(id)
                &&& base.contains_key(id) ==> upsert_desired(base, desired)[id] == base[id]
            },
        },
    decreases desired.len(),
{
    if desired.len() > 0 {
        let earlier = desired.drop_last();
        lemma_upsert_lookup(base, earlier, id);
        lemma_last_desired(earlier, id);
        if let Some(j) = last_desired(earlier, id) {
            assert(earlier[j] == desired[j]);
        }
    }
}

/// What a rewrite keeps under `id` is `kept_record`.
pub proof fn lemma_merged_lookup(existing: Seq<ShortcutModel>, desired: Seq<DesiredModel>, id: u32)
    ensures
        match kept_record(existing, desired, id) {
            Some(record) => merged(existing, desired).contains_key(id) && merged(
                existing,
                desired,
            )[id] == record,
            None => !merged(existing, desired).contains_key(id),
        },
{
    lemma_index_lookup(existing, id);
    lemma_upsert_lookup(index_by_id(existing), desired, id);
}

/// The identity of a record depends on the executable and the name of its
/// desired shortcut alone: neither the other fields nor the place change it.
pub proof fn lemma_identity_of_exe_and_name(
    a: DesiredModel,
    b: DesiredModel,
    place_a: nat,
    place_b: nat,
)
    requires
        a.exe == b.exe,
        a.app_name == b.app_name,
    ensures
        desired_record(a, place_a).app_id == desired_record(b, place_b).app_id,
{
}

/// What a listing holds under `id`, found by its last record of that identity.
pub proof fn lemma_listing_lookup(
    catalog: Seq<ShortcutModel>,
    kept: Map<u32, ShortcutModel>,
    id: u32,
)
    requires
        is_catalog_of(catalog, kept),
    ensures
        match last_stored(catalog, id) {
            Some(i) => kept.contains_key(id) && catalog[i] == kept[id].with_order(
                decimal(i as nat),
            ),
            None => !kept.contains_key(id),
        },
{
    lemma_last_stored(catalog, id);
    if last_stored(catalog, id) is None && kept.contains_key(id) {
        let i = choose|i: int| 0 <= i < catalog.len() && (#[trigger] catalog[i]).app_id == id;
        assert(catalog[i].app_id != id);
    }
}

/// Maps that differ in `order` fields alone have the same listing.
pub proof fn lemma_same_listing(a: Map<u32, ShortcutModel>, b: Map<u32, ShortcutModel>)
    requires
        same_up_to_order(a, b),
        a.dom().finite(),
        keyed_by_id(a),
    ensures
        catalog_of(a) == catalog_of(b),
        is_catalog_of(catalog_of(a), b),
{
    lemma_catalog_exists(a);
    let listing = catalog_of(a);
    assert(a.dom() =~= b.dom());
    assert forall|id: u32| b.contains_key(id) implies (#[trigger] b[id]).app_id == id by {
        assert(a[id].with_order(Seq::empty()).app_id == b[id].with_order(Seq::empty()).app_id);
    }
    assert forall|i: int| 0 <= i < listing.len() implies {
        &&& b.contains_key((#[trigger] listing[i]).app_id)
        &&& listing[i] == b[listing[i].app_id].with_order(decimal(i as nat))
    } by {
        let id = listing[i].app_id;
        assert(a.contains_key(id));
        let x = a[id].with_order(Seq::empty());
        let y = b[id].with_order(Seq::empty());
        assert(x == y);
        assert(a[id].with_order(decimal(i as nat)) == x.with_order(decimal(i as nat)));
        assert(b[id].with_order(decimal(i as nat)) == y.with_order(decimal(i as nat)));
    }
    assert forall|id: u32| b.contains_key(id) implies exists|i: int|
        0 <= i < listing.len() && (#[trigger] listing[i]).app_id == id by {
        assert(a.contains_key(id));
    }
    assert(is_catalog_of(listing, b));
    lemma_catalog_exists(b);
    lemma_catalog_unique(listing, catalog_of(b), b);
}

/// What a rewrite produces: the listing of what it keeps, a well-formed
/// catalog. Each record of the catalog is the kept record of its identity,
/// numbered with its place, and each kept record is listed.
pub proof fn lemma_reconciled_contents(existing: Seq<ShortcutModel>, desired: Seq<DesiredModel>)
    ensures
        ({
            let catalog = reconciled(existing, desired);
            &&& is_catalog_of(catalog, merged(existing, desired))
            &&& well_formed(catalog)
            &&& forall|p: int|
                0 <= p < catalog.len() ==> {
                    let kept = kept_record(existing, desired, (#[trigger] catalog[p]).app_id);
                    kept is Some && catalog[p] == kept->0.with_order(decimal(p as nat))
                }
            &&& forall|id: u32|
                (#[trigger] kept_record(existing, desired, id)) is Some ==> listed_as(
                    catalog,
                    kept_record(existing, desired, id)->0,
                )
        }),
{
    let catalog = reconciled(existing, desired);
    let kept = merged(existing, desired);
    lemma_merged_keyed(existing, desired);
    lemma_catalog_exists(kept);
    lemma_listing_well_formed(catalog, kept);
    assert forall|p: int| 0 <= p < catalog.len() implies {
        let kept = kept_record(existing, desired, (#[trigger] catalog[p]).app_id);
        kept is Some && catalog[p] == kept->0.with_order(decimal(p as nat))
    } by {
        lemma_merged_lookup(existing, desired, catalog[p].app_id);
    }
    assert forall|id: u32| (#[trigger] kept_record(existing, desired, id)) is Some implies listed_as(
        catalog,
        kept_record(existing, desired, id)->0,
    ) by {
        lemma_merged_lookup(existing, desired, id);
        let p = choose|p: int| 0 <= p < catalog.len() && (#[trigger] catalog[p]).app_id == id;
        assert(catalog[p] == kept[id].with_order(decimal(p as nat)));
    }
}

/// A stored record whose identity no desired shortcut has is carried through
/// as it is, but for its `order`.
pub proof fn lemma_stored_carried_through(
    existing: Seq<ShortcutModel>,
    desired: Seq<DesiredModel>,
    k: int,
)
    requires
        0 <= k < existing.len(),
        forall|j: int| k < j < existing.len() ==> (#[trigger] existing[j]).app_id != existing[k].app_id,
        forall|j: int|
            0 <= j < desired.len() ==> (#[trigger] desired[j]).app_id() != existing[k].app_id,
    ensures
        listed_as(reconciled(existing, desired), existing[k]),
{
    let id = existing[k].app_id;
    lemma_last_stored(existing, id);
    lemma_last_desired(desired, id);
    lemma_reconciled_contents(existing, desired);
    assert(kept_record(existing, desired, id) == Some(existing[k]));
}

/// A second rewrite with the same desired shortcuts changes nothing: the
/// catalog that the first one produced comes out again.
pub proof fn lemma_reconcile_idempotent(existing: Seq<ShortcutModel>, desired: Seq<DesiredModel>)
    ensures
        reconciled(reconciled(existing, desired), desired) == reconciled(existing, desired),
{
    let kept = merged(existing, desired);
    let catalog = reconciled(existing, desired);
    let again = merged(catalog, desired);
    lemma_merged_keyed(existing, desired);
    lemma_merged_keyed(catalog, desired);
    lemma_catalog_exists(kept);
    assert forall|id: u32| again.contains_key(id) <==> kept.contains_key(id) by {
        lemma_merged_lookup(catalog, desired, id);
        lemma_merged_lookup(existing, desired, id);
        lemma_listing_lookup(catalog, kept, id);
    }
    assert forall|id: u32| again.contains_key(id) implies (#[trigger] again[id]).with_order(
        Seq::empty(),
    ) == kept[id].with_order(Seq::empty()) by {
        lemma_merged_lookup(catalog, desired, id);
        lemma_merged_lookup(existing, desired, id);
        lemma_listing_lookup(catalog, kept, id);
    }
    lemma_same_listing(again, kept);
}

/// What the concatenation of two lists holds last under `id`.
pub proof fn lemma_last_desired_concat(first: Seq<DesiredModel>, second: Seq<DesiredModel>, id: u32)
    ensures
        last_desired(first + second, id) == match last_desired(second, id) {
            Some(j) => Some(first.len() + j),
            None => last_desired(first, id),
        },
    decreases second.len(),
{
    if second.len() == 0 {
        assert(first + second =~= first);
    } else {
        assert((first + second).drop_last() =~= first + second.drop_last());
        assert((first + second).last() == second.last());
        lemma_last_desired_concat(first, second.drop_last(), id);
    }
}

/// Two rewrites in a row produce what one rewrite with both lists, the first
/// followed by the second, produces.
pub proof fn lemma_reconcile_in_steps(
    existing: Seq<ShortcutModel>,
    first: Seq<DesiredModel>,
    second: Seq<DesiredModel>,
)
    ensures
        reconciled(reconciled(existing, first), second) == reconciled(existing, first + second),
{
    let between = reconciled(existing, first);
    let kept_between = merged(existing, first);
    let stepwise = merged(between, second);
    let at_once = merged(existing, first + second);
    lemma_merged_keyed(existing, first);
    lemma_merged_keyed(between, second);
    lemma_merged_keyed(existing, first + second);
    lemma_catalog_exists(kept_between);
    assert forall|id: u32| stepwise.contains_key(id) <==> at_once.contains_key(id) by {
        lemma_merged_lookup(between, second, id);
        lemma_merged_lookup(existing, first + second, id);
        lemma_merged_lookup(existing, first, id);
        lemma_listing_lookup(between, kept_between, id);
        lemma_last_desired_concat(first, second, id);
    }
    assert forall|id: u32| stepwise.contains_key(id) implies (#[trigger] stepwise[id]).with_order(
        Seq::empty(),
    ) == at_once[id].with_order(Seq::empty()) by {
        lemma_merged_lookup(between, second, id);
        lemma_merged_lookup(existing, first + second, id);
        lemma_merged_lookup(existing, first, id);
        lemma_listing_lookup(between, kept_between, id);
        lemma_last_desired_concat(first, second, id);
        lemma_last_desired(second, id);
        lemma_last_desired(first, id);
    }
    lemma_same_listing(stepwise, at_once);
}

/// Of several desired shortcuts with one identity, the last is the one that
/// the catalog holds, and it holds no other record of that identity.
pub proof fn lemma_last_desired_wins(
    existing: Seq<ShortcutModel>,
    desired: Seq<DesiredModel>,
    j: int,
)
    requires
        0 <= j < desired.len(),
        forall|k: int|
            j < k < desired.len() ==> (#[trigger] desired[k]).app_id() != desired[j].app_id(),
    ensures
        ({
            let catalog = reconciled(existing, desired);
            exists|p: int|
                {
                    &&& 0 <= p < catalog.len()
                    &&& #[trigger] catalog[p] == desired_record(desired[j], j as nat).with_order(
                        decimal(p as nat),
                    )
                    &&& forall|q: int|
                        0 <= q < catalog.len() && q != p ==> (#[trigger] catalog[q]).app_id
                            != desired[j].app_id()
                }
        }),
{
    let catalog = reconciled(existing, desired);
    let id = desired[j].app_id();
    lemma_last_desired_is(desired, j);
    lemma_reconciled_contents(existing, desired);
    assert(kept_record(existing, desired, id) is Some);
    let p = choose|p: int|
        0 <= p < catalog.len() && #[trigger] catalog[p] == desired_record(
            desired[j],
            j as nat,
        ).with_order(decimal(p as nat));
    assert forall|q: int| 0 <= q < catalog.len() && q != p implies (#[trigger] catalog[q]).app_id
        != id by {
        if q < p {
            assert(catalog[q].app_id != catalog[p].app_id);
        } else {
            assert(catalog[p].app_id != catalog[q].app_id);
        }
    }
}

/// A rewrite of a catalog that holds nothing produces exactly the desired
/// shortcuts: every record is the last desired shortcut of its identity, and
/// every desired shortcut has its identity listed.
pub proof fn lemma_reconcile_from_nothing(desired: Seq<DesiredModel>)
    ensures
        ({
            let catalog = reconciled(Seq::empty(), desired);
            &&& forall|p: int|
                0 <= p < catalog.len() ==> {
                    let j = last_desired(desired, (#[trigger] catalog[p]).app_id);
                    &&& j is Some
                    &&& 0 <= j->0 < desired.len()
                    &&& catalog[p] == desired_record(desired[j->0], j->0 as nat).with_order(
                        decimal(p as nat),
                    )
                }
            &&& forall|j: int|
                0 <= j < desired.len() ==> exists|p: int|
                    0 <= p < catalog.len() && (#[trigger] catalog[p]).app_id == (
                    #[trigger] desired[j]).app_id()
        }),
{
    let nothing = Seq::<ShortcutModel>::empty();
    let catalog = reconciled(nothing, desired);
    lemma_reconciled_contents(nothing, desired);
    assert forall|p: int| 0 <= p < catalog.len() implies {
        let j = last_desired(desired, (#[trigger] catalog[p]).app_id);
        &&& j is Some
        &&& 0 <= j->0 < desired.len()
        &&& catalog[p] == desired_record(desired[j->0], j->0 as nat).with_order(decimal(p as nat))
    } by {
        lemma_last_desired(desired, catalog[p].app_id);
        assert(kept_record(nothing, desired, catalog[p].app_id) is Some);
    }
    assert forall|j: int| 0 <= j < desired.len() implies exists|p: int|
        0 <= p < catalog.len() && (#[trigger] catalog[p]).app_id == (#[trigger] desired[j]).app_id() by {
        let id = desired[j].app_id();
        lemma_last_desired(desired, id);
        lemma_merged_lookup(nothing, desired, id);
    }
}

/// What two rewrites in a row keep under `id`: the last shortcut of that
/// identity in the second list, else what the first rewrite kept.
pub open spec fn kept_of_two(
    existing: Seq<ShortcutModel>,
    first: Seq<DesiredModel>,
    second: Seq<DesiredModel>,
    id: u32,
) -> Option<ShortcutModel> {
    match last_desired(second, id) {
        Some(j) => Some(desired_record(second[j], j as nat)),
        None => kept_record(existing, first, id),
    }
}

/// Two rewrites in a row whose lists share no identity add up: the catalog
/// lists the last shortcut of each identity of either list and every stored
/// record whose identity is in neither, each once, in catalog order, and
/// nothing else.
pub proof fn lemma_reconcile_additive(
    existing: Seq<ShortcutModel>,
    first: Seq<DesiredModel>,
    second: Seq<DesiredModel>,
)
    requires
        forall|i: int, j: int|
            0 <= i < first.len() && 0 <= j < second.len() ==> (#[trigger] first[i]).app_id() != (
            #[trigger] second[j]).app_id(),
    ensures
        ({
            let catalog = reconciled(reconciled(existing, first), second);
            &&& strictly_sorted(catalog)
            &&& forall|p: int, q: int|
                0 <= p < q < catalog.len() ==> (#[trigger] catalog[p]).app_id != (
                #[trigger] catalog[q]).app_id
            &&& forall|i: int|
                0 <= i < first.len() && last_desired(first, (#[trigger] first[i]).app_id()) == Some(
                    i,
                ) ==> listed_as(catalog, desired_record(first[i], i as nat))
            &&& forall|j: int|
                0 <= j < second.len() && last_desired(second, (#[trigger] second[j]).app_id())
                    == Some(j) ==> listed_as(catalog, desired_record(second[j], j as nat))
            &&& forall|k: int|
                0 <= k < existing.len() && last_stored(existing, (#[trigger] existing[k]).app_id)
                    == Some(k) && last_desired(first, existing[k].app_id) is None && last_desired(
                    second,
                    existing[k].app_id,
                ) is None ==> listed_as(catalog, existing[k])
            &&& forall|p: int|
                0 <= p < catalog.len() ==> {
                    let kept = kept_of_two(existing, first, second, (#[trigger] catalog[p]).app_id);
                    kept is Some && catalog[p] == kept->0.with_order(decimal(p as nat))
                }
        }),
{
    let catalog = reconciled(reconciled(existing, first), second);
    let both = first + second;
    lemma_reconcile_in_steps(existing, first, second);
    lemma_reconciled_contents(existing, both);
    assert forall|i: int|
        0 <= i < first.len() && last_desired(first, (#[trigger] first[i]).app_id()) == Some(
            i,
        ) implies listed_as(catalog, desired_record(first[i], i as nat)) by {
        let id = first[i].app_id();
        lemma_last_desired_concat(first, second, id);
        lemma_last_desired(second, id);
        if let Some(j) = last_desired(second, id) {
            assert(first[i].app_id() != second[j].app_id());
        }
        assert(both[i] == first[i]);
        assert(kept_record(existing, both, id) == Some(desired_record(first[i], i as nat)));
    }
    assert forall|j: int|
        0 <= j < second.len() && last_desired(second, (#[trigger] second[j]).app_id()) == Some(
            j,
        ) implies listed_as(catalog, desired_record(second[j], j as nat)) by {
        let id = second[j].app_id();
        lemma_last_desired_concat(first, second, id);
        assert(both[first.len() + j] == second[j]);
        let at_once = desired_record(second[j], (first.len() + j) as nat);
        assert(kept_record(existing, both, id) == Some(at_once));
        let p = choose|p: int|
            0 <= p < catalog.len() && #[trigger] catalog[p] == at_once.with_order(
                decimal(p as nat),
            );
        assert(catalog[p] == desired_record(second[j], j as nat).with_order(decimal(p as nat)));
    }
    assert forall|k: int|
        0 <= k < existing.len() && last_stored(existing, (#[trigger] existing[k]).app_id) == Some(
            k,
        ) && last_desired(first, existing[k].app_id) is None && last_desired(
            second,
            existing[k].app_id,
        ) is None implies listed_as(catalog, existing[k]) by {
        let id = existing[k].app_id;
        lemma_last_desired_concat(first, second, id);
        assert(kept_record(existing, both, id) == Some(existing[k]));
    }
    assert forall|p: int| 0 <= p < catalog.len() implies {
        let kept = kept_of_two(existing, first, second, (#[trigger] catalog[p]).app_id);
        kept is Some && catalog[p] == kept->0.with_order(decimal(p as nat))
    } by {
        let id = catalog[p].app_id;
        lemma_last_desired_concat(first, second, id);
        lemma_last_desired(second, id);
        lemma_last_desired(first, id);
        let at_once = kept_record(existing, both, id);
        assert(at_once is Some && catalog[p] == at_once->0.with_order(decimal(p as nat)));
        if let Some(j) = last_desired(second, id) {
            assert(both[first.len() + j] == second[j]);
        } else if let Some(i) = last_desired(first, id) {
            assert(both[i] == first[i]);
        }
    }
}

/// A second rewrite of a file with the same desired shortcuts leaves it byte
/// for byte as the first one did, wherever the format hands back the catalog
/// that the first one wrote; `reads_back` tells whether it does.
pub proof fn lemma_rewrite_idempotent(existing: Seq<u8>, desired: Seq<DesiredModel>)
    requires
        decoded_catalog(existing) is Some,
        survives_format(reconciled(decoded_catalog(existing)->0, desired)),
    ensures
        rewritten(existing, desired) is Some,
        rewritten(rewritten(existing, desired)->0, desired) == rewritten(existing, desired),
{
    lemma_reconcile_idempotent(decoded_catalog(existing)->0, desired);
}

/// A file that holds nothing is rewritten without fail, and what is written
/// is the catalog of the desired shortcuts alone.
pub proof fn lemma_rewrite_from_nothing(desired: Seq<DesiredModel>)
    ensures
        rewritten(Seq::empty(), desired) == Some(
            shortcut_bytes(reconciled(Seq::empty(), desired)),
        ),
{
}

} // verus!
