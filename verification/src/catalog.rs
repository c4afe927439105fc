//! What a catalog is: the records that a rewrite keeps, by identity, and the
//! one order in which they are listed.

use vstd::prelude::*;
use crate::shortcut::{desired_record, DesiredModel, ShortcutModel};
use crate::text::{
    decimal, lemma_text_before_irreflexive, lemma_text_before_total,
    lemma_text_before_transitive, text_before,
};

verus! {

/// The records of a stored catalog by identity. Where an identity occurs
/// twice, the later record stands.
pub open spec fn index_by_id(records: Seq<ShortcutModel>) -> Map<u32, ShortcutModel>
    decreases records.len(),
{
    if records.len() == 0 {
        Map::empty()
    } else {
        index_by_id(records.drop_last()).insert(records.last().app_id, records.last())
    }
}

/// `base` after each desired shortcut, in turn, has been put under its
/// identity, replacing whatever stood there.
pub open spec fn upsert_desired(base: Map<u32, ShortcutModel>, desired: Seq<DesiredModel>) -> Map<
    u32,
    ShortcutModel,
>
    decreases desired.len(),
{
    if desired.len() == 0 {
        base
    } else {
        let record = desired_record(desired.last(), (desired.len() - 1) as nat);
        upsert_desired(base, desired.drop_last()).insert(record.app_id, record)
    }
}

/// The records that a rewrite keeps, by identity: those of the stored catalog,
/// overwritten by the desired shortcuts.
pub open spec fn merged(existing: Seq<ShortcutModel>, desired: Seq<DesiredModel>) -> Map<
    u32,
    ShortcutModel,
> {
    upsert_desired(index_by_id(existing), desired)
}

/// The order of a catalog: by name, and by identity among equal names.
pub open spec fn catalog_before(a: ShortcutModel, b: ShortcutModel) -> bool {
    text_before(a.app_name, b.app_name) || (a.app_name == b.app_name && a.app_id < b.app_id)
}

/// Each record comes before all later ones.
pub open spec fn strictly_sorted(records: Seq<ShortcutModel>) -> bool {
    forall|i: int, j: int|
        0 <= i < j < records.len() ==> catalog_before(#[trigger] records[i], #[trigger] records[j])
}

/// Each record of `catalog` is the one that `kept` holds under its identity,
/// renumbered with its position.
pub open spec fn lists_only(catalog: Seq<ShortcutModel>, kept: Map<u32, ShortcutModel>) -> bool {
    forall|i: int|
        0 <= i < catalog.len() ==> {
            &&& kept.contains_key((#[trigger] catalog[i]).app_id)
            &&& catalog[i] == kept[catalog[i].app_id].with_order(decimal(i as nat))
        }
}

/// Every identity of `kept` has a record in `catalog`.
pub open spec fn lists_all(catalog: Seq<ShortcutModel>, kept: Map<u32, ShortcutModel>) -> bool {
    forall|id: u32|
        kept.contains_key(id) ==> exists|i: int|
            0 <= i < catalog.len() && (#[trigger] catalog[i]).app_id == id
}

/// `catalog` is the listing of `kept`: every kept record once and no other,
/// in catalog order, each numbered with its position.
pub open spec fn is_catalog_of(catalog: Seq<ShortcutModel>, kept: Map<u32, ShortcutModel>) -> bool {
    &&& lists_only(catalog, kept)
    &&& lists_all(catalog, kept)
    &&& strictly_sorted(catalog)
}

/// What every catalog that is written satisfies: no identity occurs twice,
/// and each record's `order` is the decimal numeral of its position.
pub open spec fn well_formed(catalog: Seq<ShortcutModel>) -> bool {
    &&& forall|i: int, j: int|
        0 <= i < j < catalog.len() ==> (#[trigger] catalog[i]).app_id != (
        #[trigger] catalog[j]).app_id
    &&& forall|i: int| 0 <= i < catalog.len() ==> (#[trigger] catalog[i]).order == decimal(i as nat)
}

/// The listing of `kept`. There is at most one; see `lemma_catalog_unique`.
pub open spec fn catalog_of(kept: Map<u32, ShortcutModel>) -> Seq<ShortcutModel> {
    choose|catalog: Seq<ShortcutModel>| is_catalog_of(catalog, kept)
}

/// The catalog that a rewrite produces from the stored records and the
/// desired shortcuts.
pub open spec fn reconciled(existing: Seq<ShortcutModel>, desired: Seq<DesiredModel>) -> Seq<
    ShortcutModel,
> {
    catalog_of(merged(existing, desired))
}

/// Every record is kept under its own identity.
pub open spec fn keyed_by_id(kept: Map<u32, ShortcutModel>) -> bool {
    forall|id: u32| kept.contains_key(id) ==> (#[trigger] kept[id]).app_id == id
}

/// No record comes before itself.
pub proof fn lemma_catalog_before_irreflexive(a: ShortcutModel)
    ensures
        !catalog_before(a, a),
{
    lemma_text_before_irreflexive(a.app_name);
}

/// The catalog order is transitive.
pub proof fn lemma_catalog_before_transitive(a: ShortcutModel, b: ShortcutModel, c: ShortcutModel)
    requires
        catalog_before(a, b),
        catalog_before(b, c),
    ensures
        catalog_before(a, c),
{
    if text_before(a.app_name, b.app_name) && text_before(b.app_name, c.app_name) {
        lemma_text_before_transitive(a.app_name, b.app_name, c.app_name);
    }
}

/// Of two records with different identities one comes before the other.
pub proof fn lemma_catalog_before_total(a: ShortcutModel, b: ShortcutModel)
    requires
        a.app_id != b.app_id,
    ensures
        catalog_before(a, b) || catalog_before(b, a),
{
    if a.app_name != b.app_name {
        lemma_text_before_total(a.app_name, b.app_name);
    }
}

/// Two records cannot each come before the other.
pub proof fn lemma_catalog_before_asymmetric(a: ShortcutModel, b: ShortcutModel)
    requires
        catalog_before(a, b),
    ensures
        !catalog_before(b, a),
{
    if catalog_before(b, a) {
        lemma_catalog_before_transitive(a, b, a);
        lemma_catalog_before_irreflexive(a);
    }
}

/// What a rewrite keeps is finite, and each record is kept under its own identity.
pub proof fn lemma_merged_keyed(existing: Seq<ShortcutModel>, desired: Seq<DesiredModel>)
    ensures
        keyed_by_id(merged(existing, desired)),
        merged(existing, desired).dom().finite(),
{
    lemma_index_keyed(existing);
    lemma_upsert_keyed(index_by_id(existing), desired);
}

proof fn lemma_index_keyed(records: Seq<ShortcutModel>)
    ensures
        keyed_by_id(index_by_id(records)),
        index_by_id(records).dom().finite(),
    decreases records.len(),
{
    if records.len() > 0 {
        lemma_index_keyed(records.drop_last());
    }
}

proof fn lemma_upsert_keyed(base: Map<u32, ShortcutModel>, desired: Seq<DesiredModel>)
    requires
        keyed_by_id(base),
        base.dom().finite(),
    ensures
        keyed_by_id(upsert_desired(base, desired)),
        upsert_desired(base, desired).dom().finite(),
    decreases desired.len(),
{
    if desired.len() > 0 {
        lemma_upsert_keyed(base, desired.drop_last());
    }
}

/// A listing names no identity twice.
pub proof fn lemma_listing_ids_distinct(catalog: Seq<ShortcutModel>, kept: Map<u32, ShortcutModel>)
    requires
        lists_only(catalog, kept),
        strictly_sorted(catalog),
    ensures
        forall|i: int, j: int|
            0 <= i < j < catalog.len() ==> (#[trigger] catalog[i]).app_id != (
            #[trigger] catalog[j]).app_id,
{
    assert forall|i: int, j: int| 0 <= i < j < catalog.len() implies (#[trigger] catalog[i]).app_id
        != (#[trigger] catalog[j]).app_id by {
        if catalog[i].app_id == catalog[j].app_id {
            assert(catalog[i].app_name == catalog[j].app_name);
            lemma_catalog_before_irreflexive(catalog[i].with_order(catalog[j].order));
        }
    }
}

/// A listing is a well-formed catalog.
pub proof fn lemma_listing_well_formed(catalog: Seq<ShortcutModel>, kept: Map<u32, ShortcutModel>)
    requires
        lists_only(catalog, kept),
        strictly_sorted(catalog),
    ensures
        well_formed(catalog),
{
    lemma_listing_ids_distinct(catalog, kept);
}

/// A listing that is as long as there are kept records leaves none out.
pub proof fn lemma_listing_covers(catalog: Seq<ShortcutModel>, kept: Map<u32, ShortcutModel>)
    requires
        lists_only(catalog, kept),
        strictly_sorted(catalog),
        kept.dom().finite(),
        catalog.len() == kept.dom().len(),
    ensures
        lists_all(catalog, kept),
{
    let ids = catalog.map_values(|r: ShortcutModel| r.app_id);
    lemma_listing_ids_distinct(catalog, kept);
    assert forall|i: int, j: int| 0 <= i < ids.len() && 0 <= j < ids.len() && i != j implies ids[i]
        != ids[j] by {
        assert(ids[i] == catalog[i].app_id && ids[j] == catalog[j].app_id);
    }
    ids.unique_seq_to_set();
    assert forall|id: u32| ids.to_set().contains(id) implies kept.dom().contains(id) by {
        let i = choose|i: int| 0 <= i < ids.len() && ids[i] == id;
        assert(kept.contains_key(catalog[i].app_id));
    }
    vstd::set_lib::lemma_subset_equality(ids.to_set(), kept.dom());
    assert forall|id: u32| kept.contains_key(id) implies exists|i: int|
        0 <= i < catalog.len() && (#[trigger] catalog[i]).app_id == id by {
        assert(ids.to_set().contains(id));
        let i = choose|i: int| 0 <= i < ids.len() && ids[i] == id;
        assert(catalog[i].app_id == id);
    }
}

/// Two listings of the same records name the same identities at the same
/// places, as far as both reach.
proof fn lemma_catalogs_agree(
    a: Seq<ShortcutModel>,
    b: Seq<ShortcutModel>,
    kept: Map<u32, ShortcutModel>,
    n: nat,
)
    requires
        is_catalog_of(a, kept),
        is_catalog_of(b, kept),
        n <= a.len(),
        n <= b.len(),
    ensures
        forall|i: int| 0 <= i < n ==> (#[trigger] a[i]).app_id == b[i].app_id,
    decreases n,
{
    if n > 0 {
        let last = n - 1;
        lemma_catalogs_agree(a, b, kept, last as nat);
        lemma_listing_ids_distinct(a, kept);
        lemma_listing_ids_distinct(b, kept);
        if a[last].app_id != b[last].app_id {
            let j = choose|j: int| 0 <= j < b.len() && (#[trigger] b[j]).app_id == a[last].app_id;
            let k = choose|k: int| 0 <= k < a.len() && (#[trigger] a[k]).app_id == b[last].app_id;
            if j < last {
                assert(a[j].app_id == b[j].app_id);
            }
            if k < last {
                assert(a[k].app_id == b[k].app_id);
            }
            assert(catalog_before(a[last], a[k]));
            assert(catalog_before(b[last], b[j]));
            lemma_catalog_before_asymmetric(a[last], a[k]);
        }
    }
}

/// The records that are kept have one listing only.
pub proof fn lemma_catalog_unique(
    a: Seq<ShortcutModel>,
    b: Seq<ShortcutModel>,
    kept: Map<u32, ShortcutModel>,
)
    requires
        is_catalog_of(a, kept),
        is_catalog_of(b, kept),
    ensures
        a == b,
{
    let n = if a.len() <= b.len() { a.len() } else { b.len() };
    lemma_catalogs_agree(a, b, kept, n);
    lemma_listing_ids_distinct(a, kept);
    lemma_listing_ids_distinct(b, kept);
    if a.len() < b.len() {
        let k = choose|k: int| 0 <= k < a.len() && (#[trigger] a[k]).app_id == b[n as int].app_id;
        assert(a[k].app_id == b[k].app_id);
    }
    if b.len() < a.len() {
        let k = choose|k: int| 0 <= k < b.len() && (#[trigger] b[k]).app_id == a[n as int].app_id;
        assert(a[k].app_id == b[k].app_id);
    }
    assert(a =~= b);
}

/// Among finitely many kept records one comes after all the others.
proof fn lemma_last_record(kept: Map<u32, ShortcutModel>) -> (top: u32)
    requires
        kept.dom().finite(),
        kept.dom().len() > 0,
        keyed_by_id(kept),
    ensures
        kept.contains_key(top),
        forall|id: u32|
            kept.contains_key(id) && id != top ==> catalog_before(#[trigger] kept[id], kept[top]),
    decreases kept.dom().len(),
{
    let any = kept.dom().choose();
    let rest = kept.remove(any);
    assert(rest.dom() =~= kept.dom().remove(any));
    if rest.dom().len() == 0 {
        assert forall|id: u32| kept.contains_key(id) && id != any implies catalog_before(
            #[trigger] kept[id],
            kept[any],
        ) by {
            assert(rest.dom().contains(id));
        }
        any
    } else {
        let top = lemma_last_record(rest);
        lemma_catalog_before_total(kept[any], kept[top]);
        if catalog_before(kept[top], kept[any]) {
            assert forall|id: u32| kept.contains_key(id) && id != any implies catalog_before(
                #[trigger] kept[id],
                kept[any],
            ) by {
                if id != top {
                    assert(rest.contains_key(id));
                    assert(catalog_before(rest[id], rest[top]));
                    lemma_catalog_before_transitive(kept[id], kept[top], kept[any]);
                }
            }
            any
        } else {
            assert forall|id: u32| kept.contains_key(id) && id != top implies catalog_before(
                #[trigger] kept[id],
                kept[top],
            ) by {
                if id != any {
                    assert(rest.contains_key(id));
                    assert(catalog_before(rest[id], rest[top]));
                }
            }
            top
        }
    }
}

/// Finitely many records, each kept under its own identity, have a listing,
/// and `catalog_of` is that listing.
pub proof fn lemma_catalog_exists(kept: Map<u32, ShortcutModel>)
    requires
        kept.dom().finite(),
        keyed_by_id(kept),
    ensures
        is_catalog_of(catalog_of(kept), kept),
    decreases kept.dom().len(),
{
    if kept.dom().len() == 0 {
        let none = Seq::<ShortcutModel>::empty();
        assert forall|id: u32| kept.contains_key(id) implies exists|i: int|
            0 <= i < none.len() && (#[trigger] none[i]).app_id == id by {
            assert(kept.dom().contains(id));
        }
        assert(is_catalog_of(none, kept));
    } else {
        let top = lemma_last_record(kept);
        let rest = kept.remove(top);
        assert(rest.dom() =~= kept.dom().remove(top));
        lemma_catalog_exists(rest);
        let shorter = catalog_of(rest);
        let listing = shorter.push(kept[top].with_order(decimal(shorter.len())));
        assert forall|i: int| 0 <= i < listing.len() implies {
            &&& kept.contains_key((#[trigger] listing[i]).app_id)
            &&& listing[i] == kept[listing[i].app_id].with_order(decimal(i as nat))
        } by {
            if i < shorter.len() {
                assert(listing[i] == shorter[i]);
                assert(rest.contains_key(shorter[i].app_id));
            }
        }
        assert forall|id: u32| kept.contains_key(id) implies exists|i: int|
            0 <= i < listing.len() && (#[trigger] listing[i]).app_id == id by {
            if id == top {
                assert(listing[shorter.len() as int].app_id == id);
            } else {
                assert(rest.contains_key(id));
                let i = choose|i: int| 0 <= i < shorter.len() && (#[trigger] shorter[i]).app_id == id;
                assert(listing[i].app_id == id);
            }
        }
        assert forall|i: int, j: int| 0 <= i < j < listing.len() implies catalog_before(
            #[trigger] listing[i],
            #[trigger] listing[j],
        ) by {
            assert(listing[i] == shorter[i]);
            if j < shorter.len() {
                assert(listing[j] == shorter[j]);
            } else {
                assert(rest.contains_key(shorter[i].app_id));
                assert(catalog_before(kept[shorter[i].app_id], kept[top]));
            }
        }
        assert(is_catalog_of(listing, kept));
    }
}

} // verus!
