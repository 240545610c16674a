//! The consistency synchronizer: after a mutation to one collection, these
//! steps recompute the denormalized product-id list pushed back into the
//! affected category, and resolve product-id lists into full records.
//!
//! The remote legs of a synchronization — fetching a category, fetching
//! products by id, pushing a category update — are I/O and live outside
//! the library; each step here is the pure computation between two such
//! legs, stated over the records the caller fetched.

use vstd::prelude::*;

use crate::ids::lemma_next_id_fresh;
use crate::ids::next_id_spec;
use crate::ids::seq_max;
use crate::ids::unique_ids;
use crate::models::AudioCategory;
use crate::models::AudioProduct;
use crate::models::CreateAudioCategory;
use crate::models::UpdateAudioCategory;
use crate::models::category_ids;
use crate::models::collect_product_ids;
use crate::models::contains_id;
use crate::models::has_category_id;
use crate::models::has_product_id;
use crate::models::product_ids;
use crate::models::product_with_id;
use crate::models::stamp_products;
use crate::models::stamped;
use crate::models::with_category;
use crate::store::CategoryStore;
use crate::store::ProductStore;

verus! {

/// The product-id list pushed back to a category after a product create:
/// the snapshot's ids, with the new product's id appended when it is not
/// already a member.
pub open spec fn sync_payload_ids(category: AudioCategory, product_id: i32) -> Seq<i32> {
    if has_product_id(category.products@, product_id) {
        product_ids(category.products@)
    } else {
        product_ids(category.products@).push(product_id)
    }
}

/// Best-effort resolution of a product-id list against a product
/// collection: each id that some product carries contributes that product,
/// in request order; unresolvable ids are silently dropped.
pub open spec fn resolve_spec(s: Seq<AudioProduct>, ids: Seq<i32>) -> Seq<AudioProduct>
    decreases ids.len(),
{
    if ids.len() == 0 {
        Seq::empty()
    } else {
        let rest = resolve_spec(s, ids.drop_last());
        if has_product_id(s, ids.last()) {
            rest.push(product_with_id(s, ids.last()))
        } else {
            rest
        }
    }
}

/// When identifiers are unique, the record `product_with_id` denotes is
/// the one at any index whose identifier matches.
pub proof fn lemma_unique_product_lookup(s: Seq<AudioProduct>, j: int, id: i32)
    requires
        unique_ids(product_ids(s)),
        0 <= j < s.len(),
        s[j].id == id,
    ensures
        has_product_id(s, id),
        product_with_id(s, id) == s[j],
{
    assert(has_product_id(s, id));
    let k = choose|i: int| 0 <= i < s.len() && s[i].id == id;
    if k != j {
        assert(product_ids(s)[k] == s[k].id);
        assert(product_ids(s)[j] == s[j].id);
    }
}

/// Builds the category update that re-synchronizes `category` after the
/// product carrying `product_id` was created: the category keeps its name,
/// and its product-id list gains the new id when absent.  The payload
/// always lists the new product's id.
pub fn update_category_with_product(category: AudioCategory, product_id: i32) -> (u:
    UpdateAudioCategory)
    ensures
        u.name == category.name,
        u.products@ == sync_payload_ids(category, product_id),
        u.products@.contains(product_id),
{
    let mut ids = collect_product_ids(&category.products);
    let present = contains_id(&ids, product_id);
    proof {
        let s = category.products@;
        if ids@.contains(product_id) {
            let j = choose|j: int| 0 <= j < ids@.len() && ids@[j] == product_id;
            assert(product_ids(s)[j] == s[j].id);
            assert(has_product_id(s, product_id));
        }
        if has_product_id(s, product_id) {
            let j = choose|j: int| 0 <= j < s.len() && s[j].id == product_id;
            assert(product_ids(s)[j] == s[j].id);
            assert(ids@.contains(product_id));
        }
    }
    if !present {
        ids.push(product_id);
        proof {
            assert(ids@.last() == product_id);
        }
    }
    UpdateAudioCategory { name: category.name, products: ids }
}

/// Builds the idempotent-refresh payload pushed back to a product's
/// category after the product was updated: the category's current
/// snapshot ids, unchanged in content — membership is not repaired.
pub fn category_refresh_payload(category: AudioCategory) -> (u: UpdateAudioCategory)
    ensures
        u.name == category.name,
        u.products@ == product_ids(category.products@),
{
    let ids = collect_product_ids(&category.products);
    UpdateAudioCategory { name: category.name, products: ids }
}

/// Resolves a product-id list against the product collection, best
/// effort: ids no product carries are dropped, the rest yield copies of
/// their records in request order.
pub fn resolve_products(store: &ProductStore, ids: &Vec<i32>) -> (r: Vec<AudioProduct>)
    requires
        store.wf(),
    ensures
        r@ == resolve_spec(store@, ids@),
{
    let mut r: Vec<AudioProduct> = Vec::new();
    let mut i: usize = 0;
    while i < ids.len()
        invariant
            i <= ids@.len(),
            store.wf(),
            r@ == resolve_spec(store@, ids@.take(i as int)),
        decreases ids@.len() - i,
    {
        proof {
            assert(ids@.take(i + 1).drop_last() =~= ids@.take(i as int));
            assert(ids@.take(i + 1).last() == ids@[i as int]);
        }
        match store.get_audio_products_by_id(ids[i]) {
            Some(p) => {
                let cp = p.clone();
                proof {
                    let j = choose|j: int| 0 <= j < store@.len() && store@[j] == *p;
                    lemma_unique_product_lookup(store@, j, ids@[i as int]);
                }
                r.push(cp);
            },
            None => {
            },
        }
        i += 1;
    }
    proof {
        assert(ids@.take(ids@.len() as int) =~= ids@);
    }
    r
}

/// Creates a category from the request and the resolved member products:
/// assigns the next category identifier, stamps each resolved product with
/// it, stores the stamped list as the new category's snapshot, and stamps
/// the matching records of the product collection in place.
pub fn create_audio_category(
    categories: &mut CategoryStore,
    products: &mut ProductStore,
    req: CreateAudioCategory,
    resolved: Vec<AudioProduct>,
) -> (cid: i32)
    requires
        old(categories).wf(),
        old(products).wf(),
        seq_max(category_ids(old(categories)@)) < i32::MAX as int,
    ensures
        final(categories).wf(),
        final(products).wf(),
        cid as int == next_id_spec(category_ids(old(categories)@)),
        old(categories)@.len() == 0 ==> cid == 1,
        final(categories)@.len() == old(categories)@.len() + 1,
        forall|j: int|
            0 <= j < old(categories)@.len() ==> final(categories)@[j] == old(categories)@[j],
        final(categories)@.last().id == cid,
        final(categories)@.last().name == req.name,
        final(categories)@.last().products@ == stamped(resolved@, cid),
        final(products)@.len() == old(products)@.len(),
        forall|i: int|
            0 <= i < old(products)@.len() ==> final(products)@[i] == (if has_product_id(
                resolved@,
                old(products)@[i].id,
            ) {
                with_category(old(products)@[i], cid)
            } else {
                old(products)@[i]
            }),
{
    let cid = categories.next_id();
    proof {
        lemma_next_id_fresh(category_ids(categories@));
        if has_category_id(categories@, cid) {
            let i = choose|i: int| 0 <= i < categories@.len() && categories@[i].id == cid;
            assert(category_ids(categories@)[i] == categories@[i].id);
        }
    }
    let mut members = resolved;
    stamp_products(&mut members, cid);
    proof {
        assert forall|x: i32|
            has_product_id(members@, x) <==> has_product_id(resolved@, x) by {
            if has_product_id(members@, x) {
                let j = choose|j: int| 0 <= j < members@.len() && members@[j].id == x;
                assert(members@[j] == with_category(resolved@[j], cid));
                assert(resolved@[j].id == x);
            }
            if has_product_id(resolved@, x) {
                let j = choose|j: int| 0 <= j < resolved@.len() && resolved@[j].id == x;
                assert(members@[j] == with_category(resolved@[j], cid));
                assert(members@[j].id == x);
            }
        }
    }
    products.assign_category_members(&members, cid);
    let newcat = AudioCategory { id: cid, name: req.name, products: members };
    categories.insert(newcat);
    cid
}

} // verus!
