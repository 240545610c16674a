//! Properties that relate several synchronizer steps, proved once and for
//! all over the specification functions the steps' contracts use.

use vstd::prelude::*;

use crate::ids::next_id_spec;
use crate::models::AudioCategory;
use crate::models::AudioProduct;
use crate::models::CreateAudioProduct;
use crate::models::has_product_id;
use crate::models::new_product_spec;
use crate::models::product_ids;
use crate::models::product_with_id;
use crate::models::stamped;
use crate::models::with_category;
use crate::sync::resolve_spec;
use crate::sync::sync_payload_ids;

verus! {

/// Resolution keeps every requested id that some product carries: if `x`
/// is requested and a product of `s` carries it, the resolved list holds a
/// product carrying `x`.
pub proof fn lemma_resolve_keeps(s: Seq<AudioProduct>, ids: Seq<i32>, x: i32)
    requires
        ids.contains(x),
        has_product_id(s, x),
    ensures
        has_product_id(resolve_spec(s, ids), x),
    decreases ids.len(),
{
    let j = choose|j: int| 0 <= j < ids.len() && ids[j] == x;
    if j == ids.len() - 1 {
        let k = choose|i: int| 0 <= i < s.len() && s[i].id == x;
        assert(s[k].id == x);
        let p = product_with_id(s, ids.last());
        assert(p.id == x);
        let r = resolve_spec(s, ids);
        assert(r.last() == p);
        assert(has_product_id(r, x));
    } else {
        assert(ids.drop_last()[j] == x);
        assert(ids.drop_last().contains(x));
        lemma_resolve_keeps(s, ids.drop_last(), x);
        let r0 = resolve_spec(s, ids.drop_last());
        let m = choose|m: int| 0 <= m < r0.len() && r0[m].id == x;
        let r = resolve_spec(s, ids);
        if has_product_id(s, ids.last()) {
            assert(r[m] == r0[m]);
        } else {
            assert(r == r0);
        }
        assert(has_product_id(r, x));
    }
}

/// Referential completion: when a product create with a positive target
/// category succeeds end-to-end — the new record is appended, the fetched
/// target category yields the synchronization payload, the payload is
/// resolved against the post-create product collection, and the category's
/// snapshot is replaced by the stamped resolution — the new snapshot lists
/// the created product's id.
pub proof fn lemma_referential_completion(
    ps: Seq<AudioProduct>,
    cat: AudioCategory,
    req: CreateAudioProduct,
    nid: i32,
    resolved: Seq<AudioProduct>,
    snapshot: Seq<AudioProduct>,
)
    requires
        cat.id == req.category_id,
        req.category_id > 0,
        nid as int == next_id_spec(product_ids(ps)),
        resolved == resolve_spec(
            ps.push(new_product_spec(nid, req)),
            sync_payload_ids(cat, nid),
        ),
        snapshot == stamped(resolved, cat.id),
    ensures
        has_product_id(snapshot, nid),
{
    let p = new_product_spec(nid, req);
    let ps1 = ps.push(p);
    assert(ps1.last().id == nid);
    assert(has_product_id(ps1, nid));
    let payload = sync_payload_ids(cat, nid);
    if has_product_id(cat.products@, nid) {
        let j = choose|j: int| 0 <= j < cat.products@.len() && cat.products@[j].id == nid;
        assert(product_ids(cat.products@)[j] == cat.products@[j].id);
        assert(payload.contains(nid));
    } else {
        assert(payload.last() == nid);
        assert(payload.contains(nid));
    }
    lemma_resolve_keeps(ps1, payload, nid);
    let j = choose|j: int| 0 <= j < resolved.len() && resolved[j].id == nid;
    assert(snapshot[j] == with_category(resolved[j], cat.id));
    assert(has_product_id(snapshot, nid));
}

/// The ids among `ids` that some product of `s` carries, in request order.
pub open spec fn resolvable_ids(ids: Seq<i32>, s: Seq<AudioProduct>) -> Seq<i32>
    decreases ids.len(),
{
    if ids.len() == 0 {
        Seq::empty()
    } else {
        let rest = resolvable_ids(ids.drop_last(), s);
        if has_product_id(s, ids.last()) {
            rest.push(ids.last())
        } else {
            rest
        }
    }
}

/// Category replace semantics: replacing a category's snapshot with the
/// stamped resolution of a requested id list gives a snapshot whose ids
/// are exactly the requested ids that resolve, in request order — whatever
/// the snapshot listed before.
pub proof fn lemma_category_replace_ids(s: Seq<AudioProduct>, ids: Seq<i32>, cid: i32)
    ensures
        product_ids(stamped(resolve_spec(s, ids), cid)) == resolvable_ids(ids, s),
    decreases ids.len(),
{
    if ids.len() == 0 {
        assert(product_ids(stamped(resolve_spec(s, ids), cid)) =~= resolvable_ids(ids, s));
    } else {
        lemma_category_replace_ids(s, ids.drop_last(), cid);
        let r0 = resolve_spec(s, ids.drop_last());
        if has_product_id(s, ids.last()) {
            let p = product_with_id(s, ids.last());
            let k = choose|i: int| 0 <= i < s.len() && s[i].id == ids.last();
            assert(s[k].id == ids.last());
            assert(p.id == ids.last());
            assert(product_ids(stamped(r0.push(p), cid)) =~= product_ids(stamped(r0, cid)).push(
                p.id,
            ));
            assert(product_ids(stamped(resolve_spec(s, ids), cid)) =~= resolvable_ids(ids, s));
        } else {
            assert(product_ids(stamped(resolve_spec(s, ids), cid)) =~= resolvable_ids(ids, s));
        }
    }
}

} // verus!
