use plugin_store::models::AudioCategory;
use plugin_store::models::AudioProduct;
use plugin_store::models::CreateAudioCategory;
use plugin_store::models::CreateAudioProduct;
use plugin_store::models::UpdateAudioCategory;
use plugin_store::models::UpdateAudioProduct;
use plugin_store::store::CategoryStore;
use plugin_store::store::ProductStore;
use plugin_store::sync::create_audio_category;
use plugin_store::sync::category_refresh_payload;
use plugin_store::sync::resolve_products;
use plugin_store::sync::update_category_with_product;

fn product_req(name: &str, price: u64, category_id: i32) -> CreateAudioProduct {
    CreateAudioProduct {
        name: name.to_string(),
        plugin_format: "VST3".to_string(),
        description: "a plugin".to_string(),
        demo_href: "/demo".to_string(),
        image_src: "/img.png".to_string(),
        image_alt: "art".to_string(),
        price,
        category_id,
    }
}

fn update_req(name: &str, price: u64, category_id: i32) -> UpdateAudioProduct {
    UpdateAudioProduct {
        name: name.to_string(),
        description: "updated".to_string(),
        plugin_format: "AU".to_string(),
        demo_href: "/demo2".to_string(),
        image_src: "/img2.png".to_string(),
        image_alt: "art2".to_string(),
        price,
        category_id,
    }
}

#[test]
fn empty_collection_allocates_id_one() {
    let mut ps = ProductStore::new();
    let (id, _) = ps.create_audio_product(product_req("RoomVerb", 2999, 0));
    assert_eq!(id, 1);

    let mut cs = CategoryStore::new();
    let cid = create_audio_category(
        &mut cs,
        &mut ps,
        CreateAudioCategory { name: "Reverb".to_string(), products: vec![] },
        Vec::new(),
    );
    assert_eq!(cid, 1);
}

#[test]
fn ids_are_unique_across_creates_and_deletes() {
    let mut ps = ProductStore::new();
    for _ in 0..4 {
        ps.create_audio_product(product_req("P", 100, 0));
    }
    ps.delete_audio_product(2);
    ps.create_audio_product(product_req("P", 100, 0));
    let items = ps.get_audio_products();
    for a in 0..items.len() {
        for b in 0..items.len() {
            if a != b {
                assert_ne!(items[a].id, items[b].id);
            }
        }
    }
}

#[test]
fn deleting_the_max_id_lets_it_be_reused() {
    let mut ps = ProductStore::new();
    let (first, _) = ps.create_audio_product(product_req("A", 100, 0));
    let (second, _) = ps.create_audio_product(product_req("B", 200, 0));
    assert_eq!(first, 1);
    assert_eq!(second, 2);
    ps.delete_audio_product(2);
    let (third, _) = ps.create_audio_product(product_req("C", 300, 0));
    assert_eq!(third, 2);
}

#[test]
fn lookup_of_missing_id_is_none() {
    let ps = ProductStore::new();
    assert!(ps.get_audio_products_by_id(7).is_none());
    let cs = CategoryStore::new();
    assert!(cs.get_audio_category_by_id(7).is_none());
}

#[test]
fn create_reports_sync_target_only_for_positive_category() {
    let mut ps = ProductStore::new();
    let (_, sync) = ps.create_audio_product(product_req("A", 100, 0));
    assert_eq!(sync, None);
    let (_, sync) = ps.create_audio_product(product_req("B", 100, -3));
    assert_eq!(sync, None);
    let (_, sync) = ps.create_audio_product(product_req("C", 100, 5));
    assert_eq!(sync, Some(5));
}

#[test]
fn sync_payload_appends_missing_product_id() {
    let snapshot = vec![sample_product(2, 0)];
    let cat = AudioCategory { id: 1, name: "Reverb".to_string(), products: snapshot };
    let payload = update_category_with_product(cat, 5);
    assert_eq!(payload.name, "Reverb");
    assert_eq!(payload.products, vec![2, 5]);
}

#[test]
fn sync_payload_keeps_present_product_id() {
    let snapshot = vec![sample_product(2, 0), sample_product(5, 0)];
    let cat = AudioCategory { id: 1, name: "Reverb".to_string(), products: snapshot };
    let payload = update_category_with_product(cat, 5);
    assert_eq!(payload.products, vec![2, 5]);
}

#[test]
fn refresh_payload_lists_snapshot_ids_unchanged() {
    let snapshot = vec![sample_product(4, 1), sample_product(9, 1)];
    let cat = AudioCategory { id: 1, name: "Synth".to_string(), products: snapshot };
    let payload = category_refresh_payload(cat);
    assert_eq!(payload.name, "Synth");
    assert_eq!(payload.products, vec![4, 9]);
}

#[test]
fn update_replaces_every_field_and_keeps_id() {
    let mut ps = ProductStore::new();
    ps.create_audio_product(product_req("Old", 100, 0));
    let r = ps.update_audio_product(1, update_req("New", 4999, 3));
    assert_eq!(r, Some(3));
    let p = ps.get_audio_products_by_id(1).unwrap();
    assert_eq!(p.id, 1);
    assert_eq!(p.name, "New");
    assert_eq!(p.description, "updated");
    assert_eq!(p.plugin_format, "AU");
    assert_eq!(p.price, 4999);
    assert_eq!(p.category_id, 3);
}

#[test]
fn update_of_missing_id_changes_nothing() {
    let mut ps = ProductStore::new();
    ps.create_audio_product(product_req("Only", 100, 0));
    let r = ps.update_audio_product(42, update_req("New", 4999, 3));
    assert_eq!(r, None);
    assert_eq!(ps.get_audio_products().len(), 1);
    assert_eq!(ps.get_audio_products_by_id(1).unwrap().name, "Only");
}

#[test]
fn resolution_drops_unresolvable_ids() {
    let mut ps = ProductStore::new();
    ps.create_audio_product(product_req("A", 100, 0));
    ps.create_audio_product(product_req("B", 200, 0));
    let resolved = resolve_products(&ps, &vec![2, 99, 1]);
    let ids: Vec<i32> = resolved.iter().map(|p| p.id).collect();
    assert_eq!(ids, vec![2, 1]);
}

#[test]
fn category_replace_sets_snapshot_to_exactly_the_resolved_ids() {
    let mut ps = ProductStore::new();
    for _ in 0..3 {
        ps.create_audio_product(product_req("P", 100, 0));
    }
    let mut cs = CategoryStore::new();
    let first_members = resolve_products(&ps, &vec![1]);
    let cid = create_audio_category(
        &mut cs,
        &mut ps,
        CreateAudioCategory { name: "Old".to_string(), products: vec![1] },
        first_members,
    );
    let req = UpdateAudioCategory { name: "NewName".to_string(), products: vec![2, 3] };
    let resolved = resolve_products(&ps, &req.products);
    cs.update_audio_category(cid, req, resolved);
    let cat = cs.get_audio_category_by_id(cid).unwrap();
    assert_eq!(cat.name, "NewName");
    let ids: Vec<i32> = cat.products.iter().map(|p| p.id).collect();
    assert_eq!(ids, vec![2, 3]);
    for p in cat.products.iter() {
        assert_eq!(p.category_id, cid);
    }
}

#[test]
fn category_create_stamps_members_in_product_collection() {
    let mut ps = ProductStore::new();
    ps.create_audio_product(product_req("A", 100, 0));
    ps.create_audio_product(product_req("B", 200, 0));
    let mut cs = CategoryStore::new();
    let members = resolve_products(&ps, &vec![2]);
    let cid = create_audio_category(
        &mut cs,
        &mut ps,
        CreateAudioCategory { name: "Bass".to_string(), products: vec![2] },
        members,
    );
    assert_eq!(ps.get_audio_products_by_id(2).unwrap().category_id, cid);
    assert_eq!(ps.get_audio_products_by_id(1).unwrap().category_id, 0);
}

#[test]
fn failed_synchronization_leaves_created_product_visible() {
    let mut ps = ProductStore::new();
    let cs = CategoryStore::new();
    let (pid, sync) = ps.create_audio_product(product_req("Orphan", 100, 9));
    assert_eq!(sync, Some(9));
    // The synchronization leg fails: the target category cannot be fetched.
    assert!(cs.get_audio_category_by_id(9).is_none());
    // The product was still created locally and stays in the list.
    assert!(ps.get_audio_products().iter().any(|p| p.id == pid));
}

#[test]
fn create_then_sync_lists_product_in_category_snapshot() {
    let mut ps = ProductStore::new();
    let mut cs = CategoryStore::new();

    // POST /plugin_store/categories {name: "Reverb", products: []}
    let cid = create_audio_category(
        &mut cs,
        &mut ps,
        CreateAudioCategory { name: "Reverb".to_string(), products: vec![] },
        Vec::new(),
    );
    assert_eq!(cid, 1);
    assert!(cs.get_audio_category_by_id(1).unwrap().products.is_empty());

    // POST /plugin_store/products {name: "RoomVerb", categoryId: 1, price: 29.99}
    let (pid, sync) = ps.create_audio_product(product_req("RoomVerb", 2999, 1));
    assert_eq!(pid, 1);
    assert_eq!(sync, Some(1));

    // The synchronizer fetches category 1, derives the payload, resolves it
    // against the product collection, and pushes the update back.
    let fetched = cs.get_audio_category_by_id(1).unwrap().clone();
    let payload = update_category_with_product(fetched, pid);
    let resolved = resolve_products(&ps, &payload.products);
    cs.update_audio_category(1, payload, resolved);

    let cat = cs.get_audio_category_by_id(1).unwrap();
    assert!(cat.products.iter().any(|p| p.id == pid));

    // DELETE /plugin_store/products/1: no cascade, the snapshot keeps the
    // now-stale product id.
    ps.delete_audio_product(pid);
    assert!(ps.get_audio_products_by_id(pid).is_none());
    let cat = cs.get_audio_category_by_id(1).unwrap();
    assert!(cat.products.iter().any(|p| p.id == pid));
}

#[test]
fn deleting_a_category_keeps_product_category_ids() {
    let mut ps = ProductStore::new();
    ps.create_audio_product(product_req("A", 100, 0));
    let mut cs = CategoryStore::new();
    let members = resolve_products(&ps, &vec![1]);
    let cid = create_audio_category(
        &mut cs,
        &mut ps,
        CreateAudioCategory { name: "Keys".to_string(), products: vec![1] },
        members,
    );
    cs.delete_audio_category(cid);
    assert!(cs.get_audio_category_by_id(cid).is_none());
    // No cascade: the product keeps its now-dangling category id.
    assert_eq!(ps.get_audio_products_by_id(1).unwrap().category_id, cid);
}

fn sample_product(id: i32, category_id: i32) -> AudioProduct {
    AudioProduct {
        id,
        name: format!("p{}", id),
        description: "d".to_string(),
        plugin_format: "VST3".to_string(),
        demo_href: "/demo".to_string(),
        image_src: "/img.png".to_string(),
        image_alt: "alt".to_string(),
        price: 100,
        category_id,
    }
}
