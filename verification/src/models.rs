//! Record types of the two collections and the request payloads that
//! mutate them.
//!
//! A category embeds a denormalized snapshot of its member products: full
//! product copies as of the last synchronization, not live references.
//! Prices are carried in minor currency units (an integral number of
//! cents), so a price is non-negative by construction.

use vstd::prelude::*;

verus! {

/// One audio product record, owned by the product collection.
///
/// `category_id == 0` means "unassigned"; a positive value names the
/// category this product belongs to.
pub struct AudioProduct {
    pub id: i32,
    pub name: String,
    pub description: String,
    pub plugin_format: String,
    pub demo_href: String,
    pub image_src: String,
    pub image_alt: String,
    pub price: u64,
    pub category_id: i32,
}

impl Clone for AudioProduct {
    fn clone(&self) -> (r: Self)
        ensures
            r == *self,
    {
        AudioProduct {
            id: self.id,
            name: self.name.clone(),
            description: self.description.clone(),
            plugin_format: self.plugin_format.clone(),
            demo_href: self.demo_href.clone(),
            image_src: self.image_src.clone(),
            image_alt: self.image_alt.clone(),
            price: self.price,
            category_id: self.category_id,
        }
    }
}

/// One audio category record, owned by the category collection.
///
/// `products` is the denormalized snapshot of member products as of the
/// last synchronization.
pub struct AudioCategory {
    pub id: i32,
    pub name: String,
    pub products: Vec<AudioProduct>,
}

impl Clone for AudioCategory {
    fn clone(&self) -> (r: Self)
        ensures
            r.id == self.id,
            r.name == self.name,
            r.products@ == self.products@,
    {
        let r = AudioCategory { id: self.id, name: self.name.clone(), products: self.products.clone() };
        proof {
            assert(r.products@ =~= self.products@);
        }
        r
    }
}

/// Request body for creating a product; the store assigns the id.
pub struct CreateAudioProduct {
    pub name: String,
    pub plugin_format: String,
    pub description: String,
    pub demo_href: String,
    pub image_src: String,
    pub image_alt: String,
    pub price: u64,
    pub category_id: i32,
}

/// Request body for replacing every field of an existing product.
pub struct UpdateAudioProduct {
    pub name: String,
    pub description: String,
    pub plugin_format: String,
    pub demo_href: String,
    pub image_src: String,
    pub image_alt: String,
    pub price: u64,
    pub category_id: i32,
}

/// Request body for creating a category: a name and the ids of the
/// products to resolve into its snapshot.
pub struct CreateAudioCategory {
    pub name: String,
    pub products: Vec<i32>,
}

/// Request body for replacing a category's name and snapshot; also the
/// payload the synchronizer pushes back to a category.
pub struct UpdateAudioCategory {
    pub name: String,
    pub products: Vec<i32>,
}

/// Registration data for a customer account.
pub struct CreateCustomerAccount {
    pub first_name: String,
    pub last_name: String,
    pub email: String,
    pub id: i32,
}

/// The identifiers of a sequence of products, in order.
pub open spec fn product_ids(s: Seq<AudioProduct>) -> Seq<i32> {
    s.map_values(|p: AudioProduct| p.id)
}

/// The identifiers of a sequence of categories, in order.
pub open spec fn category_ids(s: Seq<AudioCategory>) -> Seq<i32> {
    s.map_values(|c: AudioCategory| c.id)
}

/// Some product in `s` carries the identifier `id`.
pub open spec fn has_product_id(s: Seq<AudioProduct>, id: i32) -> bool {
    exists|i: int| 0 <= i < s.len() && s[i].id == id
}

/// Some category in `s` carries the identifier `id`.
pub open spec fn has_category_id(s: Seq<AudioCategory>, id: i32) -> bool {
    exists|i: int| 0 <= i < s.len() && s[i].id == id
}

/// The product in `s` carrying `id` (meaningful when `has_product_id`
/// holds and identifiers are unique).
pub open spec fn product_with_id(s: Seq<AudioProduct>, id: i32) -> AudioProduct {
    s[choose|i: int| 0 <= i < s.len() && s[i].id == id]
}

/// `p` with its `category_id` replaced by `cid` and every other field kept.
pub open spec fn with_category(p: AudioProduct, cid: i32) -> AudioProduct {
    AudioProduct {
        id: p.id,
        name: p.name,
        description: p.description,
        plugin_format: p.plugin_format,
        demo_href: p.demo_href,
        image_src: p.image_src,
        image_alt: p.image_alt,
        price: p.price,
        category_id: cid,
    }
}

/// Every product of `s` stamped with the category identifier `cid`.
pub open spec fn stamped(s: Seq<AudioProduct>, cid: i32) -> Seq<AudioProduct> {
    s.map_values(|p: AudioProduct| with_category(p, cid))
}

/// The product record a create request yields once the store has assigned
/// it the identifier `id`.
pub open spec fn new_product_spec(id: i32, req: CreateAudioProduct) -> AudioProduct {
    AudioProduct {
        id: id,
        name: req.name,
        description: req.description,
        plugin_format: req.plugin_format,
        demo_href: req.demo_href,
        image_src: req.image_src,
        image_alt: req.image_alt,
        price: req.price,
        category_id: req.category_id,
    }
}

/// The product record that replaces the one carrying `id` after a
/// full-field update.
pub open spec fn replaced_product_spec(id: i32, req: UpdateAudioProduct) -> AudioProduct {
    AudioProduct {
        id: id,
        name: req.name,
        description: req.description,
        plugin_format: req.plugin_format,
        demo_href: req.demo_href,
        image_src: req.image_src,
        image_alt: req.image_alt,
        price: req.price,
        category_id: req.category_id,
    }
}

/// The identifiers of the products of `items`, in order.
pub fn collect_product_ids(items: &Vec<AudioProduct>) -> (r: Vec<i32>)
    ensures
        r@ == product_ids(items@),
{
    let mut r: Vec<i32> = Vec::new();
    let mut i: usize = 0;
    while i < items.len()
        invariant
            i <= items@.len(),
            r@.len() == i,
            forall|j: int| 0 <= j < i ==> r@[j] == items@[j].id,
        decreases items@.len() - i,
    {
        r.push(items[i].id);
        i += 1;
    }
    proof {
        assert(r@ =~= product_ids(items@));
    }
    r
}

/// The identifiers of the categories of `items`, in order.
pub fn collect_category_ids(items: &Vec<AudioCategory>) -> (r: Vec<i32>)
    ensures
        r@ == category_ids(items@),
{
    let mut r: Vec<i32> = Vec::new();
    let mut i: usize = 0;
    while i < items.len()
        invariant
            i <= items@.len(),
            r@.len() == i,
            forall|j: int| 0 <= j < i ==> r@[j] == items@[j].id,
        decreases items@.len() - i,
    {
        r.push(items[i].id);
        i += 1;
    }
    proof {
        assert(r@ =~= category_ids(items@));
    }
    r
}

/// Whether `x` occurs among `ids`.
pub fn contains_id(ids: &Vec<i32>, x: i32) -> (b: bool)
    ensures
        b == ids@.contains(x),
{
    let mut i: usize = 0;
    while i < ids.len()
        invariant
            i <= ids@.len(),
            forall|j: int| 0 <= j < i ==> ids@[j] != x,
        decreases ids@.len() - i,
    {
        if ids[i] == x {
            return true;
        }
        i += 1;
    }
    false
}

/// Whether some product of `members` carries the identifier `id`.
pub fn has_member(members: &Vec<AudioProduct>, id: i32) -> (b: bool)
    ensures
        b == has_product_id(members@, id),
{
    let mut i: usize = 0;
    while i < members.len()
        invariant
            i <= members@.len(),
            forall|j: int| 0 <= j < i ==> members@[j].id != id,
        decreases members@.len() - i,
    {
        if members[i].id == id {
            return true;
        }
        i += 1;
    }
    false
}

/// Stamps every product of `v` with the category identifier `cid`.
pub fn stamp_products(v: &mut Vec<AudioProduct>, cid: i32)
    ensures
        final(v)@ == stamped(old(v)@, cid),
{
    let ghost orig = v@;
    let mut i: usize = 0;
    while i < v.len()
        invariant
            i <= v@.len(),
            v@.len() == orig.len(),
            forall|j: int| 0 <= j < i ==> v@[j] == with_category(orig[j], cid),
            forall|j: int| i <= j < orig.len() ==> v@[j] == orig[j],
        decreases v@.len() - i,
    {
        let mut p = v[i].clone();
        p.category_id = cid;
        v.set(i, p);
        i += 1;
    }
    proof {
        assert(v@ =~= stamped(orig, cid));
    }
}

} // verus!
