//! The entity store: two independently owned collections of records, each
//! an ordered list keyed by a monotonically assigned integer identifier.
//!
//! Every operation keeps the collection well formed: no two live records
//! share an identifier.  The next identifier is always derived as
//! `max(existing ids, default 0) + 1`, so deleting the highest-numbered
//! record lets a later create reuse its numeric value.

use vstd::prelude::*;

use crate::ids::lemma_next_id_fresh;
use crate::ids::next_id_spec;
use crate::ids::seq_max;
use crate::ids::seq_max_exec;
use crate::ids::unique_ids;
use crate::models::AudioCategory;
use crate::models::AudioProduct;
use crate::models::CreateAudioProduct;
use crate::models::UpdateAudioCategory;
use crate::models::UpdateAudioProduct;
use crate::models::category_ids;
use crate::models::collect_category_ids;
use crate::models::collect_product_ids;
use crate::models::has_category_id;
use crate::models::has_member;
use crate::models::has_product_id;
use crate::models::new_product_spec;
use crate::models::product_ids;
use crate::models::replaced_product_spec;
use crate::models::stamp_products;
use crate::models::stamped;
use crate::models::with_category;

verus! {

/// The product collection.
pub struct ProductStore {
    items: Vec<AudioProduct>,
}

impl View for ProductStore {
    type V = Seq<AudioProduct>;

    closed spec fn view(&self) -> Seq<AudioProduct> {
        self.items@
    }
}

impl ProductStore {
    /// Identifiers of live products are unique.
    pub open spec fn wf(&self) -> bool {
        unique_ids(product_ids(self@))
    }

    /// An empty product collection.
    pub fn new() -> (s: Self)
        ensures
            s@ == Seq::<AudioProduct>::empty(),
            s.wf(),
    {
        let s = ProductStore { items: Vec::new() };
        proof {
            assert(s@ =~= Seq::<AudioProduct>::empty());
        }
        s
    }

    /// The full product list, in storage order.
    pub fn get_audio_products(&self) -> (r: &Vec<AudioProduct>)
        ensures
            r@ == self@,
    {
        &self.items
    }

    /// Looks a product up by identifier; `None` when no product carries it.
    pub fn get_audio_products_by_id(&self, id: i32) -> (r: Option<&AudioProduct>)
        ensures
            r is Some <==> has_product_id(self@, id),
            match r {
                Some(p) => p.id == id && exists|i: int|
                    0 <= i < self@.len() && self@[i] == *p,
                None => !has_product_id(self@, id),
            },
    {
        let mut i: usize = 0;
        while i < self.items.len()
            invariant
                i <= self.items@.len(),
                forall|j: int| 0 <= j < i ==> self.items@[j].id != id,
            decreases self.items@.len() - i,
        {
            if self.items[i].id == id {
                return Some(&self.items[i]);
            }
            i += 1;
        }
        None
    }

    /// The identifier the next created product receives.
    pub fn next_id(&self) -> (r: i32)
        requires
            seq_max(product_ids(self@)) < i32::MAX as int,
        ensures
            r as int == next_id_spec(product_ids(self@)),
    {
        let ids = collect_product_ids(&self.items);
        let m = seq_max_exec(&ids);
        m + 1
    }

    /// Whether the next identifier still fits the identifier type.
    pub fn can_allocate(&self) -> (b: bool)
        ensures
            b == (seq_max(product_ids(self@)) < i32::MAX as int),
    {
        let ids = collect_product_ids(&self.items);
        let m = seq_max_exec(&ids);
        m < i32::MAX
    }

    /// Appends a record whose identifier the caller has assigned; the
    /// identifier must not be live already.
    pub fn insert(&mut self, p: AudioProduct)
        requires
            !has_product_id(old(self)@, p.id),
        ensures
            final(self)@ == old(self)@.push(p),
            old(self).wf() ==> final(self).wf(),
    {
        self.items.push(p);
        proof {
            if old(self).wf() {
                let s = old(self)@;
                let t = self@;
                assert forall|i: int, j: int|
                    0 <= i < j < product_ids(t).len() implies product_ids(t)[i] != product_ids(
                    t,
                )[j] by {
                    if j < s.len() {
                        assert(product_ids(s)[i] == s[i].id);
                        assert(product_ids(s)[j] == s[j].id);
                    } else {
                        assert(t[j] == p);
                        if s[i].id == p.id {
                            assert(has_product_id(s, p.id));
                        }
                    }
                }
            }
        }
    }

    /// Creates a product from the request: assigns the next identifier,
    /// appends the record, and reports which category (if any) the
    /// synchronizer must now bring into agreement.
    pub fn create_audio_product(&mut self, req: CreateAudioProduct) -> (r: (i32, Option<i32>))
        requires
            old(self).wf(),
            seq_max(product_ids(old(self)@)) < i32::MAX as int,
        ensures
            final(self).wf(),
            r.0 as int == next_id_spec(product_ids(old(self)@)),
            old(self)@.len() == 0 ==> r.0 == 1,
            final(self)@ == old(self)@.push(new_product_spec(r.0, req)),
            has_product_id(final(self)@, r.0),
            r.1 == (if req.category_id > 0 {
                Some(req.category_id)
            } else {
                None::<i32>
            }),
    {
        let id = self.next_id();
        proof {
            lemma_next_id_fresh(product_ids(self@));
            if has_product_id(self@, id) {
                let i = choose|i: int| 0 <= i < self@.len() && self@[i].id == id;
                assert(product_ids(self@)[i] == self@[i].id);
            }
        }
        let sync_target = if req.category_id > 0 {
            Some(req.category_id)
        } else {
            None
        };
        let p = AudioProduct {
            id: id,
            name: req.name,
            description: req.description,
            plugin_format: req.plugin_format,
            demo_href: req.demo_href,
            image_src: req.image_src,
            image_alt: req.image_alt,
            price: req.price,
            category_id: req.category_id,
        };
        self.insert(p);
        proof {
            assert(self@.last() == new_product_spec(id, req));
        }
        (id, sync_target)
    }

    /// Replaces every field of the product carrying `id` with the request's
    /// values (the identifier is kept); returns the product's new category
    /// identifier, or `None` when no product carries `id`.
    #[verifier::loop_isolation(false)]
    pub fn update_audio_product(&mut self, id: i32, req: UpdateAudioProduct) -> (r: Option<i32>)
        ensures
            r is Some <==> has_product_id(old(self)@, id),
            match r {
                Some(cid) => cid == req.category_id && exists|i: int|
                    #![auto]
                    0 <= i < old(self)@.len() && old(self)@[i].id == id && (forall|j: int|
                        0 <= j < i ==> old(self)@[j].id != id) && final(self)@ == old(
                        self,
                    )@.update(i, replaced_product_spec(id, req)),
                None => final(self)@ == old(self)@,
            },
            old(self).wf() ==> final(self).wf(),
    {
        let ghost orig = self.items@;
        let mut i: usize = 0;
        while i < self.items.len()
            invariant
                i <= self.items@.len(),
                self.items@ == orig,
                forall|j: int| 0 <= j < i ==> orig[j].id != id,
            decreases self.items@.len() - i,
        {
            if self.items[i].id == id {
                proof {
                    assert(orig[i as int].id == id);
                    assert(has_product_id(orig, id));
                }
                let newp = AudioProduct {
                    id: id,
                    name: req.name,
                    description: req.description,
                    plugin_format: req.plugin_format,
                    demo_href: req.demo_href,
                    image_src: req.image_src,
                    image_alt: req.image_alt,
                    price: req.price,
                    category_id: req.category_id,
                };
                self.items.set(i, newp);
                proof {
                    let k = i as int;
                    assert(self@ == orig.update(k, replaced_product_spec(id, req)));
                    assert forall|m: int| 0 <= m < self@.len() implies self@[m].id == orig[m].id by {
                        if m != k {
                            assert(self@[m] == orig[m]);
                        }
                    }
                    if old(self).wf() {
                        assert forall|x: int, y: int|
                            0 <= x < y < product_ids(self@).len() implies product_ids(self@)[x]
                            != product_ids(self@)[y] by {
                            assert(product_ids(self@)[x] == self@[x].id);
                            assert(product_ids(self@)[y] == self@[y].id);
                            assert(product_ids(orig)[x] == orig[x].id);
                            assert(product_ids(orig)[y] == orig[y].id);
                        }
                    }
                }
                return Some(req.category_id);
            }
            i += 1;
        }
        None
    }

    /// Removes the product carrying `id`; a no-op when none does.
    #[verifier::loop_isolation(false)]
    pub fn delete_audio_product(&mut self, id: i32)
        requires
            old(self).wf(),
        ensures
            final(self).wf(),
            !has_product_id(final(self)@, id),
            if has_product_id(old(self)@, id) {
                exists|k: int|
                    #![auto]
                    0 <= k < old(self)@.len() && old(self)@[k].id == id && final(self)@ == old(
                        self,
                    )@.remove(k)
            } else {
                final(self)@ == old(self)@
            },
            forall|x: i32|
                x != id ==> (has_product_id(final(self)@, x) <==> has_product_id(old(self)@, x)),
    {
        let ghost orig = self.items@;
        let mut i: usize = 0;
        while i < self.items.len()
            invariant
                i <= self.items@.len(),
                self.items@ == orig,
                forall|j: int| 0 <= j < i ==> orig[j].id != id,
            decreases self.items@.len() - i,
        {
            if self.items[i].id == id {
                proof {
                    assert(orig[i as int].id == id);
                    assert(has_product_id(orig, id));
                }
                self.items.remove(i);
                proof {
                    let k = i as int;
                    let t = self@;
                    assert(t == orig.remove(k));
                    assert(t.len() == orig.len() - 1);
                    assert forall|m: int|
                        0 <= m < t.len() implies t[m] == (if m < k {
                            orig[m]
                        } else {
                            orig[m + 1]
                        }) by {
                        if m < k {
                            assert(t[m] == orig.subrange(0, k)[m]);
                        } else {
                            assert(t[m] == orig.subrange(k + 1, orig.len() as int)[m - k]);
                        }
                    }
                    assert forall|m: int| 0 <= m < t.len() implies t[m].id != id by {
                        let m0 = if m < k {
                            m
                        } else {
                            m + 1
                        };
                        assert(t[m] == orig[m0]);
                        assert(product_ids(orig)[m0] == orig[m0].id);
                        assert(product_ids(orig)[k] == orig[k].id);
                    }
                    assert forall|x: int, y: int|
                        0 <= x < y < product_ids(t).len() implies product_ids(t)[x] != product_ids(
                        t,
                    )[y] by {
                        let x0 = if x < k {
                            x
                        } else {
                            x + 1
                        };
                        let y0 = if y < k {
                            y
                        } else {
                            y + 1
                        };
                        assert(product_ids(t)[x] == t[x].id);
                        assert(product_ids(t)[y] == t[y].id);
                        assert(t[x] == orig[x0]);
                        assert(t[y] == orig[y0]);
                        assert(product_ids(orig)[x0] == orig[x0].id);
                        assert(product_ids(orig)[y0] == orig[y0].id);
                    }
                    assert forall|x: i32|
                        x != id implies (has_product_id(t, x) <==> has_product_id(orig, x)) by {
                        if has_product_id(t, x) {
                            let m = choose|m: int| 0 <= m < t.len() && t[m].id == x;
                            let m0 = if m < k {
                                m
                            } else {
                                m + 1
                            };
                            assert(t[m] == orig[m0]);
                            assert(orig[m0].id == x);
                        }
                        if has_product_id(orig, x) {
                            let m0 = choose|m0: int| 0 <= m0 < orig.len() && orig[m0].id == x;
                            if m0 < k {
                                assert(t[m0] == orig[m0]);
                            } else {
                                assert(m0 != k);
                                assert(t[m0 - 1] == orig[m0]);
                            }
                        }
                    }
                }
                return;
            }
            i += 1;
        }
    }

    /// Stamps every stored product that appears (by identifier) among
    /// `members` with the category identifier `cid`; other products are
    /// left untouched.
    pub fn assign_category_members(&mut self, members: &Vec<AudioProduct>, cid: i32)
        ensures
            final(self)@.len() == old(self)@.len(),
            forall|i: int|
                0 <= i < old(self)@.len() ==> final(self)@[i] == (if has_product_id(
                    members@,
                    old(self)@[i].id,
                ) {
                    with_category(old(self)@[i], cid)
                } else {
                    old(self)@[i]
                }),
            old(self).wf() ==> final(self).wf(),
    {
        let ghost orig = self.items@;
        let mut i: usize = 0;
        while i < self.items.len()
            invariant
                i <= self.items@.len(),
                self.items@.len() == orig.len(),
                forall|j: int|
                    0 <= j < i ==> self.items@[j] == (if has_product_id(members@, orig[j].id) {
                        with_category(orig[j], cid)
                    } else {
                        orig[j]
                    }),
                forall|j: int| i <= j < orig.len() ==> self.items@[j] == orig[j],
            decreases self.items@.len() - i,
        {
            if has_member(members, self.items[i].id) {
                let mut p = self.items[i].clone();
                p.category_id = cid;
                self.items.set(i, p);
            }
            i += 1;
        }
        proof {
            if old(self).wf() {
                assert forall|x: int, y: int|
                    0 <= x < y < product_ids(self@).len() implies product_ids(self@)[x]
                    != product_ids(self@)[y] by {
                    assert(self@[x].id == orig[x].id);
                    assert(self@[y].id == orig[y].id);
                    assert(product_ids(orig)[x] == orig[x].id);
                    assert(product_ids(orig)[y] == orig[y].id);
                }
            }
        }
    }
}

/// The category collection.
pub struct CategoryStore {
    items: Vec<AudioCategory>,
}

impl View for CategoryStore {
    type V = Seq<AudioCategory>;

    closed spec fn view(&self) -> Seq<AudioCategory> {
        self.items@
    }
}

impl CategoryStore {
    /// Identifiers of live categories are unique.
    pub open spec fn wf(&self) -> bool {
        unique_ids(category_ids(self@))
    }

    /// An empty category collection.
    pub fn new() -> (s: Self)
        ensures
            s@ == Seq::<AudioCategory>::empty(),
            s.wf(),
    {
        let s = CategoryStore { items: Vec::new() };
        proof {
            assert(s@ =~= Seq::<AudioCategory>::empty());
        }
        s
    }

    /// The full category list, in storage order.
    pub fn get_audio_categories(&self) -> (r: &Vec<AudioCategory>)
        ensures
            r@ == self@,
    {
        &self.items
    }

    /// Looks a category up by identifier; `None` when no category carries it.
    pub fn get_audio_category_by_id(&self, id: i32) -> (r: Option<&AudioCategory>)
        ensures
            r is Some <==> has_category_id(self@, id),
            match r {
                Some(c) => c.id == id && exists|i: int|
                    0 <= i < self@.len() && self@[i] == *c,
                None => !has_category_id(self@, id),
            },
    {
        let mut i: usize = 0;
        while i < self.items.len()
            invariant
                i <= self.items@.len(),
                forall|j: int| 0 <= j < i ==> self.items@[j].id != id,
            decreases self.items@.len() - i,
        {
            if self.items[i].id == id {
                return Some(&self.items[i]);
            }
            i += 1;
        }
        None
    }

    /// The identifier the next created category receives.
    pub fn next_id(&self) -> (r: i32)
        requires
            seq_max(category_ids(self@)) < i32::MAX as int,
        ensures
            r as int == next_id_spec(category_ids(self@)),
    {
        let ids = collect_category_ids(&self.items);
        let m = seq_max_exec(&ids);
        m + 1
    }

    /// Whether the next identifier still fits the identifier type.
    pub fn can_allocate(&self) -> (b: bool)
        ensures
            b == (seq_max(category_ids(self@)) < i32::MAX as int),
    {
        let ids = collect_category_ids(&self.items);
        let m = seq_max_exec(&ids);
        m < i32::MAX
    }

    /// Appends a record whose identifier the caller has assigned; the
    /// identifier must not be live already.
    pub fn insert(&mut self, c: AudioCategory)
        requires
            !has_category_id(old(self)@, c.id),
        ensures
            final(self)@ == old(self)@.push(c),
            old(self).wf() ==> final(self).wf(),
    {
        let ghost cid = c.id;
        self.items.push(c);
        proof {
            if old(self).wf() {
                let s = old(self)@;
                let t = self@;
                assert forall|i: int, j: int|
                    0 <= i < j < category_ids(t).len() implies category_ids(t)[i] != category_ids(
                    t,
                )[j] by {
                    if j < s.len() {
                        assert(category_ids(s)[i] == s[i].id);
                        assert(category_ids(s)[j] == s[j].id);
                    } else {
                        assert(t[j].id == cid);
                        if s[i].id == cid {
                            assert(has_category_id(s, cid));
                        }
                    }
                }
            }
        }
    }

    /// Replaces the name and the snapshot of the category carrying `id`:
    /// the snapshot becomes the resolved products, each stamped with this
    /// category's identifier — a full replace, not a merge.  A no-op when
    /// no category carries `id`.
    #[verifier::loop_isolation(false)]
    pub fn update_audio_category(
        &mut self,
        id: i32,
        req: UpdateAudioCategory,
        resolved: Vec<AudioProduct>,
    )
        ensures
            final(self)@.len() == old(self)@.len(),
            if has_category_id(old(self)@, id) {
                exists|k: int|
                    #![auto]
                    0 <= k < old(self)@.len()
                    && old(self)@[k].id == id
                    && (forall|j: int| 0 <= j < k ==> old(self)@[j].id != id)
                    && final(self)@[k].id == id
                    && final(self)@[k].name == req.name
                    && final(self)@[k].products@ == stamped(resolved@, id)
                    && (forall|j: int|
                        0 <= j < old(self)@.len() && j != k ==> final(self)@[j] == old(self)@[j])
            } else {
                final(self)@ == old(self)@
            },
            old(self).wf() ==> final(self).wf(),
    {
        let mut resolved = resolved;
        stamp_products(&mut resolved, id);
        let ghost orig = self.items@;
        let mut i: usize = 0;
        while i < self.items.len()
            invariant
                i <= self.items@.len(),
                self.items@ == orig,
                forall|j: int| 0 <= j < i ==> orig[j].id != id,
            decreases self.items@.len() - i,
        {
            if self.items[i].id == id {
                proof {
                    assert(orig[i as int].id == id);
                    assert(has_category_id(orig, id));
                }
                let newcat = AudioCategory { id: id, name: req.name, products: resolved };
                self.items.set(i, newcat);
                proof {
                    let k = i as int;
                    assert forall|m: int| 0 <= m < self@.len() implies self@[m].id == orig[m].id by {
                        if m != k {
                            assert(self@[m] == orig[m]);
                        }
                    }
                    if old(self).wf() {
                        assert forall|x: int, y: int|
                            0 <= x < y < category_ids(self@).len() implies category_ids(self@)[x]
                            != category_ids(self@)[y] by {
                            assert(category_ids(self@)[x] == self@[x].id);
                            assert(category_ids(self@)[y] == self@[y].id);
                            assert(category_ids(orig)[x] == orig[x].id);
                            assert(category_ids(orig)[y] == orig[y].id);
                        }
                    }
                }
                return;
            }
            i += 1;
        }
    }

    /// Removes the category carrying `id`; a no-op when none does.
    #[verifier::loop_isolation(false)]
    pub fn delete_audio_category(&mut self, id: i32)
        requires
            old(self).wf(),
        ensures
            final(self).wf(),
            !has_category_id(final(self)@, id),
            if has_category_id(old(self)@, id) {
                exists|k: int|
                    #![auto]
                    0 <= k < old(self)@.len() && old(self)@[k].id == id && final(self)@ == old(
                        self,
                    )@.remove(k)
            } else {
                final(self)@ == old(self)@
            },
            forall|x: i32|
                x != id ==> (has_category_id(final(self)@, x) <==> has_category_id(old(self)@, x)),
    {
        let ghost orig = self.items@;
        let mut i: usize = 0;
        while i < self.items.len()
            invariant
                i <= self.items@.len(),
                self.items@ == orig,
                forall|j: int| 0 <= j < i ==> orig[j].id != id,
            decreases self.items@.len() - i,
        {
            if self.items[i].id == id {
                proof {
                    assert(orig[i as int].id == id);
                    assert(has_category_id(orig, id));
                }
                self.items.remove(i);
                proof {
                    let k = i as int;
                    let t = self@;
                    assert(t == orig.remove(k));
                    assert(t.len() == orig.len() - 1);
                    assert forall|m: int|
                        0 <= m < t.len() implies t[m] == (if m < k {
                            orig[m]
                        } else {
                            orig[m + 1]
                        }) by {
                        if m < k {
                            assert(t[m] == orig.subrange(0, k)[m]);
                        } else {
                            assert(t[m] == orig.subrange(k + 1, orig.len() as int)[m - k]);
                        }
                    }
                    assert forall|m: int| 0 <= m < t.len() implies t[m].id != id by {
                        let m0 = if m < k {
                            m
                        } else {
                            m + 1
                        };
                        assert(t[m] == orig[m0]);
                        assert(category_ids(orig)[m0] == orig[m0].id);
                        assert(category_ids(orig)[k] == orig[k].id);
                    }
                    assert forall|x: int, y: int|
                        0 <= x < y < category_ids(t).len() implies category_ids(t)[x]
                        != category_ids(t)[y] by {
                        let x0 = if x < k {
                            x
                        } else {
                            x + 1
                        };
                        let y0 = if y < k {
                            y
                        } else {
                            y + 1
                        };
                        assert(category_ids(t)[x] == t[x].id);
                        assert(category_ids(t)[y] == t[y].id);
                        assert(t[x] == orig[x0]);
                        assert(t[y] == orig[y0]);
                        assert(category_ids(orig)[x0] == orig[x0].id);
                        assert(category_ids(orig)[y0] == orig[y0].id);
                    }
                    assert forall|x: i32|
                        x != id implies (has_category_id(t, x) <==> has_category_id(orig, x)) by {
                        if has_category_id(t, x) {
                            let m = choose|m: int| 0 <= m < t.len() && t[m].id == x;
                            let m0 = if m < k {
                                m
                            } else {
                                m + 1
                            };
                            assert(t[m] == orig[m0]);
                            assert(orig[m0].id == x);
                        }
                        if has_category_id(orig, x) {
                            let m0 = choose|m0: int| 0 <= m0 < orig.len() && orig[m0].id == x;
                            if m0 < k {
                                assert(t[m0] == orig[m0]);
                            } else {
                                assert(m0 != k);
                                assert(t[m0 - 1] == orig[m0]);
                            }
                        }
                    }
                }
                return;
            }
            i += 1;
        }
    }
}

} // verus!
