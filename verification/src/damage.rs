//! Damage as data: the engine's one exact complete-frame damage policy.
//!
//! Two complete frame inputs are compared owner by owner. An owner is damaged
//! when its producer-side state (material and coverage) differs, when its own
//! group of draw items differs, when the relative painter position of its
//! items moves among the owners whose groups did not change, when the list's
//! shared text-font registry differs and the owner paints text, or when the
//! paint environment differs and the owner paints anything. The damaged
//! region is the union of every damaged owner's before and after coverage.
//!
//! Draw items enter the policy as facts: the owner the producer attributes
//! them to, an identity token that is equal exactly when two items are equal
//! in world transform and paint-consumed kind (the diagnostic node slot never
//! participates), and whether the item paints shaped text.
//!
//! A frame product feeds the same policy with one owner per resolved slot
//! that carries any resolved column or ink bound; the geometry-only slot walk
//! [`diff`] remains beside it and agrees with it whenever only geometry
//! changed.

use vstd::prelude::*;
use crate::ident::NodeId;

verus! {

/// Bound on coverage coordinates: 2^40, far beyond any canvas the engine
/// rasters (its frames are bounded by their surfaces, well under 2^31
/// pixels a side), and small enough that every edge sum and every union
/// extent stays exact in `i64`, which holds up to 2^62.
pub const COVERAGE_LIMIT: i64 = 0x100_0000_0000;

/// A world-space coverage rectangle.
#[derive(Debug, Clone, Copy, PartialEq, Eq, Structural)]
pub struct Rect {
    pub x: i64,
    pub y: i64,
    pub w: i64,
    pub h: i64,
}

impl Rect {
    /// A non-negative extent inside the representable coverage domain.
    pub open spec fn wf(self) -> bool {
        &&& -COVERAGE_LIMIT <= self.x
        &&& 0 <= self.w
        &&& self.x + self.w <= COVERAGE_LIMIT
        &&& -COVERAGE_LIMIT <= self.y
        &&& 0 <= self.h
        &&& self.y + self.h <= COVERAGE_LIMIT
    }
}

pub open spec fn min_i(a: int, b: int) -> int {
    if a <= b {
        a
    } else {
        b
    }
}

pub open spec fn max_i(a: int, b: int) -> int {
    if a >= b {
        a
    } else {
        b
    }
}

/// The smallest rectangle covering both rectangles.
pub open spec fn spec_union_rect(a: Rect, r: Rect) -> Rect {
    let x0 = min_i(a.x as int, r.x as int);
    let y0 = min_i(a.y as int, r.y as int);
    let x1 = max_i(a.x + a.w, r.x + r.w);
    let y1 = max_i(a.y + a.h, r.y + r.h);
    Rect { x: x0 as i64, y: y0 as i64, w: (x1 - x0) as i64, h: (y1 - y0) as i64 }
}

/// Fold `r` into an optional accumulated union.
pub fn union_rect(acc: Option<Rect>, r: Rect) -> (u: Rect)
    requires
        r.wf(),
        acc matches Some(a) ==> a.wf(),
    ensures
        u == (match acc {
            None => r,
            Some(a) => spec_union_rect(a, r),
        }),
        u.wf(),
{
    match acc {
        None => r,
        Some(a) => {
            let x0 = if a.x <= r.x {
                a.x
            } else {
                r.x
            };
            let y0 = if a.y <= r.y {
                a.y
            } else {
                r.y
            };
            let x1 = if a.x + a.w >= r.x + r.w {
                a.x + a.w
            } else {
                r.x + r.w
            };
            let y1 = if a.y + a.h >= r.y + r.h {
                a.y + a.h
            } else {
                r.y + r.h
            };
            Rect { x: x0, y: y0, w: x1 - x0, h: y1 - y0 }
        },
    }
}

/// Exact producer-side material: equal exactly when the producer's values
/// are.
pub trait Material: Sized {
    fn same(&self, other: &Self) -> (same: bool)
        ensures
            same == (*self == *other),
    ;
}

impl Material for u64 {
    fn same(&self, other: &Self) -> (same: bool) {
        *self == *other
    }
}

/// One owner's exact producer-side state at the complete-frame damage seam:
/// its material, compared only for exact equality, and its optional world
/// coverage, which is both comparison data and the result envelope.
#[derive(Debug)]
pub struct DamageOwner<M> {
    pub material: M,
    pub coverage: Option<Rect>,
}

impl<M> DamageOwner<M> {
    /// Its coverage, when present, is representable.
    pub open spec fn wf(self) -> bool {
        self.coverage matches Some(r) ==> r.wf()
    }

    pub fn new(material: M, coverage: Option<Rect>) -> (owner: Self)
        ensures
            owner.material == material,
            owner.coverage == coverage,
    {
        DamageOwner { material, coverage }
    }
}

/// The damage-relevant facts of one draw item, before attribution.
#[derive(Debug, Clone, Copy, PartialEq, Eq, Structural)]
pub struct ItemFacts {
    /// Equal exactly when two items are equal in world transform and kind.
    pub material: u64,
    /// Whether the item fills or strokes shaped text.
    pub is_text: bool,
}

/// One attributed draw item.
#[derive(Debug, Clone, Copy, PartialEq, Eq, Structural)]
pub struct DamageItem {
    pub owner: u64,
    pub material: u64,
    pub is_text: bool,
}

/// Complete immutable frame data needed by the damage policy: owners in
/// ascending key order, attributed items in painter order, the list-owned
/// text-font registry, and the paint environment (absent for resource-free
/// products).
#[derive(Debug)]
pub struct FrameDamageInput<M> {
    owners: Vec<(u64, DamageOwner<M>)>,
    items: Vec<DamageItem>,
    text_fonts: Option<u64>,
    environment: Option<u64>,
}

/// What the damage policy reads of one frame input.
pub ghost struct DamageModel<M> {
    pub owners: Seq<(u64, DamageOwner<M>)>,
    pub items: Seq<DamageItem>,
    pub text_fonts: Option<u64>,
    pub environment: Option<u64>,
}

/// Keys in strictly ascending order.
pub open spec fn keys_ascending(keys: Seq<u64>) -> bool {
    forall|i: int, j: int| 0 <= i < j < keys.len() ==> keys[i] < keys[j]
}

pub open spec fn owner_keys<M>(owners: Seq<(u64, DamageOwner<M>)>) -> Seq<u64> {
    owners.map_values(|e: (u64, DamageOwner<M>)| e.0)
}

/// The state registered for `key`.
pub open spec fn owner_entry<M>(owners: Seq<(u64, DamageOwner<M>)>, key: u64) -> Option<DamageOwner<M>>
    decreases owners.len(),
{
    if owners.len() == 0 {
        None
    } else if owners.last().0 == key {
        Some(owners.last().1)
    } else {
        owner_entry(owners.drop_last(), key)
    }
}

/// The item tokens attributed to `key`, in painter order.
pub open spec fn group(items: Seq<DamageItem>, key: u64) -> Seq<u64>
    decreases items.len(),
{
    if items.len() == 0 {
        Seq::empty()
    } else {
        let g = group(items.drop_last(), key);
        if items.last().owner == key {
            g.push(items.last().material)
        } else {
            g
        }
    }
}

/// The indices at which `key` occurs in `owners`, ascending.
pub open spec fn positions(owners: Seq<u64>, key: u64) -> Seq<int>
    decreases owners.len(),
{
    if owners.len() == 0 {
        Seq::empty()
    } else {
        let p = positions(owners.drop_last(), key);
        if owners.last() == key {
            p.push(owners.len() - 1)
        } else {
            p
        }
    }
}

pub open spec fn owns_item(items: Seq<DamageItem>, key: u64) -> bool {
    exists|i: int| 0 <= i < items.len() && items[i].owner == key
}

pub open spec fn owns_text(items: Seq<DamageItem>, key: u64) -> bool {
    exists|i: int| 0 <= i < items.len() && items[i].owner == key && items[i].is_text
}

impl<M> DamageModel<M> {
    /// Owners are keyed uniquely in ascending order, every item owner has
    /// state, and every coverage is representable.
    pub open spec fn wf(self) -> bool {
        &&& keys_ascending(owner_keys(self.owners))
        &&& forall|i: int| 0 <= i < self.items.len() ==> owner_keys(self.owners).contains(#[trigger] self.items[i].owner)
        &&& forall|i: int| 0 <= i < self.owners.len() ==> (#[trigger] self.owners[i]).1.wf()
    }

    /// The coverage registered for `key`.
    pub open spec fn coverage_of(self, key: u64) -> Option<Rect> {
        match owner_entry(self.owners, key) {
            Some(owner) => owner.coverage,
            None => None,
        }
    }
}

/// The attributed items of `items` under `item_owners`, in painter order.
pub open spec fn attribute(item_owners: Seq<u64>, items: Seq<ItemFacts>) -> Seq<DamageItem> {
    Seq::new(
        items.len(),
        |i: int| DamageItem { owner: item_owners[i], material: items[i].material, is_text: items[i].is_text },
    )
}

impl<M> View for FrameDamageInput<M> {
    type V = DamageModel<M>;

    closed spec fn view(&self) -> DamageModel<M> {
        DamageModel {
            owners: self.owners@,
            items: self.items@,
            text_fonts: self.text_fonts,
            environment: self.environment,
        }
    }
}

impl<M> FrameDamageInput<M> {
    /// Attribute `items` to `item_owners` one by one. Owners arrive in
    /// ascending key order, and every item owner must carry state.
    pub fn new(
        owners: Vec<(u64, DamageOwner<M>)>,
        item_owners: Vec<u64>,
        items: Vec<ItemFacts>,
        text_fonts: Option<u64>,
        environment: Option<u64>,
    ) -> (input: Self)
        requires
            item_owners.len() == items.len(),
            keys_ascending(owner_keys(owners@)),
            forall|i: int| 0 <= i < item_owners.len() ==> owner_keys(owners@).contains(#[trigger] item_owners[i]),
            forall|i: int| 0 <= i < owners.len() ==> (#[trigger] owners[i]).1.wf(),
        ensures
            input@.wf(),
            input@ == (DamageModel {
                owners: owners@,
                items: attribute(item_owners@, items@),
                text_fonts,
                environment,
            }),
    {
        let mut attributed: Vec<DamageItem> = Vec::new();
        let mut i: usize = 0;
        while i < items.len()
            invariant
                i <= items.len(),
                item_owners.len() == items.len(),
                attributed@ == attribute(item_owners@, items@).take(i as int),
            decreases items.len() - i,
        {
            attributed.push(
                DamageItem { owner: item_owners[i], material: items[i].material, is_text: items[i].is_text },
            );
            i += 1;
            assert(attributed@ =~= attribute(item_owners@, items@).take(i as int));
        }
        assert(attribute(item_owners@, items@).take(i as int) =~= attribute(item_owners@, items@));
        let input = FrameDamageInput { owners, items: attributed, text_fonts, environment };
        assert forall|i: int| 0 <= i < input@.items.len() implies owner_keys(input@.owners).contains(
            #[trigger] input@.items[i].owner,
        ) by {
            assert(input@.items[i].owner == item_owners[i]);
        }
        input
    }

    /// A resource-free product's input: no paint environment participates.
    pub fn resource_free(
        owners: Vec<(u64, DamageOwner<M>)>,
        item_owners: Vec<u64>,
        items: Vec<ItemFacts>,
        text_fonts: Option<u64>,
    ) -> (input: Self)
        requires
            item_owners.len() == items.len(),
            keys_ascending(owner_keys(owners@)),
            forall|i: int| 0 <= i < item_owners.len() ==> owner_keys(owners@).contains(#[trigger] item_owners[i]),
            forall|i: int| 0 <= i < owners.len() ==> (#[trigger] owners[i]).1.wf(),
        ensures
            input@.wf(),
            input@ == (DamageModel {
                owners: owners@,
                items: attribute(item_owners@, items@),
                text_fonts,
                environment: None,
            }),
    {
        Self::new(owners, item_owners, items, text_fonts, None)
    }
}
/// The owner's item group changed: it gained, lost, or altered an item.
pub open spec fn appearance_changed<M>(prev: DamageModel<M>, next: DamageModel<M>, key: u64) -> bool {
    group(prev.items, key) != group(next.items, key)
}

/// Item owners in painter order, leaving out owners whose group changed.
pub open spec fn kept<M>(items: Seq<DamageItem>, prev: DamageModel<M>, next: DamageModel<M>) -> Seq<u64>
    decreases items.len(),
{
    if items.len() == 0 {
        Seq::empty()
    } else {
        let k = kept(items.drop_last(), prev, next);
        if appearance_changed(prev, next, items.last().owner) {
            k
        } else {
            k.push(items.last().owner)
        }
    }
}

/// Among owners whose groups are unchanged, an item of `key` moved relative
/// to the other items.
pub open spec fn order_changed<M>(prev: DamageModel<M>, next: DamageModel<M>, key: u64) -> bool {
    positions(kept(prev.items, prev, next), key) != positions(
        kept(next.items, prev, next),
        key,
    )
}

/// The complete damage relation for one owner key.
pub open spec fn is_changed<M>(prev: DamageModel<M>, next: DamageModel<M>, key: u64) -> bool {
    ||| owner_entry(prev.owners, key) != owner_entry(next.owners, key)
    ||| appearance_changed(prev, next, key)
    ||| order_changed(prev, next, key)
    ||| (prev.text_fonts != next.text_fonts && (owns_text(prev.items, key)
        || owns_text(next.items, key)))
    ||| (prev.environment != next.environment && (owns_item(prev.items, key)
        || owns_item(next.items, key)))
}

/// Fold an optional coverage into an optional union.
pub open spec fn add_coverage(acc: Option<Rect>, coverage: Option<Rect>) -> Option<Rect> {
    match coverage {
        None => acc,
        Some(r) => Some(
            match acc {
                None => r,
                Some(a) => spec_union_rect(a, r),
            },
        ),
    }
}

/// The union of the before and after coverage of `keys`, folded in order.
pub open spec fn union_over<M>(keys: Seq<u64>, prev: DamageModel<M>, next: DamageModel<M>) -> Option<Rect>
    decreases keys.len(),
{
    if keys.len() == 0 {
        None
    } else {
        let acc = union_over(keys.drop_last(), prev, next);
        add_coverage(add_coverage(acc, prev.coverage_of(keys.last())), next.coverage_of(keys.last()))
    }
}

/// The result of the complete-frame policy: damaged owners in ascending key
/// order, and the world-space union of their before and after coverage.
#[derive(Debug, PartialEq, Eq)]
pub struct FrameDamage {
    pub changed: Vec<u64>,
    pub union_world: Option<Rect>,
}


// ── spec lemmas ─────────────────────────────────────────────────────────────

proof fn lemma_push_contains<T>(s: Seq<T>, x: T, k: T)
    ensures
        s.push(x).contains(k) <==> (s.contains(k) || k == x),
{
    if s.contains(k) {
        let t = choose|t: int| 0 <= t < s.len() && s[t] == k;
        assert(s.push(x)[t] == k);
    }
    if k == x {
        assert(s.push(x)[s.len() as int] == k);
    }
    if s.push(x).contains(k) && k != x {
        let t = choose|t: int| 0 <= t < s.push(x).len() && s.push(x)[t] == k;
        assert(s[t] == k);
    }
}

proof fn lemma_owner_entry_absent<M>(owners: Seq<(u64, DamageOwner<M>)>, key: u64)
    requires
        !owner_keys(owners).contains(key),
    ensures
        owner_entry(owners, key) is None,
    decreases owners.len(),
{
    if owners.len() > 0 {
        assert(owner_keys(owners)[owners.len() - 1] == owners.last().0);
        assert forall|x: u64| owner_keys(owners.drop_last()).contains(x) implies owner_keys(owners).contains(x) by {
            let i = choose|i: int| 0 <= i < owner_keys(owners.drop_last()).len() && owner_keys(owners.drop_last())[i] == x;
            assert(owner_keys(owners)[i] == x);
        }
        lemma_owner_entry_absent(owners.drop_last(), key);
    }
}

proof fn lemma_owner_entry_member<M>(owners: Seq<(u64, DamageOwner<M>)>, key: u64)
    requires
        owner_entry(owners, key) is Some,
    ensures
        exists|i: int| 0 <= i < owners.len() && owners[i].1 == owner_entry(owners, key).unwrap(),
    decreases owners.len(),
{
    if owners.last().0 == key {
        assert(owners[owners.len() - 1].1 == owner_entry(owners, key).unwrap());
    } else {
        lemma_owner_entry_member(owners.drop_last(), key);
        let i = choose|i: int| 0 <= i < owners.drop_last().len() && owners.drop_last()[i].1 == owner_entry(owners.drop_last(), key).unwrap();
        assert(owners[i] == owners.drop_last()[i]);
    }
}

proof fn lemma_group_absent(items: Seq<DamageItem>, key: u64)
    requires
        !owns_item(items, key),
    ensures
        group(items, key) == Seq::<u64>::empty(),
    decreases items.len(),
{
    if items.len() > 0 {
        assert(items[items.len() - 1].owner != key);
        assert forall|i: int| 0 <= i < items.drop_last().len() implies items.drop_last()[i].owner != key by {
            assert(items.drop_last()[i] == items[i]);
        }
        lemma_group_absent(items.drop_last(), key);
    }
}

proof fn lemma_kept_owned<M>(items: Seq<DamageItem>, prev: DamageModel<M>, next: DamageModel<M>, x: u64)
    requires
        kept(items, prev, next).contains(x),
    ensures
        owns_item(items, x),
    decreases items.len(),
{
    let k = kept(items.drop_last(), prev, next);
    if k.contains(x) {
        lemma_kept_owned(items.drop_last(), prev, next, x);
        let i = choose|i: int| 0 <= i < items.drop_last().len() && items.drop_last()[i].owner == x;
        assert(items[i] == items.drop_last()[i]);
    } else {
        assert(kept(items, prev, next) == k.push(items.last().owner));
        let j = choose|j: int| 0 <= j < kept(items, prev, next).len() && kept(items, prev, next)[j] == x;
        if j < k.len() {
            assert(k[j] == x);
            assert(false);
        }
        assert(items[items.len() - 1].owner == x);
    }
}

proof fn lemma_positions_absent(s: Seq<u64>, key: u64)
    requires
        !s.contains(key),
    ensures
        positions(s, key) == Seq::<int>::empty(),
    decreases s.len(),
{
    if s.len() > 0 {
        assert(s[s.len() - 1] != key);
        assert forall|x: u64| s.drop_last().contains(x) implies s.contains(x) by {
            let i = choose|i: int| 0 <= i < s.drop_last().len() && s.drop_last()[i] == x;
            assert(s[i] == x);
        }
        lemma_positions_absent(s.drop_last(), key);
    }
}

/// A key that no input registers is never damaged.
proof fn lemma_unregistered_key_unchanged<M>(prev: DamageModel<M>, next: DamageModel<M>, key: u64)
    requires
        prev.wf(),
        next.wf(),
        !owner_keys(prev.owners).contains(key),
        !owner_keys(next.owners).contains(key),
    ensures
        !is_changed(prev, next, key),
{
    lemma_owner_entry_absent(prev.owners, key);
    lemma_owner_entry_absent(next.owners, key);
    assert(!owns_item(prev.items, key)) by {
        if owns_item(prev.items, key) {
            let i = choose|i: int| 0 <= i < prev.items.len() && prev.items[i].owner == key;
            assert(owner_keys(prev.owners).contains(prev.items[i].owner));
        }
    }
    assert(!owns_item(next.items, key)) by {
        if owns_item(next.items, key) {
            let i = choose|i: int| 0 <= i < next.items.len() && next.items[i].owner == key;
            assert(owner_keys(next.owners).contains(next.items[i].owner));
        }
    }
    lemma_group_absent(prev.items, key);
    lemma_group_absent(next.items, key);
    if kept(prev.items, prev, next).contains(key) {
        lemma_kept_owned(prev.items, prev, next, key);
    }
    if kept(next.items, prev, next).contains(key) {
        lemma_kept_owned(next.items, prev, next, key);
    }
    lemma_positions_absent(kept(prev.items, prev, next), key);
    lemma_positions_absent(kept(next.items, prev, next), key);
}

/// Only a registered key can be damaged.
proof fn lemma_changed_key_registered<M>(prev: DamageModel<M>, next: DamageModel<M>, key: u64)
    requires
        prev.wf(),
        next.wf(),
        is_changed(prev, next, key),
    ensures
        owner_keys(prev.owners).contains(key) || owner_keys(next.owners).contains(key),
{
    if !owner_keys(prev.owners).contains(key) && !owner_keys(next.owners).contains(key) {
        lemma_unregistered_key_unchanged(prev, next, key);
    }
}

proof fn lemma_union_over_wf<M>(keys: Seq<u64>, prev: DamageModel<M>, next: DamageModel<M>)
    requires
        prev.wf(),
        next.wf(),
    ensures
        union_over(keys, prev, next) matches Some(r) ==> r.wf(),
    decreases keys.len(),
{
    if keys.len() > 0 {
        lemma_union_over_wf(keys.drop_last(), prev, next);
        lemma_coverage_wf(prev, keys.last());
        lemma_coverage_wf(next, keys.last());
    }
}

proof fn lemma_coverage_wf<M>(input: DamageModel<M>, key: u64)
    requires
        input.wf(),
    ensures
        input.coverage_of(key) matches Some(r) ==> r.wf(),
{
    if owner_entry(input.owners, key) is Some {
        lemma_owner_entry_member(input.owners, key);
        let i = choose|i: int| 0 <= i < input.owners.len() && input.owners[i].1 == owner_entry(input.owners, key).unwrap();
        assert(input.owners[i].1.wf());
    }
}

// ── laws ────────────────────────────────────────────────────────────────────

/// `outer` covers every point of `inner`.
pub open spec fn covers(outer: Rect, inner: Rect) -> bool {
    &&& outer.x <= inner.x
    &&& inner.x + inner.w <= outer.x + outer.w
    &&& outer.y <= inner.y
    &&& inner.y + inner.h <= outer.y + outer.h
}

/// Comparing a frame input with itself damages no owner: reuse of an
/// unchanged frame is indistinguishable from a fresh one.
pub proof fn lemma_identical_inputs_have_no_damage<M>(input: DamageModel<M>, key: u64)
    ensures
        !is_changed(input, input, key),
{
}

proof fn lemma_kept_symmetric<M>(items: Seq<DamageItem>, prev: DamageModel<M>, next: DamageModel<M>)
    ensures
        kept(items, prev, next) == kept(items, next, prev),
    decreases items.len(),
{
    if items.len() > 0 {
        lemma_kept_symmetric(items.drop_last(), prev, next);
    }
}

/// Damage attribution does not depend on which frame comes first: an owner
/// is damaged from `prev` to `next` exactly when it is damaged from `next`
/// to `prev`.
pub proof fn lemma_damage_is_symmetric<M>(prev: DamageModel<M>, next: DamageModel<M>, key: u64)
    ensures
        is_changed(prev, next, key) == is_changed(next, prev, key),
{
    lemma_kept_symmetric(prev.items, prev, next);
    lemma_kept_symmetric(next.items, prev, next);
}

proof fn lemma_add_coverage_covers(acc: Option<Rect>, coverage: Option<Rect>)
    requires
        acc matches Some(a) ==> a.wf(),
        coverage matches Some(r) ==> r.wf(),
    ensures
        add_coverage(acc, coverage) matches Some(u) ==> u.wf(),
        acc matches Some(a) ==> add_coverage(acc, coverage) matches Some(u) && covers(u, a),
        coverage matches Some(r) ==> add_coverage(acc, coverage) matches Some(u) && covers(u, r),
{
}

proof fn lemma_covers_transitive(a: Rect, b: Rect, c: Rect)
    requires
        covers(a, b),
        covers(b, c),
    ensures
        covers(a, c),
{
}

proof fn lemma_union_over_grows<M>(keys: Seq<u64>, prev: DamageModel<M>, next: DamageModel<M>, n: int)
    requires
        prev.wf(),
        next.wf(),
        0 <= n <= keys.len(),
        union_over(keys.take(n), prev, next) is Some,
    ensures
        union_over(keys, prev, next) matches Some(u) && covers(u, union_over(keys.take(n), prev, next).unwrap()),
    decreases keys.len(),
{
    if n == keys.len() {
        assert(keys.take(n) =~= keys);
    } else {
        assert(keys.drop_last().take(n) =~= keys.take(n));
        lemma_union_over_grows(keys.drop_last(), prev, next, n);
        let acc = union_over(keys.drop_last(), prev, next);
        let mid = add_coverage(acc, prev.coverage_of(keys.last()));
        lemma_union_over_wf(keys.drop_last(), prev, next);
        lemma_coverage_wf(prev, keys.last());
        lemma_coverage_wf(next, keys.last());
        lemma_add_coverage_covers(acc, prev.coverage_of(keys.last()));
        lemma_add_coverage_covers(mid, next.coverage_of(keys.last()));
    }
}

/// The damage region bounds every damaged owner's ink in both frames: the
/// folded union covers the before and the after coverage of each key it
/// folds.
pub proof fn lemma_union_covers_each_key<M>(keys: Seq<u64>, prev: DamageModel<M>, next: DamageModel<M>, i: int)
    requires
        prev.wf(),
        next.wf(),
        0 <= i < keys.len(),
    ensures
        prev.coverage_of(keys[i]) matches Some(r) ==> union_over(keys, prev, next) matches Some(u) && covers(u, r),
        next.coverage_of(keys[i]) matches Some(r) ==> union_over(keys, prev, next) matches Some(u) && covers(u, r),
{
    let head = keys.take(i + 1);
    assert(head.drop_last() =~= keys.take(i));
    assert(head.last() == keys[i]);
    let acc = union_over(keys.take(i), prev, next);
    let mid = add_coverage(acc, prev.coverage_of(keys[i]));
    lemma_union_over_wf(keys.take(i), prev, next);
    lemma_coverage_wf(prev, keys[i]);
    lemma_coverage_wf(next, keys[i]);
    lemma_add_coverage_covers(acc, prev.coverage_of(keys[i]));
    lemma_add_coverage_covers(mid, next.coverage_of(keys[i]));
    if union_over(head, prev, next) is Some {
        lemma_union_over_grows(keys, prev, next, i + 1);
        let u = union_over(keys, prev, next).unwrap();
        let h = union_over(head, prev, next).unwrap();
        if prev.coverage_of(keys[i]) is Some {
            let m = mid.unwrap();
            lemma_covers_transitive(h, m, prev.coverage_of(keys[i]).unwrap());
            lemma_covers_transitive(u, h, prev.coverage_of(keys[i]).unwrap());
        }
        if next.coverage_of(keys[i]) is Some {
            lemma_covers_transitive(u, h, next.coverage_of(keys[i]).unwrap());
        }
    }
}

// ── exec helpers ────────────────────────────────────────────────────────────

fn owner_key_list<M>(owners: &Vec<(u64, DamageOwner<M>)>) -> (keys: Vec<u64>)
    ensures
        keys@ == owner_keys(owners@),
{
    let mut keys: Vec<u64> = Vec::new();
    let mut i: usize = 0;
    while i < owners.len()
        invariant
            i <= owners.len(),
            keys@ == owner_keys(owners@.take(i as int)),
        decreases owners.len() - i,
    {
        assert(owner_keys(owners@.take(i + 1)) =~= owner_keys(owners@.take(i as int)).push(owners@[i as int].0));
        keys.push(owners[i].0);
        i += 1;
    }
    assert(owners@.take(owners.len() as int) =~= owners@);
    keys
}

fn owner_index<M>(owners: &Vec<(u64, DamageOwner<M>)>, key: u64) -> (index: Option<usize>)
    ensures
        index matches Some(i) ==> i < owners.len() && owner_entry(owners@, key) == Some(owners@[i as int].1),
        index is None ==> owner_entry(owners@, key) is None,
{
    let mut index: Option<usize> = None;
    let mut i: usize = 0;
    while i < owners.len()
        invariant
            i <= owners.len(),
            index matches Some(j) ==> j < i && owner_entry(owners@.take(i as int), key) == Some(owners@[j as int].1),
            index is None ==> owner_entry(owners@.take(i as int), key) is None,
        decreases owners.len() - i,
    {
        assert(owners@.take(i + 1).drop_last() =~= owners@.take(i as int));
        if owners[i].0 == key {
            index = Some(i);
        }
        i += 1;
    }
    assert(owners@.take(owners.len() as int) =~= owners@);
    index
}

fn same_rect(a: Option<Rect>, b: Option<Rect>) -> (same: bool)
    ensures
        same == (a == b),
{
    match (a, b) {
        (None, None) => true,
        (Some(a), Some(b)) => a.x == b.x && a.y == b.y && a.w == b.w && a.h == b.h,
        _ => false,
    }
}

fn same_entry<M: Material>(
    a: &Vec<(u64, DamageOwner<M>)>,
    a_index: Option<usize>,
    b: &Vec<(u64, DamageOwner<M>)>,
    b_index: Option<usize>,
) -> (same: bool)
    requires
        a_index matches Some(i) ==> i < a.len(),
        b_index matches Some(j) ==> j < b.len(),
    ensures
        same == ((match a_index {
            Some(i) => Some(a@[i as int].1),
            None => None,
        }) == (match b_index {
            Some(j) => Some(b@[j as int].1),
            None => None,
        })),
{
    match (a_index, b_index) {
        (None, None) => true,
        (Some(i), Some(j)) => a[i].1.material.same(&b[j].1.material) && same_rect(a[i].1.coverage, b[j].1.coverage),
        _ => false,
    }
}

fn same_token(a: Option<u64>, b: Option<u64>) -> (same: bool)
    ensures
        same == (a == b),
{
    match (a, b) {
        (None, None) => true,
        (Some(a), Some(b)) => a == b,
        _ => false,
    }
}

fn group_of(items: &Vec<DamageItem>, key: u64) -> (g: Vec<u64>)
    ensures
        g@ == group(items@, key),
{
    let mut g: Vec<u64> = Vec::new();
    let mut i: usize = 0;
    while i < items.len()
        invariant
            i <= items.len(),
            g@ == group(items@.take(i as int), key),
        decreases items.len() - i,
    {
        assert(items@.take(i + 1).drop_last() =~= items@.take(i as int));
        if items[i].owner == key {
            g.push(items[i].material);
        }
        i += 1;
    }
    assert(items@.take(items.len() as int) =~= items@);
    g
}

fn same_u64s(a: &Vec<u64>, b: &Vec<u64>) -> (same: bool)
    ensures
        same == (a@ == b@),
{
    if a.len() != b.len() {
        return false;
    }
    let mut i: usize = 0;
    while i < a.len()
        invariant
            i <= a.len(),
            a.len() == b.len(),
            forall|j: int| 0 <= j < i ==> a@[j] == b@[j],
        decreases a.len() - i,
    {
        if a[i] != b[i] {
            return false;
        }
        i += 1;
    }
    assert(a@ =~= b@);
    true
}

fn positions_of(owners: &Vec<u64>, key: u64) -> (p: Vec<usize>)
    ensures
        p@.map_values(|x: usize| x as int) == positions(owners@, key),
{
    let mut p: Vec<usize> = Vec::new();
    let mut i: usize = 0;
    while i < owners.len()
        invariant
            i <= owners.len(),
            p@.map_values(|x: usize| x as int) == positions(owners@.take(i as int), key),
        decreases owners.len() - i,
    {
        assert(owners@.take(i + 1).drop_last() =~= owners@.take(i as int));
        if owners[i] == key {
            p.push(i);
            assert(p@.map_values(|x: usize| x as int) =~= positions(owners@.take(i as int), key).push(i as int));
        }
        i += 1;
    }
    assert(owners@.take(owners.len() as int) =~= owners@);
    p
}

fn same_positions(a: &Vec<usize>, b: &Vec<usize>) -> (same: bool)
    ensures
        same == (a@.map_values(|x: usize| x as int) == b@.map_values(|x: usize| x as int)),
{
    if a.len() != b.len() {
        assert(a@.map_values(|x: usize| x as int).len() != b@.map_values(|x: usize| x as int).len());
        return false;
    }
    let mut i: usize = 0;
    while i < a.len()
        invariant
            i <= a.len(),
            a.len() == b.len(),
            forall|j: int| 0 <= j < i ==> a@[j] == b@[j],
        decreases a.len() - i,
    {
        if a[i] != b[i] {
            assert(a@.map_values(|x: usize| x as int)[i as int] != b@.map_values(|x: usize| x as int)[i as int]);
            return false;
        }
        i += 1;
    }
    assert(a@ =~= b@);
    true
}

fn owns(items: &Vec<DamageItem>, key: u64, text_only: bool) -> (found: bool)
    ensures
        found == (if text_only {
            owns_text(items@, key)
        } else {
            owns_item(items@, key)
        }),
{
    let mut i: usize = 0;
    while i < items.len()
        invariant
            i <= items.len(),
            forall|j: int| 0 <= j < i ==> !(items@[j].owner == key && (!text_only || items@[j].is_text)),
        decreases items.len() - i,
    {
        if items[i].owner == key && (!text_only || items[i].is_text) {
            return true;
        }
        i += 1;
    }
    false
}

fn index_of(keys: &Vec<u64>, key: u64) -> (index: Option<usize>)
    ensures
        index matches Some(i) ==> i < keys.len() && keys@[i as int] == key,
        index is None ==> !keys@.contains(key),
{
    let mut i: usize = 0;
    while i < keys.len()
        invariant
            i <= keys.len(),
            forall|j: int| 0 <= j < i ==> keys@[j] != key,
        decreases keys.len() - i,
    {
        if keys[i] == key {
            return Some(i);
        }
        i += 1;
    }
    None
}

/// Merge two ascending key lists into their ascending union.
fn merge_keys(a: &Vec<u64>, b: &Vec<u64>) -> (merged: Vec<u64>)
    requires
        keys_ascending(a@),
        keys_ascending(b@),
    ensures
        keys_ascending(merged@),
        forall|k: u64| merged@.contains(k) <==> (a@.contains(k) || b@.contains(k)),
{
    let mut merged: Vec<u64> = Vec::new();
    let mut i: usize = 0;
    let mut j: usize = 0;
    while i < a.len() || j < b.len()
        invariant
            i <= a.len(),
            j <= b.len(),
            keys_ascending(a@),
            keys_ascending(b@),
            keys_ascending(merged@),
            forall|k: u64| merged@.contains(k) <==> (a@.take(i as int).contains(k) || b@.take(j as int).contains(k)),
            merged@.len() > 0 && i < a.len() ==> merged@.last() < a@[i as int],
            merged@.len() > 0 && j < b.len() ==> merged@.last() < b@[j as int],
        decreases a.len() + b.len() - i - j,
    {
        let ghost old_merged = merged@;
        let ghost old_a = a@.take(i as int);
        let ghost old_b = b@.take(j as int);
        let take_a = j >= b.len() || (i < a.len() && a[i] <= b[j]);
        let take_b = i >= a.len() || (j < b.len() && b[j] <= a[i]);
        let x = if take_a { a[i] } else { b[j] };
        merged.push(x);
        assert(merged@ == old_merged.push(x));
        if take_a {
            assert(a@.take(i + 1) =~= old_a.push(x));
            i += 1;
        }
        if take_b {
            assert(b@.take(j + 1) =~= old_b.push(x));
            j += 1;
        }
        assert forall|k: u64| merged@.contains(k) <==> (a@.take(i as int).contains(k) || b@.take(j as int).contains(k)) by {
            lemma_push_contains(old_merged, x, k);
            lemma_push_contains(old_a, x, k);
            lemma_push_contains(old_b, x, k);
        }
        assert(keys_ascending(merged@)) by {
            assert forall|p: int, q: int| 0 <= p < q < merged@.len() implies merged@[p] < merged@[q] by {
                if q == merged@.len() - 1 && p < q {
                    if old_merged.len() > 0 {
                        assert(old_merged[p] <= old_merged.last());
                    }
                }
            }
        }
    }
    assert(a@.take(a.len() as int) =~= a@);
    assert(b@.take(b.len() as int) =~= b@);
    merged
}

/// The owners of `items` that stay in the order comparison, given one
/// appearance flag per key.
fn kept_owners<M>(
    items: &Vec<DamageItem>,
    keys: &Vec<u64>,
    flags: &Vec<bool>,
    Ghost(prev): Ghost<DamageModel<M>>,
    Ghost(next): Ghost<DamageModel<M>>,
) -> (k: Vec<u64>)
    requires
        keys.len() == flags.len(),
        forall|i: int| 0 <= i < keys.len() ==> flags@[i] == appearance_changed(prev, next, #[trigger] keys@[i]),
        forall|i: int| 0 <= i < items.len() ==> keys@.contains(#[trigger] items@[i].owner),
    ensures
        k@ == kept(items@, prev, next),
{
    let mut k: Vec<u64> = Vec::new();
    let mut i: usize = 0;
    while i < items.len()
        invariant
            i <= items.len(),
            keys.len() == flags.len(),
            forall|t: int| 0 <= t < keys.len() ==> flags@[t] == appearance_changed(prev, next, #[trigger] keys@[t]),
            forall|t: int| 0 <= t < items.len() ==> keys@.contains(#[trigger] items@[t].owner),
            k@ == kept(items@.take(i as int), prev, next),
        decreases items.len() - i,
    {
        assert(items@.take(i + 1).drop_last() =~= items@.take(i as int));
        let owner = items[i].owner;
        assert(keys@.contains(items@[i as int].owner));
        let changed = match index_of(keys, owner) {
            Some(index) => flags[index],
            None => true,
        };
        if !changed {
            k.push(owner);
        }
        i += 1;
    }
    assert(items@.take(items.len() as int) =~= items@);
    k
}

/// Compare two complete-frame inputs with the engine's one exact damage
/// policy.
pub fn diff_inputs<M: Material>(prev: &FrameDamageInput<M>, next: &FrameDamageInput<M>) -> (damage: FrameDamage)
    requires
        prev@.wf(),
        next@.wf(),
    ensures
        keys_ascending(damage.changed@),
        forall|key: u64| damage.changed@.contains(key) <==> is_changed(prev@, next@, key),
        damage.union_world == union_over(damage.changed@, prev@, next@),
{
    let prev_keys = owner_key_list(&prev.owners);
    let next_keys = owner_key_list(&next.owners);
    let keys = merge_keys(&prev_keys, &next_keys);

    let mut flags: Vec<bool> = Vec::new();
    let mut i: usize = 0;
    while i < keys.len()
        invariant
            i <= keys.len(),
            flags.len() == i,
            forall|t: int| 0 <= t < i ==> flags@[t] == appearance_changed(prev@, next@, #[trigger] keys@[t]),
        decreases keys.len() - i,
    {
        let before = group_of(&prev.items, keys[i]);
        let after = group_of(&next.items, keys[i]);
        flags.push(!same_u64s(&before, &after));
        i += 1;
    }

    assert forall|t: int| 0 <= t < prev.items.len() implies keys@.contains(#[trigger] prev.items@[t].owner) by {
        assert(prev_keys@.contains(prev@.items[t].owner));
    }
    assert forall|t: int| 0 <= t < next.items.len() implies keys@.contains(#[trigger] next.items@[t].owner) by {
        assert(next_keys@.contains(next@.items[t].owner));
    }
    let kept_prev = kept_owners::<M>(&prev.items, &keys, &flags, Ghost(prev@), Ghost(next@));
    let kept_next = kept_owners::<M>(&next.items, &keys, &flags, Ghost(prev@), Ghost(next@));
    let fonts_differ = !same_token(prev.text_fonts, next.text_fonts);
    let environment_differs = !same_token(prev.environment, next.environment);

    let mut changed: Vec<u64> = Vec::new();
    let mut i: usize = 0;
    while i < keys.len()
        invariant
            i <= keys.len(),
            flags.len() == keys.len(),
            keys_ascending(keys@),
            forall|t: int| 0 <= t < keys.len() ==> flags@[t] == appearance_changed(prev@, next@, #[trigger] keys@[t]),
            kept_prev@ == kept(prev@.items, prev@, next@),
            kept_next@ == kept(next@.items, prev@, next@),
            fonts_differ == (prev@.text_fonts != next@.text_fonts),
            environment_differs == (prev@.environment != next@.environment),
            keys_ascending(changed@),
            forall|t: int| 0 <= t < changed.len() ==> keys@.take(i as int).contains(#[trigger] changed@[t]),
            forall|key: u64| changed@.contains(key) <==> (keys@.take(i as int).contains(key) && is_changed(prev@, next@, key)),
        decreases keys.len() - i,
    {
        let key = keys[i];
        let prev_index = owner_index(&prev.owners, key);
        let next_index = owner_index(&next.owners, key);
        let mut damaged = !same_entry(&prev.owners, prev_index, &next.owners, next_index);
        damaged = damaged || flags[i];
        if !damaged {
            let before = positions_of(&kept_prev, key);
            let after = positions_of(&kept_next, key);
            damaged = !same_positions(&before, &after);
        }
        if !damaged && fonts_differ {
            damaged = owns(&prev.items, key, true) || owns(&next.items, key, true);
        }
        if !damaged && environment_differs {
            damaged = owns(&prev.items, key, false) || owns(&next.items, key, false);
        }
        assert(damaged == is_changed(prev@, next@, key));
        let ghost old_changed = changed@;
        assert(keys@.take(i + 1) =~= keys@.take(i as int).push(key));
        if damaged {
            changed.push(key);
            assert(changed@ == old_changed.push(key));
            assert forall|t: int| 0 <= t < old_changed.len() implies old_changed[t] < key by {
                let pre = keys@.take(i as int);
                assert(pre.contains(old_changed[t]));
                let s = choose|s: int| 0 <= s < pre.len() && pre[s] == old_changed[t];
                assert(keys@[s] == old_changed[t]);
            }
        }
        let ghost prefix = keys@.take(i as int);
        let ghost extended = keys@.take(i + 1);
        assert forall|key2: u64| changed@.contains(key2) <==> (extended.contains(key2) && is_changed(prev@, next@, key2)) by {
            lemma_push_contains(prefix, key, key2);
            lemma_push_contains(old_changed, key, key2);
            if changed@.contains(key2) && key2 != key {
                let t = choose|t: int| 0 <= t < changed@.len() && changed@[t] == key2;
                assert(old_changed[t] == key2);
            }
            if key2 != key && old_changed.contains(key2) {
                let t = choose|t: int| 0 <= t < old_changed.len() && old_changed[t] == key2;
                assert(changed@[t] == key2);
            }
            if extended.contains(key2) && key2 != key {
                let t = choose|t: int| 0 <= t < extended.len() && extended[t] == key2;
                assert(prefix[t] == key2);
            }
            if prefix.contains(key2) {
                let t = choose|t: int| 0 <= t < prefix.len() && prefix[t] == key2;
                assert(extended[t] == key2);
            }
            if damaged && key2 == key {
                assert(changed@[changed@.len() - 1] == key);
            }
        }
        assert forall|t: int| 0 <= t < changed.len() implies extended.contains(#[trigger] changed@[t]) by {
            assert(changed@.contains(changed@[t]));
        }
        i += 1;
    }
    assert(keys@.take(keys.len() as int) =~= keys@);
    assert forall|key: u64| changed@.contains(key) <==> is_changed(prev@, next@, key) by {
        if !keys@.contains(key) {
            lemma_unregistered_key_unchanged(prev@, next@, key);
        }
    }

    let mut union_world: Option<Rect> = None;
    let mut i: usize = 0;
    while i < changed.len()
        invariant
            i <= changed.len(),
            prev@.wf(),
            next@.wf(),
            union_world == union_over(changed@.take(i as int), prev@, next@),
        decreases changed.len() - i,
    {
        assert(changed@.take(i + 1).drop_last() =~= changed@.take(i as int));
        proof {
            lemma_union_over_wf(changed@.take(i as int), prev@, next@);
            lemma_coverage_wf(prev@, changed@[i as int]);
            lemma_coverage_wf(next@, changed@[i as int]);
        }
        let key = changed[i];
        if let Some(index) = owner_index(&prev.owners, key) {
            if let Some(r) = prev.owners[index].1.coverage {
                union_world = Some(union_rect(union_world, r));
            }
        }
        if let Some(index) = owner_index(&next.owners, key) {
            if let Some(r) = next.owners[index].1.coverage {
                union_world = Some(union_rect(union_world, r));
            }
        }
        i += 1;
    }
    assert(changed@.take(changed.len() as int) =~= changed@);
    FrameDamage { changed, union_world }
}


// ── resolved tiers and frame products ───────────────────────────────────────

/// The resolved columns damage compares for one slot, as identity tokens:
/// each is equal exactly when the resolved value is (for a path: exactly
/// when its visual geometry is the same).
#[derive(Debug, Clone, Copy, PartialEq, Eq, Structural)]
pub struct ResolvedDamageFact {
    pub box_in_parent: Option<u64>,
    pub local: Option<u64>,
    pub world: Option<u64>,
    pub text_layout: Option<u64>,
    pub path: Option<u64>,
}

impl ResolvedDamageFact {
    pub open spec fn spec_is_absent(self) -> bool {
        &&& self.box_in_parent is None
        &&& self.local is None
        &&& self.world is None
        &&& self.text_layout is None
        &&& self.path is None
    }

    /// No resolved column is present.
    pub fn is_absent(&self) -> (absent: bool)
        ensures
            absent == self.spec_is_absent(),
    {
        self.box_in_parent.is_none() && self.local.is_none() && self.world.is_none()
            && self.text_layout.is_none() && self.path.is_none()
    }
}

impl Material for ResolvedDamageFact {
    fn same(&self, other: &Self) -> (same: bool) {
        same_token(self.box_in_parent, other.box_in_parent) && same_token(self.local, other.local)
            && same_token(self.world, other.world) && same_token(self.text_layout, other.text_layout)
            && same_token(self.path, other.path)
    }
}

/// One resolved slot: its damage fact and its world-space ink bounds.
#[derive(Debug, Clone, Copy, PartialEq, Eq, Structural)]
pub struct ResolvedSlot {
    pub fact: ResolvedDamageFact,
    pub aabb: Option<Rect>,
}

/// What an out-of-range or tombstoned slot resolves to.
pub open spec fn absent_slot() -> ResolvedSlot {
    ResolvedSlot {
        fact: ResolvedDamageFact { box_in_parent: None, local: None, world: None, text_layout: None, path: None },
        aabb: None,
    }
}

/// The damage-relevant columns of a resolved tier, one slot per node id.
#[derive(Debug)]
pub struct Resolved {
    slots: Vec<ResolvedSlot>,
}

impl Resolved {
    pub closed spec fn spec_slots(&self) -> Seq<ResolvedSlot> {
        self.slots@
    }

    /// Every slot id is a node id, and every ink bound is representable.
    pub open spec fn wf(&self) -> bool {
        &&& self.spec_slots().len() <= u32::MAX
        &&& forall|i: int|
            0 <= i < self.spec_slots().len() ==> ((#[trigger] self.spec_slots()[i]).aabb matches Some(r) ==> r.wf())
    }

    /// The slot of `id`; a slot past the end is absent.
    pub open spec fn slot(&self, id: int) -> ResolvedSlot {
        if 0 <= id < self.spec_slots().len() {
            self.spec_slots()[id]
        } else {
            absent_slot()
        }
    }

    pub fn new(slots: Vec<ResolvedSlot>) -> (resolved: Self)
        requires
            slots.len() <= u32::MAX,
            forall|i: int| 0 <= i < slots.len() ==> ((#[trigger] slots@[i]).aabb matches Some(r) ==> r.wf()),
        ensures
            resolved.wf(),
            resolved.spec_slots() == slots@,
    {
        Resolved { slots }
    }

    pub fn slot_count(&self) -> (count: usize)
        ensures
            count == self.spec_slots().len(),
    {
        self.slots.len()
    }

    /// The world-space ink bounds of `id`, if it has any.
    pub fn aabb_opt(&self, id: NodeId) -> (aabb: Option<Rect>)
        ensures
            aabb == self.slot(id as int).aabb,
    {
        let index = id as usize;
        if index < self.slots.len() {
            self.slots[index].aabb
        } else {
            None
        }
    }
}

/// The damage fact of `id` in `resolved`.
pub fn resolved_damage_fact(resolved: &Resolved, id: NodeId) -> (fact: ResolvedDamageFact)
    ensures
        fact == resolved.slot(id as int).fact,
{
    let index = id as usize;
    if index < resolved.slots.len() {
        resolved.slots[index].fact
    } else {
        ResolvedDamageFact { box_in_parent: None, local: None, world: None, text_layout: None, path: None }
    }
}

/// The resolved geometry of `id` differs: a resolved column or its ink
/// bounds. An out-of-range slot and a tombstoned all-absent slot compare
/// equal.
pub fn slot_changed(prev: &Resolved, next: &Resolved, id: NodeId) -> (changed: bool)
    ensures
        changed == (prev.slot(id as int) != next.slot(id as int)),
{
    !resolved_damage_fact(prev, id).same(&resolved_damage_fact(next, id)) || !same_rect(
        prev.aabb_opt(id),
        next.aabb_opt(id),
    )
}

/// What changed between two frame products: the touched nodes in ascending
/// order and the world rect that bounds their before and after ink.
#[derive(Debug, PartialEq, Eq)]
pub struct Damage {
    pub changed: Vec<NodeId>,
    pub union_world: Option<Rect>,
}

impl Damage {
    pub fn is_empty(&self) -> (empty: bool)
        ensures
            empty == (self.changed@.len() == 0),
    {
        self.changed.len() == 0
    }
}

/// Ids in strictly ascending order.
pub open spec fn ids_ascending(ids: Seq<NodeId>) -> bool {
    forall|i: int, j: int| 0 <= i < j < ids.len() ==> ids[i] < ids[j]
}

/// The union of the before and after ink bounds of `ids`, folded in order.
pub open spec fn geometry_union(ids: Seq<NodeId>, prev: Resolved, next: Resolved) -> Option<Rect>
    decreases ids.len(),
{
    if ids.len() == 0 {
        None
    } else {
        let acc = geometry_union(ids.drop_last(), prev, next);
        add_coverage(add_coverage(acc, prev.slot(ids.last() as int).aabb), next.slot(ids.last() as int).aabb)
    }
}

proof fn lemma_slot_aabb_wf(resolved: Resolved, id: int)
    requires
        resolved.wf(),
    ensures
        resolved.slot(id).aabb matches Some(r) ==> r.wf(),
{
    if 0 <= id < resolved.spec_slots().len() {
        assert(resolved.spec_slots()[id].aabb matches Some(r) ==> r.wf());

    }
}

proof fn lemma_geometry_union_wf(ids: Seq<NodeId>, prev: Resolved, next: Resolved)
    requires
        prev.wf(),
        next.wf(),
    ensures
        geometry_union(ids, prev, next) matches Some(r) ==> r.wf(),
    decreases ids.len(),
{
    if ids.len() > 0 {
        lemma_geometry_union_wf(ids.drop_last(), prev, next);
        lemma_slot_aabb_wf(prev, ids.last() as int);
        lemma_slot_aabb_wf(next, ids.last() as int);
    }
}

proof fn lemma_geometry_union_grows(ids: Seq<NodeId>, prev: Resolved, next: Resolved, n: int)
    requires
        prev.wf(),
        next.wf(),
        0 <= n <= ids.len(),
        geometry_union(ids.take(n), prev, next) is Some,
    ensures
        geometry_union(ids, prev, next) matches Some(u) && covers(u, geometry_union(ids.take(n), prev, next).unwrap()),
    decreases ids.len(),
{
    if n == ids.len() {
        assert(ids.take(n) =~= ids);
    } else {
        assert(ids.drop_last().take(n) =~= ids.take(n));
        lemma_geometry_union_grows(ids.drop_last(), prev, next, n);
        let acc = geometry_union(ids.drop_last(), prev, next);
        let mid = add_coverage(acc, prev.slot(ids.last() as int).aabb);
        lemma_geometry_union_wf(ids.drop_last(), prev, next);
        lemma_slot_aabb_wf(prev, ids.last() as int);
        lemma_slot_aabb_wf(next, ids.last() as int);
        lemma_add_coverage_covers(acc, prev.slot(ids.last() as int).aabb);
        lemma_add_coverage_covers(mid, next.slot(ids.last() as int).aabb);
    }
}

/// The geometry damage region bounds every changed node's ink in both
/// tiers: the folded union covers the before and the after bounds of each
/// id it folds.
pub proof fn lemma_geometry_union_covers_each_id(ids: Seq<NodeId>, prev: Resolved, next: Resolved, i: int)
    requires
        prev.wf(),
        next.wf(),
        0 <= i < ids.len(),
    ensures
        prev.slot(ids[i] as int).aabb matches Some(r) ==> geometry_union(ids, prev, next) matches Some(u) && covers(u, r),
        next.slot(ids[i] as int).aabb matches Some(r) ==> geometry_union(ids, prev, next) matches Some(u) && covers(u, r),
{
    let head = ids.take(i + 1);
    assert(head.drop_last() =~= ids.take(i));
    assert(head.last() == ids[i]);
    let before = prev.slot(ids[i] as int).aabb;
    let after = next.slot(ids[i] as int).aabb;
    let acc = geometry_union(ids.take(i), prev, next);
    let mid = add_coverage(acc, before);
    lemma_geometry_union_wf(ids.take(i), prev, next);
    lemma_slot_aabb_wf(prev, ids[i] as int);
    lemma_slot_aabb_wf(next, ids[i] as int);
    lemma_add_coverage_covers(acc, before);
    lemma_add_coverage_covers(mid, after);
    if geometry_union(head, prev, next) is Some {
        lemma_geometry_union_grows(ids, prev, next, i + 1);
        let u = geometry_union(ids, prev, next).unwrap();
        let h = geometry_union(head, prev, next).unwrap();
        if before is Some {
            let m = mid.unwrap();
            lemma_covers_transitive(h, m, before.unwrap());
            lemma_covers_transitive(u, h, before.unwrap());
        }
        if after is Some {
            lemma_covers_transitive(u, h, after.unwrap());
        }
    }
}

/// Diff two resolved tiers: the nodes whose resolved geometry changed, and
/// the world rect that bounds their before and after ink (covering appear,
/// disappear and move).
pub fn diff(prev: &Resolved, next: &Resolved) -> (damage: Damage)
    requires
        prev.wf(),
        next.wf(),
    ensures
        ids_ascending(damage.changed@),
        forall|id: NodeId| damage.changed@.contains(id) <==> prev.slot(id as int) != next.slot(id as int),
        damage.union_world == geometry_union(damage.changed@, *prev, *next),
{
    let n = if prev.slots.len() >= next.slots.len() {
        prev.slots.len()
    } else {
        next.slots.len()
    };
    let mut changed: Vec<NodeId> = Vec::new();
    let mut index: usize = 0;
    while index < n
        invariant
            index <= n,
            n <= u32::MAX,
            n == prev.spec_slots().len() || n == next.spec_slots().len(),
            prev.spec_slots().len() <= n,
            next.spec_slots().len() <= n,
            ids_ascending(changed@),
            forall|t: int| 0 <= t < changed.len() ==> changed@[t] < index,
            forall|id: NodeId| changed@.contains(id) <==> (id < index && prev.slot(id as int) != next.slot(id as int)),
        decreases n - index,
    {
        let id = index as NodeId;
        let ghost old_changed = changed@;
        if slot_changed(prev, next, id) {
            changed.push(id);
            assert forall|other: NodeId| changed@.contains(other) <==> (other < index + 1 && prev.slot(
                other as int,
            ) != next.slot(other as int)) by {
                lemma_push_contains(old_changed, id, other);
            }
        } else {
            assert forall|other: NodeId| changed@.contains(other) <==> (other < index + 1 && prev.slot(
                other as int,
            ) != next.slot(other as int)) by {
                if other == id {
                    assert(!old_changed.contains(other));
                }
            }
        }
        index += 1;
    }
    assert forall|id: NodeId| changed@.contains(id) <==> prev.slot(id as int) != next.slot(id as int) by {
        if id >= n {
            assert(prev.slot(id as int) == absent_slot());
            assert(next.slot(id as int) == absent_slot());
        }
    }
    let mut union_world: Option<Rect> = None;
    let mut i: usize = 0;
    while i < changed.len()
        invariant
            i <= changed.len(),
            prev.wf(),
            next.wf(),
            union_world == geometry_union(changed@.take(i as int), *prev, *next),
        decreases changed.len() - i,
    {
        assert(changed@.take(i + 1).drop_last() =~= changed@.take(i as int));
        proof {
            lemma_geometry_union_wf(changed@.take(i as int), *prev, *next);
            lemma_slot_aabb_wf(*prev, changed@[i as int] as int);
            lemma_slot_aabb_wf(*next, changed@[i as int] as int);
        }
        let id = changed[i];
        if let Some(r) = prev.aabb_opt(id) {
            union_world = Some(union_rect(union_world, r));
        }
        if let Some(r) = next.aabb_opt(id) {
            union_world = Some(union_rect(union_world, r));
        }
        i += 1;
    }
    assert(changed@.take(changed.len() as int) =~= changed@);
    Damage { changed, union_world }
}

/// One draw item of a frame's list: the node slot it was emitted for and
/// its damage facts.
#[derive(Debug, Clone, Copy, PartialEq, Eq, Structural)]
pub struct DrawItemFacts {
    pub node: NodeId,
    pub facts: ItemFacts,
}

/// A complete frame product as damage reads it: its resolved tier, its draw
/// items in painter order, its list's text-font registry, and its paint
/// environment (absent for resource-free products).
#[derive(Debug)]
pub struct FrameProduct {
    resolved: Resolved,
    items: Vec<DrawItemFacts>,
    text_fonts: Option<u64>,
    environment: Option<u64>,
}

/// A slot that takes part in damage: some resolved column or ink bound is
/// present.
pub open spec fn present(slot: ResolvedSlot) -> bool {
    !slot.fact.spec_is_absent() || slot.aabb is Some
}

/// The owners a resolved tier registers: every present slot, keyed by its
/// id, in ascending order.
pub open spec fn slot_owners(slots: Seq<ResolvedSlot>) -> Seq<(u64, DamageOwner<ResolvedDamageFact>)>
    decreases slots.len(),
{
    if slots.len() == 0 {
        Seq::empty()
    } else {
        let earlier = slot_owners(slots.drop_last());
        let slot = slots.last();
        if present(slot) {
            earlier.push(((slots.len() - 1) as u64, DamageOwner { material: slot.fact, coverage: slot.aabb }))
        } else {
            earlier
        }
    }
}

/// Draw items attributed to the nodes they were emitted for.
pub open spec fn node_items(items: Seq<DrawItemFacts>) -> Seq<DamageItem> {
    items.map_values(
        |item: DrawItemFacts| DamageItem { owner: item.node as u64, material: item.facts.material, is_text: item.facts.is_text },
    )
}

impl FrameProduct {
    pub closed spec fn spec_resolved(&self) -> Resolved {
        self.resolved
    }

    pub closed spec fn spec_items(&self) -> Seq<DrawItemFacts> {
        self.items@
    }

    pub closed spec fn spec_text_fonts(&self) -> Option<u64> {
        self.text_fonts
    }

    pub closed spec fn spec_environment(&self) -> Option<u64> {
        self.environment
    }

    /// Every draw item was emitted for a node whose slot takes part in
    /// damage.
    pub open spec fn items_owned(&self) -> bool {
        forall|i: int|
            0 <= i < self.spec_items().len() ==> present(
                self.spec_resolved().slot((#[trigger] self.spec_items()[i]).node as int),
            )
    }

    pub fn new(resolved: Resolved, items: Vec<DrawItemFacts>, text_fonts: Option<u64>, environment: Option<u64>) -> (frame:
        Self)
        ensures
            frame.spec_resolved() == resolved,
            frame.spec_items() == items@,
            frame.spec_text_fonts() == text_fonts,
            frame.spec_environment() == environment,
    {
        FrameProduct { resolved, items, text_fonts, environment }
    }

    pub fn resolved(&self) -> (resolved: &Resolved)
        ensures
            *resolved == self.spec_resolved(),
    {
        &self.resolved
    }
}

/// What the complete damage policy reads of a frame product.
pub open spec fn frame_model(frame: FrameProduct) -> DamageModel<ResolvedDamageFact> {
    DamageModel {
        owners: slot_owners(frame.spec_resolved().spec_slots()),
        items: node_items(frame.spec_items()),
        text_fonts: frame.spec_text_fonts(),
        environment: frame.spec_environment(),
    }
}

/// Ids widened to owner keys.
pub open spec fn widen(ids: Seq<NodeId>) -> Seq<u64> {
    ids.map_values(|id: NodeId| id as u64)
}

proof fn lemma_slot_owners_keys(slots: Seq<ResolvedSlot>)
    requires
        slots.len() <= u32::MAX,
    ensures
        forall|i: int| 0 <= i < slot_owners(slots).len() ==> (#[trigger] slot_owners(slots)[i]).0 < slots.len(),
        keys_ascending(owner_keys(slot_owners(slots))),
    decreases slots.len(),
{
    if slots.len() > 0 {
        lemma_slot_owners_keys(slots.drop_last());
        let earlier = slot_owners(slots.drop_last());
        let owners = slot_owners(slots);
        if present(slots.last()) {
            let last_key = (slots.len() - 1) as u64;
            assert(owners == earlier.push((last_key, DamageOwner { material: slots.last().fact, coverage: slots.last().aabb })));
            assert(owner_keys(owners) =~= owner_keys(earlier).push(last_key));
            assert forall|i: int| 0 <= i < owners.len() implies (#[trigger] owners[i]).0 < slots.len() by {
                if i < earlier.len() {
                    assert(owners[i] == earlier[i]);
                }
            }
            assert forall|i: int, j: int| 0 <= i < j < owner_keys(owners).len() implies owner_keys(owners)[i] < owner_keys(
                owners,
            )[j] by {
                if j == owners.len() - 1 {
                    assert(owner_keys(owners)[i] == earlier[i].0);
                }
            }
        }
    }
}

/// The entry registered for slot `id` is that slot, exactly when it takes
/// part in damage.
proof fn lemma_slot_owner_entry(slots: Seq<ResolvedSlot>, key: u64)
    requires
        slots.len() <= u32::MAX,
    ensures
        owner_entry(slot_owners(slots), key) == (if key < slots.len() && present(slots[key as int]) {
            Some(DamageOwner { material: slots[key as int].fact, coverage: slots[key as int].aabb })
        } else {
            None::<DamageOwner<ResolvedDamageFact>>
        }),
    decreases slots.len(),
{
    if slots.len() > 0 {
        lemma_slot_owner_entry(slots.drop_last(), key);
        let owners = slot_owners(slots);
        let earlier = slot_owners(slots.drop_last());
        if key < slots.len() - 1 {
            assert(slots.drop_last()[key as int] == slots[key as int]);
        }
        if present(slots.last()) {
            assert(owners.drop_last() =~= earlier);
        }
    }
}

proof fn lemma_slot_owners_contain(slots: Seq<ResolvedSlot>, key: u64)
    requires
        key < slots.len(),
        present(slots[key as int]),
    ensures
        owner_keys(slot_owners(slots)).contains(key),
    decreases slots.len(),
{
    let earlier = slot_owners(slots.drop_last());
    if key == slots.len() - 1 {
        let owners = slot_owners(slots);
        assert(owner_keys(owners)[owners.len() - 1] == key);
    } else {
        lemma_slot_owners_contain(slots.drop_last(), key);
        let keys = owner_keys(earlier);
        let t = choose|t: int| 0 <= t < keys.len() && keys[t] == key;
        if present(slots.last()) {
            assert(owner_keys(slot_owners(slots))[t] == key);
        }
    }
}

proof fn lemma_slot_owners_wf(slots: Seq<ResolvedSlot>)
    requires
        forall|i: int| 0 <= i < slots.len() ==> ((#[trigger] slots[i]).aabb matches Some(r) ==> r.wf()),
    ensures
        forall|i: int| 0 <= i < slot_owners(slots).len() ==> (#[trigger] slot_owners(slots)[i]).1.wf(),
    decreases slots.len(),
{
    if slots.len() > 0 {
        let rest = slots.drop_last();
        assert forall|i: int| 0 <= i < rest.len() implies ((#[trigger] rest[i]).aabb matches Some(r) ==> r.wf()) by {
            assert(rest[i] == slots[i]);
        }
        lemma_slot_owners_wf(rest);
        assert(slots.last() == slots[slots.len() - 1]);
        let earlier = slot_owners(rest);
        let owners = slot_owners(slots);
        assert forall|i: int| 0 <= i < owners.len() implies (#[trigger] owners[i]).1.wf() by {
            if i < earlier.len() {
                assert(owners[i] == earlier[i]);
            }
        }
    }
}

/// The complete-frame damage input of a product: one owner per present slot
/// and each draw item attributed to the node it was emitted for.
fn frame_damage_input(frame: &FrameProduct) -> (input: FrameDamageInput<ResolvedDamageFact>)
    requires
        frame.spec_resolved().wf(),
        frame.items_owned(),
    ensures
        input@ == frame_model(*frame),
        input@.wf(),
{
    let slots = &frame.resolved.slots;
    let mut owners: Vec<(u64, DamageOwner<ResolvedDamageFact>)> = Vec::new();
    let mut index: usize = 0;
    while index < slots.len()
        invariant
            index <= slots.len(),
            slots.len() <= u32::MAX,
            owners@ == slot_owners(slots@.take(index as int)),
        decreases slots.len() - index,
    {
        assert(slots@.take(index + 1).drop_last() =~= slots@.take(index as int));
        let slot = slots[index];
        if !slot.fact.is_absent() || slot.aabb.is_some() {
            owners.push((index as u64, DamageOwner::new(slot.fact, slot.aabb)));
        }
        index += 1;
    }
    assert(slots@.take(slots.len() as int) =~= slots@);
    let mut item_owners: Vec<u64> = Vec::new();
    let mut facts: Vec<ItemFacts> = Vec::new();
    let mut i: usize = 0;
    while i < frame.items.len()
        invariant
            i <= frame.items.len(),
            item_owners.len() == i,
            facts.len() == i,
            forall|j: int| 0 <= j < i ==> #[trigger] item_owners@[j] == frame.items@[j].node as u64,
            forall|j: int| 0 <= j < i ==> #[trigger] facts@[j] == frame.items@[j].facts,
        decreases frame.items.len() - i,
    {
        item_owners.push(frame.items[i].node as u64);
        facts.push(frame.items[i].facts);
        i += 1;
    }
    proof {
        lemma_slot_owners_keys(slots@);
        lemma_slot_owners_wf(slots@);
        assert forall|j: int| 0 <= j < item_owners.len() implies owner_keys(owners@).contains(
            #[trigger] item_owners@[j],
        ) by {
            assert(present(frame.spec_resolved().slot(frame.spec_items()[j].node as int)));
            lemma_slot_owners_contain(slots@, item_owners@[j]);
        }
    }
    let input = FrameDamageInput::new(owners, item_owners, facts, frame.text_fonts, frame.environment);
    assert(attribute(item_owners@, facts@) =~= node_items(frame.spec_items()));
    input
}

/// Diff complete frame products with the one exact damage policy: resolved
/// columns cover geometry, text and paths; per-node item groups cover
/// paints, scopes, clips, strokes and painter order; the product's paint
/// environment covers resource readiness.
pub fn diff_frame(prev: &FrameProduct, next: &FrameProduct) -> (damage: Damage)
    requires
        prev.spec_resolved().wf(),
        next.spec_resolved().wf(),
        prev.items_owned(),
        next.items_owned(),
    ensures
        keys_ascending(widen(damage.changed@)),
        forall|key: u64| widen(damage.changed@).contains(key) <==> is_changed(frame_model(*prev), frame_model(*next), key),
        damage.union_world == union_over(widen(damage.changed@), frame_model(*prev), frame_model(*next)),
{
    let before = frame_damage_input(prev);
    let after = frame_damage_input(next);
    let damage = diff_inputs(&before, &after);
    let mut changed: Vec<NodeId> = Vec::new();
    let mut i: usize = 0;
    while i < damage.changed.len()
        invariant
            i <= damage.changed.len(),
            changed.len() == i,
            forall|j: int| 0 <= j < i ==> #[trigger] (changed@[j] as u64) == damage.changed@[j],
            forall|key: u64| damage.changed@.contains(key) <==> is_changed(before@, after@, key),
            before@ == frame_model(*prev),
            after@ == frame_model(*next),
            before@.wf(),
            after@.wf(),
            prev.spec_resolved().wf(),
            next.spec_resolved().wf(),
        decreases damage.changed.len() - i,
    {
        let key = damage.changed[i];
        proof {
            assert(damage.changed@.contains(key));
            lemma_slot_owners_keys(prev.spec_resolved().spec_slots());
            lemma_slot_owners_keys(next.spec_resolved().spec_slots());
            lemma_changed_key_registered(before@, after@, key);
            if owner_keys(before@.owners).contains(key) {
                let t = choose|t: int| 0 <= t < owner_keys(before@.owners).len() && owner_keys(before@.owners)[t] == key;
                assert(before@.owners[t].0 == key);
            } else {
                let t = choose|t: int| 0 <= t < owner_keys(after@.owners).len() && owner_keys(after@.owners)[t] == key;
                assert(after@.owners[t].0 == key);
            }
        }
        changed.push(key as NodeId);
        i += 1;
    }
    assert(widen(changed@) =~= damage.changed@);
    Damage { changed, union_world: damage.union_world }
}

/// A frame's registered coverage of a node id is that slot's ink bounds.
proof fn lemma_frame_coverage(frame: FrameProduct, id: NodeId)
    requires
        frame.spec_resolved().wf(),
    ensures
        frame_model(frame).coverage_of(id as u64) == frame.spec_resolved().slot(id as int).aabb,
{
    lemma_slot_owner_entry(frame.spec_resolved().spec_slots(), id as u64);
}

proof fn lemma_union_over_geometry(ids: Seq<NodeId>, prev: FrameProduct, next: FrameProduct)
    requires
        prev.spec_resolved().wf(),
        next.spec_resolved().wf(),
    ensures
        union_over(widen(ids), frame_model(prev), frame_model(next)) == geometry_union(
            ids,
            prev.spec_resolved(),
            next.spec_resolved(),
        ),
    decreases ids.len(),
{
    if ids.len() > 0 {
        lemma_union_over_geometry(ids.drop_last(), prev, next);
        assert(widen(ids).drop_last() =~= widen(ids.drop_last()));
        assert(widen(ids).last() == ids.last() as u64);
        lemma_frame_coverage(prev, ids.last());
        lemma_frame_coverage(next, ids.last());
    }
}

/// On frames whose draw lists, text-font registries and paint environments
/// are equal, the complete-frame policy is the geometry-only slot walk: a
/// node is damaged exactly when its resolved slot changed, no key beyond the
/// node ids is damaged, and both fold the same ink into the damage region.
pub proof fn lemma_frame_damage_extends_slot_damage(prev: FrameProduct, next: FrameProduct, ids: Seq<NodeId>)
    requires
        prev.spec_resolved().wf(),
        next.spec_resolved().wf(),
        prev.spec_items() == next.spec_items(),
        prev.spec_text_fonts() == next.spec_text_fonts(),
        prev.spec_environment() == next.spec_environment(),
    ensures
        forall|id: NodeId|
            is_changed(frame_model(prev), frame_model(next), id as u64) == (prev.spec_resolved().slot(id as int)
                != next.spec_resolved().slot(id as int)),
        forall|key: u64| key > u32::MAX ==> !is_changed(frame_model(prev), frame_model(next), key),
        union_over(widen(ids), frame_model(prev), frame_model(next)) == geometry_union(
            ids,
            prev.spec_resolved(),
            next.spec_resolved(),
        ),
{
    let p = frame_model(prev);
    let q = frame_model(next);
    assert forall|key: u64| is_changed(p, q, key) == (owner_entry(p.owners, key) != owner_entry(q.owners, key)) by {
        assert(p.items == q.items);
        assert(!appearance_changed(p, q, key));
    }
    assert forall|id: NodeId| is_changed(p, q, id as u64) == (prev.spec_resolved().slot(id as int)
        != next.spec_resolved().slot(id as int)) by {
        lemma_slot_owner_entry(prev.spec_resolved().spec_slots(), id as u64);
        lemma_slot_owner_entry(next.spec_resolved().spec_slots(), id as u64);
    }
    assert forall|key: u64| key > u32::MAX implies !is_changed(p, q, key) by {
        lemma_slot_owner_entry(prev.spec_resolved().spec_slots(), key);
        lemma_slot_owner_entry(next.spec_resolved().spec_slots(), key);
    }
    lemma_union_over_geometry(ids, prev, next);
}

} // verus!
