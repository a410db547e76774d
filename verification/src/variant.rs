//! Variant records and the account of missing genotype calls.

use std::collections::HashSet;
use vstd::prelude::*;
use vstd::std_specs::iter::IteratorSpec;

verus! {

/// One variant: its 1-based position and one genotype slot per sample. A
/// slot is `None` where the call is missing, else the allele codes in order.
#[derive(Debug)]
pub struct Variant {
    pub position: i64,
    pub genotypes: Vec<Option<Vec<u8>>>,
}

/// A variant as a mathematical value.
pub struct VariantView {
    pub position: int,
    pub genotypes: Seq<Option<Seq<u8>>>,
}

/// A genotype slot as a mathematical value.
pub open spec fn slot_view(slot: Option<Vec<u8>>) -> Option<Seq<u8>> {
    match slot {
        Some(alleles) => Some(alleles@),
        None => None,
    }
}

/// The slots of `slots` as mathematical values.
pub open spec fn slots_view(slots: Seq<Option<Vec<u8>>>) -> Seq<Option<Seq<u8>>> {
    slots.map_values(|slot: Option<Vec<u8>>| slot_view(slot))
}

impl View for Variant {
    type V = VariantView;

    open spec fn view(&self) -> VariantView {
        VariantView { position: self.position as int, genotypes: slots_view(self.genotypes@) }
    }
}

/// The variants of `variants` as mathematical values.
pub open spec fn variants_view(variants: Seq<Variant>) -> Seq<VariantView> {
    variants.map_values(|v: Variant| v@)
}

/// A copy of the alleles of a call.
fn clone_alleles(alleles: &Vec<u8>) -> (out: Vec<u8>)
    ensures
        out@ == alleles@,
{
    let mut out: Vec<u8> = Vec::new();
    let mut k: usize = 0;
    while k < alleles.len()
        invariant
            k <= alleles@.len(),
            out@ == alleles@.take(k as int),
        decreases alleles@.len() - k,
    {
        out.push(alleles[k]);
        k += 1;
    }
    out
}

impl Clone for Variant {
    fn clone(&self) -> (out: Variant)
        ensures
            out@ == self@,
    {
        let mut genotypes: Vec<Option<Vec<u8>>> = Vec::new();
        let mut i: usize = 0;
        while i < self.genotypes.len()
            invariant
                i <= self.genotypes@.len(),
                genotypes@.len() == i,
                forall|k: int|
                    0 <= k < i ==> slot_view(#[trigger] genotypes@[k]) == slot_view(
                        self.genotypes@[k],
                    ),
            decreases self.genotypes@.len() - i,
        {
            let slot = match &self.genotypes[i] {
                Some(alleles) => Some(clone_alleles(alleles)),
                None => None,
            };
            genotypes.push(slot);
            i += 1;
        }
        assert(slots_view(genotypes@) =~= slots_view(self.genotypes@));
        Variant { position: self.position, genotypes }
    }
}

/// A copy of every variant of `variants`, in order.
pub fn clone_variants(variants: &Vec<Variant>) -> (out: Vec<Variant>)
    ensures
        variants_view(out@) == variants_view(variants@),
{
    let mut out: Vec<Variant> = Vec::new();
    let mut i: usize = 0;
    while i < variants.len()
        invariant
            i <= variants@.len(),
            out@.len() == i,
            forall|k: int| 0 <= k < i ==> (#[trigger] out@[k])@ == variants@[k]@,
        decreases variants@.len() - i,
    {
        out.push(variants[i].clone());
        i += 1;
    }
    assert(variants_view(out@) =~= variants_view(variants@));
    out
}

/// The account of missing genotype calls over the variants seen so far.
#[derive(Debug)]
pub struct MissingDataInfo {
    /// The number of genotype slots examined.
    pub total_data_points: u128,
    /// The number of those slots that hold no call.
    pub missing_data_points: u128,
    /// The positions of the variants with at least one such slot.
    pub positions_with_missing: HashSet<i64>,
}

/// An account of missing calls as a mathematical value.
pub struct MissingDataView {
    pub total: nat,
    pub missing: nat,
    pub positions: Set<int>,
}

impl MissingDataView {
    /// The account of two disjoint batches of variants taken together.
    pub open spec fn plus(self, other: MissingDataView) -> MissingDataView {
        MissingDataView {
            total: self.total + other.total,
            missing: self.missing + other.missing,
            positions: self.positions.union(other.positions),
        }
    }
}

impl View for MissingDataInfo {
    type V = MissingDataView;

    open spec fn view(&self) -> MissingDataView {
        MissingDataView {
            total: self.total_data_points as nat,
            missing: self.missing_data_points as nat,
            positions: Set::new(
                |p: int|
                    i64::MIN <= p <= i64::MAX && self.positions_with_missing@.contains(p as i64),
            ),
        }
    }
}

/// Whether `x` is among the first `n` items of `items`.
pub open spec fn occurs_before(items: Seq<&i64>, n: int, x: i64) -> bool {
    exists|k: int| 0 <= k < n && *#[trigger] items[k] == x
}

impl MissingDataInfo {
    /// The account of no variant at all.
    pub fn new() -> (info: MissingDataInfo)
        ensures
            info@ == (MissingDataView { total: 0, missing: 0, positions: Set::empty() }),
    {
        let info = MissingDataInfo {
            total_data_points: 0,
            missing_data_points: 0,
            positions_with_missing: HashSet::new(),
        };
        assert(info@.positions =~= Set::empty());
        info
    }

    /// Adds the account `other` of further variants to this one.
    pub fn merge(&mut self, other: &MissingDataInfo)
        requires
            old(self).total_data_points + other.total_data_points <= u128::MAX,
            old(self).missing_data_points + other.missing_data_points <= u128::MAX,
        ensures
            final(self)@ == old(self)@.plus(other@),
    {
        broadcast use vstd::std_specs::hash::group_hash_axioms;

        self.total_data_points = self.total_data_points + other.total_data_points;
        self.missing_data_points = self.missing_data_points + other.missing_data_points;
        let ghost before = self.positions_with_missing@;
        for p in it: other.positions_with_missing.iter()
            invariant
                self.total_data_points == old(self).total_data_points + other.total_data_points,
                self.missing_data_points == old(self).missing_data_points
                    + other.missing_data_points,
                before == old(self).positions_with_missing@,
                it.seq().unref().to_set() == other.positions_with_missing@,
                forall|x: i64| #[trigger]
                    self.positions_with_missing@.contains(x) <==> (before.contains(x)
                        || occurs_before(it.seq(), it.index() as int, x)),
                it.index() == it.seq().len() ==> self.positions_with_missing@ == before.union(
                    other.positions_with_missing@,
                ),
        {
            let ghost earlier = self.positions_with_missing@;
            self.positions_with_missing.insert(*p);
            assert(it.index() + 1 == it.seq().len() ==> self.positions_with_missing@
                == before.union(other.positions_with_missing@)) by {
                if it.index() + 1 == it.seq().len() {
                    assert(*p == *it.seq()[it.index() as int]);
                    assert forall|x: i64|
                        self.positions_with_missing@.contains(x) <==> (before.contains(x)
                            || other.positions_with_missing@.contains(x)) by {
                        if other.positions_with_missing@.contains(x) {
                            assert(it.seq().unref().to_set().contains(x));
                            let k = choose|k: int|
                                0 <= k < it.seq().unref().len() && it.seq().unref()[k] == x;
                            assert(*it.seq()[k] == x);
                            if k < it.index() {
                                assert(occurs_before(it.seq(), it.index() as int, x));
                                assert(earlier.contains(x));
                            }
                        }
                        if self.positions_with_missing@.contains(x) && !before.contains(x) {
                            if x == *p {
                                assert(it.seq().unref()[it.index() as int] == x);
                            } else {
                                assert(earlier.contains(x));
                                assert(occurs_before(it.seq(), it.index() as int, x));
                                let k = choose|k: int|
                                    0 <= k < it.index() && *#[trigger] it.seq()[k] == x;
                                assert(it.seq().unref()[k] == x);
                            }
                            assert(it.seq().unref().to_set().contains(x));
                        }
                    }
                    assert(self.positions_with_missing@ =~= before.union(
                        other.positions_with_missing@,
                    ));
                }
            }
        }
        assert(self@.positions =~= old(self)@.plus(other@).positions);
    }
}

/// The number of slots of `slots` that hold no call.
pub open spec fn missing_slots(slots: Seq<Option<Seq<u8>>>) -> nat
    decreases slots.len(),
{
    if slots.len() == 0 {
        0
    } else {
        missing_slots(slots.drop_last()) + if slots.last() is None {
            1nat
        } else {
            0nat
        }
    }
}

/// Whether at least one slot of `v` holds no call.
pub open spec fn has_missing(v: VariantView) -> bool {
    exists|i: int| 0 <= i < v.genotypes.len() && #[trigger] v.genotypes[i] is None
}

/// The account of the single variant `v`.
pub open spec fn account_of_variant(v: VariantView) -> MissingDataView {
    MissingDataView {
        total: v.genotypes.len(),
        missing: missing_slots(v.genotypes),
        positions: if missing_slots(v.genotypes) > 0 {
            set![v.position]
        } else {
            Set::empty()
        },
    }
}

/// The account of `variants`: every slot counted, every missing slot
/// counted, and the positions of the variants that have one.
pub open spec fn account_of(variants: Seq<VariantView>) -> MissingDataView
    decreases variants.len(),
{
    if variants.len() == 0 {
        MissingDataView { total: 0, missing: 0, positions: Set::empty() }
    } else {
        account_of(variants.drop_last()).plus(account_of_variant(variants.last()))
    }
}

/// A slot is counted as missing exactly where some slot holds no call, and
/// never more slots than there are.
pub proof fn lemma_missing_slots(slots: Seq<Option<Seq<u8>>>)
    ensures
        missing_slots(slots) <= slots.len(),
        missing_slots(slots) > 0 <==> exists|i: int|
            0 <= i < slots.len() && #[trigger] slots[i] is None,
    decreases slots.len(),
{
    if slots.len() > 0 {
        let init = slots.drop_last();
        lemma_missing_slots(init);
        if missing_slots(init) > 0 {
            let i = choose|i: int| 0 <= i < init.len() && #[trigger] init[i] is None;
            assert(slots[i] is None);
        }
        if exists|i: int| 0 <= i < slots.len() && #[trigger] slots[i] is None {
            let i = choose|i: int| 0 <= i < slots.len() && #[trigger] slots[i] is None;
            if i < init.len() {
                assert(init[i] is None);
            }
        }
    }
}

/// An account never counts more missing slots than slots, and it lists a
/// position exactly where a variant at that position has a missing slot.
pub proof fn lemma_account(variants: Seq<VariantView>)
    ensures
        account_of(variants).missing <= account_of(variants).total,
        account_of(variants).positions.finite(),
        forall|p: int| #[trigger]
            account_of(variants).positions.contains(p) <==> exists|k: int|
                0 <= k < variants.len() && (#[trigger] variants[k]).position == p && has_missing(
                    variants[k],
                ),
    decreases variants.len(),
{
    if variants.len() > 0 {
        let init = variants.drop_last();
        let last = variants.last();
        lemma_account(init);
        lemma_missing_slots(last.genotypes);
        assert forall|p: int| #[trigger]
            account_of(variants).positions.contains(p) <==> exists|k: int|
                0 <= k < variants.len() && (#[trigger] variants[k]).position == p && has_missing(
                    variants[k],
                ) by {
            if account_of(init).positions.contains(p) {
                let k = choose|k: int|
                    0 <= k < init.len() && (#[trigger] init[k]).position == p && has_missing(
                        init[k],
                    );
                assert(variants[k] == init[k]);
            }
            if exists|k: int|
                0 <= k < variants.len() && (#[trigger] variants[k]).position == p && has_missing(
                    variants[k],
                ) {
                let k = choose|k: int|
                    0 <= k < variants.len() && (#[trigger] variants[k]).position == p
                        && has_missing(variants[k]);
                if k < init.len() {
                    assert(init[k] == variants[k]);
                }
            }
        }
    }
}

/// The account of two batches, one after the other, is the sum of their
/// accounts.
pub proof fn lemma_account_concat(a: Seq<VariantView>, b: Seq<VariantView>)
    ensures
        account_of(a + b) == account_of(a).plus(account_of(b)),
    decreases b.len(),
{
    if b.len() == 0 {
        assert(a + b =~= a);
        assert(account_of(a).plus(account_of(b)).positions =~= account_of(a).positions);
    } else {
        assert((a + b).drop_last() =~= a + b.drop_last());
        assert((a + b).last() == b.last());
        lemma_account_concat(a, b.drop_last());
        let x = account_of(a);
        let y = account_of(b.drop_last());
        let z = account_of_variant(b.last());
        assert(x.plus(y).plus(z).positions =~= x.plus(y.plus(z)).positions);
    }
}

/// The slots of at most `n` variants held in memory fit a `u128` count.
pub proof fn lemma_account_bounded(variants: Seq<Variant>)
    ensures
        account_of(variants_view(variants)).missing <= account_of(variants_view(variants)).total
            <= variants.len() * usize::MAX,
    decreases variants.len(),
{
    let vs = variants_view(variants);
    lemma_account(vs);
    if variants.len() > 0 {
        lemma_account_bounded(variants.drop_last());
        assert(vs.drop_last() =~= variants_view(variants.drop_last()));
        assert(vs.last().genotypes.len() == variants.last().genotypes.len());
        assert((variants.len() - 1) * usize::MAX + usize::MAX == variants.len() * usize::MAX)
            by (nonlinear_arith);
    }
}

} // verus!
