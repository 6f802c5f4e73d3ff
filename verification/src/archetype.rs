//! Archetype fingerprints: a 64-bit value that stands for a set of component
//! ids, computed by folding a hash of each id into a nonzero seed.

use vstd::prelude::*;

verus! {

/// The position of a row within a table.
pub type Column = usize;

/// The position of a table within the registry.
pub type TableIndex = usize;

/// The number of a component type, assigned in declaration order.
pub type ComponentId = u16;

/// The id that stands for "not declared".
pub const UNDECLARED: ComponentId = 0xffff;

/// The fingerprint of a set of component ids.
#[derive(Copy, Clone, PartialEq, Eq, Structural, PartialOrd, Ord, Debug)]
pub struct Archetype(pub u64);

/// What one component id contributes to a fingerprint.
pub open spec fn term(id: u64) -> u64 {
    let h = id.wrapping_mul(123456789123456789);
    id.wrapping_add(h.wrapping_shl(((h % 32) as u32 + 1) as u32))
}

/// The sum of the contributions of the ids.
pub open spec fn total(ids: Seq<ComponentId>) -> int
    decreases ids.len(),
{
    if ids.len() == 0 {
        0
    } else {
        total(ids.drop_last()) + term(ids.last() as u64)
    }
}

/// The fingerprint of the ids: each in turn is folded into the seed.
pub open spec fn fingerprint(ids: Seq<ComponentId>) -> Archetype
    decreases ids.len(),
{
    if ids.len() == 0 {
        Archetype(1)
    } else {
        fingerprint(ids.drop_last()).added(ids.last() as u64)
    }
}

impl Archetype {
    /// The fingerprint with one more id folded in.
    pub open spec fn added(self, id: u64) -> Archetype {
        Archetype(self.0.wrapping_add(term(id)))
    }

    /// The fingerprint of the empty set: the seed.
    pub fn new() -> (seed: Archetype)
        ensures
            seed == Archetype(1),
            seed == fingerprint(Seq::empty()),
    {
        Archetype(1)
    }

    /// Folds one id into the fingerprint.
    pub fn add(self, id: u64) -> (next: Archetype)
        ensures
            next == self.added(id),
    {
        let h = id.wrapping_mul(123456789123456789);
        let shift: u32 = (h % 32) as u32 + 1;
        Archetype(self.0.wrapping_add(id.wrapping_add(h.wrapping_shl(shift))))
    }
}

/// A fingerprint is the seed plus the sum of the contributions, in 64 bits.
pub proof fn lemma_fingerprint_is_sum(ids: Seq<ComponentId>)
    ensures
        total(ids) >= 0,
        fingerprint(ids).0 == (1 + total(ids)) % 0x1_0000_0000_0000_0000,
    decreases ids.len(),
{
    if ids.len() > 0 {
        lemma_fingerprint_is_sum(ids.drop_last());
        let t = total(ids.drop_last());
        let x = term(ids.last() as u64) as int;
        let before = fingerprint(ids.drop_last()).0 as int;
        assert(before == (1 + t) % 0x1_0000_0000_0000_0000);
        assert((before + x) % 0x1_0000_0000_0000_0000 == (1 + t + x) % 0x1_0000_0000_0000_0000) by {
            vstd::arithmetic::div_mod::lemma_add_mod_noop(1 + t, x, 0x1_0000_0000_0000_0000);
            vstd::arithmetic::div_mod::lemma_add_mod_noop(before, x, 0x1_0000_0000_0000_0000);
            vstd::arithmetic::div_mod::lemma_mod_twice(1 + t, 0x1_0000_0000_0000_0000);
        }
        assert(fingerprint(ids).0 == (before + x) % 0x1_0000_0000_0000_0000) by {
            if before + x > u64::MAX {
                vstd::arithmetic::div_mod::lemma_mod_sub_multiples_vanish(
                    before + x,
                    0x1_0000_0000_0000_0000,
                );
                vstd::arithmetic::div_mod::lemma_small_mod(
                    (before + x - 0x1_0000_0000_0000_0000) as nat,
                    0x1_0000_0000_0000_0000,
                );
            } else {
                vstd::arithmetic::div_mod::lemma_small_mod(
                    (before + x) as nat,
                    0x1_0000_0000_0000_0000,
                );
            }
        }
    }
}

/// Taking one id out of a list takes its contribution out of the sum.
pub proof fn lemma_total_remove(ids: Seq<ComponentId>, at: int)
    requires
        0 <= at < ids.len(),
    ensures
        total(ids) == total(ids.remove(at)) + term(ids[at] as u64),
    decreases ids.len(),
{
    if at == ids.len() - 1 {
        assert(ids.remove(at) =~= ids.drop_last());
    } else {
        lemma_total_remove(ids.drop_last(), at);
        assert(ids.remove(at).drop_last() =~= ids.drop_last().remove(at));
        assert(ids.remove(at).last() == ids.last());
    }
}

/// The sum does not depend on the order of the ids.
pub proof fn lemma_total_of_permutation(a: Seq<ComponentId>, b: Seq<ComponentId>)
    requires
        a.to_multiset() == b.to_multiset(),
    ensures
        total(a) == total(b),
    decreases a.len(),
{
    broadcast use vstd::seq_lib::group_to_multiset_ensures;

    assert(a.to_multiset().len() == a.len());
    assert(b.to_multiset().len() == b.len());
    if a.len() == 0 {
    } else {
        let x = a.last();
        assert(a =~= a.drop_last().push(x));
        assert(a.to_multiset().count(x) > 0);
        assert(b.contains(x));
        let at = choose|at: int| 0 <= at < b.len() && b[at] == x;
        assert(a.drop_last() =~= a.remove(a.len() - 1));
        assert(a.drop_last().to_multiset() =~= b.remove(at).to_multiset());
        lemma_total_of_permutation(a.drop_last(), b.remove(at));
        lemma_total_remove(b, at);
    }
}

/// The fingerprint does not depend on the order of the ids: two lists that
/// hold the same ids the same number of times have the same fingerprint.
pub proof fn lemma_fingerprint_order_independent(a: Seq<ComponentId>, b: Seq<ComponentId>)
    requires
        a.to_multiset() == b.to_multiset(),
    ensures
        fingerprint(a) == fingerprint(b),
{
    lemma_total_of_permutation(a, b);
    lemma_fingerprint_is_sum(a);
    lemma_fingerprint_is_sum(b);
}

} // verus!
