use vstd::prelude::*;

verus! {

/// A non-negative token amount in the `u64` domain.
#[derive(Debug, Clone, Copy, PartialEq, Eq, Hash, Structural)]
pub struct Amount {
    pub value: u64,
}

/// The largest value an amount can hold.
pub open spec fn amount_max() -> int {
    u64::MAX as int
}

impl Amount {
    /// The additive identity.
    pub fn zero() -> (r: Amount)
        ensures
            r.value == 0,
    {
        Amount { value: 0 }
    }

    pub open spec fn view(self) -> int {
        self.value as int
    }

    pub fn from_u64(value: u64) -> (r: Amount)
        ensures
            r.value == value,
    {
        Amount { value }
    }

    pub fn to_u64(&self) -> (r: u64)
        ensures
            r == self.value,
    {
        self.value
    }

    /// Adds two amounts, or gives `None` where the sum leaves the `u64` domain.
    pub fn checked_add(&self, other: &Amount) -> (r: Option<Amount>)
        ensures
            self@ + other@ <= amount_max() ==> r == Some(Amount { value: (self@ + other@) as u64 }),
            self@ + other@ > amount_max() ==> r.is_none(),
    {
        match self.value.checked_add(other.value) {
            Some(v) => Some(Amount { value: v }),
            None => None,
        }
    }
}

/// The exact sum of a sequence of amounts, with no bound.
pub open spec fn sum_amounts(s: Seq<Amount>) -> int
    decreases s.len(),
{
    if s.len() == 0 {
        0
    } else {
        sum_amounts(s.drop_last()) + s.last()@
    }
}

/// Extending a sequence never lowers its sum.
pub proof fn lemma_sum_amounts_monotone(s: Seq<Amount>, i: int)
    requires
        0 <= i <= s.len(),
    ensures
        sum_amounts(s.subrange(0, i)) <= sum_amounts(s),
    decreases s.len() - i,
{
    if i < s.len() {
        lemma_sum_amounts_monotone(s, i + 1);
        assert(s.subrange(0, i + 1).drop_last() =~= s.subrange(0, i));
    } else {
        assert(s.subrange(0, i) =~= s);
    }
}

} // verus!
