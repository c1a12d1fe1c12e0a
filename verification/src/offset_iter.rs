//! The position schedule: which pixels, by linear index, are targets.

use vstd::prelude::*;

verus! {

/// The `k`-th target index of the schedule made of the repeating `offsets`
/// and the initial `skip`: the first target lies `offsets[0]` past `skip`,
/// and each later one lies the next gap past the pixel after its predecessor.
pub open spec fn target(offsets: Seq<u32>, skip: u32, k: nat) -> int
    decreases k,
{
    if k == 0 {
        skip + offsets[0]
    } else {
        target(offsets, skip, (k - 1) as nat) + 1 + offsets[k as int % offsets.len() as int]
    }
}

/// The first index that the `k`-th target may take: `skip` at the start,
/// afterwards the pixel after the target before.
pub open spec fn base(offsets: Seq<u32>, skip: u32, k: nat) -> int {
    if k == 0 {
        skip as int
    } else {
        target(offsets, skip, (k - 1) as nat) + 1
    }
}

/// Each target is its base plus the gap whose turn it is.
pub proof fn lemma_target_from_base(offsets: Seq<u32>, skip: u32, k: nat)
    requires
        offsets.len() > 0,
    ensures
        target(offsets, skip, k) == base(offsets, skip, k) + offsets[k as int % offsets.len() as int],
        target(offsets, skip, k) >= base(offsets, skip, k),
        base(offsets, skip, k) >= k,
    decreases k,
{
    if k > 0 {
        lemma_target_from_base(offsets, skip, (k - 1) as nat);
    }
}

/// The schedule is strictly increasing.
pub proof fn lemma_target_increasing(offsets: Seq<u32>, skip: u32, i: nat, j: nat)
    requires
        offsets.len() > 0,
        i < j,
    ensures
        target(offsets, skip, i) < target(offsets, skip, j),
    decreases j,
{
    if i + 1 < j {
        lemma_target_increasing(offsets, skip, i, (j - 1) as nat);
    }
    lemma_target_from_base(offsets, skip, j);
}

/// With a single gap `g` the targets are evenly spaced: the `n`-th lies at
/// `skip + n * (g + 1) + g`.
pub proof fn lemma_single_gap(g: u32, skip: u32, n: nat)
    ensures
        target(seq![g], skip, n) == skip + n * (g + 1) + g,
    decreases n,
{
    let offsets = seq![g];
    if n == 0 {
        assert(n * (g + 1) == 0) by (nonlinear_arith)
            requires
                n == 0,
        ;
    } else {
        lemma_single_gap(g, skip, (n - 1) as nat);
        assert(offsets[n as int % offsets.len() as int] == g);
        assert(n * (g + 1) == (n - 1) * (g + 1) + (g + 1)) by (nonlinear_arith);
    }
}

/// The schedule as a cursor: a non-empty list of gaps, the place in it of
/// the gap whose turn it is, and the first index that the next target may
/// take.
pub struct OffsetIter {
    current: usize,
    index: usize,
    offsets: Vec<u32>,
}

impl OffsetIter {
    #[verifier::type_invariant]
    spec fn inv(self) -> bool {
        self.index < self.offsets@.len()
    }

    /// The gaps, in the order in which they were given.
    pub closed spec fn offsets(&self) -> Seq<u32> {
        self.offsets@
    }

    /// The place in the list of the gap whose turn it is.
    pub closed spec fn cursor(&self) -> nat {
        self.index as nat
    }

    /// The first index that the next target may take.
    pub closed spec fn current(&self) -> nat {
        self.current as nat
    }

    /// The target that the next call hands out, as a mathematical integer.
    pub open spec fn upcoming(&self) -> int {
        self.current() + self.offsets()[self.cursor() as int]
    }

    /// Whether the cursor stands where the schedule of its gaps and `skip`
    /// stands after `k` targets.
    pub open spec fn at(&self, skip: u32, k: nat) -> bool {
        &&& self.cursor() == k as int % self.offsets().len() as int
        &&& self.current() == base(self.offsets(), skip, k)
    }

    /// The schedule of a non-empty list of gaps, before its first target.
    pub fn new(offsets: Vec<u32>, skip: u32) -> (r: Self)
        requires
            offsets@.len() > 0,
        ensures
            r.offsets() == offsets@,
            r.at(skip, 0),
    {
        Self { current: skip as usize, index: 0, offsets }
    }

    /// The next target, and the cursor moved past it: after `k` targets of a
    /// schedule this is the `k`-th target of that schedule, and the cursor
    /// then stands after `k + 1`. Where the target or the index after it
    /// does not fit the machine word there is no result and the cursor stays.
    pub fn next(&mut self) -> (r: Option<usize>)
        ensures
            old(self).offsets().len() > 0,
            old(self).cursor() < old(self).offsets().len(),
            final(self).offsets() == old(self).offsets(),
            old(self).upcoming() < usize::MAX ==> {
                &&& r == Some(old(self).upcoming() as usize)
                &&& final(self).current() == old(self).upcoming() + 1
                &&& final(self).cursor() == (old(self).cursor() as int + 1) % (old(
                    self,
                ).offsets().len() as int)
            },
            old(self).upcoming() >= usize::MAX ==> {
                &&& r is None
                &&& final(self).current() == old(self).current()
                &&& final(self).cursor() == old(self).cursor()
            },
            forall|skip: u32, k: nat| #[trigger]
                old(self).at(skip, k) ==> {
                    &&& old(self).upcoming() == target(old(self).offsets(), skip, k)
                    &&& r is Some ==> final(self).at(skip, k + 1)
                    &&& r is None ==> final(self).at(skip, k)
                },
    {
        proof {
            use_type_invariant(&*self);
            assert forall|skip: u32, k: nat| #[trigger] self.at(skip, k) implies self.upcoming()
                == target(self.offsets(), skip, k) && base(self.offsets(), skip, k + 1) == target(
                self.offsets(),
                skip,
                k,
            ) + 1 && (self.cursor() as int + 1) % (self.offsets().len() as int) == (k + 1) as int
                % self.offsets().len() as int by {
                lemma_target_from_base(self.offsets(), skip, k);
                vstd::arithmetic::div_mod::lemma_add_mod_noop_right(
                    1,
                    k as int,
                    self.offsets().len() as int,
                );
            }
        }
        let len = self.offsets.len();
        let gap = self.offsets[self.index] as usize;
        if gap >= usize::MAX - self.current {
            return None;
        }
        let result = self.current + gap;
        self.current = result + 1;
        self.index = (self.index + 1) % len;
        Some(result)
    }
}

} // verus!
