//! The allocator's state: one region of 2^SIZE bytes, claimed once,
//! installed once, then carved at random.
use crate::arith::{is_pow2, lemma_pow2_fits, pow2_usize};
use crate::offset::{address_spec, lemma_address_aligned, place, OffsetGenerator};
use vstd::arithmetic::power2::pow2;
use vstd::prelude::*;

verus! {

/// What an allocator holds, as plain values.
pub struct HeapState {
    /// Where the region starts; zero until it is installed.
    pub base: nat,
    /// The region's size in bytes.
    pub region_size: nat,
    /// Whether a caller has claimed the region's set-up.
    pub claimed: bool,
    /// Whether the offset generator exists.
    pub seeded: bool,
}

/// The state after one claim.
pub open spec fn claim_step(s: HeapState) -> HeapState {
    HeapState { claimed: true, seeded: true, ..s }
}

/// Whether a claim on state `s` wins: only the first one does.
pub open spec fn claim_won(s: HeapState) -> bool {
    !s.claimed
}

/// How many of `n` successive claims, starting from `s`, win.
pub open spec fn wins_in(s: HeapState, n: nat) -> nat
    decreases n,
{
    if n == 0 {
        0
    } else {
        (if claim_won(s) { 1nat } else { 0nat }) + wins_in(claim_step(s), (n - 1) as nat)
    }
}

/// Of any run of claims, only the first on an unclaimed state wins: one
/// claim in all wins from an unclaimed state, none from a claimed one. So
/// the region is acquired once, however many callers try.
pub proof fn lemma_one_winner(s: HeapState, n: nat)
    requires
        n >= 1,
    ensures
        wins_in(s, n) == (if s.claimed { 0nat } else { 1nat }),
    decreases n,
{
    if n > 1 {
        lemma_one_winner(claim_step(s), (n - 1) as nat);
    }
    reveal_with_fuel(wins_in, 2);
}

/// An allocator over a region of 2^SIZE bytes. The region is set up
/// lazily: the first caller to claim it acquires the memory and installs
/// its address; until then the allocator is not ready. Once ready, every
/// request gets a pseudo-random address in or near the region. Blocks are
/// never tracked, may overlap one another, and may run past the region's
/// end; freeing does nothing.
pub struct BogoAlloc<const SIZE: usize> {
    start: usize,
    size: usize,
    claimed: bool,
    rand: Option<OffsetGenerator>,
}

impl<const SIZE: usize> View for BogoAlloc<SIZE> {
    type V = HeapState;

    closed spec fn view(&self) -> HeapState {
        HeapState {
            base: self.start as nat,
            region_size: self.size as nat,
            claimed: self.claimed,
            seeded: self.rand is Some,
        }
    }
}

impl<const SIZE: usize> BogoAlloc<SIZE> {
    /// The allocator's invariant: the region is 2^SIZE bytes, the generator
    /// exists exactly when the region has been claimed, and a region is
    /// installed only after a claim.
    pub open spec fn wf(&self) -> bool {
        &&& self@.region_size == pow2(SIZE as nat)
        &&& pow2(SIZE as nat) <= usize::MAX
        &&& self@.seeded == self@.claimed
        &&& self@.base != 0 ==> self@.claimed
        &&& self@.base <= usize::MAX
    }

    /// Whether a region is installed.
    pub open spec fn ready(&self) -> bool {
        self@.base != 0
    }

    /// A new allocator: unclaimed, with no region and no generator.
    pub fn new() -> (r: Self)
        requires
            pow2(SIZE as nat) <= usize::MAX,
        ensures
            r.wf(),
            r@.base == 0,
            !r@.claimed,
    {
        BogoAlloc { start: 0, size: pow2_usize(SIZE), claimed: false, rand: None }
    }

    /// The region's size in bytes: 2^SIZE.
    pub fn region_size(&self) -> (r: usize)
        requires
            self.wf(),
        ensures
            r == pow2(SIZE as nat),
    {
        self.size
    }

    /// The region's address, or zero while none is installed.
    pub fn base_address(&self) -> (r: usize)
        ensures
            r == self@.base,
    {
        self.start
    }

    /// Whether a region is installed, so that requests can be served.
    pub fn is_ready(&self) -> (r: bool)
        ensures
            r == self.ready(),
    {
        self.start != 0
    }

    /// Claims the region's set-up. The first claim wins: it seeds the
    /// offset generator, and its caller must then acquire `region_size()`
    /// bytes and `install` them. Every later claim loses and changes
    /// nothing; its caller waits until the allocator is ready.
    pub fn try_claim(&mut self) -> (won: bool)
        requires
            old(self).wf(),
        ensures
            final(self).wf(),
            won == claim_won(old(self)@),
            final(self)@ == claim_step(old(self)@),
    {
        if self.claimed {
            false
        } else {
            self.claimed = true;
            self.rand = Some(OffsetGenerator::new());
            true
        }
    }

    /// Installs the region acquired by the winning claim, at `base`.
    pub fn install(&mut self, base: usize)
        requires
            old(self).wf(),
            old(self)@.claimed,
            !old(self).ready(),
            base != 0,
        ensures
            final(self).wf(),
            final(self)@ == (HeapState { base: base as nat, ..old(self)@ }),
    {
        self.start = base;
    }

    /// The address of a block of `size` bytes aligned to `align`: a
    /// pseudo-random offset below the region size is lowered by `size`
    /// (stopping at zero) and rounded up to `align`, and added to the
    /// region's base. The block may overlap others and may run past the
    /// region's end: a request of the region's size or more always lands
    /// on the base itself, and its block then extends past the end.
    pub fn allocate(&mut self, size: usize, align: usize) -> (r: usize)
        requires
            old(self).wf(),
            old(self).ready(),
            is_pow2(align as int),
        ensures
            final(self).wf(),
            final(self)@ == old(self)@,
            ((r - old(self)@.base) % (usize::MAX + 1)) % (align as int) == 0,
            exists|offset: usize|
                offset < old(self)@.region_size && r == #[trigger] address_spec(
                    old(self)@.base as usize,
                    offset,
                    size,
                    align,
                ),
    {
        proof {
            lemma_pow2_fits(self.size as int);
            lemma_pow2_fits(align as int);
        }
        let region = self.size;
        let offset = match &mut self.rand {
            Some(g) => g.next_offset(region),
            None => 0,
        };
        let r = place(self.start, offset, size, align);
        proof {
            lemma_address_aligned(self.start, offset, size, align);
        }
        assert(offset < old(self)@.region_size && r == address_spec(
            old(self)@.base as usize,
            offset,
            size,
            align,
        ));
        r
    }

    /// Frees nothing: blocks are never tracked or reused.
    pub fn deallocate(&self, ptr: usize, size: usize, align: usize) {
    }
}

} // verus!
