//! Where a block lands: a pseudo-random offset into the region, pulled
//! down by the request's size and rounded up to its alignment.
use crate::arith::{abs, align_up, is_pow2, lemma_align_up, lemma_is_pow2_positive};
use vstd::prelude::*;

verus! {

/// nanorand's `WyRand` generator, carried as an opaque value.
#[verifier::external_type_specification]
#[verifier::external_body]
pub struct ExWyRand(nanorand::WyRand);

/// Relies on nanorand's `WyRand::new`, which seeds the generator from the
/// system's entropy source; nothing is known of the seed.
pub assume_specification[ nanorand::WyRand::new ]() -> (r: nanorand::WyRand);

/// Relies on nanorand's `Rng::<8>::rand` for `WyRand`, which advances the
/// generator and hands out eight bytes, read here as a little-endian
/// signed integer. Any value may come back.
#[verifier::external_body]
fn draw(rng: &mut nanorand::WyRand) -> (r: i64) {
    i64::from_le_bytes(nanorand::Rng::rand(rng))
}

/// The offset that a draw selects in a region of `region_size` bytes.
pub open spec fn offset_spec(draw: i64, region_size: usize) -> int {
    abs(draw as int) % (region_size as int)
}

/// How far past the region's base a block lands, for a drawn offset.
pub open spec fn displacement_spec(offset: usize, request: usize, align: usize) -> int {
    align_up(if offset >= request { offset - request } else { 0 }, align as int)
}

/// The address handed out: base plus displacement, wrapping at the end of
/// the address space.
pub open spec fn address_spec(base: usize, offset: usize, request: usize, align: usize) -> int {
    let sum = base + displacement_spec(offset, request, align);
    if sum > usize::MAX {
        sum - (usize::MAX + 1)
    } else {
        sum
    }
}

/// The offset into a region of `region_size` bytes that a draw selects:
/// |draw| mod `region_size`, always in `[0, region_size)`.
pub fn offset_of_draw(draw: i64, region_size: usize) -> (r: usize)
    requires
        region_size > 0,
    ensures
        r == offset_spec(draw, region_size),
        r < region_size,
{
    let magnitude: u64 = if draw < 0 {
        (-(draw + 1)) as u64 + 1
    } else {
        draw as u64
    };
    if magnitude as u128 >= region_size as u128 {
        (magnitude % (region_size as u64)) as usize
    } else {
        proof {
            vstd::arithmetic::div_mod::lemma_small_mod(magnitude as nat, region_size as nat);
        }
        magnitude as usize
    }
}

/// `x` rounded up to the next multiple of `align`.
pub fn round_up(x: usize, align: usize) -> (r: usize)
    requires
        align > 0,
        x + align - 1 <= usize::MAX,
    ensures
        r == align_up(x as int, align as int),
        r % align == 0,
        x <= r < x + align,
{
    proof {
        lemma_align_up(x as int, align as int);
    }
    let rem = x % align;
    if rem == 0 {
        x
    } else {
        x + (align - rem)
    }
}

/// The address of a block of `request` bytes aligned to `align`, for an
/// offset drawn in a region at `base`. The offset is first lowered by the
/// request's size (stopping at zero), so that the block more often ends
/// inside the region, then rounded up to the alignment. Nothing keeps the
/// block inside the region: a large request or alignment may end past it.
pub fn place(base: usize, offset: usize, request: usize, align: usize) -> (r: usize)
    requires
        is_pow2(align as int),
        offset + align <= usize::MAX + 1,
    ensures
        r == address_spec(base, offset, request, align),
{
    proof {
        lemma_is_pow2_positive(align as int);
    }
    let lowered = offset.saturating_sub(request);
    let displacement = round_up(lowered, align);
    base.wrapping_add(displacement)
}

/// A block lands a multiple of its alignment past the region's base,
/// counting addresses modulo the size of the address space.
pub proof fn lemma_address_aligned(base: usize, offset: usize, request: usize, align: usize)
    requires
        is_pow2(align as int),
        offset + align <= usize::MAX + 1,
    ensures
        displacement_spec(offset, request, align) % (align as int) == 0,
        ((address_spec(base, offset, request, align) - base) % (usize::MAX + 1)) % (align as int)
            == 0,
{
    lemma_is_pow2_positive(align as int);
    let lowered: int = if offset >= request { offset - request } else { 0 };
    lemma_align_up(lowered, align as int);
    let d = displacement_spec(offset, request, align);
    let m = usize::MAX + 1;
    assert(0 <= d < m);
    vstd::arithmetic::div_mod::lemma_small_mod(d as nat, m as nat);
    if base + d > usize::MAX {
        vstd::arithmetic::div_mod::lemma_mod_sub_multiples_vanish(d, m);
    }
}

/// A request at least as large as the drawn offset is lowered to offset
/// zero: its block starts at the region's base, whatever its alignment,
/// and a request larger than the region then runs past the region's end.
pub proof fn lemma_large_request_at_base(base: usize, offset: usize, request: usize, align: usize)
    requires
        is_pow2(align as int),
        offset <= request,
    ensures
        displacement_spec(offset, request, align) == 0,
        address_spec(base, offset, request, align) == base,
{
    lemma_is_pow2_positive(align as int);
    lemma_align_up(0, align as int);
}

/// The pseudo-random source of offsets.
pub struct OffsetGenerator {
    rng: nanorand::WyRand,
}

impl OffsetGenerator {
    /// A generator seeded from the system's entropy.
    pub fn new() -> (r: Self) {
        OffsetGenerator { rng: nanorand::WyRand::new() }
    }

    /// The next draw, read as a signed integer.
    pub fn next_signed_integer(&mut self) -> (r: i64) {
        draw(&mut self.rng)
    }

    /// The next offset into a region of `region_size` bytes: |draw| mod
    /// `region_size` for a fresh draw.
    pub fn next_offset(&mut self, region_size: usize) -> (r: usize)
        requires
            region_size > 0,
        ensures
            r < region_size,
            exists|d: i64| r == offset_spec(d, region_size),
    {
        let d = self.next_signed_integer();
        offset_of_draw(d, region_size)
    }
}

} // verus!
