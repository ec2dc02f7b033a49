use bogoalloc::arith::pow2_usize;
use bogoalloc::heap::BogoAlloc;
use bogoalloc::offset::{offset_of_draw, place, round_up, OffsetGenerator};

const BASE: usize = 0x1000_0000;

fn ready<const SIZE: usize>() -> BogoAlloc<SIZE> {
    let mut a = BogoAlloc::<SIZE>::new();
    assert!(a.try_claim());
    a.install(BASE);
    assert!(a.is_ready());
    a
}

#[test]
fn funny_values_everywhere() {
    let mut a = ready::<32>();
    let elem = std::mem::size_of::<i32>();
    let align = std::mem::align_of::<i32>();
    let blocks = (1..42)
        .map(|i: i32| (i, a.allocate(1500 * elem, align)))
        .collect::<Vec<_>>();
    println!("{:?}", blocks);
    assert_eq!(blocks.len(), 41);
    for (_, p) in blocks {
        let d = p - BASE;
        assert_eq!(d % align, 0);
        assert!(d < (1usize << 32));
    }
}

#[test]
fn aligned_offsets_cover_the_region() {
    let mut a = ready::<10>();
    let mut buckets = [0usize; 8];
    for _ in 0..20000 {
        let p = a.allocate(16, 8);
        let d = p - BASE;
        assert_eq!(d % 8, 0);
        assert!(d < 1024);
        buckets[d / 128] += 1;
    }
    assert!(buckets.iter().all(|&n| n > 0), "{:?}", buckets);
}

#[test]
fn oversized_request_lands_on_base() {
    let mut a = ready::<4>();
    assert_eq!(a.region_size(), 16);
    for _ in 0..1000 {
        assert_eq!(a.allocate(20, 1), BASE);
        assert_eq!(a.allocate(20, 8), BASE);
    }
}

#[test]
fn only_the_first_claim_wins() {
    let mut a = BogoAlloc::<8>::new();
    assert!(!a.is_ready());
    assert!(a.try_claim());
    for _ in 0..100 {
        assert!(!a.try_claim());
    }
    assert!(!a.is_ready());
    a.install(BASE);
    assert!(!a.try_claim());
    assert_eq!(a.base_address(), BASE);
}

#[test]
fn region_size_is_two_to_the_size() {
    assert_eq!(BogoAlloc::<0>::new().region_size(), 1);
    assert_eq!(BogoAlloc::<4>::new().region_size(), 16);
    assert_eq!(BogoAlloc::<10>::new().region_size(), 1024);
    assert_eq!(BogoAlloc::<32>::new().region_size(), 1usize << 32);
    assert_eq!(BogoAlloc::<63>::new().region_size(), 1usize << 63);
    assert_eq!(pow2_usize(20), 1_048_576);
}

#[test]
fn deallocate_changes_nothing() {
    let mut a = ready::<12>();
    let p = a.allocate(64, 16);
    a.deallocate(p, 64, 16);
    assert_eq!(a.base_address(), BASE);
    assert_eq!(a.region_size(), 4096);
    assert!(!a.try_claim());
    let q = a.allocate(64, 16);
    assert_eq!((q - BASE) % 16, 0);
}

#[test]
fn offset_is_absolute_draw_modulo_region() {
    assert_eq!(offset_of_draw(-5, 4), 1);
    assert_eq!(offset_of_draw(5, 4), 1);
    assert_eq!(offset_of_draw(3, 1024), 3);
    assert_eq!(offset_of_draw(-1, 1024), 1);
    assert_eq!(offset_of_draw(i64::MAX, 1000), 807);
    assert_eq!(offset_of_draw(i64::MIN, 1024), 0);
    assert_eq!(offset_of_draw(i64::MIN, 1000), 808);
    assert_eq!(offset_of_draw(1234, 1), 0);
}

#[test]
fn round_up_to_alignment() {
    assert_eq!(round_up(0, 8), 0);
    assert_eq!(round_up(1, 8), 8);
    assert_eq!(round_up(8, 8), 8);
    assert_eq!(round_up(84, 8), 88);
    assert_eq!(round_up(5, 1), 5);
}

#[test]
fn place_lowers_then_aligns() {
    assert_eq!(place(1000, 100, 16, 8), 1088);
    assert_eq!(place(1000, 100, 0, 64), 1128);
    assert_eq!(place(1000, 10, 20, 4), 1000);
    assert_eq!(place(usize::MAX - 3, 8, 0, 8), 4);
}

#[test]
fn generator_offsets_stay_below_region() {
    let mut g = OffsetGenerator::new();
    let draws: Vec<i64> = (0..16).map(|_| g.next_signed_integer()).collect();
    assert!(draws.iter().any(|&d| d != draws[0]));
    for _ in 0..1000 {
        assert!(g.next_offset(100) < 100);
    }
}
