use fullrust::allocator::{arena_size, bucket_index, bucket_size, round_up, AllocStep, DeallocStep, Inner, ARENA};

#[test]
fn size_classes() {
    assert_eq!(bucket_size(0), 16);
    assert_eq!(bucket_size(12), 65536);
    assert_eq!(bucket_index(1), 0);
    assert_eq!(bucket_index(16), 0);
    assert_eq!(bucket_index(17), 1);
    assert_eq!(bucket_index(4096), 8);
    assert_eq!(bucket_index(65536), 12);
    assert_eq!(round_up(1, 4096), 4096);
    assert_eq!(round_up(8192, 4096), 8192);
    assert_eq!(round_up(0, 16), 0);
    assert_eq!(arena_size(100), ARENA);
}

#[test]
fn zero_size_and_large_requests() {
    let mut a = Inner::new();
    assert_eq!(a.alloc_step(0, 8), AllocStep::Ready(8));
    assert_eq!(a.alloc_step(100_000, 8), AllocStep::MapLarge(102_400));
    assert_eq!(a.alloc_step(64, 8192), AllocStep::MapLarge(4096));
    assert_eq!(a.dealloc_step(12345, 0, 1), DeallocStep::Done);
    assert_eq!(a.dealloc_step(0x10000, 100_000, 8), DeallocStep::Unmap(102_400));
}

#[test]
fn bump_allocation_and_reuse() {
    let mut a = Inner::new();
    assert_eq!(a.alloc_step(24, 8), AllocStep::NeedArena(1));
    a.install_arena(0x10008, 0x1000);
    assert_eq!(a.alloc_step(24, 8), AllocStep::Ready(0x10020));
    assert_eq!(a.alloc_step(24, 8), AllocStep::Ready(0x10040));
    assert_eq!(a.carve(0), 0x10060);
    assert_eq!(a.dealloc_step(0x10020, 24, 8), DeallocStep::Done);
    assert_eq!(a.dealloc_step(0x10040, 30, 4), DeallocStep::Done);
    assert_eq!(a.alloc_step(20, 1), AllocStep::Ready(0x10040));
    assert_eq!(a.alloc_step(32, 32), AllocStep::Ready(0x10020));
    assert_eq!(a.alloc_step(2048, 8), AllocStep::Ready(0x10800));
    assert_eq!(a.alloc_step(2048, 8), AllocStep::NeedArena(7));
    assert_eq!(a.carve(7), 0);
}

#[test]
fn live_blocks_never_overlap() {
    let mut a = Inner::new();
    a.install_arena(0x20000, 0x4000);
    let mut live: Vec<(usize, usize)> = Vec::new();
    for size in [16usize, 40, 100, 16, 300, 1000, 40] {
        let b = bucket_index(size);
        match a.alloc_step(size, 8) {
            AllocStep::Ready(p) => live.push((p, bucket_size(b))),
            other => panic!("unexpected {:?}", other),
        }
    }
    assert_eq!(a.dealloc_step(live[1].0, 40, 8), DeallocStep::Done);
    let freed = live.remove(1);
    match a.alloc_step(33, 8) {
        AllocStep::Ready(p) => {
            assert_eq!(p, freed.0);
            live.push((p, 64));
        }
        other => panic!("unexpected {:?}", other),
    }
    for i in 0..live.len() {
        for j in 0..live.len() {
            if i != j {
                let (x, y) = (live[i], live[j]);
                assert!(x.0 + x.1 <= y.0 || y.0 + y.1 <= x.0);
            }
        }
    }
}
