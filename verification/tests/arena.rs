use bump_arena::arena::{Arena, OutOfMemory, StaleView, DEFAULT_CAPACITY};
use bump_arena::repr::ByteRepr;
use vstd::prelude::{nat, Seq};

// The ghost members of `ByteRepr` exist for verification only; they cannot be
// stated outside `verus!` and are never called at run time, so the impls here
// give them bodies that panic.

#[derive(Debug, Clone, PartialEq)]
struct Person {
    name: [u8; 12],
    age: u32,
}

impl ByteRepr for Person {
    fn spec_size() -> nat {
        panic!()
    }

    fn spec_align() -> nat {
        panic!()
    }

    fn repr(&self) -> Seq<u8> {
        panic!()
    }

    fn repr_properties(&self) {
        panic!()
    }

    fn size_of_value() -> usize {
        16
    }

    fn align_of_value() -> usize {
        4
    }

    fn to_bytes(&self) -> Vec<u8> {
        let mut b = self.name.to_vec();
        b.extend_from_slice(&self.age.to_le_bytes());
        b
    }

    fn of_bytes(b: &[u8]) -> Self {
        let mut name = [0u8; 12];
        name.copy_from_slice(&b[..12]);
        let age = u32::from_le_bytes([b[12], b[13], b[14], b[15]]);
        Person { name, age }
    }
}

/// A blob of N bytes that asks for 4-byte alignment.
#[derive(Debug, Clone, PartialEq)]
struct Span4<const N: usize>([u8; N]);

impl<const N: usize> ByteRepr for Span4<N> {
    fn spec_size() -> nat {
        panic!()
    }

    fn spec_align() -> nat {
        panic!()
    }

    fn repr(&self) -> Seq<u8> {
        panic!()
    }

    fn repr_properties(&self) {
        panic!()
    }

    fn size_of_value() -> usize {
        N
    }

    fn align_of_value() -> usize {
        4
    }

    fn to_bytes(&self) -> Vec<u8> {
        self.0.to_vec()
    }

    fn of_bytes(b: &[u8]) -> Self {
        let mut a = [0u8; N];
        a.copy_from_slice(b);
        Span4(a)
    }
}

#[test]
fn can_allocate() {
    let cap = std::mem::size_of::<Person>() * 2;
    let mut arena = Arena::with_capacity(cap * 1000);

    let person1 = arena
        .allocate(Person { name: *b"Sun Kit Tsui", age: 22 })
        .unwrap();

    let pi = arena.allocate(3.14159f64.to_bits()).unwrap();

    let person2 = arena
        .allocate(Person { name: *b"Sun Kit Tsui", age: 24 })
        .unwrap();

    assert_eq!(
        arena.get(&person1).unwrap(),
        Person {
            name: *b"Sun Kit Tsui",
            age: 22,
        }
    );

    assert_eq!(f64::from_bits(arena.get(&pi).unwrap()), 3.14159);

    assert_eq!(
        arena.get(&person2).unwrap(),
        Person {
            name: *b"Sun Kit Tsui",
            age: 24,
        }
    );

    println!("{}", arena.top());
    arena.reset();
}

#[test]
fn can_run_in_loop() {
    let mut arena = Arena::with_capacity(std::mem::size_of::<Person>() * 22);

    for _ in 0..1 {
        for _ in 0..22 {
            let _person = arena
                .allocate(Person { name: *b"Sun Kit Tsui", age: 22 })
                .unwrap();
            println!("{}", arena.top());
        }

        arena.reset();
    }
}

#[test]
fn offsets_follow_alignment_and_size() {
    let mut arena = Arena::with_capacity(64);

    let first = arena.allocate(Span4([7u8; 16])).unwrap();
    assert_eq!(first.offset(), 0);
    assert_eq!(arena.top(), 16);

    let second = arena.allocate(0x1122334455667788u64).unwrap();
    assert_eq!(second.offset(), 16);
    assert_eq!(arena.top(), 24);

    let third = arena.allocate(Span4([9u8; 12])).unwrap();
    assert_eq!(third.offset(), 24);
    assert_eq!(arena.top(), 36);
}

#[test]
fn reset_repeats_identical_offsets() {
    let mut arena = Arena::with_capacity(64);

    let mut offsets = Vec::new();
    offsets.push(arena.allocate(Span4([7u8; 16])).unwrap().offset());
    offsets.push(arena.allocate(1u64).unwrap().offset());
    offsets.push(arena.allocate(Span4([9u8; 12])).unwrap().offset());
    assert_eq!(offsets, vec![0, 16, 24]);

    arena.reset();
    assert_eq!(arena.top(), 0);

    let mut again = Vec::new();
    again.push(arena.allocate(Span4([7u8; 16])).unwrap().offset());
    again.push(arena.allocate(1u64).unwrap().offset());
    again.push(arena.allocate(Span4([9u8; 12])).unwrap().offset());
    assert_eq!(again, offsets);
}

#[test]
fn failing_allocation_leaves_cursor_unchanged() {
    let mut arena = Arena::with_capacity(64);

    let _ = arena.allocate(Span4([0u8; 60])).unwrap();
    assert_eq!(arena.top(), 60);

    let failed = arena.allocate(0u64);
    assert_eq!(failed.unwrap_err(), OutOfMemory);
    assert_eq!(arena.top(), 60);
}

#[test]
fn offsets_are_aligned() {
    let mut arena = Arena::with_capacity(64);

    let a = arena.allocate(1u8).unwrap();
    let b = arena.allocate(2u32).unwrap();
    let c = arena.allocate(3u8).unwrap();
    let d = arena.allocate(4u64).unwrap();

    assert_eq!(a.offset() % 1, 0);
    assert_eq!(b.offset() % 4, 0);
    assert_eq!(d.offset() % 8, 0);

    assert_eq!(a.offset(), 0);
    assert_eq!(b.offset(), 4);
    assert_eq!(c.offset(), 8);
    assert_eq!(d.offset(), 16);
}

#[test]
fn values_read_back_equal() {
    let mut arena = Arena::with_capacity(64);

    let a = arena.allocate(0xabu8).unwrap();
    let b = arena.allocate(0xdeadbeefu32).unwrap();
    let c = arena.allocate(0x0123456789abcdefu64).unwrap();

    assert_eq!(arena.get(&a).unwrap(), 0xab);
    assert_eq!(arena.get(&b).unwrap(), 0xdeadbeef);
    assert_eq!(arena.get(&c).unwrap(), 0x0123456789abcdef);
}

#[test]
fn placements_do_not_overlap() {
    let mut arena = Arena::with_capacity(64);

    let a = arena.allocate(1u32).unwrap();
    let b = arena.allocate(2u64).unwrap();
    let c = arena.allocate(3u32).unwrap();

    let ranges = [
        (a.offset(), a.offset() + 4),
        (b.offset(), b.offset() + 8),
        (c.offset(), c.offset() + 4),
    ];
    for i in 0..ranges.len() {
        for j in 0..ranges.len() {
            if i != j {
                let (s1, e1) = ranges[i];
                let (s2, e2) = ranges[j];
                assert!(e1 <= s2 || e2 <= s1);
            }
        }
    }
}

#[test]
fn first_overflowing_allocation_fails() {
    let mut arena = Arena::with_capacity(10);

    let a = arena.allocate(1u64).unwrap();
    assert_eq!(a.offset(), 0);
    assert_eq!(arena.top(), 8);

    let too_big = arena.allocate(2u32);
    assert_eq!(too_big.unwrap_err(), OutOfMemory);
    assert_eq!(arena.top(), 8);

    let still_fits = arena.allocate(3u8).unwrap();
    assert_eq!(still_fits.offset(), 8);
    assert_eq!(arena.top(), 9);
}

#[test]
fn update_writes_through_the_view() {
    let mut arena = Arena::with_capacity(16);

    let v = arena.allocate(11u32).unwrap();
    assert_eq!(arena.get(&v).unwrap(), 11);

    arena.update(&v, 42u32).unwrap();
    assert_eq!(arena.get(&v).unwrap(), 42);
}

#[test]
fn views_go_stale_on_reset() {
    let mut arena = Arena::with_capacity(16);

    let v = arena.allocate(5u32).unwrap();
    arena.reset();

    assert_eq!(arena.get(&v).unwrap_err(), StaleView);
    assert_eq!(arena.update(&v, 6u32).unwrap_err(), StaleView);
}

#[test]
fn views_from_another_epoch_are_refused() {
    let mut donor = Arena::with_capacity(16);
    let mut taker = Arena::with_capacity(16);
    taker.reset();

    let v = donor.allocate(5u32).unwrap();
    assert_eq!(taker.get(&v).unwrap_err(), StaleView);
}

#[test]
fn default_capacity_is_honoured() {
    let mut arena = Arena::new();
    assert_eq!(arena.top(), 0);

    for i in 0..DEFAULT_CAPACITY {
        let p = arena.allocate(i as u8).unwrap();
        assert_eq!(p.offset(), i);
    }
    assert_eq!(arena.allocate(0u8).unwrap_err(), OutOfMemory);
}

#[test]
fn empty_arena_rejects_everything() {
    let mut arena = Arena::with_capacity(0);
    assert_eq!(arena.allocate(0u8).unwrap_err(), OutOfMemory);
    assert_eq!(arena.top(), 0);
}
