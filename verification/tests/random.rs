use dwarfilib::random::{RandomSource, SeededRandom, ThreadRandom, draw_below, draw_u64};

#[test]
fn seeded_random_is_deterministic() {
    let mut a = SeededRandom::new(7);
    let mut b = SeededRandom::new(7);
    for _ in 0..100 {
        assert_eq!(a.next_u32(), b.next_u32());
    }
}

#[test]
fn seeded_random_follows_its_recurrence() {
    // The generator's contract pins every draw: state steps by the linear
    // congruence, the draw is the high half of the next state.
    let mut rng = SeededRandom::new(0);
    assert_eq!(335903614, rng.next_u32());
    assert_eq!(1442695040888963407, rng.state);
    assert_eq!(436792849, rng.next_u32());
    assert_eq!(1876011003808476466, rng.state);
    assert_eq!(2599843874, rng.next_u32());
    let mut seeded = SeededRandom::new(42);
    assert_eq!(2440530669, seeded.next_u32());
}

#[test]
fn seeded_random_varies_with_seed() {
    let mut a = SeededRandom::new(1);
    let mut b = SeededRandom::new(2);
    let draws_a: Vec<u32> = (0..8).map(|_| a.next_u32()).collect();
    let draws_b: Vec<u32> = (0..8).map(|_| b.next_u32()).collect();
    assert_ne!(draws_a, draws_b);
}

#[test]
fn draw_below_stays_below_bound() {
    let mut rng = SeededRandom::new(1234);
    for bound in 1..50u64 {
        for _ in 0..20 {
            assert!(draw_below(&mut rng, bound) < bound);
        }
    }
}

#[test]
fn thread_random_draws() {
    let mut rng = ThreadRandom::new();
    // Nothing is promised of the draws; the calls must simply work.
    let _ = rng.next_u32();
    let _ = draw_u64(&mut rng);
    let below = draw_below(&mut rng, 10);
    assert!(below < 10);
}
