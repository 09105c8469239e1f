use srs_cli::rand::Rng;

#[test]
fn shuffle() {
    let mut rng = Rng::with_seed(391348571);

    let mut s = (0..10).collect::<Vec<_>>();
    rng.shuffle(&mut s);

    assert_eq!(s, &[6, 3, 7, 8, 1, 4, 0, 2, 9, 5]);
}

#[test]
fn bool() {
    let mut rng = Rng::with_seed(123456789);

    assert!(rng.bool());
    assert!(!rng.bool());
    assert!(!rng.bool());
    assert!(!rng.bool());
    assert!(!rng.bool());
    assert!(!rng.bool());
    assert!(rng.bool());
    assert!(!rng.bool());
    assert!(!rng.bool());
    assert!(!rng.bool());

    let mut rng = Rng::with_seed(987654321);

    assert!(!rng.bool());
    assert!(!rng.bool());
    assert!(rng.bool());
    assert!(!rng.bool());
    assert!(rng.bool());
    assert!(rng.bool());
    assert!(!rng.bool());
    assert!(rng.bool());
    assert!(rng.bool());
    assert!(rng.bool());
}

#[test]
fn u16() {
    let mut rng = Rng::with_seed(234567891);

    assert_eq!(rng.u16(10), 2);
    assert_eq!(rng.u16(10), 6);
    assert_eq!(rng.u16(10), 2);
    assert_eq!(rng.u16(10), 2);
    assert_eq!(rng.u16(10), 5);
    assert_eq!(rng.u16(10), 6);
    assert_eq!(rng.u16(10), 2);
    assert_eq!(rng.u16(10), 4);
    assert_eq!(rng.u16(10), 2);
    assert_eq!(rng.u16(10), 2);

    let mut rng = Rng::with_seed(876543212);

    assert_eq!(rng.u16(10), 9);
    assert_eq!(rng.u16(10), 1);
    assert_eq!(rng.u16(10), 3);
    assert_eq!(rng.u16(10), 6);
    assert_eq!(rng.u16(10), 9);
    assert_eq!(rng.u16(10), 10);
    assert_eq!(rng.u16(10), 4);
    assert_eq!(rng.u16(10), 1);
    assert_eq!(rng.u16(10), 9);
    assert_eq!(rng.u16(10), 2);

    let mut rng = Rng::with_seed(2765438120);

    assert_eq!(rng.u16(3), 1);
    assert_eq!(rng.u16(3), 0);
    assert_eq!(rng.u16(3), 3);
    assert_eq!(rng.u16(3), 1);
    assert_eq!(rng.u16(3), 2);
    assert_eq!(rng.u16(3), 3);
    assert_eq!(rng.u16(3), 1);
    assert_eq!(rng.u16(3), 0);
    assert_eq!(rng.u16(3), 3);
    assert_eq!(rng.u16(3), 3);
    assert_eq!(rng.u16(3), 2);
}

#[test]
fn next_is_one_xorshift_step() {
    let mut rng = Rng::with_seed(1);
    // 1 ^ (1 << 13) = 0x2001; ^ (>> 7) = 0x2041; ^ (<< 17) = 0x4082_2041
    assert_eq!(rng.next(), 0x4082_2041);
}

#[test]
fn zero_seed_stays_zero() {
    let mut rng = Rng::with_seed(0);
    assert_eq!(rng.next(), 0);
    assert_eq!(rng.u16(9), 0);
    assert!(!rng.bool());
}

#[test]
fn shuffle_keeps_the_items() {
    let mut rng = Rng::with_seed(42);
    let mut s: Vec<u32> = (0..100).collect();
    rng.shuffle(&mut s);
    let mut sorted = s.clone();
    sorted.sort();
    assert_eq!(sorted, (0..100).collect::<Vec<u32>>());
    assert_ne!(s, (0..100).collect::<Vec<u32>>());
}

#[test]
fn shuffle_of_short_slices_draws_nothing() {
    let mut rng = Rng::with_seed(7);
    let mut none: Vec<u8> = vec![];
    rng.shuffle(&mut none);
    let mut one = vec![5u8];
    rng.shuffle(&mut one);
    assert_eq!(one, vec![5u8]);
    let mut fresh = Rng::with_seed(7);
    assert_eq!(rng.next(), fresh.next());
}

#[test]
fn new_generators_can_be_made() {
    let mut rng = Rng::new();
    assert!(rng.u16(3) <= 3);
}
