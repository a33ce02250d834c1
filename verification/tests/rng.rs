use prisoners::xorshift::Rng;

fn draw(seed: u64, k: usize) -> Vec<u64> {
    let mut rng = Rng::new(seed);
    let mut out = Vec::new();
    for _ in 0..k {
        out.push(rng.rand());
    }
    out
}

#[test]
fn first_draw_is_the_seed() {
    let mut rng = Rng::new(42988879486144);
    assert_eq!(rng.rand(), 42988879486144);
}

#[test]
fn draws_from_seed_one() {
    assert_eq!(
        draw(1, 4),
        vec![
            0x1,
            0x0100_0800_0000_2001,
            0x0010_0000_0000_0201,
            0x0101_0808_0040_2221,
        ]
    );
}

#[test]
fn draws_from_a_large_seed() {
    assert_eq!(
        draw(42988879486144, 3),
        vec![42988879486144, 17476483835116834174, 14636896120182468822]
    );
}

#[test]
fn shifts_drop_the_high_bits() {
    assert_eq!(
        draw(u64::MAX, 3),
        vec![18446744073709551615, 72048797944913919, 4371658232036864]
    );
}

#[test]
fn seed_zero_draws_only_zero() {
    assert_eq!(draw(0, 16), vec![0u64; 16]);
}

#[test]
fn same_seed_same_draws() {
    assert_eq!(draw(0xDEAD_BEEF, 64), draw(0xDEAD_BEEF, 64));
    assert_ne!(draw(0xDEAD_BEEF, 4), draw(0xDEAD_BEEE, 4));
}

#[test]
fn shuffle_three_items() {
    let mut rng = Rng::new(5);
    let mut row = vec![0, 1, 2];
    rng.shuffle(&mut row);
    assert_eq!(row, vec![1, 2, 0]);
    assert_eq!(rng.rand(), 361739497358011045);
}

#[test]
fn shuffle_goes_on_from_the_state_it_left() {
    let mut rng = Rng::new(5);
    let mut row = vec![0, 1, 2];
    rng.shuffle(&mut row);
    rng.shuffle(&mut row);
    assert_eq!(row, vec![1, 0, 2]);
    assert_eq!(rng.rand(), 744589274331302565);
}

#[test]
fn shuffle_keeps_repeated_items() {
    let mut rng = Rng::new(3);
    let mut row = vec![5, 5, 7, 9, 11];
    rng.shuffle(&mut row);
    assert_eq!(row, vec![9, 11, 5, 7, 5]);
    let mut sorted = row.clone();
    sorted.sort();
    assert_eq!(sorted, vec![5, 5, 7, 9, 11]);
}

#[test]
fn shuffle_of_an_empty_row_draws_nothing() {
    let mut rng = Rng::new(77);
    let mut row: Vec<usize> = Vec::new();
    rng.shuffle(&mut row);
    assert!(row.is_empty());
    assert_eq!(rng.rand(), 77);
}

#[test]
fn shuffle_with_seed_zero_rotates() {
    let mut rng = Rng::new(0);
    let mut row = vec![0, 1, 2, 3, 4];
    rng.shuffle(&mut row);
    assert_eq!(row, vec![4, 0, 1, 2, 3]);
}
