use graph::{sha512, IdGenerator, ID};

#[test]
fn identifiers_from_equal_text_are_equal() {
    let a = ID::from_text("Adam");
    let b = ID::from_text("Adam");
    assert_eq!(a.value(), b.value());
    assert!(a == b);
}

#[test]
fn identifiers_from_chosen_distinct_texts_differ() {
    let a = ID::from_text("Adam");
    let b = ID::from_text("McDaniel");
    assert_ne!(a.value(), b.value());
}

#[test]
fn text_identifier_value_is_digest_prefix() {
    let digest = sha512(b"Adam");
    let mut expected: u128 = 0;
    for byte in digest.iter().take(16) {
        expected = (expected << 8) | (*byte as u128);
    }
    assert_eq!(ID::from_text("Adam").value(), expected);
}

#[test]
fn join_is_not_commutative_for_distinct_operands() {
    let a = ID::from_text("a");
    let b = ID::from_text("b");
    assert_ne!(a.join(&b).value(), b.join(&a).value());
}

#[test]
fn join_is_deterministic() {
    let a = ID::new(17);
    let b = ID::new(99);
    assert_eq!(a.join(&b).value(), a.join(&b).value());
}

#[test]
fn next_twice_equals_generator_applied_twice() {
    let seed: u128 = 0x0123456789abcdef0123456789abcdef;
    let id = ID::new(seed).with_generator(IdGenerator::XorShift64);

    let xs = |v: u128| {
        let mut x = v;
        x ^= x << 13;
        x ^= x >> 7;
        x ^= x << 17;
        x
    };
    assert_eq!(id.next_id().next_id().value(), xs(xs(seed)));
}

#[test]
fn increment_generator_adds_one() {
    let id = ID::new(41).with_generator(IdGenerator::Increment);
    assert_eq!(id.next_id().value(), 42);
    assert_eq!(id.next_id().generator(), IdGenerator::Increment);
}

#[test]
fn linear_congruential_generator_matches_formula() {
    let seed: u128 = 123456789;
    let id = ID::new(seed).with_generator(IdGenerator::LinearCongruential);
    let expected = (1103515245u128.wrapping_mul(seed).wrapping_add(12345)) % (1u128 << 31);
    assert_eq!(id.next_id().value(), expected);
    assert!(id.next_id().value() < (1u128 << 31));
}

#[test]
fn hash_derived_generator_hashes_the_value_bytes() {
    let seed: u128 = 5;
    let id = ID::new(seed);
    assert_eq!(id.generator(), IdGenerator::Sha512);

    let digest = sha512(&seed.to_be_bytes());
    let mut expected: u128 = 0;
    for byte in digest.iter().take(16) {
        expected = (expected << 8) | (*byte as u128);
    }
    assert_eq!(id.next_id().value(), expected);
}

#[test]
fn sequences_are_restartable() {
    let first = ID::new(7);
    let second = ID::new(7);
    let mut x = first;
    let mut y = second;
    for _ in 0..5 {
        x = x.next_id();
        y = y.next_id();
        assert_eq!(x.value(), y.value());
        assert_eq!(x.generator(), y.generator());
    }
}

#[test]
fn with_seed_replaces_the_value_and_keeps_the_generator() {
    let id = ID::new(1).with_generator(IdGenerator::Increment).with_seed(50);
    assert_eq!(id.value(), 50);
    assert_eq!(id.generator(), IdGenerator::Increment);
}

#[test]
fn random_identifiers_carry_the_default_generator() {
    let id = ID::random();
    assert_eq!(id.generator(), IdGenerator::Sha512);
}

#[test]
fn hex_rendering_is_32_characters_zero_padded() {
    let id = ID::new(0x0123456789abcdef);
    assert_eq!(id.to_hex_lower(), "00000000000000000123456789abcdef");
    assert_eq!(id.to_hex_upper(), "00000000000000000123456789ABCDEF");
    assert_eq!(ID::new(0).to_hex_lower().len(), 32);
}

#[test]
fn equality_goes_by_value_not_generator() {
    let a = ID::new(5).with_generator(IdGenerator::Increment);
    let b = ID::new(5).with_generator(IdGenerator::XorShift64);
    assert!(a == b);
}
