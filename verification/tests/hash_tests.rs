use graph::{sha512, Sha512};

fn to_hex(bytes: &[u8]) -> String {
    bytes.iter().map(|b| format!("{:02x}", b)).collect()
}

#[test]
fn digest_of_empty_input_matches_known_answer() {
    let d = sha512(&[]);
    assert_eq!(d.len(), 64);
    assert_eq!(
        to_hex(&d),
        "cf83e1357eefb8bdf1542850d66d8007d620e4050b5715dc83f4a921d36ce9ce\
         47d0d13c5d85f2b0ff8318d2877eec2f63b931bd47417a81a538327af927da3e"
    );
}

#[test]
fn digest_of_abc_matches_known_answer() {
    let d = sha512(b"abc");
    assert_eq!(
        to_hex(&d),
        "ddaf35a193617abacc417349ae20413112e6fa4e89a97ea20a9eeee64b55d39a\
         2192992a274fc1a836ba3c23a3feebbd454d4423643ce80e2a9ac94fa54ca49f"
    );
}

#[test]
fn digest_of_two_block_message_matches_known_answer() {
    let msg = b"abcdefghbcdefghicdefghijdefghijkefghijklfghijklmghijklmnhijklmno\
ijklmnopjklmnopqklmnopqrlmnopqrsmnopqrstnopqrstu";
    let d = sha512(msg);
    assert_eq!(
        to_hex(&d),
        "8e959b75dae313da8cf4f72814fc143f8f7779c6eb9f7fa17299aeadb6889018\
         501d289e4900f7e4331b99dec4b5433ac7d329eeb6dd26545e96e55b874be909"
    );
}

#[test]
fn digest_length_is_64_for_various_inputs() {
    for n in [0usize, 1, 111, 112, 127, 128, 129, 255, 256, 1000] {
        let data = vec![0x5au8; n];
        assert_eq!(sha512(&data).len(), 64);
    }
}

#[test]
fn incremental_updates_match_one_shot_digest() {
    let mut h = Sha512::new();
    h.update(b"ab");
    h.update(b"c");
    let d = h.finalize();
    assert_eq!(d, sha512(b"abc"));

    let data = vec![7u8; 777];
    let mut h2 = Sha512::new();
    for chunk in data.chunks(13) {
        h2.update(chunk);
    }
    assert_eq!(h2.finalize(), sha512(&data));
}

#[test]
fn digest_of_a_million_a_matches_known_answer() {
    let mut h = Sha512::new();
    let chunk = [b'a'; 125];
    for _ in 0..8000 {
        h.update(&chunk);
    }
    let d = h.finalize();
    assert_eq!(
        to_hex(&d),
        "e718483d0ce769644e2e42c7bc15b4638e1f98b13b2044285632a803afa973eb\
         de0ff244877ea60a4cb0432ce577c31beb009c5c2c49aa2e4eadb217ad8cc09b"
    );
}
