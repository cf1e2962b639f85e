use skipjack_rs::utils::{
    bytes_to_word, g_permutation, inv_g_permutation, inv_rule_a, inv_rule_b, rule_a, rule_b,
    word_to_bytes,
};
use skipjack_rs::{Block, Skipjack, SkipjackKey, SBOX};

const KEY: [u8; 10] = [0x00, 0x99, 0x88, 0x77, 0x66, 0x55, 0x44, 0x33, 0x22, 0x11];
const PLAIN: [u16; 4] = [0x3322, 0x1100, 0xddcc, 0xbbaa];
const CIPHER: [u16; 4] = [0x2587, 0xcae2, 0x7a12, 0xd300];

fn encrypted(key: [u8; 10], words: [u16; 4]) -> [u16; 4] {
    let skipjack = Skipjack::new(SkipjackKey::from(key));
    let mut buf = Block::from(words);
    skipjack.encrypt(&mut buf);
    buf.to_words()
}

fn decrypted(key: [u8; 10], words: [u16; 4]) -> [u16; 4] {
    let skipjack = Skipjack::new(SkipjackKey::from(key));
    let mut buf = Block::from(words);
    skipjack.decrypt(&mut buf);
    buf.to_words()
}

#[test]
fn test_encryption() {
    let skipjack: Skipjack =
        Skipjack::new([0x00, 0x99, 0x88, 0x77, 0x66, 0x55, 0x44, 0x33, 0x22, 0x11].into());
    let mut buf = [0x3322, 0x1100, 0xddcc, 0xbbaa].into();
    skipjack.encrypt(&mut buf);

    assert_eq!(buf.to_words(), [0x2587, 0xcae2, 0x7a12, 0xd300]);
}

#[test]
fn test_decryption() {
    let skipjack: Skipjack =
        Skipjack::new([0x00, 0x99, 0x88, 0x77, 0x66, 0x55, 0x44, 0x33, 0x22, 0x11].into());
    let mut buf = [0x2587, 0xcae2, 0x7a12, 0xd300].into();
    skipjack.decrypt(&mut buf);

    assert_eq!(buf.to_words(), [0x3322, 0x1100, 0xddcc, 0xbbaa]);
}

#[test]
fn word_splits_into_high_and_low_byte() {
    assert_eq!(word_to_bytes(0xabcd), (0xab, 0xcd));
    assert_eq!(word_to_bytes(0x0000), (0x00, 0x00));
    assert_eq!(word_to_bytes(0xffff), (0xff, 0xff));
    assert_eq!(word_to_bytes(0x00ff), (0x00, 0xff));
    assert_eq!(word_to_bytes(0xff00), (0xff, 0x00));
}

#[test]
fn bytes_join_into_word() {
    assert_eq!(bytes_to_word((0xab, 0xcd)), 0xabcd);
    assert_eq!(bytes_to_word((0x00, 0x01)), 0x0001);
    assert_eq!(bytes_to_word((0x01, 0x00)), 0x0100);
}

#[test]
fn word_byte_round_trip() {
    for w in [0x0000u16, 0x0001, 0x00ff, 0x0100, 0x1234, 0x8000, 0xabcd, 0xffff] {
        assert_eq!(bytes_to_word(word_to_bytes(w)), w);
    }
}

#[test]
fn g_permutation_known_values() {
    assert_eq!(g_permutation(&KEY, 0x3322, 0), 0x0baf);
    assert_eq!(g_permutation(&KEY, 0xabcd, 31), 0x8e2f);
    assert_eq!(g_permutation(&[0u8; 10], 0x0000, 0), 0x4a36);
    assert_eq!(inv_g_permutation(&KEY, 0xabcd, 31), 0xdaeb);
}

#[test]
fn inverse_g_undoes_g() {
    for step in 0..32u16 {
        for w in [0x0000u16, 0x3322, 0xabcd, 0xffff] {
            assert_eq!(inv_g_permutation(&KEY, g_permutation(&KEY, w, step), step), w);
            assert_eq!(g_permutation(&KEY, inv_g_permutation(&KEY, w, step), step), w);
        }
    }
}

#[test]
fn zero_key_and_block_is_not_the_identity() {
    assert_eq!(SBOX[0], 0xa3);
    assert_eq!(g_permutation(&[0u8; 10], 0x0000, 0), 0x4a36);
    let first = encrypted([0u8; 10], [0u16; 4]);
    let second = encrypted([0u8; 10], [0u16; 4]);
    assert_eq!(first, [0xaaae, 0x8ede, 0x6764, 0x143d]);
    assert_eq!(first, second);
    assert_ne!(first, [0u16; 4]);
    assert_eq!(decrypted([0u8; 10], first), [0u16; 4]);
}

#[test]
fn rule_a_single_round() {
    let mut words = PLAIN;
    rule_a(&KEY, &mut words, 1);
    assert_eq!(words, [0xb004, 0x0baf, 0x1100, 0xddcc]);
    inv_rule_a(&KEY, &mut words, 1);
    assert_eq!(words, PLAIN);
}

#[test]
fn rule_b_single_round() {
    let mut words = PLAIN;
    rule_b(&KEY, &mut words, 9);
    assert_eq!(words, [0xbbaa, 0x4b81, 0x222b, 0xddcc]);
    inv_rule_b(&KEY, &mut words, 9);
    assert_eq!(words, PLAIN);
}

#[test]
fn inverse_rules_are_undone_by_rules() {
    for counter in 1..33u16 {
        let mut words = CIPHER;
        inv_rule_a(&KEY, &mut words, counter);
        rule_a(&KEY, &mut words, counter);
        assert_eq!(words, CIPHER);
        inv_rule_b(&KEY, &mut words, counter);
        rule_b(&KEY, &mut words, counter);
        assert_eq!(words, CIPHER);
    }
}

#[test]
fn encrypt_then_decrypt_round_trip() {
    let keys = [KEY, [0u8; 10], [0xffu8; 10], [1, 2, 3, 4, 5, 6, 7, 8, 9, 10]];
    let blocks = [PLAIN, CIPHER, [0u16; 4], [0xffff; 4], [1, 0, 0, 0x8000]];
    for key in keys {
        for block in blocks {
            assert_eq!(decrypted(key, encrypted(key, block)), block);
            assert_eq!(encrypted(key, decrypted(key, block)), block);
        }
    }
}

#[test]
fn repeated_calls_give_equal_results() {
    let a = Skipjack::new(SkipjackKey::from(KEY));
    let b = Skipjack::new(KEY.into());
    let mut x = Block::from(PLAIN);
    let mut y = Block::from(PLAIN);
    a.encrypt(&mut x);
    b.encrypt(&mut y);
    assert_eq!(x.to_words(), y.to_words());
    assert_eq!(x.to_words(), CIPHER);
    a.decrypt(&mut x);
    a.decrypt(&mut y);
    assert_eq!(x.to_words(), y.to_words());
    assert_eq!(x.to_words(), PLAIN);
}

#[test]
fn containers_keep_their_contents() {
    assert_eq!(Block::from(PLAIN).to_words(), PLAIN);
    assert_eq!(Block::from(CIPHER).clone().to_words(), CIPHER);
    assert_eq!(SkipjackKey::from(KEY).clone().to_bytes(), KEY);
    assert_eq!(Block::from([7, 6, 5, 4]).to_words(), [7, 6, 5, 4]);
    assert_eq!(SkipjackKey::from(KEY).to_bytes(), KEY);
    assert_eq!(SkipjackKey::from([9u8; 10]).to_bytes(), [9u8; 10]);
}

#[test]
fn encryption_changes_the_block() {
    assert_ne!(encrypted(KEY, PLAIN), PLAIN);
    assert_ne!(decrypted(KEY, CIPHER), CIPHER);
}
