//! The SKIPJACK block cipher: in-place encryption and decryption of one
//! 64-bit block (four 16-bit words) under an 80-bit key (ten bytes).

pub mod blocks;
pub mod utils;

use vstd::prelude::*;

pub use crate::blocks::{block_words, key_bytes, Block, SkipjackKey};
use crate::utils::{
    inv_rule_a, inv_rule_a_spec, inv_rule_b, inv_rule_b_spec, lemma_rule_a_inverse,
    lemma_rule_b_inverse, rule_a, rule_a_spec, rule_b, rule_b_spec,
};

verus! {

/// The cipher's fixed byte-substitution table (the F-table).
pub const SBOX: [u8; 256] = [
    0xa3, 0xd7, 0x09, 0x83, 0xf8, 0x48, 0xf6, 0xf4, 0xb3, 0x21, 0x15, 0x78, 0x99, 0xb1, 0xaf, 0xf9,
    0xe7, 0x2d, 0x4d, 0x8a, 0xce, 0x4c, 0xca, 0x2e, 0x52, 0x95, 0xd9, 0x1e, 0x4e, 0x38, 0x44, 0x28,
    0x0a, 0xdf, 0x02, 0xa0, 0x17, 0xf1, 0x60, 0x68, 0x12, 0xb7, 0x7a, 0xc3, 0xe9, 0xfa, 0x3d, 0x53,
    0x96, 0x84, 0x6b, 0xba, 0xf2, 0x63, 0x9a, 0x19, 0x7c, 0xae, 0xe5, 0xf5, 0xf7, 0x16, 0x6a, 0xa2,
    0x39, 0xb6, 0x7b, 0x0f, 0xc1, 0x93, 0x81, 0x1b, 0xee, 0xb4, 0x1a, 0xea, 0xd0, 0x91, 0x2f, 0xb8,
    0x55, 0xb9, 0xda, 0x85, 0x3f, 0x41, 0xbf, 0xe0, 0x5a, 0x58, 0x80, 0x5f, 0x66, 0x0b, 0xd8, 0x90,
    0x35, 0xd5, 0xc0, 0xa7, 0x33, 0x06, 0x65, 0x69, 0x45, 0x00, 0x94, 0x56, 0x6d, 0x98, 0x9b, 0x76,
    0x97, 0xfc, 0xb2, 0xc2, 0xb0, 0xfe, 0xdb, 0x20, 0xe1, 0xeb, 0xd6, 0xe4, 0xdd, 0x47, 0x4a, 0x1d,
    0x42, 0xed, 0x9e, 0x6e, 0x49, 0x3c, 0xcd, 0x43, 0x27, 0xd2, 0x07, 0xd4, 0xde, 0xc7, 0x67, 0x18,
    0x89, 0xcb, 0x30, 0x1f, 0x8d, 0xc6, 0x8f, 0xaa, 0xc8, 0x74, 0xdc, 0xc9, 0x5d, 0x5c, 0x31, 0xa4,
    0x70, 0x88, 0x61, 0x2c, 0x9f, 0x0d, 0x2b, 0x87, 0x50, 0x82, 0x54, 0x64, 0x26, 0x7d, 0x03, 0x40,
    0x34, 0x4b, 0x1c, 0x73, 0xd1, 0xc4, 0xfd, 0x3b, 0xcc, 0xfb, 0x7f, 0xab, 0xe6, 0x3e, 0x5b, 0xa5,
    0xad, 0x04, 0x23, 0x9c, 0x14, 0x51, 0x22, 0xf0, 0x29, 0x79, 0x71, 0x7e, 0xff, 0x8c, 0x0e, 0xe2,
    0x0c, 0xef, 0xbc, 0x72, 0x75, 0x6f, 0x37, 0xa1, 0xec, 0xd3, 0x8e, 0x62, 0x8b, 0x86, 0x10, 0xe8,
    0x08, 0x77, 0x11, 0xbe, 0x92, 0x4f, 0x24, 0xc5, 0x32, 0x36, 0x9d, 0xcf, 0xf3, 0xa6, 0xbb, 0xac,
    0x5e, 0x6c, 0xa9, 0x13, 0x57, 0x25, 0xb5, 0xe3, 0xbd, 0xa8, 0x3a, 0x01, 0x05, 0x59, 0x2a, 0x46,
];

/// Entry `i` of the substitution table.
pub open spec fn sbox(i: u8) -> u8 {
    SBOX@[i as int]
}

/// A SKIPJACK word.
pub type Word = u16;

/// The rule of each band of eight rounds, in round order: `true` for rule A,
/// `false` for rule B.
pub const RULE_A_BANDS: [bool; 4] = [true, false, true, false];

/// Whether round `counter` (1 to 32) steps by rule A: rounds 1 to 8 and 17
/// to 24 do, rounds 9 to 16 and 25 to 32 step by rule B.
pub open spec fn is_rule_a_round(counter: int) -> bool {
    (1 <= counter <= 8) || (17 <= counter <= 24)
}

/// Looks up the rule of round `counter` (1 to 32) in the band table.
fn uses_rule_a(counter: u16) -> (r: bool)
    requires
        1 <= counter <= 32,
    ensures
        r == is_rule_a_round(counter as int),
{
    RULE_A_BANDS[((counter - 1) / 8) as usize]
}

/// One encryption round: the rule that the schedule gives round `counter`.
pub open spec fn round_spec(key: Seq<u8>, b: Seq<u16>, counter: u16) -> Seq<u16> {
    if is_rule_a_round(counter as int) {
        rule_a_spec(key, b, counter)
    } else {
        rule_b_spec(key, b, counter)
    }
}

/// One decryption round: the inverse of the rule of round `counter`.
pub open spec fn inv_round_spec(key: Seq<u8>, b: Seq<u16>, counter: u16) -> Seq<u16> {
    if is_rule_a_round(counter as int) {
        inv_rule_a_spec(key, b, counter)
    } else {
        inv_rule_b_spec(key, b, counter)
    }
}

/// The block after encryption rounds 1 to `n`, in ascending order.
pub open spec fn encrypt_rounds(key: Seq<u8>, b: Seq<u16>, n: nat) -> Seq<u16>
    decreases n,
{
    if n == 0 {
        b
    } else {
        round_spec(key, encrypt_rounds(key, b, (n - 1) as nat), n as u16)
    }
}

/// The block after decryption rounds `n` down to 1, in descending order.
pub open spec fn decrypt_rounds(key: Seq<u8>, b: Seq<u16>, n: nat) -> Seq<u16>
    decreases n,
{
    if n == 0 {
        b
    } else {
        decrypt_rounds(key, inv_round_spec(key, b, n as u16), (n - 1) as nat)
    }
}

/// SKIPJACK encryption of block `b` under `key`: all 32 rounds.
pub open spec fn encrypt_spec(key: Seq<u8>, b: Seq<u16>) -> Seq<u16> {
    encrypt_rounds(key, b, 32)
}

/// SKIPJACK decryption of block `b` under `key`: all 32 rounds, backwards.
pub open spec fn decrypt_spec(key: Seq<u8>, b: Seq<u16>) -> Seq<u16> {
    decrypt_rounds(key, b, 32)
}

/// A SKIPJACK cipher instance: an engine that holds one key.
pub struct Skipjack {
    key: [u8; 10],
}

impl View for Skipjack {
    type V = Seq<u8>;

    /// The ten key bytes.
    closed spec fn view(&self) -> Seq<u8> {
        self.key@
    }
}

impl Skipjack {
    /// Makes an engine that encrypts and decrypts under `key`.
    pub fn new(key: SkipjackKey) -> (r: Skipjack)
        ensures
            r@ == key_bytes(key),
    {
        Skipjack { key: key.as_array() }
    }

    /// Encrypts `block` in place: rounds 1 to 32, by rule A for rounds 1 to
    /// 8, rule B for 9 to 16, rule A for 17 to 24 and rule B for 25 to 32.
    pub fn encrypt(&self, block: &mut Block)
        ensures
            block_words(*old(block)).len() == 4,
            block_words(*final(block)) == encrypt_spec(self@, block_words(*old(block))),
    {
        let mut words: [u16; 4] = block.as_array();
        let ghost start: Seq<u16> = words@;
        let mut counter: u16 = 1;
        while counter <= 32
            invariant
                1 <= counter <= 33,
                words@ == encrypt_rounds(self@, start, (counter - 1) as nat),
            decreases 33 - counter,
        {
            if uses_rule_a(counter) {
                rule_a(&self.key, &mut words, counter);
            } else {
                rule_b(&self.key, &mut words, counter);
            }
            counter = counter + 1;
        }
        *block = Block::from_array(words);
    }

    /// Decrypts `block` in place: rounds 32 down to 1, each undone by the
    /// inverse of the rule that encryption used for it.
    pub fn decrypt(&self, block: &mut Block)
        ensures
            block_words(*old(block)).len() == 4,
            block_words(*final(block)) == decrypt_spec(self@, block_words(*old(block))),
    {
        let mut words: [u16; 4] = block.as_array();
        let ghost start: Seq<u16> = words@;
        let mut counter: u16 = 32;
        while counter >= 1
            invariant
                counter <= 32,
                decrypt_rounds(self@, words@, counter as nat) == decrypt_spec(self@, start),
            decreases counter,
        {
            if uses_rule_a(counter) {
                inv_rule_a(&self.key, &mut words, counter);
            } else {
                inv_rule_b(&self.key, &mut words, counter);
            }
            counter = counter - 1;
        }
        *block = Block::from_array(words);
    }
}

/// Each decryption round undoes the encryption round of the same counter,
/// and the other way round.
pub proof fn lemma_round_inverse(key: Seq<u8>, b: Seq<u16>, counter: u16)
    requires
        b.len() == 4,
    ensures
        inv_round_spec(key, round_spec(key, b, counter), counter) == b,
        round_spec(key, inv_round_spec(key, b, counter), counter) == b,
{
    lemma_rule_a_inverse(key, b, counter);
    lemma_rule_b_inverse(key, b, counter);
}

proof fn lemma_decrypt_encrypt_rounds(key: Seq<u8>, b: Seq<u16>, n: nat)
    requires
        b.len() == 4,
        n <= 32,
    ensures
        decrypt_rounds(key, encrypt_rounds(key, b, n), n) == b,
    decreases n,
{
    if n > 0 {
        let prev = encrypt_rounds(key, b, (n - 1) as nat);
        assert(prev.len() == 4);
        lemma_round_inverse(key, prev, n as u16);
        lemma_decrypt_encrypt_rounds(key, b, (n - 1) as nat);
    }
}

proof fn lemma_encrypt_decrypt_rounds(key: Seq<u8>, b: Seq<u16>, n: nat)
    requires
        b.len() == 4,
        n <= 32,
    ensures
        encrypt_rounds(key, decrypt_rounds(key, b, n), n) == b,
    decreases n,
{
    if n > 0 {
        let next = inv_round_spec(key, b, n as u16);
        lemma_encrypt_decrypt_rounds(key, next, (n - 1) as nat);
        lemma_round_inverse(key, b, n as u16);
    }
}

/// For every key and every block, decryption undoes encryption and
/// encryption undoes decryption.
pub proof fn lemma_round_trip(key: Seq<u8>, b: Seq<u16>)
    requires
        b.len() == 4,
    ensures
        decrypt_spec(key, encrypt_spec(key, b)) == b,
        encrypt_spec(key, decrypt_spec(key, b)) == b,
{
    lemma_decrypt_encrypt_rounds(key, b, 32);
    lemma_encrypt_decrypt_rounds(key, b, 32);
}

/// Encryption and decryption depend on the key and the block alone: equal
/// keys and equal blocks give equal results.
pub proof fn lemma_deterministic(k1: Seq<u8>, k2: Seq<u8>, b1: Seq<u16>, b2: Seq<u16>)
    requires
        k1 == k2,
        b1 == b2,
    ensures
        encrypt_spec(k1, b1) == encrypt_spec(k2, b2),
        decrypt_spec(k1, b1) == decrypt_spec(k2, b2),
{
}

} // verus!
