//! Word/byte conversion, the keyed G permutation and its inverse, and the
//! four stepping rules that the cipher's rounds are built from.

use vstd::prelude::*;

use crate::{sbox, SBOX};

verus! {

/// High-order byte of a word.
pub open spec fn hi_byte(w: u16) -> u8 {
    (w >> 8u16) as u8
}

/// Low-order byte of a word.
pub open spec fn lo_byte(w: u16) -> u8 {
    (w & 0xffu16) as u8
}

/// The word whose high-order byte is `hi` and whose low-order byte is `lo`.
pub open spec fn word_of(hi: u8, lo: u8) -> u16 {
    ((hi as u16) << 8u16) | (lo as u16)
}

/// Splits a word into its (high, low) byte pair.
pub fn word_to_bytes(word: u16) -> (r: (u8, u8))
    ensures
        r.0 == hi_byte(word),
        r.1 == lo_byte(word),
        r.0 as int == word as int / 256,
        r.1 as int == word as int % 256,
{
    assert(((word >> 8u16) as u8) as u16 == word / 256 && ((word & 0xffu16) as u8) as u16 == word % 256) by (bit_vector);
    ((word >> 8u16) as u8, (word & 0xffu16) as u8)
}

/// Joins a (high, low) byte pair into a word.
pub fn bytes_to_word(bytes: (u8, u8)) -> (r: u16)
    ensures
        r == word_of(bytes.0, bytes.1),
        r as int == bytes.0 as int * 256 + bytes.1 as int,
{
    let (h, l) = bytes;
    assert((((h as u16) << 8u16) | (l as u16)) as int == h as int * 256 + l as int) by (bit_vector);
    ((h as u16) << 8u16) | (l as u16)
}

/// Joining the two bytes of a word gives the word back.
pub proof fn lemma_word_bytes_round_trip(w: u16)
    ensures
        word_of(hi_byte(w), lo_byte(w)) == w,
{
    assert((((((w >> 8u16) as u8) as u16) << 8u16) | (((w & 0xffu16) as u8) as u16)) == w) by (bit_vector);
}

/// Splitting a joined word gives its two bytes back.
pub proof fn lemma_bytes_word_round_trip(hi: u8, lo: u8)
    ensures
        hi_byte(word_of(hi, lo)) == hi,
        lo_byte(word_of(hi, lo)) == lo,
{
    assert(((((((hi as u16) << 8u16) | (lo as u16)) >> 8u16) as u8) == hi) && (((((hi as u16) << 8u16) | (lo as u16)) & 0xffu16) as u8 == lo)) by (bit_vector);
}

/// Key byte that round `j` (0 to 3) of G uses at the given step.
pub open spec fn key_byte(key: Seq<u8>, step: int, j: int) -> u8 {
    key[(4 * step + j) % 10]
}

/// The G permutation: a four-round Feistel cascade over the substitution
/// table, keyed by four consecutive key bytes chosen by `step`.
pub open spec fn g_spec(key: Seq<u8>, w: u16, step: int) -> u16 {
    let g1 = hi_byte(w);
    let g2 = lo_byte(w);
    let g3 = sbox(g2 ^ key_byte(key, step, 0)) ^ g1;
    let g4 = sbox(g3 ^ key_byte(key, step, 1)) ^ g2;
    let g5 = sbox(g4 ^ key_byte(key, step, 2)) ^ g3;
    let g6 = sbox(g5 ^ key_byte(key, step, 3)) ^ g4;
    word_of(g5, g6)
}

/// The inverse G permutation: the same cascade walked backwards.
pub open spec fn inv_g_spec(key: Seq<u8>, w: u16, step: int) -> u16 {
    let g5 = hi_byte(w);
    let g6 = lo_byte(w);
    let g4 = sbox(g5 ^ key_byte(key, step, 3)) ^ g6;
    let g3 = sbox(g4 ^ key_byte(key, step, 2)) ^ g5;
    let g2 = sbox(g3 ^ key_byte(key, step, 1)) ^ g4;
    let g1 = sbox(g2 ^ key_byte(key, step, 0)) ^ g3;
    word_of(g1, g2)
}

/// Applies the G permutation to `word` for the given step (0 to 31).
pub fn g_permutation(key: &[u8; 10], word: u16, step: u16) -> (r: u16)
    requires
        step < 32,
    ensures
        r == g_spec(key@, word, step as int),
{
    let (g1, g2): (u8, u8) = word_to_bytes(word);
    let g3: u8 = SBOX[(g2 ^ key[((4 * step) % 10) as usize]) as usize] ^ g1;
    let g4: u8 = SBOX[(g3 ^ key[((4 * step + 1) % 10) as usize]) as usize] ^ g2;
    let g5: u8 = SBOX[(g4 ^ key[((4 * step + 2) % 10) as usize]) as usize] ^ g3;
    let g6: u8 = SBOX[(g5 ^ key[((4 * step + 3) % 10) as usize]) as usize] ^ g4;
    bytes_to_word((g5, g6))
}

/// Applies the inverse G permutation to `word` for the given step (0 to 31).
pub fn inv_g_permutation(key: &[u8; 10], word: u16, step: u16) -> (r: u16)
    requires
        step < 32,
    ensures
        r == inv_g_spec(key@, word, step as int),
{
    let (g5, g6): (u8, u8) = word_to_bytes(word);
    let g4: u8 = SBOX[(g5 ^ key[((4 * step + 3) % 10) as usize]) as usize] ^ g6;
    let g3: u8 = SBOX[(g4 ^ key[((4 * step + 2) % 10) as usize]) as usize] ^ g5;
    let g2: u8 = SBOX[(g3 ^ key[((4 * step + 1) % 10) as usize]) as usize] ^ g4;
    let g1: u8 = SBOX[(g2 ^ key[((4 * step) % 10) as usize]) as usize] ^ g3;
    bytes_to_word((g1, g2))
}

proof fn lemma_xor_cancel(a: u8, b: u8)
    ensures
        a ^ (a ^ b) == b,
{
    assert(a ^ (a ^ b) == b) by (bit_vector);
}

/// For every key and step, inverse G undoes G and G undoes inverse G.
pub proof fn lemma_g_inverse(key: Seq<u8>, w: u16, step: int)
    ensures
        inv_g_spec(key, g_spec(key, w, step), step) == w,
        g_spec(key, inv_g_spec(key, w, step), step) == w,
{
    let g1 = hi_byte(w);
    let g2 = lo_byte(w);
    let g3 = sbox(g2 ^ key_byte(key, step, 0)) ^ g1;
    let g4 = sbox(g3 ^ key_byte(key, step, 1)) ^ g2;
    let g5 = sbox(g4 ^ key_byte(key, step, 2)) ^ g3;
    let g6 = sbox(g5 ^ key_byte(key, step, 3)) ^ g4;
    lemma_bytes_word_round_trip(g5, g6);
    lemma_xor_cancel(sbox(g5 ^ key_byte(key, step, 3)), g4);
    lemma_xor_cancel(sbox(g4 ^ key_byte(key, step, 2)), g3);
    lemma_xor_cancel(sbox(g3 ^ key_byte(key, step, 1)), g2);
    lemma_xor_cancel(sbox(g2 ^ key_byte(key, step, 0)), g1);
    lemma_word_bytes_round_trip(w);

    let h5 = hi_byte(w);
    let h6 = lo_byte(w);
    let h4 = sbox(h5 ^ key_byte(key, step, 3)) ^ h6;
    let h3 = sbox(h4 ^ key_byte(key, step, 2)) ^ h5;
    let h2 = sbox(h3 ^ key_byte(key, step, 1)) ^ h4;
    let h1 = sbox(h2 ^ key_byte(key, step, 0)) ^ h3;
    lemma_bytes_word_round_trip(h1, h2);
    lemma_xor_cancel(sbox(h2 ^ key_byte(key, step, 0)), h3);
    lemma_xor_cancel(sbox(h3 ^ key_byte(key, step, 1)), h4);
    lemma_xor_cancel(sbox(h4 ^ key_byte(key, step, 2)), h5);
    lemma_xor_cancel(sbox(h5 ^ key_byte(key, step, 3)), h6);
}

/// Rule A: `[G(w0) ^ w3 ^ counter, G(w0), w1, w2]`, with G at step `counter - 1`.
pub open spec fn rule_a_spec(key: Seq<u8>, b: Seq<u16>, counter: u16) -> Seq<u16> {
    let g = g_spec(key, b[0], counter - 1);
    seq![g ^ b[3] ^ counter, g, b[1], b[2]]
}

/// Inverse rule A: `[invG(w1), w2, w3, w0 ^ w1 ^ counter]`.
pub open spec fn inv_rule_a_spec(key: Seq<u8>, b: Seq<u16>, counter: u16) -> Seq<u16> {
    seq![inv_g_spec(key, b[1], counter - 1), b[2], b[3], b[0] ^ b[1] ^ counter]
}

/// Rule B: `[w3, G(w0), w0 ^ w1 ^ counter, w2]`.
pub open spec fn rule_b_spec(key: Seq<u8>, b: Seq<u16>, counter: u16) -> Seq<u16> {
    seq![b[3], g_spec(key, b[0], counter - 1), b[0] ^ b[1] ^ counter, b[2]]
}

/// Inverse rule B: `[invG(w1), invG(w1) ^ w2 ^ counter, w3, w0]`.
pub open spec fn inv_rule_b_spec(key: Seq<u8>, b: Seq<u16>, counter: u16) -> Seq<u16> {
    let x = inv_g_spec(key, b[1], counter - 1);
    seq![x, x ^ b[2] ^ counter, b[3], b[0]]
}

/// Steps the block by rule A for round `counter` (1 to 32).
pub fn rule_a(key: &[u8; 10], words: &mut [u16; 4], counter: u16)
    requires
        1 <= counter <= 32,
    ensures
        final(words)@ == rule_a_spec(key@, old(words)@, counter),
{
    let orig_words: [u16; 4] = *words;
    let g: u16 = g_permutation(key, orig_words[0], counter - 1);
    words[0] = g ^ orig_words[3] ^ counter;
    words[1] = g;
    words[2] = orig_words[1];
    words[3] = orig_words[2];
    assert(words@ =~= rule_a_spec(key@, orig_words@, counter));
}

/// Steps the block back by inverse rule A for round `counter` (1 to 32).
pub fn inv_rule_a(key: &[u8; 10], words: &mut [u16; 4], counter: u16)
    requires
        1 <= counter <= 32,
    ensures
        final(words)@ == inv_rule_a_spec(key@, old(words)@, counter),
{
    let orig_words: [u16; 4] = *words;
    words[0] = inv_g_permutation(key, orig_words[1], counter - 1);
    words[1] = orig_words[2];
    words[2] = orig_words[3];
    words[3] = orig_words[0] ^ orig_words[1] ^ counter;
    assert(words@ =~= inv_rule_a_spec(key@, orig_words@, counter));
}

/// Steps the block by rule B for round `counter` (1 to 32).
pub fn rule_b(key: &[u8; 10], words: &mut [u16; 4], counter: u16)
    requires
        1 <= counter <= 32,
    ensures
        final(words)@ == rule_b_spec(key@, old(words)@, counter),
{
    let orig_words: [u16; 4] = *words;
    words[0] = orig_words[3];
    words[1] = g_permutation(key, orig_words[0], counter - 1);
    words[2] = orig_words[0] ^ orig_words[1] ^ counter;
    words[3] = orig_words[2];
    assert(words@ =~= rule_b_spec(key@, orig_words@, counter));
}

/// Steps the block back by inverse rule B for round `counter` (1 to 32).
pub fn inv_rule_b(key: &[u8; 10], words: &mut [u16; 4], counter: u16)
    requires
        1 <= counter <= 32,
    ensures
        final(words)@ == inv_rule_b_spec(key@, old(words)@, counter),
{
    let orig_words: [u16; 4] = *words;
    let x: u16 = inv_g_permutation(key, orig_words[1], counter - 1);
    words[0] = x;
    words[1] = x ^ orig_words[2] ^ counter;
    words[2] = orig_words[3];
    words[3] = orig_words[0];
    assert(words@ =~= inv_rule_b_spec(key@, orig_words@, counter));
}

proof fn lemma_xor_unmask(x: u16, y: u16, c: u16)
    ensures
        x ^ y ^ c ^ x ^ c == y,
        x ^ (x ^ y ^ c) ^ c == y,
        x ^ (y ^ x ^ c) ^ c == y,
{
    assert(x ^ y ^ c ^ x ^ c == y) by (bit_vector);
    assert(x ^ (x ^ y ^ c) ^ c == y) by (bit_vector);
    assert(x ^ (y ^ x ^ c) ^ c == y) by (bit_vector);
}

/// Inverse rule A undoes rule A, and rule A undoes inverse rule A.
pub proof fn lemma_rule_a_inverse(key: Seq<u8>, b: Seq<u16>, counter: u16)
    requires
        b.len() == 4,
    ensures
        inv_rule_a_spec(key, rule_a_spec(key, b, counter), counter) == b,
        rule_a_spec(key, inv_rule_a_spec(key, b, counter), counter) == b,
{
    let step = counter - 1;
    lemma_g_inverse(key, b[0], step);
    lemma_g_inverse(key, b[1], step);
    lemma_xor_unmask(g_spec(key, b[0], step), b[3], counter);
    lemma_xor_unmask(b[1], b[0], counter);
    assert(inv_rule_a_spec(key, rule_a_spec(key, b, counter), counter) =~= b);
    assert(rule_a_spec(key, inv_rule_a_spec(key, b, counter), counter) =~= b);
}

/// Inverse rule B undoes rule B, and rule B undoes inverse rule B.
pub proof fn lemma_rule_b_inverse(key: Seq<u8>, b: Seq<u16>, counter: u16)
    requires
        b.len() == 4,
    ensures
        inv_rule_b_spec(key, rule_b_spec(key, b, counter), counter) == b,
        rule_b_spec(key, inv_rule_b_spec(key, b, counter), counter) == b,
{
    let step = counter - 1;
    lemma_g_inverse(key, b[0], step);
    lemma_g_inverse(key, b[1], step);
    lemma_xor_unmask(b[0], b[1], counter);
    lemma_xor_unmask(inv_g_spec(key, b[1], step), b[2], counter);
    assert(inv_rule_b_spec(key, rule_b_spec(key, b, counter), counter) =~= b);
    assert(rule_b_spec(key, inv_rule_b_spec(key, b, counter), counter) =~= b);
}

} // verus!
