//! The mathematical model of AES-128: states as 4 columns of 4 bytes, the round
//! operations on them, the cipher, its inverse and the key schedule.
use vstd::prelude::*;
use crate::gf::{
    gf_mul, inv_sbox, lemma_gf_mul_closed, lemma_gf_mul_linear, lemma_inv_sbox_sbox,
    lemma_sbox_inv_sbox, mul_closed, sbox,
};
use crate::hexfmt::{cell_byte, decodes, hex2, is_hex2, lemma_hex2, lemma_is_hex2, prefix_cut_ok};

verus! {

/// A state: four columns of four bytes.
pub open spec fn is_state(s: Seq<Seq<u8>>) -> bool {
    s.len() == 4 && forall|i: int| 0 <= i < 4 ==> #[trigger] s[i].len() == 4
}

/// The coefficients of MixColumns, one row per output byte.
pub open spec fn mix_matrix() -> Seq<Seq<u8>> {
    seq![seq![2u8, 3, 1, 1], seq![1u8, 2, 3, 1], seq![1u8, 1, 2, 3], seq![3u8, 1, 1, 2]]
}

/// The coefficients of InvMixColumns.
pub open spec fn inv_mix_matrix() -> Seq<Seq<u8>> {
    seq![seq![14u8, 11, 13, 9], seq![9u8, 14, 11, 13], seq![13u8, 9, 14, 11], seq![11u8, 13, 9, 14]]
}

/// A row of coefficients times a column, in GF(2^8).
pub open spec fn row_times_column(row: Seq<u8>, c: Seq<u8>) -> u8 {
    (gf_mul(row[0], c[0]) ^ gf_mul(row[1], c[1])) ^ (gf_mul(row[2], c[2]) ^ gf_mul(row[3], c[3]))
}

/// A 4x4 matrix of coefficients times a column.
pub open spec fn matrix_times_column(m: Seq<Seq<u8>>, c: Seq<u8>) -> Seq<u8> {
    Seq::new(4, |j: int| row_times_column(m[j], c))
}

/// MixColumns.
pub open spec fn mix_state(s: Seq<Seq<u8>>) -> Seq<Seq<u8>> {
    Seq::new(4, |i: int| matrix_times_column(mix_matrix(), s[i]))
}

/// InvMixColumns.
pub open spec fn inv_mix_state(s: Seq<Seq<u8>>) -> Seq<Seq<u8>> {
    Seq::new(4, |i: int| matrix_times_column(inv_mix_matrix(), s[i]))
}

/// SubBytes.
pub open spec fn sub_state(s: Seq<Seq<u8>>) -> Seq<Seq<u8>> {
    Seq::new(4, |i: int| Seq::new(4, |j: int| sbox(s[i][j])))
}

/// InvSubBytes.
pub open spec fn inv_sub_state(s: Seq<Seq<u8>>) -> Seq<Seq<u8>> {
    Seq::new(4, |i: int| Seq::new(4, |j: int| inv_sbox(s[i][j])))
}

/// ShiftRows: row `j` moves `j` places to the left.
pub open spec fn shift_state(s: Seq<Seq<u8>>) -> Seq<Seq<u8>> {
    Seq::new(4, |i: int| Seq::new(4, |j: int| s[(i + j) % 4][j]))
}

/// InvShiftRows: row `j` moves `j` places to the right.
pub open spec fn inv_shift_state(s: Seq<Seq<u8>>) -> Seq<Seq<u8>> {
    Seq::new(4, |i: int| Seq::new(4, |j: int| s[(i - j + 4) % 4][j]))
}

/// AddRoundKey: byte-wise exclusive or of two states.
pub open spec fn xor_state(a: Seq<Seq<u8>>, b: Seq<Seq<u8>>) -> Seq<Seq<u8>> {
    Seq::new(4, |i: int| Seq::new(4, |j: int| a[i][j] ^ b[i][j]))
}

/// Exclusive or of sixteen bytes, summed by rows or by columns.
proof fn lemma_xor_transpose(
    t00: u8, t01: u8, t02: u8, t03: u8,
    t10: u8, t11: u8, t12: u8, t13: u8,
    t20: u8, t21: u8, t22: u8, t23: u8,
    t30: u8, t31: u8, t32: u8, t33: u8,
)
    by (bit_vector)
    ensures
        (((t00 ^ t01) ^ (t02 ^ t03)) ^ ((t10 ^ t11) ^ (t12 ^ t13))) ^ (((t20 ^ t21) ^ (t22 ^ t23)) ^ ((
        t30 ^ t31) ^ (t32 ^ t33))) == (((t00 ^ t10) ^ (t20 ^ t30)) ^ ((t01 ^ t11) ^ (t21 ^ t31))) ^ (((
        t02 ^ t12) ^ (t22 ^ t32)) ^ ((t03 ^ t13) ^ (t23 ^ t33))),
{
}


/// Output byte 0 of InvMixColumns after MixColumns is input byte 0.
proof fn lemma_inv_mix_row_0(a: u8, b: u8, d: u8, e: u8)
    ensures
        row_times_column(inv_mix_matrix()[0], matrix_times_column(mix_matrix(), seq![a, b, d, e])) == a,
{
    let c = seq![a, b, d, e];
    let y = matrix_times_column(mix_matrix(), c);
    assert(y[0] == (gf_mul(2, a) ^ gf_mul(3, b)) ^ (gf_mul(1, d) ^ gf_mul(1, e)));
    lemma_gf_mul_linear(14, gf_mul(2, a) ^ gf_mul(3, b), gf_mul(1, d) ^ gf_mul(1, e));
    lemma_gf_mul_linear(14, gf_mul(2, a), gf_mul(3, b));
    lemma_gf_mul_linear(14, gf_mul(1, d), gf_mul(1, e));
    assert(y[1] == (gf_mul(1, a) ^ gf_mul(2, b)) ^ (gf_mul(3, d) ^ gf_mul(1, e)));
    lemma_gf_mul_linear(11, gf_mul(1, a) ^ gf_mul(2, b), gf_mul(3, d) ^ gf_mul(1, e));
    lemma_gf_mul_linear(11, gf_mul(1, a), gf_mul(2, b));
    lemma_gf_mul_linear(11, gf_mul(3, d), gf_mul(1, e));
    assert(y[2] == (gf_mul(1, a) ^ gf_mul(1, b)) ^ (gf_mul(2, d) ^ gf_mul(3, e)));
    lemma_gf_mul_linear(13, gf_mul(1, a) ^ gf_mul(1, b), gf_mul(2, d) ^ gf_mul(3, e));
    lemma_gf_mul_linear(13, gf_mul(1, a), gf_mul(1, b));
    lemma_gf_mul_linear(13, gf_mul(2, d), gf_mul(3, e));
    assert(y[3] == (gf_mul(3, a) ^ gf_mul(1, b)) ^ (gf_mul(1, d) ^ gf_mul(2, e)));
    lemma_gf_mul_linear(9, gf_mul(3, a) ^ gf_mul(1, b), gf_mul(1, d) ^ gf_mul(2, e));
    lemma_gf_mul_linear(9, gf_mul(3, a), gf_mul(1, b));
    lemma_gf_mul_linear(9, gf_mul(1, d), gf_mul(2, e));
    lemma_xor_transpose(gf_mul(14, gf_mul(2, a)), gf_mul(14, gf_mul(3, b)), gf_mul(14, gf_mul(1, d)), gf_mul(14, gf_mul(1, e)), gf_mul(11, gf_mul(1, a)), gf_mul(11, gf_mul(2, b)), gf_mul(11, gf_mul(3, d)), gf_mul(11, gf_mul(1, e)), gf_mul(13, gf_mul(1, a)), gf_mul(13, gf_mul(1, b)), gf_mul(13, gf_mul(2, d)), gf_mul(13, gf_mul(3, e)), gf_mul(9, gf_mul(3, a)), gf_mul(9, gf_mul(1, b)), gf_mul(9, gf_mul(1, d)), gf_mul(9, gf_mul(2, e)));
    lemma_gf_mul_closed(2, a);
    lemma_gf_mul_closed(2, a);
    lemma_gf_mul_closed(14, gf_mul(2, a));
    lemma_gf_mul_closed(1, a);
    lemma_gf_mul_closed(11, gf_mul(1, a));
    lemma_gf_mul_closed(1, a);
    lemma_gf_mul_closed(13, gf_mul(1, a));
    lemma_gf_mul_closed(3, a);
    lemma_gf_mul_closed(9, gf_mul(3, a));
    assert(((mul_closed(14, mul_closed(2, a)) ^ mul_closed(11, mul_closed(1, a))) ^ (
    mul_closed(13, mul_closed(1, a)) ^ mul_closed(9, mul_closed(3, a)))) == a) by (bit_vector);
    lemma_gf_mul_closed(3, b);
    lemma_gf_mul_closed(3, b);
    lemma_gf_mul_closed(14, gf_mul(3, b));
    lemma_gf_mul_closed(2, b);
    lemma_gf_mul_closed(11, gf_mul(2, b));
    lemma_gf_mul_closed(1, b);
    lemma_gf_mul_closed(13, gf_mul(1, b));
    lemma_gf_mul_closed(1, b);
    lemma_gf_mul_closed(9, gf_mul(1, b));
    assert(((mul_closed(14, mul_closed(3, b)) ^ mul_closed(11, mul_closed(2, b))) ^ (
    mul_closed(13, mul_closed(1, b)) ^ mul_closed(9, mul_closed(1, b)))) == 0u8) by (bit_vector);
    lemma_gf_mul_closed(1, d);
    lemma_gf_mul_closed(1, d);
    lemma_gf_mul_closed(14, gf_mul(1, d));
    lemma_gf_mul_closed(3, d);
    lemma_gf_mul_closed(11, gf_mul(3, d));
    lemma_gf_mul_closed(2, d);
    lemma_gf_mul_closed(13, gf_mul(2, d));
    lemma_gf_mul_closed(1, d);
    lemma_gf_mul_closed(9, gf_mul(1, d));
    assert(((mul_closed(14, mul_closed(1, d)) ^ mul_closed(11, mul_closed(3, d))) ^ (
    mul_closed(13, mul_closed(2, d)) ^ mul_closed(9, mul_closed(1, d)))) == 0u8) by (bit_vector);
    lemma_gf_mul_closed(1, e);
    lemma_gf_mul_closed(1, e);
    lemma_gf_mul_closed(14, gf_mul(1, e));
    lemma_gf_mul_closed(1, e);
    lemma_gf_mul_closed(11, gf_mul(1, e));
    lemma_gf_mul_closed(3, e);
    lemma_gf_mul_closed(13, gf_mul(3, e));
    lemma_gf_mul_closed(2, e);
    lemma_gf_mul_closed(9, gf_mul(2, e));
    assert(((mul_closed(14, mul_closed(1, e)) ^ mul_closed(11, mul_closed(1, e))) ^ (
    mul_closed(13, mul_closed(3, e)) ^ mul_closed(9, mul_closed(2, e)))) == 0u8) by (bit_vector);
    assert(((a ^ 0u8) ^ (0u8 ^ 0u8)) == a) by (bit_vector);
}

/// Output byte 1 of InvMixColumns after MixColumns is input byte 1.
proof fn lemma_inv_mix_row_1(a: u8, b: u8, d: u8, e: u8)
    ensures
        row_times_column(inv_mix_matrix()[1], matrix_times_column(mix_matrix(), seq![a, b, d, e])) == b,
{
    let c = seq![a, b, d, e];
    let y = matrix_times_column(mix_matrix(), c);
    assert(y[0] == (gf_mul(2, a) ^ gf_mul(3, b)) ^ (gf_mul(1, d) ^ gf_mul(1, e)));
    lemma_gf_mul_linear(9, gf_mul(2, a) ^ gf_mul(3, b), gf_mul(1, d) ^ gf_mul(1, e));
    lemma_gf_mul_linear(9, gf_mul(2, a), gf_mul(3, b));
    lemma_gf_mul_linear(9, gf_mul(1, d), gf_mul(1, e));
    assert(y[1] == (gf_mul(1, a) ^ gf_mul(2, b)) ^ (gf_mul(3, d) ^ gf_mul(1, e)));
    lemma_gf_mul_linear(14, gf_mul(1, a) ^ gf_mul(2, b), gf_mul(3, d) ^ gf_mul(1, e));
    lemma_gf_mul_linear(14, gf_mul(1, a), gf_mul(2, b));
    lemma_gf_mul_linear(14, gf_mul(3, d), gf_mul(1, e));
    assert(y[2] == (gf_mul(1, a) ^ gf_mul(1, b)) ^ (gf_mul(2, d) ^ gf_mul(3, e)));
    lemma_gf_mul_linear(11, gf_mul(1, a) ^ gf_mul(1, b), gf_mul(2, d) ^ gf_mul(3, e));
    lemma_gf_mul_linear(11, gf_mul(1, a), gf_mul(1, b));
    lemma_gf_mul_linear(11, gf_mul(2, d), gf_mul(3, e));
    assert(y[3] == (gf_mul(3, a) ^ gf_mul(1, b)) ^ (gf_mul(1, d) ^ gf_mul(2, e)));
    lemma_gf_mul_linear(13, gf_mul(3, a) ^ gf_mul(1, b), gf_mul(1, d) ^ gf_mul(2, e));
    lemma_gf_mul_linear(13, gf_mul(3, a), gf_mul(1, b));
    lemma_gf_mul_linear(13, gf_mul(1, d), gf_mul(2, e));
    lemma_xor_transpose(gf_mul(9, gf_mul(2, a)), gf_mul(9, gf_mul(3, b)), gf_mul(9, gf_mul(1, d)), gf_mul(9, gf_mul(1, e)), gf_mul(14, gf_mul(1, a)), gf_mul(14, gf_mul(2, b)), gf_mul(14, gf_mul(3, d)), gf_mul(14, gf_mul(1, e)), gf_mul(11, gf_mul(1, a)), gf_mul(11, gf_mul(1, b)), gf_mul(11, gf_mul(2, d)), gf_mul(11, gf_mul(3, e)), gf_mul(13, gf_mul(3, a)), gf_mul(13, gf_mul(1, b)), gf_mul(13, gf_mul(1, d)), gf_mul(13, gf_mul(2, e)));
    lemma_gf_mul_closed(2, a);
    lemma_gf_mul_closed(2, a);
    lemma_gf_mul_closed(9, gf_mul(2, a));
    lemma_gf_mul_closed(1, a);
    lemma_gf_mul_closed(14, gf_mul(1, a));
    lemma_gf_mul_closed(1, a);
    lemma_gf_mul_closed(11, gf_mul(1, a));
    lemma_gf_mul_closed(3, a);
    lemma_gf_mul_closed(13, gf_mul(3, a));
    assert(((mul_closed(9, mul_closed(2, a)) ^ mul_closed(14, mul_closed(1, a))) ^ (
    mul_closed(11, mul_closed(1, a)) ^ mul_closed(13, mul_closed(3, a)))) == 0u8) by (bit_vector);
    lemma_gf_mul_closed(3, b);
    lemma_gf_mul_closed(3, b);
    lemma_gf_mul_closed(9, gf_mul(3, b));
    lemma_gf_mul_closed(2, b);
    lemma_gf_mul_closed(14, gf_mul(2, b));
    lemma_gf_mul_closed(1, b);
    lemma_gf_mul_closed(11, gf_mul(1, b));
    lemma_gf_mul_closed(1, b);
    lemma_gf_mul_closed(13, gf_mul(1, b));
    assert(((mul_closed(9, mul_closed(3, b)) ^ mul_closed(14, mul_closed(2, b))) ^ (
    mul_closed(11, mul_closed(1, b)) ^ mul_closed(13, mul_closed(1, b)))) == b) by (bit_vector);
    lemma_gf_mul_closed(1, d);
    lemma_gf_mul_closed(1, d);
    lemma_gf_mul_closed(9, gf_mul(1, d));
    lemma_gf_mul_closed(3, d);
    lemma_gf_mul_closed(14, gf_mul(3, d));
    lemma_gf_mul_closed(2, d);
    lemma_gf_mul_closed(11, gf_mul(2, d));
    lemma_gf_mul_closed(1, d);
    lemma_gf_mul_closed(13, gf_mul(1, d));
    assert(((mul_closed(9, mul_closed(1, d)) ^ mul_closed(14, mul_closed(3, d))) ^ (
    mul_closed(11, mul_closed(2, d)) ^ mul_closed(13, mul_closed(1, d)))) == 0u8) by (bit_vector);
    lemma_gf_mul_closed(1, e);
    lemma_gf_mul_closed(1, e);
    lemma_gf_mul_closed(9, gf_mul(1, e));
    lemma_gf_mul_closed(1, e);
    lemma_gf_mul_closed(14, gf_mul(1, e));
    lemma_gf_mul_closed(3, e);
    lemma_gf_mul_closed(11, gf_mul(3, e));
    lemma_gf_mul_closed(2, e);
    lemma_gf_mul_closed(13, gf_mul(2, e));
    assert(((mul_closed(9, mul_closed(1, e)) ^ mul_closed(14, mul_closed(1, e))) ^ (
    mul_closed(11, mul_closed(3, e)) ^ mul_closed(13, mul_closed(2, e)))) == 0u8) by (bit_vector);
    assert(((0u8 ^ b) ^ (0u8 ^ 0u8)) == b) by (bit_vector);
}

/// Output byte 2 of InvMixColumns after MixColumns is input byte 2.
proof fn lemma_inv_mix_row_2(a: u8, b: u8, d: u8, e: u8)
    ensures
        row_times_column(inv_mix_matrix()[2], matrix_times_column(mix_matrix(), seq![a, b, d, e])) == d,
{
    let c = seq![a, b, d, e];
    let y = matrix_times_column(mix_matrix(), c);
    assert(y[0] == (gf_mul(2, a) ^ gf_mul(3, b)) ^ (gf_mul(1, d) ^ gf_mul(1, e)));
    lemma_gf_mul_linear(13, gf_mul(2, a) ^ gf_mul(3, b), gf_mul(1, d) ^ gf_mul(1, e));
    lemma_gf_mul_linear(13, gf_mul(2, a), gf_mul(3, b));
    lemma_gf_mul_linear(13, gf_mul(1, d), gf_mul(1, e));
    assert(y[1] == (gf_mul(1, a) ^ gf_mul(2, b)) ^ (gf_mul(3, d) ^ gf_mul(1, e)));
    lemma_gf_mul_linear(9, gf_mul(1, a) ^ gf_mul(2, b), gf_mul(3, d) ^ gf_mul(1, e));
    lemma_gf_mul_linear(9, gf_mul(1, a), gf_mul(2, b));
    lemma_gf_mul_linear(9, gf_mul(3, d), gf_mul(1, e));
    assert(y[2] == (gf_mul(1, a) ^ gf_mul(1, b)) ^ (gf_mul(2, d) ^ gf_mul(3, e)));
    lemma_gf_mul_linear(14, gf_mul(1, a) ^ gf_mul(1, b), gf_mul(2, d) ^ gf_mul(3, e));
    lemma_gf_mul_linear(14, gf_mul(1, a), gf_mul(1, b));
    lemma_gf_mul_linear(14, gf_mul(2, d), gf_mul(3, e));
    assert(y[3] == (gf_mul(3, a) ^ gf_mul(1, b)) ^ (gf_mul(1, d) ^ gf_mul(2, e)));
    lemma_gf_mul_linear(11, gf_mul(3, a) ^ gf_mul(1, b), gf_mul(1, d) ^ gf_mul(2, e));
    lemma_gf_mul_linear(11, gf_mul(3, a), gf_mul(1, b));
    lemma_gf_mul_linear(11, gf_mul(1, d), gf_mul(2, e));
    lemma_xor_transpose(gf_mul(13, gf_mul(2, a)), gf_mul(13, gf_mul(3, b)), gf_mul(13, gf_mul(1, d)), gf_mul(13, gf_mul(1, e)), gf_mul(9, gf_mul(1, a)), gf_mul(9, gf_mul(2, b)), gf_mul(9, gf_mul(3, d)), gf_mul(9, gf_mul(1, e)), gf_mul(14, gf_mul(1, a)), gf_mul(14, gf_mul(1, b)), gf_mul(14, gf_mul(2, d)), gf_mul(14, gf_mul(3, e)), gf_mul(11, gf_mul(3, a)), gf_mul(11, gf_mul(1, b)), gf_mul(11, gf_mul(1, d)), gf_mul(11, gf_mul(2, e)));
    lemma_gf_mul_closed(2, a);
    lemma_gf_mul_closed(2, a);
    lemma_gf_mul_closed(13, gf_mul(2, a));
    lemma_gf_mul_closed(1, a);
    lemma_gf_mul_closed(9, gf_mul(1, a));
    lemma_gf_mul_closed(1, a);
    lemma_gf_mul_closed(14, gf_mul(1, a));
    lemma_gf_mul_closed(3, a);
    lemma_gf_mul_closed(11, gf_mul(3, a));
    assert(((mul_closed(13, mul_closed(2, a)) ^ mul_closed(9, mul_closed(1, a))) ^ (
    mul_closed(14, mul_closed(1, a)) ^ mul_closed(11, mul_closed(3, a)))) == 0u8) by (bit_vector);
    lemma_gf_mul_closed(3, b);
    lemma_gf_mul_closed(3, b);
    lemma_gf_mul_closed(13, gf_mul(3, b));
    lemma_gf_mul_closed(2, b);
    lemma_gf_mul_closed(9, gf_mul(2, b));
    lemma_gf_mul_closed(1, b);
    lemma_gf_mul_closed(14, gf_mul(1, b));
    lemma_gf_mul_closed(1, b);
    lemma_gf_mul_closed(11, gf_mul(1, b));
    assert(((mul_closed(13, mul_closed(3, b)) ^ mul_closed(9, mul_closed(2, b))) ^ (
    mul_closed(14, mul_closed(1, b)) ^ mul_closed(11, mul_closed(1, b)))) == 0u8) by (bit_vector);
    lemma_gf_mul_closed(1, d);
    lemma_gf_mul_closed(1, d);
    lemma_gf_mul_closed(13, gf_mul(1, d));
    lemma_gf_mul_closed(3, d);
    lemma_gf_mul_closed(9, gf_mul(3, d));
    lemma_gf_mul_closed(2, d);
    lemma_gf_mul_closed(14, gf_mul(2, d));
    lemma_gf_mul_closed(1, d);
    lemma_gf_mul_closed(11, gf_mul(1, d));
    assert(((mul_closed(13, mul_closed(1, d)) ^ mul_closed(9, mul_closed(3, d))) ^ (
    mul_closed(14, mul_closed(2, d)) ^ mul_closed(11, mul_closed(1, d)))) == d) by (bit_vector);
    lemma_gf_mul_closed(1, e);
    lemma_gf_mul_closed(1, e);
    lemma_gf_mul_closed(13, gf_mul(1, e));
    lemma_gf_mul_closed(1, e);
    lemma_gf_mul_closed(9, gf_mul(1, e));
    lemma_gf_mul_closed(3, e);
    lemma_gf_mul_closed(14, gf_mul(3, e));
    lemma_gf_mul_closed(2, e);
    lemma_gf_mul_closed(11, gf_mul(2, e));
    assert(((mul_closed(13, mul_closed(1, e)) ^ mul_closed(9, mul_closed(1, e))) ^ (
    mul_closed(14, mul_closed(3, e)) ^ mul_closed(11, mul_closed(2, e)))) == 0u8) by (bit_vector);
    assert(((0u8 ^ 0u8) ^ (d ^ 0u8)) == d) by (bit_vector);
}

/// Output byte 3 of InvMixColumns after MixColumns is input byte 3.
proof fn lemma_inv_mix_row_3(a: u8, b: u8, d: u8, e: u8)
    ensures
        row_times_column(inv_mix_matrix()[3], matrix_times_column(mix_matrix(), seq![a, b, d, e])) == e,
{
    let c = seq![a, b, d, e];
    let y = matrix_times_column(mix_matrix(), c);
    assert(y[0] == (gf_mul(2, a) ^ gf_mul(3, b)) ^ (gf_mul(1, d) ^ gf_mul(1, e)));
    lemma_gf_mul_linear(11, gf_mul(2, a) ^ gf_mul(3, b), gf_mul(1, d) ^ gf_mul(1, e));
    lemma_gf_mul_linear(11, gf_mul(2, a), gf_mul(3, b));
    lemma_gf_mul_linear(11, gf_mul(1, d), gf_mul(1, e));
    assert(y[1] == (gf_mul(1, a) ^ gf_mul(2, b)) ^ (gf_mul(3, d) ^ gf_mul(1, e)));
    lemma_gf_mul_linear(13, gf_mul(1, a) ^ gf_mul(2, b), gf_mul(3, d) ^ gf_mul(1, e));
    lemma_gf_mul_linear(13, gf_mul(1, a), gf_mul(2, b));
    lemma_gf_mul_linear(13, gf_mul(3, d), gf_mul(1, e));
    assert(y[2] == (gf_mul(1, a) ^ gf_mul(1, b)) ^ (gf_mul(2, d) ^ gf_mul(3, e)));
    lemma_gf_mul_linear(9, gf_mul(1, a) ^ gf_mul(1, b), gf_mul(2, d) ^ gf_mul(3, e));
    lemma_gf_mul_linear(9, gf_mul(1, a), gf_mul(1, b));
    lemma_gf_mul_linear(9, gf_mul(2, d), gf_mul(3, e));
    assert(y[3] == (gf_mul(3, a) ^ gf_mul(1, b)) ^ (gf_mul(1, d) ^ gf_mul(2, e)));
    lemma_gf_mul_linear(14, gf_mul(3, a) ^ gf_mul(1, b), gf_mul(1, d) ^ gf_mul(2, e));
    lemma_gf_mul_linear(14, gf_mul(3, a), gf_mul(1, b));
    lemma_gf_mul_linear(14, gf_mul(1, d), gf_mul(2, e));
    lemma_xor_transpose(gf_mul(11, gf_mul(2, a)), gf_mul(11, gf_mul(3, b)), gf_mul(11, gf_mul(1, d)), gf_mul(11, gf_mul(1, e)), gf_mul(13, gf_mul(1, a)), gf_mul(13, gf_mul(2, b)), gf_mul(13, gf_mul(3, d)), gf_mul(13, gf_mul(1, e)), gf_mul(9, gf_mul(1, a)), gf_mul(9, gf_mul(1, b)), gf_mul(9, gf_mul(2, d)), gf_mul(9, gf_mul(3, e)), gf_mul(14, gf_mul(3, a)), gf_mul(14, gf_mul(1, b)), gf_mul(14, gf_mul(1, d)), gf_mul(14, gf_mul(2, e)));
    lemma_gf_mul_closed(2, a);
    lemma_gf_mul_closed(2, a);
    lemma_gf_mul_closed(11, gf_mul(2, a));
    lemma_gf_mul_closed(1, a);
    lemma_gf_mul_closed(13, gf_mul(1, a));
    lemma_gf_mul_closed(1, a);
    lemma_gf_mul_closed(9, gf_mul(1, a));
    lemma_gf_mul_closed(3, a);
    lemma_gf_mul_closed(14, gf_mul(3, a));
    assert(((mul_closed(11, mul_closed(2, a)) ^ mul_closed(13, mul_closed(1, a))) ^ (
    mul_closed(9, mul_closed(1, a)) ^ mul_closed(14, mul_closed(3, a)))) == 0u8) by (bit_vector);
    lemma_gf_mul_closed(3, b);
    lemma_gf_mul_closed(3, b);
    lemma_gf_mul_closed(11, gf_mul(3, b));
    lemma_gf_mul_closed(2, b);
    lemma_gf_mul_closed(13, gf_mul(2, b));
    lemma_gf_mul_closed(1, b);
    lemma_gf_mul_closed(9, gf_mul(1, b));
    lemma_gf_mul_closed(1, b);
    lemma_gf_mul_closed(14, gf_mul(1, b));
    assert(((mul_closed(11, mul_closed(3, b)) ^ mul_closed(13, mul_closed(2, b))) ^ (
    mul_closed(9, mul_closed(1, b)) ^ mul_closed(14, mul_closed(1, b)))) == 0u8) by (bit_vector);
    lemma_gf_mul_closed(1, d);
    lemma_gf_mul_closed(1, d);
    lemma_gf_mul_closed(11, gf_mul(1, d));
    lemma_gf_mul_closed(3, d);
    lemma_gf_mul_closed(13, gf_mul(3, d));
    lemma_gf_mul_closed(2, d);
    lemma_gf_mul_closed(9, gf_mul(2, d));
    lemma_gf_mul_closed(1, d);
    lemma_gf_mul_closed(14, gf_mul(1, d));
    assert(((mul_closed(11, mul_closed(1, d)) ^ mul_closed(13, mul_closed(3, d))) ^ (
    mul_closed(9, mul_closed(2, d)) ^ mul_closed(14, mul_closed(1, d)))) == 0u8) by (bit_vector);
    lemma_gf_mul_closed(1, e);
    lemma_gf_mul_closed(1, e);
    lemma_gf_mul_closed(11, gf_mul(1, e));
    lemma_gf_mul_closed(1, e);
    lemma_gf_mul_closed(13, gf_mul(1, e));
    lemma_gf_mul_closed(3, e);
    lemma_gf_mul_closed(9, gf_mul(3, e));
    lemma_gf_mul_closed(2, e);
    lemma_gf_mul_closed(14, gf_mul(2, e));
    assert(((mul_closed(11, mul_closed(1, e)) ^ mul_closed(13, mul_closed(1, e))) ^ (
    mul_closed(9, mul_closed(3, e)) ^ mul_closed(14, mul_closed(2, e)))) == e) by (bit_vector);
    assert(((0u8 ^ 0u8) ^ (0u8 ^ e)) == e) by (bit_vector);
}

/// InvMixColumns undoes MixColumns on one column.
pub proof fn lemma_inv_mix_column(c: Seq<u8>)
    requires
        c.len() == 4,
    ensures
        matrix_times_column(inv_mix_matrix(), matrix_times_column(mix_matrix(), c)) =~= c,
{
    assert(c =~= seq![c[0], c[1], c[2], c[3]]);
    lemma_inv_mix_row_0(c[0], c[1], c[2], c[3]);
    lemma_inv_mix_row_1(c[0], c[1], c[2], c[3]);
    lemma_inv_mix_row_2(c[0], c[1], c[2], c[3]);
    lemma_inv_mix_row_3(c[0], c[1], c[2], c[3]);
}

/// InvMixColumns undoes MixColumns.
pub proof fn lemma_inv_mix_state(s: Seq<Seq<u8>>)
    requires
        is_state(s),
    ensures
        inv_mix_state(mix_state(s)) =~= s,
{
    assert forall|i: int| 0 <= i < 4 implies #[trigger] inv_mix_state(mix_state(s))[i] =~= s[i] by {
        lemma_inv_mix_column(s[i]);
    }
}

/// The closed forms of the products behind MixColumns after InvMixColumns: for every
/// output byte `j` and input byte `m`, the coefficients combine to 1 when `j == m` and
/// to 0 otherwise.
proof fn lemma_mix_inv_closed(x: u8)
    by (bit_vector)
    ensures
        ((mul_closed(2, mul_closed(14, x)) ^ mul_closed(3, mul_closed(9, x))) ^ (mul_closed(1, mul_closed(13, x)) ^ mul_closed(1, mul_closed(11, x)))) == x,
        ((mul_closed(2, mul_closed(11, x)) ^ mul_closed(3, mul_closed(14, x))) ^ (mul_closed(1, mul_closed(9, x)) ^ mul_closed(1, mul_closed(13, x)))) == 0u8,
        ((mul_closed(2, mul_closed(13, x)) ^ mul_closed(3, mul_closed(11, x))) ^ (mul_closed(1, mul_closed(14, x)) ^ mul_closed(1, mul_closed(9, x)))) == 0u8,
        ((mul_closed(2, mul_closed(9, x)) ^ mul_closed(3, mul_closed(13, x))) ^ (mul_closed(1, mul_closed(11, x)) ^ mul_closed(1, mul_closed(14, x)))) == 0u8,
        ((mul_closed(1, mul_closed(14, x)) ^ mul_closed(2, mul_closed(9, x))) ^ (mul_closed(3, mul_closed(13, x)) ^ mul_closed(1, mul_closed(11, x)))) == 0u8,
        ((mul_closed(1, mul_closed(11, x)) ^ mul_closed(2, mul_closed(14, x))) ^ (mul_closed(3, mul_closed(9, x)) ^ mul_closed(1, mul_closed(13, x)))) == x,
        ((mul_closed(1, mul_closed(13, x)) ^ mul_closed(2, mul_closed(11, x))) ^ (mul_closed(3, mul_closed(14, x)) ^ mul_closed(1, mul_closed(9, x)))) == 0u8,
        ((mul_closed(1, mul_closed(9, x)) ^ mul_closed(2, mul_closed(13, x))) ^ (mul_closed(3, mul_closed(11, x)) ^ mul_closed(1, mul_closed(14, x)))) == 0u8,
        ((mul_closed(1, mul_closed(14, x)) ^ mul_closed(1, mul_closed(9, x))) ^ (mul_closed(2, mul_closed(13, x)) ^ mul_closed(3, mul_closed(11, x)))) == 0u8,
        ((mul_closed(1, mul_closed(11, x)) ^ mul_closed(1, mul_closed(14, x))) ^ (mul_closed(2, mul_closed(9, x)) ^ mul_closed(3, mul_closed(13, x)))) == 0u8,
        ((mul_closed(1, mul_closed(13, x)) ^ mul_closed(1, mul_closed(11, x))) ^ (mul_closed(2, mul_closed(14, x)) ^ mul_closed(3, mul_closed(9, x)))) == x,
        ((mul_closed(1, mul_closed(9, x)) ^ mul_closed(1, mul_closed(13, x))) ^ (mul_closed(2, mul_closed(11, x)) ^ mul_closed(3, mul_closed(14, x)))) == 0u8,
        ((mul_closed(3, mul_closed(14, x)) ^ mul_closed(1, mul_closed(9, x))) ^ (mul_closed(1, mul_closed(13, x)) ^ mul_closed(2, mul_closed(11, x)))) == 0u8,
        ((mul_closed(3, mul_closed(11, x)) ^ mul_closed(1, mul_closed(14, x))) ^ (mul_closed(1, mul_closed(9, x)) ^ mul_closed(2, mul_closed(13, x)))) == 0u8,
        ((mul_closed(3, mul_closed(13, x)) ^ mul_closed(1, mul_closed(11, x))) ^ (mul_closed(1, mul_closed(14, x)) ^ mul_closed(2, mul_closed(9, x)))) == 0u8,
        ((mul_closed(3, mul_closed(9, x)) ^ mul_closed(1, mul_closed(13, x))) ^ (mul_closed(1, mul_closed(11, x)) ^ mul_closed(2, mul_closed(14, x)))) == x,
{
}

/// Exclusive or of one byte with three zeros, in each place.
proof fn lemma_xor_select(x: u8)
    by (bit_vector)
    ensures
        ((x ^ 0u8) ^ (0u8 ^ 0u8)) == x,
        ((0u8 ^ x) ^ (0u8 ^ 0u8)) == x,
        ((0u8 ^ 0u8) ^ (x ^ 0u8)) == x,
        ((0u8 ^ 0u8) ^ (0u8 ^ x)) == x,
{
}

/// Output byte 0 of MixColumns after InvMixColumns is input byte 0.
proof fn lemma_mix_row_0(a: u8, b: u8, d: u8, e: u8)
    ensures
        row_times_column(mix_matrix()[0], matrix_times_column(inv_mix_matrix(), seq![a, b, d, e])) == a,
{
    let c = seq![a, b, d, e];
    let y = matrix_times_column(inv_mix_matrix(), c);
    assert(y[0] == (gf_mul(14, a) ^ gf_mul(11, b)) ^ (gf_mul(13, d) ^ gf_mul(9, e)));
    lemma_gf_mul_linear(2, gf_mul(14, a) ^ gf_mul(11, b), gf_mul(13, d) ^ gf_mul(9, e));
    lemma_gf_mul_linear(2, gf_mul(14, a), gf_mul(11, b));
    lemma_gf_mul_linear(2, gf_mul(13, d), gf_mul(9, e));
    assert(y[1] == (gf_mul(9, a) ^ gf_mul(14, b)) ^ (gf_mul(11, d) ^ gf_mul(13, e)));
    lemma_gf_mul_linear(3, gf_mul(9, a) ^ gf_mul(14, b), gf_mul(11, d) ^ gf_mul(13, e));
    lemma_gf_mul_linear(3, gf_mul(9, a), gf_mul(14, b));
    lemma_gf_mul_linear(3, gf_mul(11, d), gf_mul(13, e));
    assert(y[2] == (gf_mul(13, a) ^ gf_mul(9, b)) ^ (gf_mul(14, d) ^ gf_mul(11, e)));
    lemma_gf_mul_linear(1, gf_mul(13, a) ^ gf_mul(9, b), gf_mul(14, d) ^ gf_mul(11, e));
    lemma_gf_mul_linear(1, gf_mul(13, a), gf_mul(9, b));
    lemma_gf_mul_linear(1, gf_mul(14, d), gf_mul(11, e));
    assert(y[3] == (gf_mul(11, a) ^ gf_mul(13, b)) ^ (gf_mul(9, d) ^ gf_mul(14, e)));
    lemma_gf_mul_linear(1, gf_mul(11, a) ^ gf_mul(13, b), gf_mul(9, d) ^ gf_mul(14, e));
    lemma_gf_mul_linear(1, gf_mul(11, a), gf_mul(13, b));
    lemma_gf_mul_linear(1, gf_mul(9, d), gf_mul(14, e));
    lemma_xor_transpose(gf_mul(2, gf_mul(14, a)), gf_mul(2, gf_mul(11, b)), gf_mul(2, gf_mul(13, d)), gf_mul(2, gf_mul(9, e)), gf_mul(3, gf_mul(9, a)), gf_mul(3, gf_mul(14, b)), gf_mul(3, gf_mul(11, d)), gf_mul(3, gf_mul(13, e)), gf_mul(1, gf_mul(13, a)), gf_mul(1, gf_mul(9, b)), gf_mul(1, gf_mul(14, d)), gf_mul(1, gf_mul(11, e)), gf_mul(1, gf_mul(11, a)), gf_mul(1, gf_mul(13, b)), gf_mul(1, gf_mul(9, d)), gf_mul(1, gf_mul(14, e)));
    assert(((gf_mul(2, gf_mul(14, a)) ^ gf_mul(3, gf_mul(9, a))) ^ (gf_mul(1, gf_mul(13, a)) ^ gf_mul(1, gf_mul(11, a)))) == a) by {
        lemma_mix_inv_closed(a);
        lemma_gf_mul_closed(14, a);
        lemma_gf_mul_closed(2, gf_mul(14, a));
        lemma_gf_mul_closed(9, a);
        lemma_gf_mul_closed(3, gf_mul(9, a));
        lemma_gf_mul_closed(13, a);
        lemma_gf_mul_closed(1, gf_mul(13, a));
        lemma_gf_mul_closed(11, a);
        lemma_gf_mul_closed(1, gf_mul(11, a));
    }
    assert(((gf_mul(2, gf_mul(11, b)) ^ gf_mul(3, gf_mul(14, b))) ^ (gf_mul(1, gf_mul(9, b)) ^ gf_mul(1, gf_mul(13, b)))) == 0u8) by {
        lemma_mix_inv_closed(b);
        lemma_gf_mul_closed(11, b);
        lemma_gf_mul_closed(2, gf_mul(11, b));
        lemma_gf_mul_closed(14, b);
        lemma_gf_mul_closed(3, gf_mul(14, b));
        lemma_gf_mul_closed(9, b);
        lemma_gf_mul_closed(1, gf_mul(9, b));
        lemma_gf_mul_closed(13, b);
        lemma_gf_mul_closed(1, gf_mul(13, b));
    }
    assert(((gf_mul(2, gf_mul(13, d)) ^ gf_mul(3, gf_mul(11, d))) ^ (gf_mul(1, gf_mul(14, d)) ^ gf_mul(1, gf_mul(9, d)))) == 0u8) by {
        lemma_mix_inv_closed(d);
        lemma_gf_mul_closed(13, d);
        lemma_gf_mul_closed(2, gf_mul(13, d));
        lemma_gf_mul_closed(11, d);
        lemma_gf_mul_closed(3, gf_mul(11, d));
        lemma_gf_mul_closed(14, d);
        lemma_gf_mul_closed(1, gf_mul(14, d));
        lemma_gf_mul_closed(9, d);
        lemma_gf_mul_closed(1, gf_mul(9, d));
    }
    assert(((gf_mul(2, gf_mul(9, e)) ^ gf_mul(3, gf_mul(13, e))) ^ (gf_mul(1, gf_mul(11, e)) ^ gf_mul(1, gf_mul(14, e)))) == 0u8) by {
        lemma_mix_inv_closed(e);
        lemma_gf_mul_closed(9, e);
        lemma_gf_mul_closed(2, gf_mul(9, e));
        lemma_gf_mul_closed(13, e);
        lemma_gf_mul_closed(3, gf_mul(13, e));
        lemma_gf_mul_closed(11, e);
        lemma_gf_mul_closed(1, gf_mul(11, e));
        lemma_gf_mul_closed(14, e);
        lemma_gf_mul_closed(1, gf_mul(14, e));
    }
    lemma_xor_select(a);
}

/// Output byte 1 of MixColumns after InvMixColumns is input byte 1.
proof fn lemma_mix_row_1(a: u8, b: u8, d: u8, e: u8)
    ensures
        row_times_column(mix_matrix()[1], matrix_times_column(inv_mix_matrix(), seq![a, b, d, e])) == b,
{
    let c = seq![a, b, d, e];
    let y = matrix_times_column(inv_mix_matrix(), c);
    assert(y[0] == (gf_mul(14, a) ^ gf_mul(11, b)) ^ (gf_mul(13, d) ^ gf_mul(9, e)));
    lemma_gf_mul_linear(1, gf_mul(14, a) ^ gf_mul(11, b), gf_mul(13, d) ^ gf_mul(9, e));
    lemma_gf_mul_linear(1, gf_mul(14, a), gf_mul(11, b));
    lemma_gf_mul_linear(1, gf_mul(13, d), gf_mul(9, e));
    assert(y[1] == (gf_mul(9, a) ^ gf_mul(14, b)) ^ (gf_mul(11, d) ^ gf_mul(13, e)));
    lemma_gf_mul_linear(2, gf_mul(9, a) ^ gf_mul(14, b), gf_mul(11, d) ^ gf_mul(13, e));
    lemma_gf_mul_linear(2, gf_mul(9, a), gf_mul(14, b));
    lemma_gf_mul_linear(2, gf_mul(11, d), gf_mul(13, e));
    assert(y[2] == (gf_mul(13, a) ^ gf_mul(9, b)) ^ (gf_mul(14, d) ^ gf_mul(11, e)));
    lemma_gf_mul_linear(3, gf_mul(13, a) ^ gf_mul(9, b), gf_mul(14, d) ^ gf_mul(11, e));
    lemma_gf_mul_linear(3, gf_mul(13, a), gf_mul(9, b));
    lemma_gf_mul_linear(3, gf_mul(14, d), gf_mul(11, e));
    assert(y[3] == (gf_mul(11, a) ^ gf_mul(13, b)) ^ (gf_mul(9, d) ^ gf_mul(14, e)));
    lemma_gf_mul_linear(1, gf_mul(11, a) ^ gf_mul(13, b), gf_mul(9, d) ^ gf_mul(14, e));
    lemma_gf_mul_linear(1, gf_mul(11, a), gf_mul(13, b));
    lemma_gf_mul_linear(1, gf_mul(9, d), gf_mul(14, e));
    lemma_xor_transpose(gf_mul(1, gf_mul(14, a)), gf_mul(1, gf_mul(11, b)), gf_mul(1, gf_mul(13, d)), gf_mul(1, gf_mul(9, e)), gf_mul(2, gf_mul(9, a)), gf_mul(2, gf_mul(14, b)), gf_mul(2, gf_mul(11, d)), gf_mul(2, gf_mul(13, e)), gf_mul(3, gf_mul(13, a)), gf_mul(3, gf_mul(9, b)), gf_mul(3, gf_mul(14, d)), gf_mul(3, gf_mul(11, e)), gf_mul(1, gf_mul(11, a)), gf_mul(1, gf_mul(13, b)), gf_mul(1, gf_mul(9, d)), gf_mul(1, gf_mul(14, e)));
    assert(((gf_mul(1, gf_mul(14, a)) ^ gf_mul(2, gf_mul(9, a))) ^ (gf_mul(3, gf_mul(13, a)) ^ gf_mul(1, gf_mul(11, a)))) == 0u8) by {
        lemma_mix_inv_closed(a);
        lemma_gf_mul_closed(14, a);
        lemma_gf_mul_closed(1, gf_mul(14, a));
        lemma_gf_mul_closed(9, a);
        lemma_gf_mul_closed(2, gf_mul(9, a));
        lemma_gf_mul_closed(13, a);
        lemma_gf_mul_closed(3, gf_mul(13, a));
        lemma_gf_mul_closed(11, a);
        lemma_gf_mul_closed(1, gf_mul(11, a));
    }
    assert(((gf_mul(1, gf_mul(11, b)) ^ gf_mul(2, gf_mul(14, b))) ^ (gf_mul(3, gf_mul(9, b)) ^ gf_mul(1, gf_mul(13, b)))) == b) by {
        lemma_mix_inv_closed(b);
        lemma_gf_mul_closed(11, b);
        lemma_gf_mul_closed(1, gf_mul(11, b));
        lemma_gf_mul_closed(14, b);
        lemma_gf_mul_closed(2, gf_mul(14, b));
        lemma_gf_mul_closed(9, b);
        lemma_gf_mul_closed(3, gf_mul(9, b));
        lemma_gf_mul_closed(13, b);
        lemma_gf_mul_closed(1, gf_mul(13, b));
    }
    assert(((gf_mul(1, gf_mul(13, d)) ^ gf_mul(2, gf_mul(11, d))) ^ (gf_mul(3, gf_mul(14, d)) ^ gf_mul(1, gf_mul(9, d)))) == 0u8) by {
        lemma_mix_inv_closed(d);
        lemma_gf_mul_closed(13, d);
        lemma_gf_mul_closed(1, gf_mul(13, d));
        lemma_gf_mul_closed(11, d);
        lemma_gf_mul_closed(2, gf_mul(11, d));
        lemma_gf_mul_closed(14, d);
        lemma_gf_mul_closed(3, gf_mul(14, d));
        lemma_gf_mul_closed(9, d);
        lemma_gf_mul_closed(1, gf_mul(9, d));
    }
    assert(((gf_mul(1, gf_mul(9, e)) ^ gf_mul(2, gf_mul(13, e))) ^ (gf_mul(3, gf_mul(11, e)) ^ gf_mul(1, gf_mul(14, e)))) == 0u8) by {
        lemma_mix_inv_closed(e);
        lemma_gf_mul_closed(9, e);
        lemma_gf_mul_closed(1, gf_mul(9, e));
        lemma_gf_mul_closed(13, e);
        lemma_gf_mul_closed(2, gf_mul(13, e));
        lemma_gf_mul_closed(11, e);
        lemma_gf_mul_closed(3, gf_mul(11, e));
        lemma_gf_mul_closed(14, e);
        lemma_gf_mul_closed(1, gf_mul(14, e));
    }
    lemma_xor_select(b);
}

/// Output byte 2 of MixColumns after InvMixColumns is input byte 2.
proof fn lemma_mix_row_2(a: u8, b: u8, d: u8, e: u8)
    ensures
        row_times_column(mix_matrix()[2], matrix_times_column(inv_mix_matrix(), seq![a, b, d, e])) == d,
{
    let c = seq![a, b, d, e];
    let y = matrix_times_column(inv_mix_matrix(), c);
    assert(y[0] == (gf_mul(14, a) ^ gf_mul(11, b)) ^ (gf_mul(13, d) ^ gf_mul(9, e)));
    lemma_gf_mul_linear(1, gf_mul(14, a) ^ gf_mul(11, b), gf_mul(13, d) ^ gf_mul(9, e));
    lemma_gf_mul_linear(1, gf_mul(14, a), gf_mul(11, b));
    lemma_gf_mul_linear(1, gf_mul(13, d), gf_mul(9, e));
    assert(y[1] == (gf_mul(9, a) ^ gf_mul(14, b)) ^ (gf_mul(11, d) ^ gf_mul(13, e)));
    lemma_gf_mul_linear(1, gf_mul(9, a) ^ gf_mul(14, b), gf_mul(11, d) ^ gf_mul(13, e));
    lemma_gf_mul_linear(1, gf_mul(9, a), gf_mul(14, b));
    lemma_gf_mul_linear(1, gf_mul(11, d), gf_mul(13, e));
    assert(y[2] == (gf_mul(13, a) ^ gf_mul(9, b)) ^ (gf_mul(14, d) ^ gf_mul(11, e)));
    lemma_gf_mul_linear(2, gf_mul(13, a) ^ gf_mul(9, b), gf_mul(14, d) ^ gf_mul(11, e));
    lemma_gf_mul_linear(2, gf_mul(13, a), gf_mul(9, b));
    lemma_gf_mul_linear(2, gf_mul(14, d), gf_mul(11, e));
    assert(y[3] == (gf_mul(11, a) ^ gf_mul(13, b)) ^ (gf_mul(9, d) ^ gf_mul(14, e)));
    lemma_gf_mul_linear(3, gf_mul(11, a) ^ gf_mul(13, b), gf_mul(9, d) ^ gf_mul(14, e));
    lemma_gf_mul_linear(3, gf_mul(11, a), gf_mul(13, b));
    lemma_gf_mul_linear(3, gf_mul(9, d), gf_mul(14, e));
    lemma_xor_transpose(gf_mul(1, gf_mul(14, a)), gf_mul(1, gf_mul(11, b)), gf_mul(1, gf_mul(13, d)), gf_mul(1, gf_mul(9, e)), gf_mul(1, gf_mul(9, a)), gf_mul(1, gf_mul(14, b)), gf_mul(1, gf_mul(11, d)), gf_mul(1, gf_mul(13, e)), gf_mul(2, gf_mul(13, a)), gf_mul(2, gf_mul(9, b)), gf_mul(2, gf_mul(14, d)), gf_mul(2, gf_mul(11, e)), gf_mul(3, gf_mul(11, a)), gf_mul(3, gf_mul(13, b)), gf_mul(3, gf_mul(9, d)), gf_mul(3, gf_mul(14, e)));
    assert(((gf_mul(1, gf_mul(14, a)) ^ gf_mul(1, gf_mul(9, a))) ^ (gf_mul(2, gf_mul(13, a)) ^ gf_mul(3, gf_mul(11, a)))) == 0u8) by {
        lemma_mix_inv_closed(a);
        lemma_gf_mul_closed(14, a);
        lemma_gf_mul_closed(1, gf_mul(14, a));
        lemma_gf_mul_closed(9, a);
        lemma_gf_mul_closed(1, gf_mul(9, a));
        lemma_gf_mul_closed(13, a);
        lemma_gf_mul_closed(2, gf_mul(13, a));
        lemma_gf_mul_closed(11, a);
        lemma_gf_mul_closed(3, gf_mul(11, a));
    }
    assert(((gf_mul(1, gf_mul(11, b)) ^ gf_mul(1, gf_mul(14, b))) ^ (gf_mul(2, gf_mul(9, b)) ^ gf_mul(3, gf_mul(13, b)))) == 0u8) by {
        lemma_mix_inv_closed(b);
        lemma_gf_mul_closed(11, b);
        lemma_gf_mul_closed(1, gf_mul(11, b));
        lemma_gf_mul_closed(14, b);
        lemma_gf_mul_closed(1, gf_mul(14, b));
        lemma_gf_mul_closed(9, b);
        lemma_gf_mul_closed(2, gf_mul(9, b));
        lemma_gf_mul_closed(13, b);
        lemma_gf_mul_closed(3, gf_mul(13, b));
    }
    assert(((gf_mul(1, gf_mul(13, d)) ^ gf_mul(1, gf_mul(11, d))) ^ (gf_mul(2, gf_mul(14, d)) ^ gf_mul(3, gf_mul(9, d)))) == d) by {
        lemma_mix_inv_closed(d);
        lemma_gf_mul_closed(13, d);
        lemma_gf_mul_closed(1, gf_mul(13, d));
        lemma_gf_mul_closed(11, d);
        lemma_gf_mul_closed(1, gf_mul(11, d));
        lemma_gf_mul_closed(14, d);
        lemma_gf_mul_closed(2, gf_mul(14, d));
        lemma_gf_mul_closed(9, d);
        lemma_gf_mul_closed(3, gf_mul(9, d));
    }
    assert(((gf_mul(1, gf_mul(9, e)) ^ gf_mul(1, gf_mul(13, e))) ^ (gf_mul(2, gf_mul(11, e)) ^ gf_mul(3, gf_mul(14, e)))) == 0u8) by {
        lemma_mix_inv_closed(e);
        lemma_gf_mul_closed(9, e);
        lemma_gf_mul_closed(1, gf_mul(9, e));
        lemma_gf_mul_closed(13, e);
        lemma_gf_mul_closed(1, gf_mul(13, e));
        lemma_gf_mul_closed(11, e);
        lemma_gf_mul_closed(2, gf_mul(11, e));
        lemma_gf_mul_closed(14, e);
        lemma_gf_mul_closed(3, gf_mul(14, e));
    }
    lemma_xor_select(d);
}

/// Output byte 3 of MixColumns after InvMixColumns is input byte 3.
proof fn lemma_mix_row_3(a: u8, b: u8, d: u8, e: u8)
    ensures
        row_times_column(mix_matrix()[3], matrix_times_column(inv_mix_matrix(), seq![a, b, d, e])) == e,
{
    let c = seq![a, b, d, e];
    let y = matrix_times_column(inv_mix_matrix(), c);
    assert(y[0] == (gf_mul(14, a) ^ gf_mul(11, b)) ^ (gf_mul(13, d) ^ gf_mul(9, e)));
    lemma_gf_mul_linear(3, gf_mul(14, a) ^ gf_mul(11, b), gf_mul(13, d) ^ gf_mul(9, e));
    lemma_gf_mul_linear(3, gf_mul(14, a), gf_mul(11, b));
    lemma_gf_mul_linear(3, gf_mul(13, d), gf_mul(9, e));
    assert(y[1] == (gf_mul(9, a) ^ gf_mul(14, b)) ^ (gf_mul(11, d) ^ gf_mul(13, e)));
    lemma_gf_mul_linear(1, gf_mul(9, a) ^ gf_mul(14, b), gf_mul(11, d) ^ gf_mul(13, e));
    lemma_gf_mul_linear(1, gf_mul(9, a), gf_mul(14, b));
    lemma_gf_mul_linear(1, gf_mul(11, d), gf_mul(13, e));
    assert(y[2] == (gf_mul(13, a) ^ gf_mul(9, b)) ^ (gf_mul(14, d) ^ gf_mul(11, e)));
    lemma_gf_mul_linear(1, gf_mul(13, a) ^ gf_mul(9, b), gf_mul(14, d) ^ gf_mul(11, e));
    lemma_gf_mul_linear(1, gf_mul(13, a), gf_mul(9, b));
    lemma_gf_mul_linear(1, gf_mul(14, d), gf_mul(11, e));
    assert(y[3] == (gf_mul(11, a) ^ gf_mul(13, b)) ^ (gf_mul(9, d) ^ gf_mul(14, e)));
    lemma_gf_mul_linear(2, gf_mul(11, a) ^ gf_mul(13, b), gf_mul(9, d) ^ gf_mul(14, e));
    lemma_gf_mul_linear(2, gf_mul(11, a), gf_mul(13, b));
    lemma_gf_mul_linear(2, gf_mul(9, d), gf_mul(14, e));
    lemma_xor_transpose(gf_mul(3, gf_mul(14, a)), gf_mul(3, gf_mul(11, b)), gf_mul(3, gf_mul(13, d)), gf_mul(3, gf_mul(9, e)), gf_mul(1, gf_mul(9, a)), gf_mul(1, gf_mul(14, b)), gf_mul(1, gf_mul(11, d)), gf_mul(1, gf_mul(13, e)), gf_mul(1, gf_mul(13, a)), gf_mul(1, gf_mul(9, b)), gf_mul(1, gf_mul(14, d)), gf_mul(1, gf_mul(11, e)), gf_mul(2, gf_mul(11, a)), gf_mul(2, gf_mul(13, b)), gf_mul(2, gf_mul(9, d)), gf_mul(2, gf_mul(14, e)));
    assert(((gf_mul(3, gf_mul(14, a)) ^ gf_mul(1, gf_mul(9, a))) ^ (gf_mul(1, gf_mul(13, a)) ^ gf_mul(2, gf_mul(11, a)))) == 0u8) by {
        lemma_mix_inv_closed(a);
        lemma_gf_mul_closed(14, a);
        lemma_gf_mul_closed(3, gf_mul(14, a));
        lemma_gf_mul_closed(9, a);
        lemma_gf_mul_closed(1, gf_mul(9, a));
        lemma_gf_mul_closed(13, a);
        lemma_gf_mul_closed(1, gf_mul(13, a));
        lemma_gf_mul_closed(11, a);
        lemma_gf_mul_closed(2, gf_mul(11, a));
    }
    assert(((gf_mul(3, gf_mul(11, b)) ^ gf_mul(1, gf_mul(14, b))) ^ (gf_mul(1, gf_mul(9, b)) ^ gf_mul(2, gf_mul(13, b)))) == 0u8) by {
        lemma_mix_inv_closed(b);
        lemma_gf_mul_closed(11, b);
        lemma_gf_mul_closed(3, gf_mul(11, b));
        lemma_gf_mul_closed(14, b);
        lemma_gf_mul_closed(1, gf_mul(14, b));
        lemma_gf_mul_closed(9, b);
        lemma_gf_mul_closed(1, gf_mul(9, b));
        lemma_gf_mul_closed(13, b);
        lemma_gf_mul_closed(2, gf_mul(13, b));
    }
    assert(((gf_mul(3, gf_mul(13, d)) ^ gf_mul(1, gf_mul(11, d))) ^ (gf_mul(1, gf_mul(14, d)) ^ gf_mul(2, gf_mul(9, d)))) == 0u8) by {
        lemma_mix_inv_closed(d);
        lemma_gf_mul_closed(13, d);
        lemma_gf_mul_closed(3, gf_mul(13, d));
        lemma_gf_mul_closed(11, d);
        lemma_gf_mul_closed(1, gf_mul(11, d));
        lemma_gf_mul_closed(14, d);
        lemma_gf_mul_closed(1, gf_mul(14, d));
        lemma_gf_mul_closed(9, d);
        lemma_gf_mul_closed(2, gf_mul(9, d));
    }
    assert(((gf_mul(3, gf_mul(9, e)) ^ gf_mul(1, gf_mul(13, e))) ^ (gf_mul(1, gf_mul(11, e)) ^ gf_mul(2, gf_mul(14, e)))) == e) by {
        lemma_mix_inv_closed(e);
        lemma_gf_mul_closed(9, e);
        lemma_gf_mul_closed(3, gf_mul(9, e));
        lemma_gf_mul_closed(13, e);
        lemma_gf_mul_closed(1, gf_mul(13, e));
        lemma_gf_mul_closed(11, e);
        lemma_gf_mul_closed(1, gf_mul(11, e));
        lemma_gf_mul_closed(14, e);
        lemma_gf_mul_closed(2, gf_mul(14, e));
    }
    lemma_xor_select(e);
}

/// MixColumns undoes InvMixColumns on one column.
pub proof fn lemma_mix_inv_mix_column(c: Seq<u8>)
    requires
        c.len() == 4,
    ensures
        matrix_times_column(mix_matrix(), matrix_times_column(inv_mix_matrix(), c)) =~= c,
{
    assert(c =~= seq![c[0], c[1], c[2], c[3]]);
    lemma_mix_row_0(c[0], c[1], c[2], c[3]);
    lemma_mix_row_1(c[0], c[1], c[2], c[3]);
    lemma_mix_row_2(c[0], c[1], c[2], c[3]);
    lemma_mix_row_3(c[0], c[1], c[2], c[3]);
}

/// MixColumns undoes InvMixColumns.
pub proof fn lemma_mix_inv_mix_state(s: Seq<Seq<u8>>)
    requires
        is_state(s),
    ensures
        mix_state(inv_mix_state(s)) =~= s,
{
    assert forall|i: int| 0 <= i < 4 implies #[trigger] mix_state(inv_mix_state(s))[i] =~= s[i] by {
        lemma_mix_inv_mix_column(s[i]);
    }
}

/// SubBytes undoes InvSubBytes.
pub proof fn lemma_sub_inv_sub_state(s: Seq<Seq<u8>>)
    requires
        is_state(s),
    ensures
        sub_state(inv_sub_state(s)) =~= s,
{
    assert forall|i: int| 0 <= i < 4 implies #[trigger] sub_state(inv_sub_state(s))[i] =~= s[i] by {
        assert forall|j: int| 0 <= j < 4 implies sub_state(inv_sub_state(s))[i][j] == s[i][j] by {
            lemma_sbox_inv_sbox(s[i][j]);
        }
    }
}

/// ShiftRows undoes InvShiftRows.
pub proof fn lemma_shift_inv_shift_state(s: Seq<Seq<u8>>)
    requires
        is_state(s),
    ensures
        shift_state(inv_shift_state(s)) =~= s,
{
    assert forall|i: int| 0 <= i < 4 implies #[trigger] shift_state(inv_shift_state(s))[i] =~= s[i] by {
        assert forall|j: int| 0 <= j < 4 implies shift_state(inv_shift_state(s))[i][j] == s[i][j] by {
            let k = (i + j) % 4;
            assert((k - j + 4) % 4 == i);
        }
    }
}

/// Exclusive or of eight bytes, regrouped.
proof fn lemma_xor_pairs(p0: u8, p1: u8, p2: u8, p3: u8, q0: u8, q1: u8, q2: u8, q3: u8)
    by (bit_vector)
    ensures
        ((p0 ^ q0) ^ (p1 ^ q1)) ^ ((p2 ^ q2) ^ (p3 ^ q3)) == ((p0 ^ p1) ^ (p2 ^ p3)) ^ ((q0 ^ q1) ^ (
        q2 ^ q3)),
{
}

/// InvMixColumns distributes over AddRoundKey.
pub proof fn lemma_inv_mix_xor(a: Seq<Seq<u8>>, b: Seq<Seq<u8>>)
    ensures
        inv_mix_state(xor_state(a, b)) =~= xor_state(inv_mix_state(a), inv_mix_state(b)),
{
    assert forall|i: int, j: int| 0 <= i < 4 && 0 <= j < 4 implies #[trigger] inv_mix_state(
        xor_state(a, b),
    )[i][j] == xor_state(inv_mix_state(a), inv_mix_state(b))[i][j] by {
        let row = inv_mix_matrix()[j];
        let c = xor_state(a, b)[i];
        assert(row[0] == 14 || row[0] == 11 || row[0] == 13 || row[0] == 9);
        assert(row[1] == 14 || row[1] == 11 || row[1] == 13 || row[1] == 9);
        assert(row[2] == 14 || row[2] == 11 || row[2] == 13 || row[2] == 9);
        assert(row[3] == 14 || row[3] == 11 || row[3] == 13 || row[3] == 9);
        lemma_gf_mul_linear(row[0], a[i][0], b[i][0]);
        lemma_gf_mul_linear(row[1], a[i][1], b[i][1]);
        lemma_gf_mul_linear(row[2], a[i][2], b[i][2]);
        lemma_gf_mul_linear(row[3], a[i][3], b[i][3]);
        lemma_xor_pairs(
            gf_mul(row[0], a[i][0]),
            gf_mul(row[1], a[i][1]),
            gf_mul(row[2], a[i][2]),
            gf_mul(row[3], a[i][3]),
            gf_mul(row[0], b[i][0]),
            gf_mul(row[1], b[i][1]),
            gf_mul(row[2], b[i][2]),
            gf_mul(row[3], b[i][3]),
        );
    }
    assert forall|i: int| 0 <= i < 4 implies #[trigger] inv_mix_state(xor_state(a, b))[i]
        =~= xor_state(inv_mix_state(a), inv_mix_state(b))[i] by {}
}

/// Two exclusive ors with the same key cancel.
pub proof fn lemma_xor_cancel(k: Seq<Seq<u8>>, s: Seq<Seq<u8>>)
    requires
        is_state(s),
    ensures
        xor_state(k, xor_state(k, s)) =~= s,
{
    assert forall|i: int, j: int| 0 <= i < 4 && 0 <= j < 4 implies #[trigger] xor_state(
        k,
        xor_state(k, s),
    )[i][j] == s[i][j] by {
        let (x, y) = (k[i][j], s[i][j]);
        assert(x ^ (x ^ y) == y) by (bit_vector);
    }
    assert forall|i: int| 0 <= i < 4 implies #[trigger] xor_state(k, xor_state(k, s))[i] =~= s[i] by {}
}

/// InvSubBytes undoes SubBytes.
pub proof fn lemma_inv_sub_state(s: Seq<Seq<u8>>)
    requires
        is_state(s),
    ensures
        inv_sub_state(sub_state(s)) =~= s,
{
    assert forall|i: int| 0 <= i < 4 implies #[trigger] inv_sub_state(sub_state(s))[i] =~= s[i] by {
        assert forall|j: int| 0 <= j < 4 implies inv_sub_state(sub_state(s))[i][j] == s[i][j] by {
            lemma_inv_sbox_sbox(s[i][j]);
        }
    }
}

/// InvShiftRows undoes ShiftRows.
pub proof fn lemma_inv_shift_state(s: Seq<Seq<u8>>)
    requires
        is_state(s),
    ensures
        inv_shift_state(shift_state(s)) =~= s,
{
    assert forall|i: int| 0 <= i < 4 implies #[trigger] inv_shift_state(shift_state(s))[i] =~= s[i] by {
        assert forall|j: int| 0 <= j < 4 implies inv_shift_state(shift_state(s))[i][j] == s[i][j] by {
            let k = (i - j + 4) % 4;
            assert((k + j) % 4 == i);
        }
    }
}

/// InvSubBytes works byte by byte, so it commutes with ShiftRows.
pub proof fn lemma_inv_sub_shift(s: Seq<Seq<u8>>)
    requires
        is_state(s),
    ensures
        inv_sub_state(shift_state(s)) =~= shift_state(inv_sub_state(s)),
{
    assert forall|i: int| 0 <= i < 4 implies #[trigger] inv_sub_state(shift_state(s))[i] =~= shift_state(
        inv_sub_state(s),
    )[i] by {}
}

/// The state after the initial AddRoundKey (`r == 0`) and after each full round `r`
/// from 1 to 9.
pub open spec fn encrypt_rounds(s: Seq<Seq<u8>>, keys: Seq<Seq<Seq<u8>>>, r: nat) -> Seq<Seq<u8>>
    decreases r,
{
    if r == 0 {
        xor_state(keys[0], s)
    } else {
        xor_state(
            keys[r as int],
            mix_state(shift_state(sub_state(encrypt_rounds(s, keys, (r - 1) as nat)))),
        )
    }
}

/// The AES-128 cipher under eleven round keys.
pub open spec fn cipher(s: Seq<Seq<u8>>, keys: Seq<Seq<Seq<u8>>>) -> Seq<Seq<u8>> {
    xor_state(keys[10], shift_state(sub_state(encrypt_rounds(s, keys, 9))))
}

/// The state of the inverse cipher once round key `i` has been added (`i` from 10 down
/// to 1), each round key but the last passed through InvMixColumns first.
pub open spec fn decrypt_rounds(c: Seq<Seq<u8>>, keys: Seq<Seq<Seq<u8>>>, i: nat) -> Seq<Seq<u8>>
    decreases 10 - i,
{
    if i >= 10 {
        xor_state(keys[10], c)
    } else {
        xor_state(
            inv_mix_state(keys[i as int]),
            inv_mix_state(inv_shift_state(inv_sub_state(decrypt_rounds(c, keys, i + 1)))),
        )
    }
}

/// The equivalent inverse cipher of AES-128 under eleven round keys.
pub open spec fn inv_cipher(c: Seq<Seq<u8>>, keys: Seq<Seq<Seq<u8>>>) -> Seq<Seq<u8>> {
    xor_state(keys[0], inv_shift_state(inv_sub_state(decrypt_rounds(c, keys, 1))))
}

proof fn lemma_decrypt_rounds(s: Seq<Seq<u8>>, keys: Seq<Seq<Seq<u8>>>, i: nat)
    requires
        is_state(s),
        1 <= i <= 10,
    ensures
        decrypt_rounds(cipher(s, keys), keys, i) == shift_state(
            sub_state(encrypt_rounds(s, keys, (i - 1) as nat)),
        ),
    decreases 10 - i,
{
    if i == 10 {
        lemma_xor_cancel(keys[10], shift_state(sub_state(encrypt_rounds(s, keys, 9))));
    } else {
        lemma_decrypt_rounds(s, keys, i + 1);
        let e = encrypt_rounds(s, keys, i);
        let y = shift_state(sub_state(encrypt_rounds(s, keys, (i - 1) as nat)));
        lemma_inv_sub_shift(sub_state(e));
        lemma_inv_sub_state(e);
        lemma_inv_shift_state(e);
        lemma_inv_mix_xor(keys[i as int], mix_state(y));
        lemma_inv_mix_state(y);
        lemma_xor_cancel(inv_mix_state(keys[i as int]), y);
    }
}

/// The inverse cipher undoes the cipher, whatever the round keys.
pub proof fn lemma_inv_cipher_cipher(s: Seq<Seq<u8>>, keys: Seq<Seq<Seq<u8>>>)
    requires
        is_state(s),
    ensures
        inv_cipher(cipher(s, keys), keys) == s,
{
    lemma_decrypt_rounds(s, keys, 1);
    let e = encrypt_rounds(s, keys, 0);
    lemma_inv_sub_shift(sub_state(e));
    lemma_inv_sub_state(e);
    lemma_inv_shift_state(e);
    lemma_xor_cancel(keys[0], s);
}

/// The round constants of the key schedule.
pub open spec fn rcon(round: nat) -> u8 {
    if round == 0 {
        0x01
    } else if round == 1 {
        0x02
    } else if round == 2 {
        0x04
    } else if round == 3 {
        0x08
    } else if round == 4 {
        0x10
    } else if round == 5 {
        0x20
    } else if round == 6 {
        0x40
    } else if round == 7 {
        0x80
    } else if round == 8 {
        0x1b
    } else {
        0x36
    }
}

/// Byte-wise exclusive or of two words of four bytes.
pub open spec fn xor_word(a: Seq<u8>, b: Seq<u8>) -> Seq<u8> {
    Seq::new(4, |r: int| a[r] ^ b[r])
}

/// The last word of a key, rotated one byte to the left and substituted, with the
/// round constant added to its first byte.
pub open spec fn key_core(k: Seq<Seq<u8>>, round: nat) -> Seq<u8> {
    seq![rcon(round) ^ sbox(k[3][1]), sbox(k[3][2]), sbox(k[3][3]), sbox(k[3][0])]
}

/// Word `c` of a round key: the first word is `core` exclusive-ored with the first word
/// of the previous key `k`, each further word the word before exclusive-ored with the
/// word of `k` at its place.
pub open spec fn key_words(core: Seq<u8>, k: Seq<Seq<u8>>, c: nat) -> Seq<u8>
    decreases c,
{
    if c == 0 {
        xor_word(core, k[0])
    } else {
        xor_word(key_words(core, k, (c - 1) as nat), k[c as int])
    }
}

/// The round key built from `core` and the previous key `k`.
pub open spec fn key_from_core(core: Seq<u8>, k: Seq<Seq<u8>>) -> Seq<Seq<u8>> {
    Seq::new(4, |c: int| key_words(core, k, c as nat))
}

/// The round key that follows `k` in round `round` of the key schedule.
pub open spec fn next_key(k: Seq<Seq<u8>>, round: nat) -> Seq<Seq<u8>> {
    key_from_core(key_core(k, round), k)
}

/// Round key `i` of the AES-128 key schedule that starts from the cipher key `k0`.
pub open spec fn key_schedule(k0: Seq<Seq<u8>>, i: nat) -> Seq<Seq<u8>>
    decreases i,
{
    if i == 0 {
        k0
    } else {
        next_key(key_schedule(k0, (i - 1) as nat), (i - 1) as nat)
    }
}

/// The eleven round keys of AES-128 for the cipher key `k0`.
pub open spec fn aes_round_keys(k0: Seq<Seq<u8>>) -> Seq<Seq<Seq<u8>>> {
    Seq::new(11, |i: int| key_schedule(k0, i as nat))
}

/// A grid of texts whose first 4 rows hold 4 texts each that read as bytes.
pub open spec fn grid_decodes(g: Seq<Seq<Seq<char>>>) -> bool {
    &&& g.len() >= 4
    &&& forall|i: int| 0 <= i < 4 ==> #[trigger] g[i].len() >= 4
    &&& forall|i: int, j: int|
        0 <= i < 4 && 0 <= j < 4 ==> prefix_cut_ok(#[trigger] g[i][j]) && decodes(g[i][j])
}

/// The state that the first 4 texts of the first 4 rows of a grid denote.
pub open spec fn grid_value(g: Seq<Seq<Seq<char>>>) -> Seq<Seq<u8>> {
    Seq::new(4, |i: int| Seq::new(4, |j: int| cell_byte(g[i][j])))
}

/// The grid of two-digit texts of a state, as the library writes it.
pub open spec fn grid_of(s: Seq<Seq<u8>>) -> Seq<Seq<Seq<char>>> {
    Seq::new(4, |i: int| Seq::new(4, |j: int| hex2(s[i][j])))
}

/// A 4x4 grid of two-digit lowercase texts.
pub open spec fn is_hex_grid(g: Seq<Seq<Seq<char>>>) -> bool {
    &&& g.len() == 4
    &&& forall|i: int| 0 <= i < 4 ==> #[trigger] g[i].len() == 4
    &&& forall|i: int, j: int| 0 <= i < 4 && 0 <= j < 4 ==> is_hex2(#[trigger] g[i][j])
}

/// The grid written for a state reads back as that state.
pub proof fn lemma_grid_of(s: Seq<Seq<u8>>)
    requires
        is_state(s),
    ensures
        grid_decodes(grid_of(s)),
        is_hex_grid(grid_of(s)),
        grid_value(grid_of(s)) =~= s,
{
    let g = grid_of(s);
    assert forall|i: int, j: int| 0 <= i < 4 && 0 <= j < 4 implies prefix_cut_ok(#[trigger] g[i][j])
        && decodes(g[i][j]) && is_hex2(g[i][j]) && cell_byte(g[i][j]) == s[i][j] by {
        lemma_hex2(s[i][j]);
    }
    assert forall|i: int| 0 <= i < 4 implies #[trigger] grid_value(g)[i] =~= s[i] by {}
}

/// A grid of two-digit texts is the grid written for the state it denotes.
pub proof fn lemma_hex_grid(g: Seq<Seq<Seq<char>>>)
    requires
        is_hex_grid(g),
    ensures
        g =~= grid_of(grid_value(g)),
        grid_decodes(g),
{
    assert forall|i: int, j: int| 0 <= i < 4 && 0 <= j < 4 implies #[trigger] g[i][j] == hex2(
        cell_byte(g[i][j]),
    ) && prefix_cut_ok(g[i][j]) && decodes(g[i][j]) by {
        lemma_is_hex2(g[i][j]);
    }
    assert forall|i: int| 0 <= i < 4 implies #[trigger] g[i] =~= grid_of(grid_value(g))[i] by {}
}

/// The state that the first 16 bytes of a sequence fill, column by column.
pub open spec fn state_of_bytes(b: Seq<u8>) -> Seq<Seq<u8>> {
    Seq::new(4, |c: int| Seq::new(4, |r: int| b[4 * c + r]))
}

/// The 16 bytes of a state, column by column.
pub open spec fn bytes_of_state(s: Seq<Seq<u8>>) -> Seq<u8> {
    s[0] + s[1] + s[2] + s[3]
}

} // verus!
