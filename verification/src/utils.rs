//! Text helpers of the cipher: reading and writing bytes as hexadecimal text, the
//! products of MixColumns on texts, AddRoundKey on blocks of texts, and cutting a text
//! into a state.
use vstd::prelude::*;
use vstd::string::*;
use vstd::utf8::encode_utf8;
use crate::gf::{gf_mul, lemma_double_reduced, lemma_gf_mul_coefficients, xtime};
use crate::hexfmt::{
    byte_hex, cell_byte, dec_text, decodes, digits_value, drop_first_digit, format_hex,
    format_hex_plain, hex2, hex_len, hex_of_bytes, hex_text, hex_text_min2, i64_from_hex,
    i64_from_str_radix, is_hex2, lemma_dec_text, lemma_hex2, lemma_hex_of_bytes_chars,
    lemma_hex_of_bytes_pair, lemma_hex_text, lemma_hex_text_min2, lemma_hex_text_min2_drop_first,
    lemma_hex_of_one_byte, lemma_hex_text_min2_drop_one, lemma_i64_of_digits, lemma_is_hex2, prefix_cut_ok, push_decimal, read_pair, remove_first_char,
};
use crate::model::{grid_decodes, grid_of, grid_value, state_of_bytes, xor_state};

verus! {

/// A block: a state or a round key kept as columns of two-digit hexadecimal texts.
pub type Block = Vec<Vec<String>>;

/// The error of [`decode_hex`]: the first two characters do not read as a byte.
#[derive(Clone, Copy, Debug, PartialEq, Eq)]
pub enum HexError {
    InvalidDigit,
}

/// Reads the byte that the first two bytes of a text spell in base 16 (an optional `+`
/// then digits of either case), as a one-byte vector.
pub fn decode_hex(s: &str) -> (r: Result<Vec<u8>, HexError>)
    requires
        prefix_cut_ok(s@),
    ensures
        r is Ok <==> decodes(s@),
        r matches Ok(v) ==> v@ == seq![cell_byte(s@)],
        r matches Err(e) ==> e == HexError::InvalidDigit,
{
    let c0 = s.get_char(0);
    if (c0 as u32) < 0x80 {
        let c1 = s.get_char(1);
        match read_pair(c0, c1) {
            Some(v) => {
                let mut out: Vec<u8> = Vec::new();
                out.push(v);
                Ok(out)
            },
            None => Err(HexError::InvalidDigit),
        }
    } else {
        Err(HexError::InvalidDigit)
    }
}

/// Writes bytes as lowercase hexadecimal text, two digits per byte.
pub fn encode_hex(bytes: &[u8]) -> (r: String)
    ensures
        r@ == hex_of_bytes(bytes@),
{
    let mut s = String::new();
    let mut i: usize = 0;
    assert(bytes@.subrange(0, 0) =~= Seq::<u8>::empty());
    while i < bytes.len()
        invariant
            i <= bytes@.len(),
            s@ == hex_of_bytes(bytes@.subrange(0, i as int)),
        decreases bytes@.len() - i,
    {
        let b = bytes[i];
        let t = byte_hex(b);
        s.append(t.as_str());
        assert(bytes@.subrange(0, i + 1).drop_last() =~= bytes@.subrange(0, i as int));
        i = i + 1;
    }
    assert(bytes@.subrange(0, i as int) =~= bytes@);
    s
}

/// Whether a passphrase has the sixteen bytes that a key needs.
pub fn input_is_valid(text: &str) -> (r: bool)
    ensures
        r == (text.len() == 16),
{
    if text.len() != 16 {
        return false;
    }
    true
}

/// The text `s` is exactly the two characters `a` and `b`.
fn text_is(s: &str, a: char, b: char) -> (r: bool)
    ensures
        r == (s@ == seq![a, b]),
{
    if s.unicode_len() != 2 {
        return false;
    }
    let r = s.get_char(0) == a && s.get_char(1) == b;
    if r {
        assert(s@ =~= seq![a, b]);
    }
    r
}

/// Exclusive or of the bytes that two texts spell, written as two lowercase digits.
fn xor_texts(a: &str, b: &str) -> (r: String)
    requires
        prefix_cut_ok(a@),
        decodes(a@),
        prefix_cut_ok(b@),
        decodes(b@),
    ensures
        r@ == hex2(cell_byte(a@) ^ cell_byte(b@)),
{
    let x = decode_hex(a).unwrap();
    let y = decode_hex(b).unwrap();
    let mut res: Vec<u8> = Vec::new();
    res.push(x[0] ^ y[0]);
    proof {
        lemma_hex_of_one_byte(x[0] ^ y[0]);
        assert(res@ =~= seq![x[0] ^ y[0]]);
    }
    encode_hex(res.as_slice())
}

/// AddRoundKey on blocks: the 4x4 block of the exclusive ors of the bytes that the
/// first 4 texts of the first 4 columns of the two blocks spell.
pub fn xor_matrices(matrice1: Block, matrice2: Block) -> (r: Block)
    requires
        grid_decodes(matrice1.deep_view()),
        grid_decodes(matrice2.deep_view()),
    ensures
        r.deep_view() == grid_of(
            xor_state(grid_value(matrice1.deep_view()), grid_value(matrice2.deep_view())),
        ),
{
    let ghost g1 = matrice1.deep_view();
    let ghost g2 = matrice2.deep_view();
    let ghost target = grid_of(xor_state(grid_value(g1), grid_value(g2)));
    let mut result_block: Block = Vec::new();
    let mut i: usize = 0;
    while i < 4
        invariant
            i <= 4,
            g1 == matrice1.deep_view(),
            g2 == matrice2.deep_view(),
            grid_decodes(g1),
            grid_decodes(g2),
            target == grid_of(xor_state(grid_value(g1), grid_value(g2))),
            result_block@.len() == i,
            forall|k: int| 0 <= k < i ==> #[trigger] result_block@[k].deep_view() == target[k],
        decreases 4 - i,
    {
        let mut row: Vec<String> = Vec::new();
        let mut j: usize = 0;
        while j < 4
            invariant
                i < 4,
                j <= 4,
                g1 == matrice1.deep_view(),
                g2 == matrice2.deep_view(),
                grid_decodes(g1),
                grid_decodes(g2),
                target == grid_of(xor_state(grid_value(g1), grid_value(g2))),
                row@.len() == j,
                forall|k: int| 0 <= k < j ==> #[trigger] row@[k]@ == target[i as int][k],
            decreases 4 - j,
        {
            assert(g1[i as int] == matrice1@[i as int].deep_view());
            assert(matrice1@[i as int].deep_view()[j as int] == matrice1@[i as int]@[j as int].deep_view());
            assert(g2[i as int] == matrice2@[i as int].deep_view());
            assert(matrice2@[i as int].deep_view()[j as int] == matrice2@[i as int]@[j as int].deep_view());
            let cell = xor_texts(matrice1[i][j].as_str(), matrice2[i][j].as_str());
            row.push(cell);
            j = j + 1;
        }
        assert(row.deep_view() =~= target[i as int]);
        result_block.push(row);
        i = i + 1;
    }
    assert(result_block.deep_view() =~= target);
    result_block
}

/// The value of the text that the product of MixColumns gives for the coefficient text
/// `s1` and the byte text `s2`: for `03` twice the byte, reduced by the polynomial when
/// it needs three digits, then exclusive-ored with the whole of `s2` read as an `i64`;
/// for any other coefficient the plain product of the two bytes, reduced by the
/// polynomial (`1b`, leading digit dropped) when it needs three digits or more.
pub open spec fn enc_term(s1: Seq<char>, s2: Seq<char>) -> i64 {
    let b2 = cell_byte(s2) as i64;
    if s1 == seq!['0', '3'] {
        let m = (2 * b2) as i64;
        let t = if m >= 256 {
            drop_first_digit((m ^ 27i64) as nat) as i64
        } else {
            m
        };
        t ^ i64_from_hex(s2)->0
    } else {
        let r = (cell_byte(s1) as i64 * b2) as i64;
        if r >= 256 {
            drop_first_digit((r ^ 27i64) as nat) as i64
        } else {
            r
        }
    }
}

/// The texts that [`enc_term`] reads can be read.
pub open spec fn enc_term_defined(s1: Seq<char>, s2: Seq<char>) -> bool {
    if s1 == seq!['0', '3'] {
        i64_from_hex(s2) is Some
    } else {
        prefix_cut_ok(s1) && decodes(s1)
    }
}

/// The coefficient of InvMixColumns that a coefficient text selects: `09`, `0b` and
/// `0d` select 9, 11 and 13, and every other text 14.
pub open spec fn dec_coefficient(s1: Seq<char>) -> u8 {
    if s1 == seq!['0', '9'] {
        9
    } else if s1 == seq!['0', 'b'] {
        11
    } else if s1 == seq!['0', 'd'] {
        13
    } else {
        14
    }
}

/// One product of a row of coefficient texts with a column of byte texts.
pub open spec fn term_value(s1: Seq<char>, s2: Seq<char>, is_encryption: bool) -> i64 {
    if is_encryption {
        enc_term(s1, s2)
    } else {
        gf_mul(dec_coefficient(s1), cell_byte(s2)) as i64
    }
}

/// The exclusive or of the four products of a row of coefficients with a column.
pub open spec fn dot_value(v1: Seq<Seq<char>>, v2: Seq<Seq<char>>, is_encryption: bool) -> i64 {
    (term_value(v1[0], v2[0], is_encryption) ^ term_value(v1[1], v2[1], is_encryption)) ^ (
    term_value(v1[2], v2[2], is_encryption) ^ term_value(v1[3], v2[3], is_encryption))
}

/// Exclusive or of numbers that are not negative is not negative.
pub proof fn lemma_xor_nonneg(a: i64, b: i64)
    requires
        a >= 0,
        b >= 0,
    ensures
        a ^ b >= 0,
{
    assert(a ^ b >= 0) by (bit_vector)
        requires
            a >= 0,
            b >= 0,
    ;
}

/// Exclusive or of bytes does not depend on the width they are held in.
pub proof fn lemma_xor_bytes_i64(a: u8, b: u8)
    ensures
        (a as i64) ^ (b as i64) == (a ^ b) as i64,
{
    assert((a as i64) ^ (b as i64) == (a ^ b) as i64) by (bit_vector);
}

/// The text that `format!("{:?}", bytes)` gives without its brackets: the decimal texts
/// of the bytes separated by `", "`.
pub open spec fn debug_bytes(b: Seq<u8>) -> Seq<char>
    decreases b.len(),
{
    if b.len() == 0 {
        Seq::empty()
    } else if b.len() == 1 {
        dec_text(b[0] as nat)
    } else {
        debug_bytes(b.drop_last()) + seq![',', ' '] + dec_text(b.last() as nat)
    }
}

/// Converts a byte vector to a string: the decimal texts of the bytes, separated by
/// `", "`, as `format!("{:?}", ..)` lists them between its brackets.
fn from_bytes_to_string(byte_vector: Vec<u8>) -> (r: String)
    ensures
        r@ == debug_bytes(byte_vector@),
{
    let mut word = String::new();
    let mut i: usize = 0;
    assert(byte_vector@.subrange(0, 0) =~= Seq::<u8>::empty());
    while i < byte_vector.len()
        invariant
            i <= byte_vector@.len(),
            word@ == debug_bytes(byte_vector@.subrange(0, i as int)),
        decreases byte_vector@.len() - i,
    {
        let ghost before = word@;
        if i > 0 {
            proof {
                reveal_strlit(", ");
            }
            word.append(", ");
        }
        push_decimal(&mut word, byte_vector[i]);
        proof {
            let prefix = byte_vector@.subrange(0, i + 1);
            assert(prefix.drop_last() =~= byte_vector@.subrange(0, i as int));
            if i == 0 {
                assert(word@ =~= debug_bytes(prefix));
            } else {
                assert(", "@ =~= seq![',', ' ']);
                assert(word@ =~= debug_bytes(prefix));
            }
        }
        i = i + 1;
    }
    assert(byte_vector@.subrange(0, i as int) =~= byte_vector@);
    word
}

/// Reads the byte of a text of two hexadecimal digits the way the products do: decoded,
/// listed in decimal, and parsed back as an `i64`.
fn byte_number(s: &str) -> (r: i64)
    requires
        prefix_cut_ok(s@),
        decodes(s@),
    ensures
        r == cell_byte(s@) as i64,
{
    let bytes = decode_hex(s).unwrap();
    let text = from_bytes_to_string(bytes);
    proof {
        let b = cell_byte(s@);
        assert(bytes@ == seq![b]);
        assert(text@ == dec_text(b as nat));
        lemma_dec_text(b as nat);
        lemma_i64_of_digits(dec_text(b as nat), 10, b as nat);
    }
    i64_from_str_radix(text.as_str(), 10).unwrap()
}

/// The reduction constant `1b` of the AES polynomial, read from its text.
fn overflow_handler() -> (r: i64)
    ensures
        r == 27,
{
    proof {
        reveal_strlit("1b");
        let t = "1b"@;
        assert(t =~= seq!['1', 'b']);
        assert(t.drop_last() =~= seq!['1']);
        assert(seq!['1'].drop_last() =~= Seq::<char>::empty());
        assert(digits_value(Seq::<char>::empty(), 16) == Some(0nat));
        assert(digits_value(seq!['1'], 16) == Some(1nat));
        assert(digits_value(t, 16) == Some(27nat));
    }
    i64_from_str_radix("1b", 16).unwrap()
}

/// Reduces a number written in base 16 by the AES polynomial: exclusive or with `1b`,
/// written with two digits at least, and its first character removed.
fn handle_overflow_string(x: String) -> (r: String)
    requires
        i64_from_hex(x@) is Some,
        i64_from_hex(x@)->0 >= 0,
    ensures
        r@ == hex_text_min2((i64_from_hex(x@)->0 ^ 27i64) as nat).drop_first(),
        i64_from_hex(r@) == Some(drop_first_digit((i64_from_hex(x@)->0 ^ 27i64) as nat) as i64),
{
    let handler = overflow_handler();
    let x = i64_from_str_radix(x.as_str(), 16).unwrap();
    let res = x ^ handler;
    proof {
        lemma_xor_nonneg(x, handler);
        lemma_hex_text_min2_drop_first(res as nat);
        lemma_i64_of_digits(
            hex_text_min2(res as nat).drop_first(),
            16,
            drop_first_digit(res as nat),
        );
    }
    let res_string = format_hex(res);
    remove_first_char(res_string)
}

/// Reduces a number by the AES polynomial the way the text routines do: exclusive or
/// with `1b`, then the value of `format!("{:02x}", ..)` without its first character.
fn handle_overflow_int(x: i64) -> (r: i64)
    requires
        0 <= x,
    ensures
        r == drop_first_digit((x ^ 27i64) as nat) as i64,
        r >= 0,
{
    let handler = overflow_handler();
    let res = x ^ handler;
    proof {
        lemma_xor_nonneg(x, handler);
        lemma_hex_text_min2_drop_first(res as nat);
        lemma_i64_of_digits(
            hex_text_min2(res as nat).drop_first(),
            16,
            drop_first_digit(res as nat),
        );
    }
    let res_string = remove_first_char(format_hex(res));
    i64_from_str_radix(res_string.as_str(), 16).unwrap()
}

/// Reduces a product of the inverse mixing when it no longer fits in two digits.
fn check_overflow_hex_multiplication_decrypt(x: i64) -> (r: i64)
    requires
        0 <= x,
    ensures
        r == (if x >= 256 {
            drop_first_digit((x ^ 27i64) as nat) as i64
        } else {
            x
        }),
{
    proof {
        lemma_hex_text_min2(x as nat);
    }
    if format_hex(x).as_str().unicode_len() > 2 {
        return handle_overflow_int(x);
    }
    x
}

/// Exclusive or of two numbers written in base 16, written with two digits at least.
fn xor_two_hex_strings(s1: String, s2: String) -> (r: String)
    requires
        i64_from_hex(s1@) is Some,
        i64_from_hex(s1@)->0 >= 0,
        i64_from_hex(s2@) is Some,
        i64_from_hex(s2@)->0 >= 0,
    ensures
        r@ == hex_text_min2((i64_from_hex(s1@)->0 ^ i64_from_hex(s2@)->0) as nat),
        i64_from_hex(r@) == Some(i64_from_hex(s1@)->0 ^ i64_from_hex(s2@)->0),
        i64_from_hex(s1@)->0 ^ i64_from_hex(s2@)->0 >= 0,
{
    let s1_ints = i64_from_str_radix(s1.as_str(), 16).unwrap();
    let s2_ints = i64_from_str_radix(s2.as_str(), 16).unwrap();
    let res_int = s1_ints ^ s2_ints;
    proof {
        lemma_xor_nonneg(s1_ints, s2_ints);
        lemma_hex_text_min2(res_int as nat);
    }
    format_hex(res_int)
}

/// The text that the product of MixColumns writes for the coefficient text `s1` and the
/// byte text `s2`: for `03` the value of [`enc_term`] with two digits at least; for any
/// other coefficient the plain product of the two bytes with two digits at least, or,
/// when it needs three digits or more, the text of the product exclusive-ored with `1b`
/// without its first character.
pub open spec fn enc_term_text(s1: Seq<char>, s2: Seq<char>) -> Seq<char> {
    if s1 == seq!['0', '3'] {
        hex_text_min2(enc_term(s1, s2) as nat)
    } else {
        let r = (cell_byte(s1) as i64 * cell_byte(s2) as i64) as i64;
        if r >= 256 {
            hex_text_min2((r ^ 27i64) as nat).drop_first()
        } else {
            hex_text_min2(r as nat)
        }
    }
}

/// A MixColumns product on a two-digit text is the product in GF(2^8).
pub proof fn lemma_mix_term(s1: Seq<char>, k: u8, b: u8)
    requires
        (k == 1 && s1 == seq!['0', '1']) || (k == 2 && s1 == seq!['0', '2']) || (k == 3 && s1
            == seq!['0', '3']),
    ensures
        enc_term_defined(s1, hex2(b)),
        term_value(s1, hex2(b), true) == gf_mul(k, b) as i64,
{
    lemma_hex2(b);
    lemma_gf_mul_coefficients(b);
    lemma_double_reduced(b);
    lemma_xor_bytes_i64(xtime(b), b);
    let x = hex2(b);
    assert(cell_byte(x) == b);
    assert(i64_from_hex(x) == Some(b as i64));
    if k == 1 {
        assert(s1 != seq!['0', '3']);
        assert(cell_byte(s1) == 1);
        assert(enc_term(s1, x) == (1 * (b as i64)) as i64);
    } else if k == 2 {
        assert(s1 != seq!['0', '3']);
        assert(cell_byte(s1) == 2);
        let m = (2 * (b as i64)) as i64;
        assert(enc_term(s1, x) == (if m >= 256 {
            drop_first_digit((m ^ 27i64) as nat) as i64
        } else {
            m
        }));
    } else {
        let m = (2 * (b as i64)) as i64;
        let t = if m >= 256 {
            drop_first_digit((m ^ 27i64) as nat) as i64
        } else {
            m
        };
        assert(t == xtime(b) as i64);
        assert(enc_term(s1, x) == t ^ (b as i64));
    }
}


/// For the coefficients of MixColumns and a two-digit text, the product text is the
/// two-digit text of the product in GF(2^8).
pub proof fn lemma_mix_term_text(s1: Seq<char>, s2: Seq<char>)
    requires
        s1 == seq!['0', '1'] || s1 == seq!['0', '2'] || s1 == seq!['0', '3'],
        is_hex2(s2),
    ensures
        enc_term_text(s1, s2) == hex2(gf_mul(cell_byte(s1), cell_byte(s2))),
{
    lemma_is_hex2(s2);
    let b = cell_byte(s2);
    assert(s2 == hex2(b));
    lemma_gf_mul_coefficients(b);
    lemma_double_reduced(b);
    if s1 == seq!['0', '3'] {
        assert(cell_byte(s1) == 3);
        lemma_mix_term(s1, 3, b);
        assert(enc_term(s1, s2) == gf_mul(3, b) as i64);
        lemma_hex2(gf_mul(3, b));
    } else if s1 == seq!['0', '1'] {
        assert(cell_byte(s1) == 1);
        lemma_hex2(b);
    } else {
        assert(cell_byte(s1) == 2);
        let r = (2 * (b as i64)) as i64;
        if r >= 256 {
            lemma_hex_text_min2_drop_one((r ^ 27i64) as nat);
        } else {
            lemma_hex2(xtime(b));
        }
    }
}

/// A product of MixColumns on texts: the text [`enc_term_text`], which spells the value
/// [`enc_term`]; for the coefficients `01`, `02` and `03` and a two-digit byte text it is
/// the two-digit text of the product in GF(2^8).
fn hex_multiplication(s1: &str, s2: &str) -> (r: String)
    requires
        prefix_cut_ok(s2@),
        decodes(s2@),
        enc_term_defined(s1@, s2@),
    ensures
        r@ == enc_term_text(s1@, s2@),
        i64_from_hex(r@) == Some(enc_term(s1@, s2@)),
        enc_term(s1@, s2@) >= 0,
        (s1@ == seq!['0', '1'] || s1@ == seq!['0', '2'] || s1@ == seq!['0', '3']) && is_hex2(s2@)
            ==> r@ == hex2(gf_mul(cell_byte(s1@), cell_byte(s2@))),
{
    proof {
        if (s1@ == seq!['0', '1'] || s1@ == seq!['0', '2'] || s1@ == seq!['0', '3']) && is_hex2(
            s2@,
        ) {
            lemma_mix_term_text(s1@, s2@);
        }
    }
    let l2_num = byte_number(s2);
    if text_is(s1, '0', '3') {
        let mult_res = 2 * l2_num;
        let str_res = format_hex_plain(mult_res);
        proof {
            lemma_hex_text(mult_res as nat);
            lemma_i64_of_digits(hex_text(mult_res as nat), 16, mult_res as nat);
            assert(hex_len(mult_res as nat) > 2 <==> mult_res >= 256) by {
                lemma_hex_text_min2(mult_res as nat);
            }
            assert(i64_from_hex(s2@)->0 >= 0);
        }
        if str_res.as_str().unicode_len() > 2 {
            let new_res = handle_overflow_string(str_res);
            proof {
                lemma_hex_text_min2_drop_first((mult_res ^ 27i64) as nat);
                lemma_xor_nonneg(mult_res, 27i64);
            }
            return xor_two_hex_strings(new_res, s2.to_owned());
        }
        return xor_two_hex_strings(str_res, s2.to_owned());
    }
    let l1_num = byte_number(s1);
    assert(0 <= l1_num * l2_num <= 255 * 255) by (nonlinear_arith)
        requires
            0 <= l1_num <= 255,
            0 <= l2_num <= 255,
    ;
    let res = l1_num * l2_num;
    let res_str = format_hex(res);
    proof {
        lemma_hex_text_min2(res as nat);
    }
    if res_str.as_str().unicode_len() > 2 {
        proof {
            lemma_xor_nonneg(res, 27i64);
            lemma_hex_text_min2_drop_first((res ^ 27i64) as nat);
        }
        return handle_overflow_string(res_str);
    }
    res_str
}

/// A product of InvMixColumns on texts: the byte that `s2` spells times the coefficient
/// that `s1` selects (see [`dec_coefficient`]), each doubling reduced as the text
/// routines reduce it, written with two digits.
fn hex_multiplication_decrypt(s1: &str, s2: String) -> (r: String)
    requires
        prefix_cut_ok(s2@),
        decodes(s2@),
    ensures
        r@ == hex2(gf_mul(dec_coefficient(s1@), cell_byte(s2@))),
        i64_from_hex(r@) == Some(gf_mul(dec_coefficient(s1@), cell_byte(s2@)) as i64),
{
    let ghost b = cell_byte(s2@);
    //  Decode second string first
    let s2_num = byte_number(s2.as_str());
    let ghost g = gf_mul(dec_coefficient(s1@), b);
    proof {
        lemma_gf_mul_coefficients(b);
        lemma_double_reduced(b);
        lemma_double_reduced(xtime(b));
        lemma_double_reduced(xtime(xtime(b)));
        lemma_double_reduced(xtime(b) ^ b);
        lemma_double_reduced(xtime(xtime(b)) ^ b);
        lemma_double_reduced(xtime(xtime(b) ^ b));
        lemma_double_reduced(xtime(xtime(b) ^ b) ^ b);
        lemma_xor_bytes_i64(xtime(b), b);
        lemma_xor_bytes_i64(xtime(xtime(b)), b);
        lemma_xor_bytes_i64(xtime(xtime(xtime(b))), b);
        lemma_xor_bytes_i64(xtime(xtime(b) ^ b), b);
        lemma_xor_bytes_i64(xtime(xtime(xtime(b)) ^ b), b);
        lemma_xor_bytes_i64(xtime(xtime(xtime(b) ^ b)), b);
        lemma_hex2(g);
    }
    let value = if text_is(s1, '0', '9') {
        //  x*9=(((x*2)*2)*2)+x
        let mut answer = s2_num * 2;
        answer = check_overflow_hex_multiplication_decrypt(answer);
        answer = answer * 2;
        answer = check_overflow_hex_multiplication_decrypt(answer);
        answer = answer * 2;
        answer = check_overflow_hex_multiplication_decrypt(answer);
        answer ^ s2_num
    } else if text_is(s1, '0', 'b') {
        //  x*11=((((x*2)*2)+x)*2)+x
        let mut answer = s2_num * 2;
        answer = check_overflow_hex_multiplication_decrypt(answer);
        answer = answer * 2;
        answer = check_overflow_hex_multiplication_decrypt(answer);
        answer = answer ^ s2_num;
        answer = answer * 2;
        answer = check_overflow_hex_multiplication_decrypt(answer);
        answer ^ s2_num
    } else if text_is(s1, '0', 'd') {
        //  x*13=((((x*2)+x)*2)*2)+x
        let mut answer = s2_num * 2;
        answer = check_overflow_hex_multiplication_decrypt(answer);
        answer = answer ^ s2_num;
        answer = answer * 2;
        answer = check_overflow_hex_multiplication_decrypt(answer);
        answer = answer * 2;
        answer = check_overflow_hex_multiplication_decrypt(answer);
        answer ^ s2_num
    } else {
        //  x*14=((((x*2)+x)*2)+x)*2
        let mut answer = s2_num * 2;
        answer = check_overflow_hex_multiplication_decrypt(answer);
        answer = answer ^ s2_num;
        answer = answer * 2;
        answer = check_overflow_hex_multiplication_decrypt(answer);
        answer = answer ^ s2_num;
        answer = answer * 2;
        answer = check_overflow_hex_multiplication_decrypt(answer);
        answer
    };
    assert(value == g as i64);
    format_hex(value)
}

/// Exclusive or of the four products of a row with a column.
fn vector_elements_xor(v: Vec<String>) -> (r: String)
    requires
        v@.len() >= 4,
        forall|i: int|
            0 <= i < 4 ==> i64_from_hex(#[trigger] v@[i]@) is Some && i64_from_hex(v@[i]@)->0 >= 0,
    ensures
        r@ == hex_text_min2(
            ((i64_from_hex(v@[0]@)->0 ^ i64_from_hex(v@[1]@)->0) ^ (i64_from_hex(v@[2]@)->0
                ^ i64_from_hex(v@[3]@)->0)) as nat,
        ),
{
    assert(i64_from_hex(v@[0]@) is Some && i64_from_hex(v@[1]@) is Some);
    assert(i64_from_hex(v@[2]@) is Some && i64_from_hex(v@[3]@) is Some);
    let result_1 = xor_two_hex_strings(v[0].clone(), v[1].clone());
    let result_2 = xor_two_hex_strings(v[2].clone(), v[3].clone());
    xor_two_hex_strings(result_1, result_2)
}

/// A row of coefficient texts times a column of byte texts, the MixColumns products
/// when `is_encryption` holds and the InvMixColumns products otherwise, written as
/// `format!("{:02x}", ..)` writes the result.
pub fn vector_dot_product(v1: Vec<&str>, v2: Vec<String>, is_encryption: bool) -> (r: String)
    requires
        v1@.len() >= 4,
        v2@.len() >= 4,
        forall|i: int|
            0 <= i < 4 ==> prefix_cut_ok(#[trigger] v2.deep_view()[i]) && decodes(v2.deep_view()[i]),
        is_encryption ==> forall|i: int|
            0 <= i < 4 ==> enc_term_defined(#[trigger] v1.deep_view()[i], v2.deep_view()[i]),
    ensures
        dot_value(v1.deep_view(), v2.deep_view(), is_encryption) >= 0,
        r@ == hex_text_min2(dot_value(v1.deep_view(), v2.deep_view(), is_encryption) as nat),
{
    let ghost d1 = v1.deep_view();
    let ghost d2 = v2.deep_view();
    let mut mult_vect: Vec<String> = Vec::new();
    let mut i: usize = 0;
    while i < 4
        invariant
            i <= 4,
            v1@.len() >= 4,
            v2@.len() >= 4,
            d1 == v1.deep_view(),
            d2 == v2.deep_view(),
            forall|k: int| 0 <= k < 4 ==> prefix_cut_ok(#[trigger] d2[k]) && decodes(d2[k]),
            is_encryption ==> forall|k: int| 0 <= k < 4 ==> enc_term_defined(#[trigger] d1[k], d2[k]),
            mult_vect@.len() == i,
            forall|k: int|
                0 <= k < i ==> i64_from_hex(#[trigger] mult_vect@[k]@) == Some(
                    term_value(d1[k], d2[k], is_encryption),
                ) && term_value(d1[k], d2[k], is_encryption) >= 0,
        decreases 4 - i,
    {
        assert(d1[i as int] == v1@[i as int]@);
        assert(d2[i as int] == v2@[i as int]@);
        if is_encryption {
            let t = hex_multiplication(v1[i], v2[i].as_str());
            mult_vect.push(t);
        } else {
            let t = hex_multiplication_decrypt(v1[i], v2[i].clone());
            mult_vect.push(t);
        }
        i = i + 1;
    }
    let ghost t0 = term_value(d1[0], d2[0], is_encryption);
    let ghost t1 = term_value(d1[1], d2[1], is_encryption);
    let ghost t2 = term_value(d1[2], d2[2], is_encryption);
    let ghost t3 = term_value(d1[3], d2[3], is_encryption);
    proof {
        lemma_xor_nonneg(t0, t1);
        lemma_xor_nonneg(t2, t3);
        lemma_xor_nonneg(t0 ^ t1, t2 ^ t3);
    }
    vector_elements_xor(mult_vect)
}

/// The text cut into consecutive pairs of characters.
pub open spec fn text_pairs(t: Seq<char>) -> Seq<Seq<char>> {
    Seq::new(t.len() / 2, |k: int| t.subrange(2 * k, 2 * k + 2))
}

/// A sequence of texts cut into rows of four, the last row holding what is left.
pub open spec fn chunk_rows(p: Seq<Seq<char>>) -> Seq<Seq<Seq<char>>> {
    Seq::new(
        (p.len() + 3) / 4,
        |r: int|
            p.subrange(
                4 * r,
                if 4 * r + 4 <= p.len() {
                    4 * r + 4
                } else {
                    p.len() as int
                },
            ),
    )
}

/// The block that a text is cut into: pairs of characters, four pairs to a column.
pub open spec fn state_grid(t: Seq<char>) -> Seq<Seq<Seq<char>>> {
    chunk_rows(text_pairs(t))
}

/// Cuts a text of an even number of characters into its consecutive pairs.
pub fn to_vec(text: String) -> (r: Vec<String>)
    requires
        text@.len() % 2 == 0,
    ensures
        r.deep_view() == text_pairs(text@),
{
    let n = text.as_str().unicode_len();
    let mut str_vec: Vec<String> = Vec::new();
    let mut i: usize = 0;
    while i < n
        invariant
            n == text@.len(),
            n % 2 == 0,
            i % 2 == 0,
            i <= n,
            str_vec@.len() == i / 2,
            forall|k: int|
                0 <= k < i / 2 ==> #[trigger] str_vec@[k]@ == text@.subrange(2 * k, 2 * k + 2),
        decreases n - i,
    {
        let pair = text.as_str().substring_char(i, i + 2).to_owned();
        str_vec.push(pair);
        i = i + 2;
    }
    assert(str_vec.deep_view() =~= text_pairs(text@));
    str_vec
}

/// Cuts a text of an even number of characters into a block: its pairs of characters,
/// four to a column, the last column holding what is left.
pub fn divide_into_state(text: String) -> (r: Vec<Vec<String>>)
    requires
        text@.len() % 2 == 0,
    ensures
        r.deep_view() == state_grid(text@),
{
    let text_vect = to_vec(text);
    let ghost p = text_vect.deep_view();
    let m = text_vect.len();
    let mut state: Block = Vec::new();
    let mut start: usize = 0;
    while start < m
        invariant
            p == text_vect.deep_view(),
            m == p.len(),
            start <= m,
            start % 4 == 0 || start == m,
            state@.len() == (start + 3) / 4,
            forall|r: int| 0 <= r < state@.len() ==> #[trigger] state@[r].deep_view() == chunk_rows(p)[r],
        decreases m - start,
    {
        let end = if m - start >= 4 { start + 4 } else { m };
        let mut chunk: Vec<String> = Vec::new();
        let mut c: usize = start;
        while c < end
            invariant
                p == text_vect.deep_view(),
                m == p.len(),
                start <= c <= end <= m,
                chunk@.len() == c - start,
                forall|k: int| 0 <= k < c - start ==> #[trigger] chunk@[k]@ == p[start + k],
            decreases end - c,
        {
            assert(p[c as int] == text_vect@[c as int]@);
            chunk.push(text_vect[c].clone());
            c = c + 1;
        }
        assert(chunk.deep_view() =~= chunk_rows(p)[(start / 4) as int]);
        state.push(chunk);
        start = end;
    }
    assert(state.deep_view() =~= state_grid(text@));
    state
}

/// The width in characters that a text of `len` bytes is padded to: the next multiple
/// of 16 when it has at most 8 bytes (16 from 1 to 8 bytes, 0 for the empty text),
/// otherwise `len + ((len / 16 + 1) * 16) % len`.
pub open spec fn padded_width(len: nat) -> nat {
    if len <= 8 {
        (len + (16 - len % 16) % 16) as nat
    } else {
        len + ((len / 16 + 1) * 16) % len
    }
}

/// The text followed by spaces up to `width` characters, as `format!("{:width$}", ..)`
/// writes it.
pub open spec fn pad_to_width(t: Seq<char>, width: nat) -> Seq<char> {
    if t.len() >= width {
        t
    } else {
        t + Seq::new((width - t.len()) as nat, |i: int| ' ')
    }
}

/// The plaintext as the cipher takes it: padded with spaces (see [`padded_width`]),
/// then its UTF-8 bytes written as lowercase hexadecimal text.
pub open spec fn normalize_text(t: Seq<char>) -> Seq<char> {
    hex_of_bytes(encode_utf8(pad_to_width(t, padded_width(encode_utf8(t).len()))))
}

/// `hex::encode` of the hex crate: the lowercase hexadecimal text of the bytes, two
/// digits per byte, the high digit first. Its documentation states this, and its
/// `BytesToHexChars` iterator writes `HEX_CHARS_LOWER[byte >> 4]` then
/// `HEX_CHARS_LOWER[byte & 0x0f]` for each byte in turn.
#[verifier::external_body]
pub(crate) fn hex_encode(data: &[u8]) -> (r: String)
    ensures
        r@ == hex_of_bytes(data@),
{
    hex::encode(data)
}

/// Pads the plaintext with spaces (see [`padded_width`]) and writes its bytes as
/// lowercase hexadecimal text.
pub fn normalize(text: &String) -> (r: String)
    requires
        encode_utf8(text@).len() < usize::MAX / 2,
    ensures
        r@ == normalize_text(text@),
{
    let text_len = text.as_str().len();
    let width: usize = if text_len <= 8 {
        //  Will give us the required padding to make the
        //  string divisible by 16
        let padding = (16 - text_len % 16) % 16;
        text_len + padding
    } else {
        //  find next largest number then get modulus
        let padding = ((text_len / 16 + 1) * 16) % text_len;
        text_len + padding
    };
    assert(width == padded_width(encode_utf8(text@).len()));
    let mut res = text.clone();
    let mut count = text.as_str().unicode_len();
    proof {
        reveal_strlit(" ");
        assert(res@ =~= text@ + Seq::new((count - text@.len()) as nat, |i: int| ' '));
    }
    while count < width
        invariant
            text@.len() <= count,
            count == res@.len(),
            count < width ==> count < usize::MAX,
            count == text@.len() || count <= width,
            res@ == text@ + Seq::new((count - text@.len()) as nat, |i: int| ' '),
        decreases width - count,
    {
        proof {
            reveal_strlit(" ");
        }
        res.append(" ");
        count = count + 1;
        assert(res@ =~= text@ + Seq::new((count - text@.len()) as nat, |i: int| ' '));
    }
    proof {
        if text@.len() >= width {
            assert(res@ =~= text@);
        } else {
            assert(count == width);
        }
        assert(res@ == pad_to_width(text@, width as nat));
    }
    hex_encode(res.as_str().as_bytes())
}

/// The block that the text of 16 bytes or more is cut into: its first 4 columns hold the
/// two-digit texts of the first 16 bytes.
pub proof fn lemma_state_grid_of_bytes(b: Seq<u8>)
    requires
        b.len() >= 16,
    ensures
        hex_of_bytes(b).len() == 2 * b.len(),
        grid_decodes(state_grid(hex_of_bytes(b))),
        state_grid(hex_of_bytes(b))[3].len() == 4,
        forall|c: int, r: int|
            0 <= c < 4 && 0 <= r < 4 ==> #[trigger] state_grid(hex_of_bytes(b))[c][r] == hex2(
                b[4 * c + r],
            ),
        forall|r: int| 0 <= r < 4 ==> is_hex2(#[trigger] state_grid(hex_of_bytes(b))[3][r]),
        grid_value(state_grid(hex_of_bytes(b))) == state_of_bytes(b),
        b.len() == 16 ==> state_grid(hex_of_bytes(b)) == grid_of(state_of_bytes(b)),
{
    let t = hex_of_bytes(b);
    lemma_hex_of_bytes_chars(b);
    let p = text_pairs(t);
    assert(p.len() == b.len());
    let g = state_grid(t);
    assert forall|c: int, r: int| 0 <= c < 4 && 0 <= r < 4 implies #[trigger] g[c][r] == hex2(
        b[4 * c + r],
    ) by {
        assert(g[c] == p.subrange(4 * c, 4 * c + 4));
        lemma_hex_of_bytes_pair(b, 4 * c + r);
    }
    assert forall|c: int, r: int| 0 <= c < 4 && 0 <= r < 4 implies prefix_cut_ok(#[trigger] g[c][r])
        && decodes(g[c][r]) && is_hex2(g[c][r]) && cell_byte(g[c][r]) == b[4 * c + r] by {
        lemma_hex2(b[4 * c + r]);
    }
    assert forall|c: int| 0 <= c < 4 implies #[trigger] grid_value(g)[c] =~= state_of_bytes(b)[c] by {}
    assert(grid_value(g) =~= state_of_bytes(b));
    if b.len() == 16 {
        assert(g.len() == 4);
        assert forall|c: int| 0 <= c < 4 implies #[trigger] g[c] =~= grid_of(state_of_bytes(b))[c] by {
            assert(g[c] == p.subrange(4 * c, 4 * c + 4));
        }
        assert(g =~= grid_of(state_of_bytes(b)));
    }
}

} // verus!
