//! Encryption: the rounds of AES-128 on blocks of hexadecimal texts.
use vstd::prelude::*;
use vstd::string::*;
use vstd::utf8::encode_utf8;
use vstd::arithmetic::div_mod::lemma_fundamental_div_mod_converse;
use crate::constants::{mix_columns_row, mix_columns_texts};
use crate::gf::{gf_mul, lemma_double_reduced, lemma_gf_mul_coefficients, sbox, sbox_lookup, xtime};
use crate::hexfmt::{
    byte_hex, cell_byte, decodes, drop_first_digit, hex2, hex_of_bytes, hex_text_min2, i64_from_hex,
    lemma_hex2, lemma_hex_of_bytes_chars, lemma_hex_of_bytes_concat, lemma_hex_of_bytes_subrange,
    lower_value, prefix_cut_ok,
};
use crate::key::{lemma_expansion_is_schedule, RoundKeys};
use crate::model::{
    aes_round_keys, bytes_of_state, cipher, encrypt_rounds, grid_decodes, grid_of, grid_value,
    is_state, lemma_grid_of, mix_matrix, mix_state, next_key, row_times_column, shift_state,
    state_of_bytes, sub_state, xor_state,
};
use crate::utils::{
    divide_into_state, dot_value, enc_term, enc_term_defined, hex_encode, lemma_state_grid_of_bytes,
    lemma_mix_term, lemma_xor_bytes_i64, normalize, pad_to_width, padded_width, term_value, vector_dot_product,
    xor_matrices, Block,
};

verus! {

/// The value of a lowercase hexadecimal digit.
fn digit_index(c: char) -> (r: u8)
    requires
        lower_value(c) is Some,
    ensures
        r as nat == lower_value(c)->0,
{
    if '0' <= c && c <= '9' {
        ((c as u32) - 48) as u8
    } else {
        ((c as u32) - 87) as u8
    }
}

/// A text that the S-box lookup reads: at most two lowercase hexadecimal digits.
pub open spec fn sbox_text_ok(cs: Seq<char>) -> bool {
    cs.len() <= 2 && forall|k: int| 0 <= k < cs.len() ==> lower_value(#[trigger] cs[k]) is Some
}

/// The index into the S-box that a text gives: its first digit selects the row, its
/// second the column, and a missing digit counts as 0.
pub open spec fn sbox_text_index(cs: Seq<char>) -> u8 {
    let row = if cs.len() >= 1 {
        lower_value(cs[0])->0
    } else {
        0
    };
    let col = if cs.len() >= 2 {
        lower_value(cs[1])->0
    } else {
        0
    };
    (16 * row + col) as u8
}

/// The S-box index of a two-digit text is the byte it stands for.
pub proof fn lemma_sbox_text_index(b: u8)
    ensures
        sbox_text_ok(hex2(b)),
        sbox_text_index(hex2(b)) == b,
{
    lemma_hex2(b);
}

/// Reads the index into the S-box from a text, digit by digit.
pub(crate) fn sbox_index(word: &str) -> (r: u8)
    requires
        sbox_text_ok(word@),
    ensures
        r == sbox_text_index(word@),
{
    let n = word.unicode_len();
    //  Initialize indices for SBOX
    let mut row: u8 = 0;
    let mut col: u8 = 0;
    let mut index: usize = 0;
    while index < n
        invariant
            n == word@.len(),
            n <= 2,
            index <= n,
            sbox_text_ok(word@),
            row < 16,
            col < 16,
            index >= 1 ==> row as nat == lower_value(word@[0])->0,
            index < 1 ==> row == 0,
            index >= 2 ==> col as nat == lower_value(word@[1])->0,
            index < 2 ==> col == 0,
        decreases n - index,
    {
        let digit = digit_index(word.get_char(index));
        if index == 0 {
            row = digit;
        } else {
            col = digit;
        }
        index = index + 1;
    }
    16 * row + col
}

/// A copy of a column, text by text.
pub(crate) fn copy_column(column: &Vec<String>) -> (r: Vec<String>)
    ensures
        r.deep_view() == column.deep_view(),
{
    let mut copy: Vec<String> = Vec::new();
    let mut j: usize = 0;
    while j < column.len()
        invariant
            j <= column@.len(),
            copy@.len() == j,
            forall|k: int| 0 <= k < j ==> #[trigger] copy@[k]@ == column@[k]@,
        decreases column@.len() - j,
    {
        copy.push(column[j].clone());
        j = j + 1;
    }
    assert(copy.deep_view() =~= column.deep_view());
    copy
}

/// A copy of a block, text by text.
pub(crate) fn copy_block(block: &Block) -> (r: Block)
    ensures
        r.deep_view() == block.deep_view(),
{
    let mut out: Block = Vec::new();
    let mut i: usize = 0;
    while i < block.len()
        invariant
            i <= block@.len(),
            out@.len() == i,
            forall|k: int| 0 <= k < i ==> #[trigger] out@[k].deep_view() == block@[k].deep_view(),
        decreases block@.len() - i,
    {
        let copy = copy_column(&block[i]);
        out.push(copy);
        i = i + 1;
    }
    assert(out.deep_view() =~= block.deep_view());
    out
}

/// A block that SubBytes reads: four columns at least, each of the first four holding at
/// most four texts that the S-box lookup reads.
pub open spec fn sub_block_ok(g: Seq<Seq<Seq<char>>>) -> bool {
    &&& g.len() >= 4
    &&& forall|i: int| 0 <= i < 4 ==> #[trigger] g[i].len() <= 4
    &&& forall|i: int, w: int| 0 <= i < 4 && 0 <= w < g[i].len() ==> sbox_text_ok(#[trigger] g[i][w])
}

/// The texts that SubBytes writes: a 4x4 block whose text `w` of column `j` is the
/// two-digit text of the S-box image of the text there, or empty where there was none.
pub open spec fn sub_texts(g: Seq<Seq<Seq<char>>>) -> Seq<Seq<Seq<char>>> {
    Seq::new(
        4,
        |j: int|
            Seq::new(
                4,
                |w: int|
                    if w < g[j].len() {
                        hex2(sbox(sbox_text_index(g[j][w])))
                    } else {
                        Seq::empty()
                    },
            ),
    )
}

/// On the grid of a state, SubBytes writes the grid of SubBytes of the state.
pub proof fn lemma_sub_texts(s: Seq<Seq<u8>>)
    requires
        is_state(s),
    ensures
        sub_block_ok(grid_of(s)),
        sub_texts(grid_of(s)) == grid_of(sub_state(s)),
{
    let g = grid_of(s);
    assert forall|i: int, w: int| 0 <= i < 4 && 0 <= w < 4 implies sbox_text_ok(#[trigger] g[i][w])
        && sbox_text_index(g[i][w]) == s[i][w] by {
        lemma_sbox_text_index(s[i][w]);
    }
    assert forall|i: int| 0 <= i < 4 implies #[trigger] sub_texts(g)[i] =~= grid_of(sub_state(s))[i] by {}
    assert(sub_texts(g) =~= grid_of(sub_state(s)));
}

/// SubBytes: every text replaced by the two-digit text of its S-box image.
fn substitute_bytes(block: Block) -> (r: Block)
    requires
        sub_block_ok(block.deep_view()),
    ensures
        r.deep_view() == sub_texts(block.deep_view()),
{
    let ghost g = block.deep_view();
    let ghost target = sub_texts(g);
    let mut result_block: Block = Vec::new();
    let mut j: usize = 0;
    while j < 4
        invariant
            j <= 4,
            g == block.deep_view(),
            sub_block_ok(g),
            target == sub_texts(g),
            result_block@.len() == j,
            forall|k: int| 0 <= k < j ==> #[trigger] result_block@[k].deep_view() == target[k],
        decreases 4 - j,
    {
        assert(block@[j as int].deep_view() == g[j as int]);
        let column = &block[j];
        let mut sub_vect: Vec<String> = Vec::new();
        let mut word_index: usize = 0;
        while word_index < column.len()
            invariant
                j < 4,
                word_index <= column@.len(),
                column.deep_view() == g[j as int],
                g == block.deep_view(),
                sub_block_ok(g),
                target == sub_texts(g),
                sub_vect@.len() == word_index,
                forall|k: int| 0 <= k < word_index ==> #[trigger] sub_vect@[k]@ == target[j as int][k],
            decreases column@.len() - word_index,
        {
            let word = column[word_index].as_str();
            assert(word@ == g[j as int][word_index as int]);
            // Populate indices and retrieve value from SBOX
            let value = sbox_lookup(sbox_index(word));
            sub_vect.push(byte_hex(value));
            word_index = word_index + 1;
        }
        while word_index < 4
            invariant
                j < 4,
                column@.len() <= word_index <= 4,
                column.deep_view() == g[j as int],
                target == sub_texts(g),
                sub_vect@.len() == word_index,
                forall|k: int| 0 <= k < word_index ==> #[trigger] sub_vect@[k]@ == target[j as int][k],
            decreases 4 - word_index,
        {
            sub_vect.push(String::new());
            word_index = word_index + 1;
        }
        assert(sub_vect.deep_view() =~= target[j as int]);
        result_block.push(sub_vect);
        j = j + 1;
    }
    assert(result_block.deep_view() =~= target);
    result_block
}

/// The texts of a row rotated `mid` places to the left, as `rotate_left` leaves them.
pub(crate) fn rotate_left_texts(row: &Vec<String>, mid: usize) -> (r: Vec<String>)
    requires
        mid <= row@.len(),
    ensures
        r.deep_view() == Seq::new(
            row@.len(),
            |m: int| row.deep_view()[(m + mid) % (row@.len() as int)],
        ),
{
    let n = row.len();
    let ghost w = row.deep_view();
    let mut out: Vec<String> = Vec::new();
    let mut m: usize = 0;
    while m < n
        invariant
            n == row@.len(),
            w == row.deep_view(),
            mid <= n,
            m <= n,
            out@.len() == m,
            forall|k: int| 0 <= k < m ==> #[trigger] out@[k]@ == w[(k + mid) % (n as int)],
        decreases n - m,
    {
        let src = if mid < n - m { m + mid } else { mid - (n - m) };
        proof {
            let q: int = if m + mid < n { 0 } else { 1 };
            lemma_fundamental_div_mod_converse((m + mid) as int, n as int, q, src as int);
        }
        assert(row@[src as int]@ == w[src as int]);
        out.push(row[src].clone());
        m = m + 1;
    }
    assert(out.deep_view() =~= Seq::new(n as nat, |k: int| w[(k + mid) % (n as int)]));
    out
}

/// The texts of a row rotated `mid` places to the right, as `rotate_right` leaves them.
pub(crate) fn rotate_right_texts(row: &Vec<String>, mid: usize) -> (r: Vec<String>)
    requires
        mid <= row@.len(),
    ensures
        r.deep_view() == Seq::new(
            row@.len(),
            |m: int| row.deep_view()[(m - mid + row@.len()) % (row@.len() as int)],
        ),
{
    let n = row.len();
    let ghost w = row.deep_view();
    let mut out: Vec<String> = Vec::new();
    let mut m: usize = 0;
    while m < n
        invariant
            n == row@.len(),
            w == row.deep_view(),
            mid <= n,
            m <= n,
            out@.len() == m,
            forall|k: int| 0 <= k < m ==> #[trigger] out@[k]@ == w[(k - mid + n) % (n as int)],
        decreases n - m,
    {
        let src = if m >= mid { m - mid } else { n - (mid - m) };
        proof {
            let q: int = if m >= mid { 1 } else { 0 };
            lemma_fundamental_div_mod_converse((m - mid + n) as int, n as int, q, src as int);
        }
        assert(row@[src as int]@ == w[src as int]);
        out.push(row[src].clone());
        m = m + 1;
    }
    assert(out.deep_view() =~= Seq::new(n as nat, |k: int| w[(k - mid + n) % (n as int)]));
    out
}

/// The first 4 texts of the first 4 columns, turned into rows: text `j` of column `i`
/// becomes text `i` of row `j`.
pub(crate) fn transpose(block: &Block) -> (r: Block)
    requires
        block@.len() >= 4,
        forall|i: int| 0 <= i < 4 ==> #[trigger] block@[i]@.len() >= 4,
    ensures
        r.deep_view() == Seq::new(4, |j: int| Seq::new(4, |i: int| block.deep_view()[i][j])),
{
    let ghost g = block.deep_view();
    let ghost target = Seq::new(4, |j: int| Seq::new(4, |i: int| g[i][j]));
    let mut rows: Block = Vec::new();
    let mut j: usize = 0;
    while j < 4
        invariant
            j <= 4,
            g == block.deep_view(),
            block@.len() >= 4,
            forall|i: int| 0 <= i < 4 ==> #[trigger] block@[i]@.len() >= 4,
            target == Seq::new(4, |j: int| Seq::new(4, |i: int| g[i][j])),
            rows@.len() == j,
            forall|k: int| 0 <= k < j ==> #[trigger] rows@[k].deep_view() == target[k],
        decreases 4 - j,
    {
        let mut row: Vec<String> = Vec::new();
        let mut i: usize = 0;
        while i < 4
            invariant
                j < 4,
                i <= 4,
                g == block.deep_view(),
                block@.len() >= 4,
                forall|i: int| 0 <= i < 4 ==> #[trigger] block@[i]@.len() >= 4,
                target == Seq::new(4, |j: int| Seq::new(4, |i: int| g[i][j])),
                row@.len() == i,
                forall|k: int| 0 <= k < i ==> #[trigger] row@[k]@ == target[j as int][k],
            decreases 4 - i,
        {
            assert(block@[i as int].deep_view() == g[i as int]);
            assert(block@[i as int]@[j as int]@ == g[i as int][j as int]);
            row.push(block[i][j].clone());
            i = i + 1;
        }
        assert(row.deep_view() =~= target[j as int]);
        rows.push(row);
        j = j + 1;
    }
    assert(rows.deep_view() =~= target);
    rows
}

/// A block of four columns at least, each of the first four holding four texts at least.
pub open spec fn block_4x4(g: Seq<Seq<Seq<char>>>) -> bool {
    g.len() >= 4 && forall|i: int| 0 <= i < 4 ==> #[trigger] g[i].len() >= 4
}

/// The texts that ShiftRows writes: text `j` of column `i` comes from column `i + j`.
pub open spec fn shift_texts(g: Seq<Seq<Seq<char>>>) -> Seq<Seq<Seq<char>>> {
    Seq::new(4, |i: int| Seq::new(4, |j: int| g[(i + j) % 4][j]))
}

/// On the grid of a state, ShiftRows writes the grid of ShiftRows of the state.
pub proof fn lemma_shift_texts(s: Seq<Seq<u8>>)
    requires
        is_state(s),
    ensures
        block_4x4(grid_of(s)),
        shift_texts(grid_of(s)) == grid_of(shift_state(s)),
{
    assert forall|i: int| 0 <= i < 4 implies #[trigger] shift_texts(grid_of(s))[i] =~= grid_of(
        shift_state(s),
    )[i] by {}
    assert(shift_texts(grid_of(s)) =~= grid_of(shift_state(s)));
}

/// ShiftRows: row `j` (the texts at place `j` of each column) moves `j` columns to the
/// left, cyclically.
fn shift_rows(block: Block) -> (r: Block)
    requires
        block_4x4(block.deep_view()),
    ensures
        r.deep_view() == shift_texts(block.deep_view()),
{
    let ghost g = block.deep_view();
    //  Create new block to have the state block row wise rather than
    //  column wise
    assert(block@.len() == g.len());
    assert(forall|i: int| 0 <= i < 4 ==> #[trigger] block@[i]@.len() == g[i].len());
    let temp_block_rows = transpose(&block);
    assert(temp_block_rows@.len() == temp_block_rows.deep_view().len());
    //  Rotate left
    let mut rotated: Block = Vec::new();
    let mut i: usize = 0;
    while i < 4
        invariant
            i <= 4,
            temp_block_rows.deep_view() == Seq::new(4, |j: int| Seq::new(4, |c: int| g[c][j])),
            temp_block_rows@.len() == 4,
            rotated@.len() == i,
            forall|k: int|
                0 <= k < i ==> #[trigger] rotated@[k].deep_view() == Seq::new(
                    4,
                    |c: int| g[(c + k) % 4][k],
                ),
        decreases 4 - i,
    {
        assert(temp_block_rows@[i as int].deep_view() == temp_block_rows.deep_view()[i as int]);
        let row = rotate_left_texts(&temp_block_rows[i], i);
        assert(row.deep_view() =~= Seq::new(4, |c: int| g[(c + i) % 4][i as int]));
        rotated.push(row);
        i = i + 1;
    }
    //  Create new block and fill words column wise
    assert(forall|k: int| 0 <= k < 4 ==> #[trigger] rotated@[k]@.len() == rotated@[k].deep_view().len());
    let result_block = transpose(&rotated);
    proof {
        let target = shift_texts(g);
        assert forall|i: int| 0 <= i < 4 implies #[trigger] result_block.deep_view()[i] =~= target[i] by {
            assert forall|j: int| 0 <= j < 4 implies result_block.deep_view()[i][j] == target[i][j] by {
                assert(rotated@[j].deep_view()[i] == g[(i + j) % 4][j]);
            }
        }
        assert(result_block.deep_view() =~= target);
    }
    result_block
}

/// The MixColumns products on two-digit texts are the products in GF(2^8).
proof fn lemma_mix_terms(row: Seq<Seq<char>>, coefficients: Seq<u8>, column: Seq<u8>)
    requires
        row.len() == 4,
        coefficients.len() == 4,
        column.len() == 4,
        forall|k: int|
            0 <= k < 4 ==> (#[trigger] coefficients[k] == 1 && row[k] == seq!['0', '1']) || (
            coefficients[k] == 2 && row[k] == seq!['0', '2']) || (coefficients[k] == 3 && row[k]
                == seq!['0', '3']),
    ensures
        forall|k: int| 0 <= k < 4 ==> enc_term_defined(#[trigger] row[k], hex2(column[k])),
        dot_value(row, Seq::new(4, |k: int| hex2(column[k])), true) == row_times_column(
            coefficients,
            column,
        ) as i64,
{
    let texts = Seq::new(4, |k: int| hex2(column[k]));
    assert forall|k: int| 0 <= k < 4 implies enc_term_defined(#[trigger] row[k], hex2(column[k]))
        && term_value(row[k], texts[k], true) == gf_mul(coefficients[k], column[k]) as i64 by {
        lemma_mix_term(row[k], coefficients[k], column[k]);
    }
    let t0 = gf_mul(coefficients[0], column[0]);
    let t1 = gf_mul(coefficients[1], column[1]);
    let t2 = gf_mul(coefficients[2], column[2]);
    let t3 = gf_mul(coefficients[3], column[3]);
    lemma_xor_bytes_i64(t0, t1);
    lemma_xor_bytes_i64(t2, t3);
    lemma_xor_bytes_i64(t0 ^ t1, t2 ^ t3);
}

/// A block that MixColumns reads: the first 4 texts of its first 4 columns read as
/// bytes, and as whole `i64` numbers in base 16.
pub open spec fn mix_block_ok(g: Seq<Seq<Seq<char>>>) -> bool {
    &&& block_4x4(g)
    &&& forall|i: int, j: int|
        0 <= i < 4 && 0 <= j < 4 ==> prefix_cut_ok(#[trigger] g[i][j]) && decodes(g[i][j])
            && i64_from_hex(g[i][j]) is Some
}

/// The texts that MixColumns writes: text `j` of column `i` is what
/// [`vector_dot_product`] writes for row `j` of the coefficients and that column.
pub open spec fn mix_texts(g: Seq<Seq<Seq<char>>>) -> Seq<Seq<Seq<char>>> {
    Seq::new(
        4,
        |i: int|
            Seq::new(4, |j: int| hex_text_min2(dot_value(mix_columns_texts()[j], g[i], true) as nat)),
    )
}

/// On the grid of a state, MixColumns writes the grid of MixColumns of the state.
pub proof fn lemma_mix_texts(s: Seq<Seq<u8>>)
    requires
        is_state(s),
    ensures
        mix_block_ok(grid_of(s)),
        mix_texts(grid_of(s)) == grid_of(mix_state(s)),
{
    let g = grid_of(s);
    assert forall|i: int, j: int| 0 <= i < 4 && 0 <= j < 4 implies prefix_cut_ok(#[trigger] g[i][j])
        && decodes(g[i][j]) && i64_from_hex(g[i][j]) is Some by {
        lemma_hex2(s[i][j]);
    }
    assert forall|i: int, j: int| 0 <= i < 4 && 0 <= j < 4 implies #[trigger] mix_texts(g)[i][j]
        == grid_of(mix_state(s))[i][j] by {
        assert(g[i] =~= Seq::new(4, |k: int| hex2(s[i][k])));
        lemma_mix_terms(mix_columns_texts()[j], mix_matrix()[j], s[i]);
        lemma_hex2(row_times_column(mix_matrix()[j], s[i]));
    }
    assert forall|i: int| 0 <= i < 4 implies #[trigger] mix_texts(g)[i] =~= grid_of(mix_state(s))[i] by {}
    assert(mix_texts(g) =~= grid_of(mix_state(s)));
}

/// MixColumns: each column multiplied by the fixed matrix, every product computed on
/// the texts by [`vector_dot_product`].
fn mix_columns(block: Block) -> (r: Block)
    requires
        mix_block_ok(block.deep_view()),
    ensures
        r.deep_view() == mix_texts(block.deep_view()),
{
    let ghost g = block.deep_view();
    let ghost target = mix_texts(g);
    let mut result_block: Block = Vec::new();
    let mut i: usize = 0;
    while i < 4
        invariant
            i <= 4,
            g == block.deep_view(),
            mix_block_ok(g),
            target == mix_texts(g),
            result_block@.len() == i,
            forall|k: int| 0 <= k < i ==> #[trigger] result_block@[k].deep_view() == target[k],
        decreases 4 - i,
    {
        let mut column: Vec<String> = Vec::new();
        let mut j: usize = 0;
        while j < 4
            invariant
                i < 4,
                j <= 4,
                g == block.deep_view(),
                mix_block_ok(g),
                target == mix_texts(g),
                column@.len() == j,
                forall|k: int| 0 <= k < j ==> #[trigger] column@[k]@ == target[i as int][k],
            decreases 4 - j,
        {
            let coefficients = mix_columns_row(j);
            assert(block@[i as int].deep_view() == g[i as int]);
            let texts = copy_column(&block[i]);
            assert(coefficients@.len() == coefficients.deep_view().len());
            assert(texts@.len() == texts.deep_view().len());
            proof {
                let row = mix_columns_texts()[j as int];
                assert forall|k: int| 0 <= k < 4 implies enc_term_defined(#[trigger] row[k], g[i as int][k]) by {
                    lemma_hex2(1);
                    lemma_hex2(2);
                    assert(hex2(1) =~= seq!['0', '1']);
                    assert(hex2(2) =~= seq!['0', '2']);
                }
            }
            let product = vector_dot_product(coefficients, texts, true);
            column.push(product);
            j = j + 1;
        }
        assert(column.deep_view() =~= target[i as int]);
        result_block.push(column);
        i = i + 1;
    }
    assert(result_block.deep_view() =~= target);
    result_block
}

/// The round keys, each read as a state.
pub open spec fn key_states(ks: Seq<Seq<Seq<Seq<char>>>>) -> Seq<Seq<Seq<u8>>> {
    Seq::new(ks.len(), |i: int| grid_value(ks[i]))
}

/// Eleven round keys at least, each of which AddRoundKey can read.
pub open spec fn round_keys_readable(ks: Seq<Seq<Seq<Seq<char>>>>) -> bool {
    ks.len() >= 11 && forall|i: int| 0 <= i < 11 ==> grid_decodes(#[trigger] ks[i])
}

/// Encrypts one block under the round keys: AddRoundKey with key 0, nine full rounds,
/// then SubBytes, ShiftRows and AddRoundKey with key 10.
pub fn encrypt_block(state: Block, round_keys: &RoundKeys) -> (r: Block)
    requires
        grid_decodes(state.deep_view()),
        round_keys_readable(round_keys.keys.deep_view()),
    ensures
        r.deep_view() == grid_of(
            cipher(grid_value(state.deep_view()), key_states(round_keys.keys.deep_view())),
        ),
{
    let ghost s0 = grid_value(state.deep_view());
    let ghost kg = round_keys.keys.deep_view();
    let ghost ks = key_states(kg);
    assert(round_keys.keys@[0].deep_view() == kg[0]);
    //  Step 0
    let mut state = xor_matrices(copy_block(&round_keys.keys[0]), state);
    //  Step 1 - 9
    let mut i: usize = 1;
    while i < 10
        invariant
            1 <= i <= 10,
            kg == round_keys.keys.deep_view(),
            ks == key_states(kg),
            round_keys_readable(kg),
            state.deep_view() == grid_of(encrypt_rounds(s0, ks, (i - 1) as nat)),
        decreases 10 - i,
    {
        let ghost e = encrypt_rounds(s0, ks, (i - 1) as nat);
        let ghost e1 = sub_state(e);
        let ghost e2 = shift_state(e1);
        let ghost e3 = mix_state(e2);
        assert(sub_block_ok(state.deep_view()) && sub_texts(state.deep_view()) == grid_of(e1)) by {
            lemma_sub_texts(e);
        }
        state = substitute_bytes(state);
        assert(block_4x4(state.deep_view()) && shift_texts(state.deep_view()) == grid_of(e2)) by {
            lemma_shift_texts(e1);
        }
        state = shift_rows(state);
        assert(mix_block_ok(state.deep_view()) && mix_texts(state.deep_view()) == grid_of(e3)) by {
            lemma_mix_texts(e2);
        }
        state = mix_columns(state);
        assert(grid_decodes(state.deep_view()) && grid_value(state.deep_view()) == e3) by {
            lemma_grid_of(e3);
        }
        assert(round_keys.keys@[i as int].deep_view() == kg[i as int]);
        state = xor_matrices(copy_block(&round_keys.keys[i]), state);
        assert(encrypt_rounds(s0, ks, i as nat) == xor_state(ks[i as int], e3));
        i = i + 1;
    }
    //  Step 10
    let ghost e = encrypt_rounds(s0, ks, 9);
    let ghost e1 = sub_state(e);
    let ghost e2 = shift_state(e1);
    assert(sub_block_ok(state.deep_view()) && sub_texts(state.deep_view()) == grid_of(e1)) by {
        lemma_sub_texts(e);
    }
    state = substitute_bytes(state);
    assert(block_4x4(state.deep_view()) && shift_texts(state.deep_view()) == grid_of(e2)) by {
        lemma_shift_texts(e1);
    }
    state = shift_rows(state);
    assert(grid_decodes(state.deep_view()) && grid_value(state.deep_view()) == e2) by {
        lemma_grid_of(e2);
    }
    assert(round_keys.keys@[10].deep_view() == kg[10]);
    xor_matrices(copy_block(&round_keys.keys[10]), state)
}

/// The texts of a column, one after the other.
pub open spec fn join_texts(ts: Seq<Seq<char>>) -> Seq<char>
    decreases ts.len(),
{
    if ts.len() == 0 {
        Seq::empty()
    } else {
        join_texts(ts.drop_last()) + ts.last()
    }
}

/// The texts of a block, column after column.
pub open spec fn join_columns(b: Seq<Seq<Seq<char>>>) -> Seq<char>
    decreases b.len(),
{
    if b.len() == 0 {
        Seq::empty()
    } else {
        join_columns(b.drop_last()) + join_texts(b.last())
    }
}

/// The texts of a sequence of blocks, block after block.
pub open spec fn join_blocks(bs: Seq<Seq<Seq<Seq<char>>>>) -> Seq<char>
    decreases bs.len(),
{
    if bs.len() == 0 {
        Seq::empty()
    } else {
        join_blocks(bs.drop_last()) + join_columns(bs.last())
    }
}

/// All the texts of all the blocks, in order, as one text.
fn cipher_to_string(cipher_states: Vec<Block>) -> (r: String)
    ensures
        r@ == join_blocks(cipher_states.deep_view()),
{
    let ghost bs = cipher_states.deep_view();
    let mut result_string = String::new();
    let mut i: usize = 0;
    assert(bs.subrange(0, 0) =~= Seq::<Seq<Seq<Seq<char>>>>::empty());
    while i < cipher_states.len()
        invariant
            bs == cipher_states.deep_view(),
            i <= bs.len(),
            result_string@ == join_blocks(bs.subrange(0, i as int)),
        decreases bs.len() - i,
    {
        let current = &cipher_states[i];
        let ghost b = bs[i as int];
        assert(current.deep_view() == b);
        let ghost before = result_string@;
        let mut j: usize = 0;
        assert(b.subrange(0, 0) =~= Seq::<Seq<Seq<char>>>::empty());
        while j < current.len()
            invariant
                b == current.deep_view(),
                j <= b.len(),
                result_string@ == before + join_columns(b.subrange(0, j as int)),
            decreases b.len() - j,
        {
            let word = &current[j];
            let ghost w = b[j as int];
            assert(word.deep_view() == w);
            let ghost mid = result_string@;
            let mut n: usize = 0;
            assert(w.subrange(0, 0) =~= Seq::<Seq<char>>::empty());
            while n < word.len()
                invariant
                    w == word.deep_view(),
                    n <= w.len(),
                    result_string@ == mid + join_texts(w.subrange(0, n as int)),
                decreases w.len() - n,
            {
                assert(word@[n as int]@ == w[n as int]);
                result_string.append(word[n].as_str());
                assert(w.subrange(0, n + 1).drop_last() =~= w.subrange(0, n as int));
                assert(result_string@ =~= mid + join_texts(w.subrange(0, n + 1)));
                n = n + 1;
            }
            assert(w.subrange(0, n as int) =~= w);
            assert(b.subrange(0, j + 1).drop_last() =~= b.subrange(0, j as int));
            assert(result_string@ =~= before + join_columns(b.subrange(0, j + 1)));
            j = j + 1;
        }
        assert(b.subrange(0, j as int) =~= b);
        assert(bs.subrange(0, i + 1).drop_last() =~= bs.subrange(0, i as int));
        assert(result_string@ =~= join_blocks(bs.subrange(0, i + 1)));
        i = i + 1;
    }
    assert(bs.subrange(0, i as int) =~= bs);
    result_string
}

/// The texts of a column of two-digit texts, joined, are the text of its bytes.
proof fn lemma_join_texts_hex(col: Seq<u8>)
    ensures
        join_texts(Seq::new(col.len(), |r: int| hex2(col[r]))) == hex_of_bytes(col),
    decreases col.len(),
{
    if col.len() > 0 {
        let c = col.drop_last();
        lemma_join_texts_hex(c);
        assert(Seq::new(col.len(), |r: int| hex2(col[r])).drop_last() =~= Seq::new(
            c.len(),
            |r: int| hex2(c[r]),
        ));
    }
}

/// The texts of the grid of a state, joined column after column, are the text of its
/// 16 bytes.
proof fn lemma_join_state(s: Seq<Seq<u8>>)
    requires
        is_state(s),
    ensures
        join_columns(grid_of(s)) == hex_of_bytes(bytes_of_state(s)),
{
    let g = grid_of(s);
    let g0 = g.subrange(0, 0);
    let g1 = g.subrange(0, 1);
    let g2 = g.subrange(0, 2);
    let g3 = g.subrange(0, 3);
    assert(g.drop_last() =~= g3);
    assert(g3.drop_last() =~= g2);
    assert(g2.drop_last() =~= g1);
    assert(g1.drop_last() =~= g0);
    assert forall|c: int| 0 <= c < 4 implies #[trigger] join_texts(g[c]) == hex_of_bytes(s[c]) by {
        lemma_join_texts_hex(s[c]);
        assert(g[c] =~= Seq::new(s[c].len(), |r: int| hex2(s[c][r])));
    }
    assert(g1.last() == g[0] && g2.last() == g[1] && g3.last() == g[2] && g.last() == g[3]);
    assert(join_columns(g0) == Seq::<char>::empty());
    assert(join_columns(g1) =~= hex_of_bytes(s[0]));
    assert(join_columns(g2) == join_columns(g1) + hex_of_bytes(s[1]));
    assert(join_columns(g3) == join_columns(g2) + hex_of_bytes(s[2]));
    assert(join_columns(g) == join_columns(g3) + hex_of_bytes(s[3]));
    lemma_hex_of_bytes_concat(s[0], s[1]);
    lemma_hex_of_bytes_concat(s[0] + s[1], s[2]);
    lemma_hex_of_bytes_concat(s[0] + s[1] + s[2], s[3]);
}

/// The padded plaintext as bytes.
pub open spec fn padded_bytes(t: Seq<char>) -> Seq<u8> {
    encode_utf8(pad_to_width(t, padded_width(encode_utf8(t).len())))
}

/// The cipher applied to the first `n` blocks of 16 bytes of `data`, the results one
/// after the other.
pub open spec fn ecb_blocks(data: Seq<u8>, ks: Seq<Seq<Seq<u8>>>, n: nat) -> Seq<u8>
    decreases n,
{
    if n == 0 {
        Seq::empty()
    } else {
        ecb_blocks(data, ks, (n - 1) as nat) + bytes_of_state(
            cipher(state_of_bytes(data.subrange((16 * (n - 1)) as int, (16 * n) as int)), ks),
        )
    }
}

/// What [`encrypt`] gives: the padded plaintext's whole blocks of 16 bytes encrypted one
/// by one with AES-128 under the first 16 bytes of the passphrase, as lowercase
/// hexadecimal text.
pub open spec fn encrypt_text(plaintext: Seq<char>, passphrase: Seq<char>) -> Seq<char> {
    let data = padded_bytes(plaintext);
    hex_of_bytes(
        ecb_blocks(data, aes_round_keys(state_of_bytes(encode_utf8(passphrase))), data.len() / 16),
    )
}

/// The joined texts of the encrypted blocks are the text of their bytes.
proof fn lemma_join_cipher_blocks(
    cb: Seq<Seq<Seq<Seq<char>>>>,
    data: Seq<u8>,
    ks: Seq<Seq<Seq<u8>>>,
    n: nat,
)
    requires
        n <= cb.len(),
        16 * cb.len() <= data.len(),
        forall|i: int|
            0 <= i < cb.len() ==> #[trigger] cb[i] == grid_of(
                cipher(state_of_bytes(data.subrange(16 * i, 16 * i + 16)), ks),
            ),
    ensures
        join_blocks(cb.subrange(0, n as int)) == hex_of_bytes(ecb_blocks(data, ks, n)),
    decreases n,
{
    if n == 0 {
        assert(cb.subrange(0, 0) =~= Seq::<Seq<Seq<Seq<char>>>>::empty());
    } else {
        let m = (n - 1) as nat;
        lemma_join_cipher_blocks(cb, data, ks, m);
        assert(cb.subrange(0, n as int).drop_last() =~= cb.subrange(0, m as int));
        let st = cipher(state_of_bytes(data.subrange((16 * m) as int, (16 * m + 16) as int)), ks);
        assert(cb[m as int] == grid_of(st));
        lemma_join_state(st);
        lemma_hex_of_bytes_concat(ecb_blocks(data, ks, m), bytes_of_state(st));
    }
}

/// Encrypts a plaintext under a passphrase: pads it (see [`normalize`]), builds the key
/// from the first 16 bytes of the passphrase, and encrypts each whole block of 16 bytes
/// of the padded plaintext with AES-128, writing the results one after the other as
/// lowercase hexadecimal text.
#[verifier::rlimit(40)]
pub fn encrypt(plaintext: &String, passphrase: &String) -> (r: String)
    requires
        encode_utf8(plaintext@).len() < usize::MAX / 2,
        encode_utf8(passphrase@).len() >= 16,
    ensures
        r@ == encrypt_text(plaintext@, passphrase@),
{
    let ghost data = padded_bytes(plaintext@);
    let ghost pass = encode_utf8(passphrase@);
    //  Pad plaintext
    let normalized_plaintext = normalize(plaintext);
    proof {
        lemma_hex_of_bytes_chars(data);
        lemma_state_grid_of_bytes(pass);
        lemma_hex_of_bytes_chars(pass);
    }
    //  Create state
    let key: Block = divide_into_state(hex_encode(passphrase.as_str().as_bytes()));
    let ghost kg = key.deep_view();
    let mut keys: Vec<Block> = Vec::new();
    keys.push(key);
    let mut round_keys = RoundKeys { keys };
    proof {
        assert(round_keys.keys.deep_view()[0] == kg);
    }
    round_keys.generate();
    let ghost rk = aes_round_keys(state_of_bytes(pass));
    proof {
        let kv = round_keys.keys.deep_view();
        assert(kv.subrange(0, 1)[0] == kv[0]);
        lemma_expansion_is_schedule(kv, kg);
        assert forall|i: int| 0 <= i < 11 implies grid_decodes(#[trigger] kv[i]) by {
            if i > 0 {
                assert(kv[1 + (i - 1)] == grid_of(next_key(grid_value(kv[i - 1]), (i - 1) as nat)));
                lemma_grid_of(next_key(grid_value(kv[i - 1]), (i - 1) as nat));
            }
        }
        assert(key_states(kv) =~= rk);
    }
    let length = normalized_plaintext.as_str().unicode_len();
    let num_blocks = length / 32;
    let mut blocks: Vec<Block> = Vec::new();
    let mut i: usize = 0;
    while i < num_blocks
        invariant
            normalized_plaintext@ == hex_of_bytes(data),
            hex_of_bytes(data).len() == 2 * data.len(),
            length == 2 * data.len(),
            num_blocks == length / 32,
            i <= num_blocks,
            blocks@.len() == i,
            forall|k: int|
                0 <= k < i ==> #[trigger] blocks.deep_view()[k] == grid_of(
                    state_of_bytes(data.subrange(16 * k, 16 * k + 16)),
                ),
        decreases num_blocks - i,
    {
        assert((i + 1) * 32 <= length) by (nonlinear_arith)
            requires
                i < num_blocks,
                num_blocks == length / 32,
        ;
        let left = i * 32;
        let right = (i + 1) * 32;
        let next = normalized_plaintext.as_str().substring_char(left, right);
        proof {
            lemma_hex_of_bytes_subrange(data, 16 * i, 16 * i + 16);
            lemma_state_grid_of_bytes(data.subrange(16 * i, 16 * i + 16));
            lemma_hex_of_bytes_chars(data.subrange(16 * i, 16 * i + 16));
        }
        let ghost before = blocks.deep_view();
        let block = divide_into_state(next.to_owned());
        blocks.push(block);
        proof {
            assert(next@ == hex_of_bytes(data).subrange(2 * (16 * i), 2 * (16 * i + 16)));
            assert forall|k: int| 0 <= k <= i implies #[trigger] blocks.deep_view()[k] == grid_of(
                state_of_bytes(data.subrange(16 * k, 16 * k + 16)),
            ) by {
                if k < i {
                    assert(blocks.deep_view()[k] == before[k]);
                }
            }
        }
        i = i + 1;
    }
    let mut cipher_blocks: Vec<Block> = Vec::new();
    let mut i: usize = 0;
    while i < num_blocks
        invariant
            i <= num_blocks,
            blocks@.len() == num_blocks,
            16 * num_blocks <= data.len(),
            forall|k: int|
                0 <= k < num_blocks ==> #[trigger] blocks.deep_view()[k] == grid_of(
                    state_of_bytes(data.subrange(16 * k, 16 * k + 16)),
                ),
            round_keys_readable(round_keys.keys.deep_view()),
            key_states(round_keys.keys.deep_view()) == rk,
            cipher_blocks@.len() == i,
            forall|k: int|
                0 <= k < i ==> #[trigger] cipher_blocks.deep_view()[k] == grid_of(
                    cipher(state_of_bytes(data.subrange(16 * k, 16 * k + 16)), rk),
                ),
        decreases num_blocks - i,
    {
        assert(blocks@[i as int].deep_view() == blocks.deep_view()[i as int]);
        let state = copy_block(&blocks[i]);
        proof {
            lemma_grid_of(state_of_bytes(data.subrange(16 * i, 16 * i + 16)));
            assert(state_of_bytes(data.subrange(16 * i, 16 * i + 16)).len() == 4);
        }
        let ghost before = cipher_blocks.deep_view();
        let encrypted = encrypt_block(state, &round_keys);
        cipher_blocks.push(encrypted);
        proof {
            assert forall|k: int| 0 <= k <= i implies #[trigger] cipher_blocks.deep_view()[k]
                == grid_of(cipher(state_of_bytes(data.subrange(16 * k, 16 * k + 16)), rk)) by {
                if k < i {
                    assert(cipher_blocks.deep_view()[k] == before[k]);
                }
            }
        }
        i = i + 1;
    }
    proof {
        let cb = cipher_blocks.deep_view();
        lemma_join_cipher_blocks(cb, data, rk, num_blocks as nat);
        assert(cb.subrange(0, num_blocks as int) =~= cb);
    }
    cipher_to_string(cipher_blocks)
}

} // verus!
