//! Decryption: the equivalent inverse cipher of AES-128 on blocks of hexadecimal texts.
use vstd::prelude::*;
use vstd::string::*;
use crate::constants::{inv_mix_columns_row, inv_mix_columns_texts};
use crate::encrypt::{
    block_4x4, copy_block, copy_column, key_states, lemma_sbox_text_index, rotate_right_texts,
    round_keys_readable, sbox_index, sbox_text_index, sbox_text_ok, sub_block_ok, transpose,
};
use crate::gf::{gf_mul, inv_sbox, inv_sbox_lookup};
use crate::hexfmt::{byte_hex, cell_byte, hex2, hex_of_bytes, lemma_hex2, lemma_hex_of_bytes_chars};
use vstd::utf8::encode_utf8;
use crate::key::{lemma_expansion_is_schedule, RoundKeys};
use crate::model::{
    aes_round_keys, decrypt_rounds, grid_decodes, grid_of, grid_value, inv_cipher, inv_mix_matrix,
    inv_mix_state, inv_shift_state, inv_sub_state, is_state, lemma_grid_of, next_key,
    row_times_column, state_of_bytes, xor_state,
};
use crate::utils::{
    dec_coefficient, divide_into_state, dot_value, hex_encode, lemma_state_grid_of_bytes,
    lemma_xor_bytes_i64, state_grid, term_value, vector_dot_product, xor_matrices, Block,
};

verus! {

/// The texts that InvShiftRows writes: text `j` of column `i` comes from column `i - j`.
pub open spec fn inv_shift_texts(g: Seq<Seq<Seq<char>>>) -> Seq<Seq<Seq<char>>> {
    Seq::new(4, |i: int| Seq::new(4, |j: int| g[(i - j + 4) % 4][j]))
}

/// On the grid of a state, InvShiftRows writes the grid of InvShiftRows of the state.
pub proof fn lemma_inv_shift_texts(s: Seq<Seq<u8>>)
    requires
        is_state(s),
    ensures
        block_4x4(grid_of(s)),
        inv_shift_texts(grid_of(s)) == grid_of(inv_shift_state(s)),
{
    assert forall|i: int| 0 <= i < 4 implies #[trigger] inv_shift_texts(grid_of(s))[i] =~= grid_of(
        inv_shift_state(s),
    )[i] by {}
    assert(inv_shift_texts(grid_of(s)) =~= grid_of(inv_shift_state(s)));
}

/// InvShiftRows: row `j` (the texts at place `j` of each column) moves `j` columns to
/// the right, cyclically.
fn inv_shift_rows(block: Block) -> (r: Block)
    requires
        block_4x4(block.deep_view()),
    ensures
        r.deep_view() == inv_shift_texts(block.deep_view()),
{
    let ghost g = block.deep_view();
    //  Create new block to have the state block row wise rather than
    //  column wise
    assert(block@.len() == g.len());
    assert(forall|i: int| 0 <= i < 4 ==> #[trigger] block@[i]@.len() == g[i].len());
    let temp_block_rows = transpose(&block);
    assert(temp_block_rows@.len() == temp_block_rows.deep_view().len());
    //  Rotate right
    let mut rotated: Block = Vec::new();
    let mut i: usize = 0;
    while i < 4
        invariant
            i <= 4,
            temp_block_rows.deep_view() == Seq::new(4, |j: int| Seq::new(4, |c: int| g[c][j])),
            temp_block_rows@.len() == 4,
            rotated@.len() == i,
            forall|k: int|
                0 <= k < i ==> #[trigger] rotated@[k].deep_view() == Seq::new(
                    4,
                    |c: int| g[(c - k + 4) % 4][k],
                ),
        decreases 4 - i,
    {
        assert(temp_block_rows@[i as int].deep_view() == temp_block_rows.deep_view()[i as int]);
        let row = rotate_right_texts(&temp_block_rows[i], i);
        assert(row.deep_view() =~= Seq::new(4, |c: int| g[(c - i + 4) % 4][i as int]));
        rotated.push(row);
        i = i + 1;
    }
    //  Create new block and fill words column wise
    assert(forall|k: int| 0 <= k < 4 ==> #[trigger] rotated@[k]@.len() == rotated@[k].deep_view().len());
    let result_block = transpose(&rotated);
    proof {
        let target = inv_shift_texts(g);
        assert forall|i: int| 0 <= i < 4 implies #[trigger] result_block.deep_view()[i] =~= target[i] by {
            assert forall|j: int| 0 <= j < 4 implies result_block.deep_view()[i][j] == target[i][j] by {
                assert(rotated@[j].deep_view()[i] == g[(i - j + 4) % 4][j]);
            }
        }
        assert(result_block.deep_view() =~= target);
    }
    result_block
}

/// The texts that InvSubBytes writes: a 4x4 block whose text `w` of column `j` is the
/// two-digit text of the inverse S-box image of the text there, or empty where there
/// was none.
pub open spec fn inv_sub_texts(g: Seq<Seq<Seq<char>>>) -> Seq<Seq<Seq<char>>> {
    Seq::new(
        4,
        |j: int|
            Seq::new(
                4,
                |w: int|
                    if w < g[j].len() {
                        hex2(inv_sbox(sbox_text_index(g[j][w])))
                    } else {
                        Seq::empty()
                    },
            ),
    )
}

/// On the grid of a state, InvSubBytes writes the grid of InvSubBytes of the state.
pub proof fn lemma_inv_sub_texts(s: Seq<Seq<u8>>)
    requires
        is_state(s),
    ensures
        sub_block_ok(grid_of(s)),
        inv_sub_texts(grid_of(s)) == grid_of(inv_sub_state(s)),
{
    let g = grid_of(s);
    assert forall|i: int, w: int| 0 <= i < 4 && 0 <= w < 4 implies sbox_text_ok(#[trigger] g[i][w])
        && sbox_text_index(g[i][w]) == s[i][w] by {
        lemma_sbox_text_index(s[i][w]);
    }
    assert forall|i: int| 0 <= i < 4 implies #[trigger] inv_sub_texts(g)[i] =~= grid_of(
        inv_sub_state(s),
    )[i] by {}
    assert(inv_sub_texts(g) =~= grid_of(inv_sub_state(s)));
}

/// InvSubBytes: every text replaced by the two-digit text of its inverse S-box image.
fn inv_substitute_bytes(block: Block) -> (r: Block)
    requires
        sub_block_ok(block.deep_view()),
    ensures
        r.deep_view() == inv_sub_texts(block.deep_view()),
{
    let ghost g = block.deep_view();
    let ghost target = inv_sub_texts(g);
    let mut result_block: Block = Vec::new();
    let mut j: usize = 0;
    while j < 4
        invariant
            j <= 4,
            g == block.deep_view(),
            sub_block_ok(g),
            target == inv_sub_texts(g),
            result_block@.len() == j,
            forall|k: int| 0 <= k < j ==> #[trigger] result_block@[k].deep_view() == target[k],
        decreases 4 - j,
    {
        assert(block@[j as int].deep_view() == g[j as int]);
        let column = &block[j];
        let mut sub_vect: Vec<String> = Vec::new();
        let mut word_index: usize = 0;
        while word_index < column.len()
            invariant
                j < 4,
                word_index <= column@.len(),
                column.deep_view() == g[j as int],
                g == block.deep_view(),
                sub_block_ok(g),
                target == inv_sub_texts(g),
                sub_vect@.len() == word_index,
                forall|k: int| 0 <= k < word_index ==> #[trigger] sub_vect@[k]@ == target[j as int][k],
            decreases column@.len() - word_index,
        {
            let word = column[word_index].as_str();
            assert(word@ == g[j as int][word_index as int]);
            // Populate indices and retrieve value from the inverse SBOX
            let value = inv_sbox_lookup(sbox_index(word));
            sub_vect.push(byte_hex(value));
            word_index = word_index + 1;
        }
        while word_index < 4
            invariant
                j < 4,
                column@.len() <= word_index <= 4,
                column.deep_view() == g[j as int],
                target == inv_sub_texts(g),
                sub_vect@.len() == word_index,
                forall|k: int| 0 <= k < word_index ==> #[trigger] sub_vect@[k]@ == target[j as int][k],
            decreases 4 - word_index,
        {
            sub_vect.push(String::new());
            word_index = word_index + 1;
        }
        assert(sub_vect.deep_view() =~= target[j as int]);
        result_block.push(sub_vect);
        j = j + 1;
    }
    assert(result_block.deep_view() =~= target);
    result_block
}

/// The InvMixColumns products on texts are the products in GF(2^8).
proof fn lemma_inv_mix_terms(j: int, texts: Seq<Seq<char>>)
    requires
        0 <= j < 4,
        texts.len() >= 4,
    ensures
        dot_value(inv_mix_columns_texts()[j], texts, false) == row_times_column(
            inv_mix_matrix()[j],
            Seq::new(4, |k: int| cell_byte(texts[k])),
        ) as i64,
{
    let row = inv_mix_columns_texts()[j];
    let coefficients = inv_mix_matrix()[j];
    let column = Seq::new(4, |k: int| cell_byte(texts[k]));
    assert forall|k: int| 0 <= k < 4 implies term_value(#[trigger] row[k], texts[k], false) == gf_mul(
        coefficients[k],
        column[k],
    ) as i64 by {
        assert(dec_coefficient(row[k]) == coefficients[k]);
    }
    let t0 = gf_mul(coefficients[0], column[0]);
    let t1 = gf_mul(coefficients[1], column[1]);
    let t2 = gf_mul(coefficients[2], column[2]);
    let t3 = gf_mul(coefficients[3], column[3]);
    lemma_xor_bytes_i64(t0, t1);
    lemma_xor_bytes_i64(t2, t3);
    lemma_xor_bytes_i64(t0 ^ t1, t2 ^ t3);
}

/// InvMixColumns: each column multiplied by the inverse matrix, every product computed
/// on the texts by [`vector_dot_product`].
fn inv_mix_columns(block: Block) -> (r: Block)
    requires
        grid_decodes(block.deep_view()),
    ensures
        r.deep_view() == grid_of(inv_mix_state(grid_value(block.deep_view()))),
{
    let ghost g = block.deep_view();
    let ghost s = grid_value(g);
    let ghost target = grid_of(inv_mix_state(s));
    let mut result_block: Block = Vec::new();
    let mut i: usize = 0;
    while i < 4
        invariant
            i <= 4,
            g == block.deep_view(),
            s == grid_value(g),
            grid_decodes(g),
            target == grid_of(inv_mix_state(s)),
            result_block@.len() == i,
            forall|k: int| 0 <= k < i ==> #[trigger] result_block@[k].deep_view() == target[k],
        decreases 4 - i,
    {
        let mut column: Vec<String> = Vec::new();
        let mut j: usize = 0;
        while j < 4
            invariant
                i < 4,
                j <= 4,
                g == block.deep_view(),
                s == grid_value(g),
                grid_decodes(g),
                target == grid_of(inv_mix_state(s)),
                column@.len() == j,
                forall|k: int| 0 <= k < j ==> #[trigger] column@[k]@ == target[i as int][k],
            decreases 4 - j,
        {
            let coefficients = inv_mix_columns_row(j);
            assert(block@[i as int].deep_view() == g[i as int]);
            let texts = copy_column(&block[i]);
            assert(coefficients@.len() == coefficients.deep_view().len());
            assert(texts@.len() == texts.deep_view().len());
            proof {
                lemma_inv_mix_terms(j as int, g[i as int]);
                assert(Seq::new(4, |k: int| cell_byte(g[i as int][k])) =~= s[i as int]);
                lemma_hex2(row_times_column(inv_mix_matrix()[j as int], s[i as int]));
            }
            let product = vector_dot_product(coefficients, texts, false);
            column.push(product);
            j = j + 1;
        }
        assert(column.deep_view() =~= target[i as int]);
        result_block.push(column);
        i = i + 1;
    }
    assert(result_block.deep_view() =~= target);
    result_block
}

/// The six blocks that a middle round of decryption, with round key `i` (9 down to 1),
/// goes through: the state it starts from, after InvSubBytes, after InvShiftRows, after
/// InvMixColumns, the round key passed through InvMixColumns, and the state after
/// AddRoundKey with it.
pub open spec fn decrypt_round_trace(c: Seq<Seq<u8>>, keys: Seq<Seq<Seq<u8>>>, i: nat) -> Seq<
    Seq<Seq<Seq<char>>>,
> {
    let x = decrypt_rounds(c, keys, i + 1);
    let x1 = inv_sub_state(x);
    let x2 = inv_shift_state(x1);
    seq![
        grid_of(x),
        grid_of(x1),
        grid_of(x2),
        grid_of(inv_mix_state(x2)),
        grid_of(inv_mix_state(keys[i as int])),
        grid_of(decrypt_rounds(c, keys, i)),
    ]
}

/// The blocks that decryption goes through in its first `n` middle rounds, after the
/// last round key `k10` that it starts with.
pub open spec fn decrypt_trace_rounds(
    c: Seq<Seq<u8>>,
    keys: Seq<Seq<Seq<u8>>>,
    k10: Seq<Seq<Seq<char>>>,
    n: nat,
) -> Seq<Seq<Seq<Seq<char>>>>
    decreases n,
{
    if n == 0 {
        seq![k10]
    } else {
        decrypt_trace_rounds(c, keys, k10, (n - 1) as nat) + decrypt_round_trace(
            c,
            keys,
            (10 - n) as nat,
        )
    }
}

/// Every block that decryption goes through, in order: the last round key, the six
/// blocks of each of the nine middle rounds (see [`decrypt_round_trace`]), then the state
/// after InvSubBytes and after InvShiftRows of the final round, and the first round key
/// `k0` that is added last.
pub open spec fn decrypt_trace(
    c: Seq<Seq<u8>>,
    keys: Seq<Seq<Seq<u8>>>,
    k10: Seq<Seq<Seq<char>>>,
    k0: Seq<Seq<Seq<char>>>,
) -> Seq<Seq<Seq<Seq<char>>>> {
    let x1 = inv_sub_state(decrypt_rounds(c, keys, 1));
    decrypt_trace_rounds(c, keys, k10, 9) + seq![grid_of(x1), grid_of(inv_shift_state(x1)), k0]
}

/// Decrypts one block under the round keys with the equivalent inverse cipher, and
/// gives with the result every block that it went through (see [`decrypt_trace`]):
/// AddRoundKey with key 10; for keys 9 down to 1 InvSubBytes, InvShiftRows,
/// InvMixColumns and AddRoundKey with the key passed through InvMixColumns; then
/// InvSubBytes, InvShiftRows and AddRoundKey with key 0.
pub fn decrypt_block_traced(state: Block, round_keys: &RoundKeys) -> (r: (Block, Vec<Block>))
    requires
        grid_decodes(state.deep_view()),
        round_keys_readable(round_keys.keys.deep_view()),
    ensures
        r.0.deep_view() == grid_of(
            inv_cipher(grid_value(state.deep_view()), key_states(round_keys.keys.deep_view())),
        ),
        r.1.deep_view() == decrypt_trace(
            grid_value(state.deep_view()),
            key_states(round_keys.keys.deep_view()),
            round_keys.keys.deep_view()[10],
            round_keys.keys.deep_view()[0],
        ),
{
    let ghost c0 = grid_value(state.deep_view());
    let ghost kg = round_keys.keys.deep_view();
    let ghost ks = key_states(kg);
    let mut trace: Vec<Block> = Vec::new();
    let mut i: usize = 10;
    //  Step 0
    assert(round_keys.keys@[10].deep_view() == kg[10]);
    trace.push(copy_block(&round_keys.keys[i]));
    let mut state = xor_matrices(copy_block(&round_keys.keys[i]), state);
    i = i - 1;
    proof {
        assert(trace.deep_view() =~= decrypt_trace_rounds(c0, ks, kg[10], 0));
    }
    //  Step 1 - 9
    while i > 0
        invariant
            i <= 9,
            kg == round_keys.keys.deep_view(),
            ks == key_states(kg),
            round_keys_readable(kg),
            state.deep_view() == grid_of(decrypt_rounds(c0, ks, (i + 1) as nat)),
            trace.deep_view() == decrypt_trace_rounds(c0, ks, kg[10], (9 - i) as nat),
        decreases i,
    {
        let ghost before = trace.deep_view();
        let ghost x = decrypt_rounds(c0, ks, (i + 1) as nat);
        let ghost x1 = inv_sub_state(x);
        let ghost x2 = inv_shift_state(x1);
        let ghost x3 = inv_mix_state(x2);
        trace.push(copy_block(&state));
        assert(sub_block_ok(state.deep_view()) && inv_sub_texts(state.deep_view()) == grid_of(x1)) by {
            lemma_inv_sub_texts(x);
        }
        state = inv_substitute_bytes(state);
        trace.push(copy_block(&state));
        assert(block_4x4(state.deep_view()) && inv_shift_texts(state.deep_view()) == grid_of(x2)) by {
            lemma_inv_shift_texts(x1);
        }
        state = inv_shift_rows(state);
        trace.push(copy_block(&state));
        assert(grid_decodes(state.deep_view()) && grid_value(state.deep_view()) == x2) by {
            lemma_grid_of(x2);
        }
        state = inv_mix_columns(state);
        trace.push(copy_block(&state));
        assert(grid_decodes(state.deep_view()) && grid_value(state.deep_view()) == x3) by {
            lemma_grid_of(x3);
        }
        assert(round_keys.keys@[i as int].deep_view() == kg[i as int]);
        let keyn = inv_mix_columns(copy_block(&round_keys.keys[i]));
        trace.push(copy_block(&keyn));
        proof {
            lemma_grid_of(inv_mix_state(ks[i as int]));
        }
        state = xor_matrices(keyn, state);
        trace.push(copy_block(&state));
        assert(decrypt_rounds(c0, ks, i as nat) == xor_state(inv_mix_state(ks[i as int]), x3));
        proof {
            let n = (10 - i) as nat;
            assert(decrypt_trace_rounds(c0, ks, kg[10], n) == before + decrypt_round_trace(
                c0,
                ks,
                i as nat,
            ));
            assert(trace.deep_view() =~= decrypt_trace_rounds(c0, ks, kg[10], n));
        }
        i = i - 1;
    }
    //  Step 10
    let ghost before = trace.deep_view();
    let ghost x = decrypt_rounds(c0, ks, 1);
    let ghost x1 = inv_sub_state(x);
    let ghost x2 = inv_shift_state(x1);
    assert(sub_block_ok(state.deep_view()) && inv_sub_texts(state.deep_view()) == grid_of(x1)) by {
        lemma_inv_sub_texts(x);
    }
    state = inv_substitute_bytes(state);
    trace.push(copy_block(&state));
    assert(block_4x4(state.deep_view()) && inv_shift_texts(state.deep_view()) == grid_of(x2)) by {
        lemma_inv_shift_texts(x1);
    }
    state = inv_shift_rows(state);
    trace.push(copy_block(&state));
    assert(grid_decodes(state.deep_view()) && grid_value(state.deep_view()) == x2) by {
        lemma_grid_of(x2);
    }
    assert(round_keys.keys@[0].deep_view() == kg[0]);
    trace.push(copy_block(&round_keys.keys[0]));
    proof {
        assert(trace.deep_view() =~= decrypt_trace(c0, ks, kg[10], kg[0]));
    }
    (xor_matrices(copy_block(&round_keys.keys[0]), state), trace)
}

/// Decrypts one block under the round keys with the equivalent inverse cipher (see
/// [`decrypt_block_traced`]).
pub fn decrypt_block(state: Block, round_keys: &RoundKeys) -> (r: Block)
    requires
        grid_decodes(state.deep_view()),
        round_keys_readable(round_keys.keys.deep_view()),
    ensures
        r.deep_view() == grid_of(
            inv_cipher(grid_value(state.deep_view()), key_states(round_keys.keys.deep_view())),
        ),
{
    let (result, _trace) = decrypt_block_traced(state, round_keys);
    result
}

/// Decrypts the block that the ciphertext is cut into (read as pairs of hexadecimal
/// digits, four pairs to a column; see [`divide_into_state`]) under the key of the first
/// 16 bytes of the passphrase, as [`encrypt`](crate::encrypt::encrypt) builds it, and
/// gives with the result every block that it went through (see [`decrypt_trace`]).
pub fn decrypt_traced(ciphertext: &String, passphrase: &String) -> (r: (Block, Vec<Block>))
    requires
        ciphertext@.len() % 2 == 0,
        grid_decodes(state_grid(ciphertext@)),
        encode_utf8(passphrase@).len() >= 16,
    ensures
        r.0.deep_view() == grid_of(
            inv_cipher(
                grid_value(state_grid(ciphertext@)),
                aes_round_keys(state_of_bytes(encode_utf8(passphrase@))),
            ),
        ),
        r.1.deep_view() == decrypt_trace(
            grid_value(state_grid(ciphertext@)),
            aes_round_keys(state_of_bytes(encode_utf8(passphrase@))),
            grid_of(aes_round_keys(state_of_bytes(encode_utf8(passphrase@)))[10]),
            state_grid(hex_of_bytes(encode_utf8(passphrase@))),
        ),
{
    let ghost pass = encode_utf8(passphrase@);
    let ghost rk = aes_round_keys(state_of_bytes(pass));
    let state: Block = divide_into_state(ciphertext.clone());
    proof {
        lemma_state_grid_of_bytes(pass);
        lemma_hex_of_bytes_chars(pass);
    }
    let key: Block = divide_into_state(hex_encode(passphrase.as_str().as_bytes()));
    let ghost kg = key.deep_view();
    let mut keys: Vec<Block> = Vec::new();
    keys.push(key);
    let mut round_keys = RoundKeys { keys };
    proof {
        assert(round_keys.keys.deep_view()[0] == kg);
    }
    round_keys.generate();
    proof {
        let kv = round_keys.keys.deep_view();
        assert(kv.subrange(0, 1)[0] == kv[0]);
        lemma_expansion_is_schedule(kv, kg);
        assert forall|i: int| 0 <= i < 11 implies grid_decodes(#[trigger] kv[i]) by {
            if i > 0 {
                assert(kv[1 + (i - 1)] == grid_of(next_key(grid_value(kv[i - 1]), (i - 1) as nat)));
                lemma_grid_of(next_key(grid_value(kv[i - 1]), (i - 1) as nat));
            }
        }
        assert(key_states(kv) =~= rk);
        let last: int = 9;
        assert(kv[1 + last] == grid_of(next_key(grid_value(kv[last]), last as nat)));
        assert(grid_value(kv[10]) == rk[10]);
    }
    decrypt_block_traced(state, &round_keys)
}

/// Decrypts the block that the ciphertext is cut into (read as pairs of hexadecimal
/// digits, four pairs to a column; see [`divide_into_state`]) under the key of the first
/// 16 bytes of the passphrase, as [`encrypt`](crate::encrypt::encrypt) builds it.
pub fn decrypt(ciphertext: &String, passphrase: &String) -> (r: Block)
    requires
        ciphertext@.len() % 2 == 0,
        grid_decodes(state_grid(ciphertext@)),
        encode_utf8(passphrase@).len() >= 16,
    ensures
        r.deep_view() == grid_of(
            inv_cipher(
                grid_value(state_grid(ciphertext@)),
                aes_round_keys(state_of_bytes(encode_utf8(passphrase@))),
            ),
        ),
{
    let (result, _trace) = decrypt_traced(ciphertext, passphrase);
    result
}

} // verus!
