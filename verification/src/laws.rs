//! Properties of the library as a whole, proved over the contracts of its functions.
use vstd::prelude::*;
use vstd::utf8::{encode_utf8, is_ascii_chars, is_ascii_chars_encode_utf8};
use crate::decrypt::{inv_shift_texts, inv_sub_texts, lemma_inv_shift_texts, lemma_inv_sub_texts};
use crate::encrypt::{
    block_4x4, ecb_blocks, encrypt_text, join_columns, join_texts, key_states, lemma_mix_texts, lemma_sub_texts,
    mix_block_ok, mix_texts, padded_bytes, round_keys_readable, shift_texts, sub_block_ok,
    sub_texts,
};
use crate::hexfmt::{
    cell_byte, decodes, hex2, hex_of_bytes, hex_value, lemma_hex2, lemma_hex_of_bytes_chars,
    lemma_hex_of_one_byte, prefix_cut_ok, prefix_value, same_ignoring_case, texts_same_ignoring_case,
};
use crate::model::{
    aes_round_keys, bytes_of_state, cipher, grid_decodes, grid_of, grid_value, inv_cipher,
    inv_mix_state, inv_sub_state, is_hex_grid, is_state, lemma_grid_of, lemma_hex_grid,
    lemma_inv_cipher_cipher, lemma_inv_mix_state, lemma_inv_mix_xor, lemma_inv_sub_state, lemma_mix_inv_mix_state,
    lemma_sub_inv_sub_state, lemma_xor_cancel, mix_state, state_of_bytes, sub_state, xor_state,
};
use crate::utils::{
    chunk_rows, lemma_state_grid_of_bytes, normalize_text, pad_to_width, padded_width, state_grid,
    text_pairs,
};

verus! {

/// Decryption undoes encryption: the block that `decrypt_block` gives for what
/// `encrypt_block` gave for a block of two-digit texts, under the same round keys, is
/// that block.
pub proof fn law_decrypt_block_undoes_encrypt_block(
    block: Seq<Seq<Seq<char>>>,
    keys: Seq<Seq<Seq<Seq<char>>>>,
)
    requires
        is_hex_grid(block),
        round_keys_readable(keys),
    ensures
        grid_of(
            inv_cipher(
                grid_value(grid_of(cipher(grid_value(block), key_states(keys)))),
                key_states(keys),
            ),
        ) == block,
{
    let ks = key_states(keys);
    lemma_hex_grid(block);
    let s = grid_value(block);
    assert(is_state(s));
    lemma_grid_of(cipher(s, ks));
    lemma_inv_cipher_cipher(s, ks);
}

/// AddRoundKey with the same key twice gives back the block: `xor_matrices(k,
/// xor_matrices(k, b))` is `b` for a block of two-digit texts.
pub proof fn law_xor_matrices_twice(key: Seq<Seq<Seq<char>>>, block: Seq<Seq<Seq<char>>>)
    requires
        is_hex_grid(block),
    ensures
        grid_of(xor_state(grid_value(key), grid_value(grid_of(xor_state(grid_value(key), grid_value(block))))))
            == block,
{
    lemma_hex_grid(block);
    let s = grid_value(block);
    lemma_grid_of(xor_state(grid_value(key), s));
    lemma_xor_cancel(grid_value(key), s);
}

/// SubBytes and InvSubBytes undo each other on a block of two-digit texts: each may be
/// applied to what the other wrote, and gives the block back.
pub proof fn law_substitute_bytes_inverse(block: Seq<Seq<Seq<char>>>)
    requires
        is_hex_grid(block),
    ensures
        sub_block_ok(block),
        sub_block_ok(sub_texts(block)),
        inv_sub_texts(sub_texts(block)) == block,
        sub_block_ok(inv_sub_texts(block)),
        sub_texts(inv_sub_texts(block)) == block,
{
    lemma_hex_grid(block);
    let s = grid_value(block);
    assert(is_state(s));
    lemma_sub_texts(s);
    lemma_inv_sub_texts(sub_state(s));
    lemma_inv_sub_state(s);
    lemma_inv_sub_texts(s);
    lemma_sub_texts(inv_sub_state(s));
    lemma_sub_inv_sub_state(s);
}

/// ShiftRows and InvShiftRows undo each other on any block of four columns of four
/// texts.
pub proof fn law_shift_rows_inverse(block: Seq<Seq<Seq<char>>>)
    requires
        block.len() == 4,
        forall|i: int| 0 <= i < 4 ==> #[trigger] block[i].len() == 4,
    ensures
        block_4x4(block),
        block_4x4(shift_texts(block)),
        inv_shift_texts(shift_texts(block)) == block,
        block_4x4(inv_shift_texts(block)),
        shift_texts(inv_shift_texts(block)) == block,
{
    assert forall|i: int| 0 <= i < 4 implies #[trigger] inv_shift_texts(shift_texts(block))[i]
        =~= block[i] by {
        assert forall|j: int| 0 <= j < 4 implies inv_shift_texts(shift_texts(block))[i][j]
            == block[i][j] by {
            let k = (i - j + 4) % 4;
            assert((k + j) % 4 == i);
        }
    }
    assert(inv_shift_texts(shift_texts(block)) =~= block);
    assert forall|i: int| 0 <= i < 4 implies #[trigger] shift_texts(inv_shift_texts(block))[i]
        =~= block[i] by {
        assert forall|j: int| 0 <= j < 4 implies shift_texts(inv_shift_texts(block))[i][j]
            == block[i][j] by {
            let k = (i + j) % 4;
            assert((k - j + 4) % 4 == i);
        }
    }
    assert(shift_texts(inv_shift_texts(block)) =~= block);
}

/// MixColumns and InvMixColumns undo each other on a block of two-digit texts: each may
/// be applied to what the other wrote, and gives the block back.
pub proof fn law_mix_columns_inverse(block: Seq<Seq<Seq<char>>>)
    requires
        is_hex_grid(block),
    ensures
        mix_block_ok(block),
        grid_decodes(mix_texts(block)),
        grid_of(inv_mix_state(grid_value(mix_texts(block)))) == block,
        grid_decodes(block),
        mix_block_ok(grid_of(inv_mix_state(grid_value(block)))),
        mix_texts(grid_of(inv_mix_state(grid_value(block)))) == block,
{
    lemma_hex_grid(block);
    let s = grid_value(block);
    assert(is_state(s));
    lemma_mix_texts(s);
    lemma_grid_of(mix_state(s));
    lemma_inv_mix_state(s);
    lemma_grid_of(inv_mix_state(s));
    lemma_mix_texts(inv_mix_state(s));
    lemma_mix_inv_mix_state(s);
}

/// InvMixColumns distributes over AddRoundKey on blocks of texts: InvMixColumns of
/// `xor_matrices(a, b)` is `xor_matrices` of InvMixColumns of `a` and of `b`.
pub proof fn law_inv_mix_columns_xor(a: Seq<Seq<Seq<char>>>, b: Seq<Seq<Seq<char>>>)
    requires
        grid_decodes(a),
        grid_decodes(b),
    ensures
        grid_decodes(grid_of(xor_state(grid_value(a), grid_value(b)))),
        grid_decodes(grid_of(inv_mix_state(grid_value(a)))),
        grid_decodes(grid_of(inv_mix_state(grid_value(b)))),
        grid_of(inv_mix_state(grid_value(grid_of(xor_state(grid_value(a), grid_value(b))))))
            == grid_of(
            xor_state(
                grid_value(grid_of(inv_mix_state(grid_value(a)))),
                grid_value(grid_of(inv_mix_state(grid_value(b)))),
            ),
        ),
{
    let sa = grid_value(a);
    let sb = grid_value(b);
    lemma_grid_of(xor_state(sa, sb));
    lemma_grid_of(inv_mix_state(sa));
    lemma_grid_of(inv_mix_state(sb));
    lemma_inv_mix_xor(sa, sb);
}

/// Cutting a text of an even number of characters into a block (as `divide_into_state`
/// does) and joining the block's texts column after column (as the ciphertext is
/// written) gives the text back.
pub proof fn law_state_grid_rejoins(t: Seq<char>)
    requires
        t.len() % 2 == 0,
    ensures
        join_columns(state_grid(t)) == t,
{
    lemma_join_rows(text_pairs(t));
    lemma_join_pairs(t);
}

/// Joining two sequences of texts one after the other joins their texts.
proof fn lemma_join_texts_concat(a: Seq<Seq<char>>, b: Seq<Seq<char>>)
    ensures
        join_texts(a + b) == join_texts(a) + join_texts(b),
    decreases b.len(),
{
    if b.len() == 0 {
        assert(a + b =~= a);
        assert(join_texts(a) + join_texts(b) =~= join_texts(a));
    } else {
        lemma_join_texts_concat(a, b.drop_last());
        assert((a + b).drop_last() =~= a + b.drop_last());
        assert(join_texts(a + b) =~= join_texts(a) + join_texts(b));
    }
}

/// The pairs of a text, joined, are the text.
proof fn lemma_join_pairs(t: Seq<char>)
    requires
        t.len() % 2 == 0,
    ensures
        join_texts(text_pairs(t)) == t,
    decreases t.len(),
{
    if t.len() == 0 {
        assert(text_pairs(t) =~= Seq::<Seq<char>>::empty());
        assert(join_texts(text_pairs(t)) =~= t);
    } else {
        let u = t.subrange(0, t.len() - 2);
        lemma_join_pairs(u);
        assert(u.len() / 2 == t.len() / 2 - 1);
        assert forall|k: int| 0 <= k < u.len() / 2 implies #[trigger] text_pairs(t).drop_last()[k]
            =~= text_pairs(u)[k] by {
            assert(2 * k + 2 <= u.len());
        }
        assert(text_pairs(t).drop_last() =~= text_pairs(u));
        assert(text_pairs(t).last() == t.subrange(t.len() - 2, t.len() as int));
        assert(u + t.subrange(t.len() - 2, t.len() as int) =~= t);
    }
}

/// The rows of four that a sequence of texts is cut into, joined row after row, are
/// the sequence joined.
proof fn lemma_join_rows(p: Seq<Seq<char>>)
    ensures
        join_columns(chunk_rows(p)) == join_texts(p),
    decreases p.len(),
{
    let rows = chunk_rows(p);
    if p.len() == 0 {
        assert(rows =~= Seq::<Seq<Seq<char>>>::empty());
    } else {
        let n = (p.len() + 3) / 4;
        let m = 4 * (n - 1);
        assert(1 <= n && m < p.len() <= m + 4) by (nonlinear_arith)
            requires
                n == (p.len() + 3) / 4,
                m == 4 * (n - 1),
                p.len() > 0,
        ;
        let q = p.subrange(0, m);
        assert((q.len() + 3) / 4 == n - 1) by (nonlinear_arith)
            requires
                q.len() == 4 * (n - 1),
                n >= 1,
        ;
        lemma_join_rows(q);
        assert(rows.drop_last() =~= chunk_rows(q)) by {
            assert forall|r: int| 0 <= r < n - 1 implies #[trigger] rows.drop_last()[r]
                =~= chunk_rows(q)[r] by {
                assert(4 * r + 4 <= m);
            }
        }
        assert(rows.last() =~= p.subrange(m, p.len() as int));
        lemma_join_texts_concat(q, p.subrange(m, p.len() as int));
        assert(q + p.subrange(m, p.len() as int) =~= p);
    }
}

/// A hexadecimal digit has the same value whichever case it is written in: an
/// uppercase letter `A` to `F` reads as its lowercase letter does, and a character
/// that is no digit in one case is none in the other.
pub proof fn law_hex_digit_ignores_case(a: char, b: char)
    requires
        same_ignoring_case(a, b),
    ensures
        hex_value(a) == hex_value(b),
{
}

/// Two texts that differ only in the case of their letters are cut and read alike: the
/// first two characters of both can be cut, or of neither, and they denote the same
/// byte, or none.
pub proof fn law_prefix_value_ignores_case(s: Seq<char>, t: Seq<char>)
    requires
        texts_same_ignoring_case(s, t),
    ensures
        prefix_cut_ok(s) == prefix_cut_ok(t),
        prefix_value(s) == prefix_value(t),
{
    if s.len() >= 1 {
        law_hex_digit_ignores_case(s[0], t[0]);
    }
    if s.len() >= 2 {
        law_hex_digit_ignores_case(s[1], t[1]);
    }
}

/// The two digits of a byte, written in lowercase, uppercase or mixed case, read back
/// as that byte.
pub proof fn law_byte_text_reads_back_in_any_case(b: u8, s: Seq<char>)
    requires
        texts_same_ignoring_case(s, hex2(b)),
    ensures
        prefix_cut_ok(s),
        decodes(s),
        cell_byte(s) == b,
{
    lemma_hex2(b);
    law_prefix_value_ignores_case(s, hex2(b));
}

/// Decryption reads the hexadecimal digits of the ciphertext in either case: a
/// ciphertext that differs from a readable one only in the case of its letters is
/// readable too, denotes the same block, and decrypts to the same block under every
/// passphrase.
pub proof fn law_decrypt_ignores_case(t: Seq<char>, u: Seq<char>, passphrase: Seq<char>)
    requires
        texts_same_ignoring_case(t, u),
        grid_decodes(state_grid(t)),
    ensures
        u.len() % 2 == t.len() % 2,
        grid_decodes(state_grid(u)),
        grid_value(state_grid(u)) == grid_value(state_grid(t)),
        grid_of(
            inv_cipher(
                grid_value(state_grid(u)),
                aes_round_keys(state_of_bytes(encode_utf8(passphrase))),
            ),
        ) == grid_of(
            inv_cipher(
                grid_value(state_grid(t)),
                aes_round_keys(state_of_bytes(encode_utf8(passphrase))),
            ),
        ),
{
    let gt = state_grid(t);
    let gu = state_grid(u);
    let pt = text_pairs(t);
    let pu = text_pairs(u);
    assert(pt.len() == pu.len());
    assert(gt.len() == gu.len());
    assert forall|i: int| 0 <= i < 4 implies #[trigger] gu[i].len() == gt[i].len() && 4 * i + 4
        <= pt.len() by {
        assert(gt[i].len() >= 4);
    }
    assert forall|i: int, j: int| 0 <= i < 4 && 0 <= j < 4 implies prefix_cut_ok(#[trigger] gu[i][j])
        == prefix_cut_ok(gt[i][j]) && prefix_value(gu[i][j]) == prefix_value(gt[i][j]) by {
        let k = 4 * i + j;
        assert(gt[i].len() >= 4);
        assert(4 * i + 4 <= pt.len());
        assert(gt[i] == pt.subrange(4 * i, 4 * i + 4));
        assert(gu[i] == pu.subrange(4 * i, 4 * i + 4));
        assert(gt[i][j] == pt[k]);
        assert(gu[i][j] == pu[k]);
        assert forall|c: int| 0 <= c < 2 implies same_ignoring_case(#[trigger] pu[k][c], pt[k][c]) by {
            assert(same_ignoring_case(t[2 * k + c], u[2 * k + c]));
        }
        law_prefix_value_ignores_case(pu[k], pt[k]);
    }
    assert(grid_value(gu) =~= grid_value(gt)) by {
        assert forall|i: int| 0 <= i < 4 implies #[trigger] grid_value(gu)[i] =~= grid_value(gt)[i] by {}
    }
}

/// Reading back what `encode_hex` wrote for one byte gives that byte.
pub proof fn law_decode_encode_byte(b: u8)
    ensures
        hex_of_bytes(seq![b]) == hex2(b),
        prefix_cut_ok(hex_of_bytes(seq![b])),
        cell_byte(hex_of_bytes(seq![b])) == b,
{
    lemma_hex_of_one_byte(b);
    lemma_hex2(b);
}

/// `encode_hex` writes exactly two lowercase digits per byte.
pub proof fn law_encode_hex_length(bytes: Seq<u8>)
    ensures
        hex_of_bytes(bytes).len() == 2 * bytes.len(),
{
    lemma_hex_of_bytes_chars(bytes);
}

/// The pairs that `to_vec` cuts a text into, put back together, are the text.
pub proof fn law_pairs_rejoin(t: Seq<char>)
    requires
        t.len() % 2 == 0,
    ensures
        text_pairs(t).len() * 2 == t.len(),
        forall|k: int| 0 <= k < text_pairs(t).len() ==> #[trigger] text_pairs(t)[k].len() == 2,
        forall|p: int| 0 <= p < t.len() ==> #[trigger] t[p] == text_pairs(t)[p / 2][p % 2],
{
    assert forall|p: int| 0 <= p < t.len() implies #[trigger] t[p] == text_pairs(t)[p / 2][p % 2] by {
        assert(2 * (p / 2) + p % 2 == p);
    }
}

/// The width that `normalize` pads to is a multiple of 16, no less than the length and
/// at most 16 more.
pub proof fn law_padded_width_blocks(len: nat)
    ensures
        padded_width(len) % 16 == 0,
        len <= padded_width(len) <= len + 16,
{
    if len <= 8 {
        return;
    }
    let m = (len / 16 + 1) * 16;
    assert(len < m <= len + 16);
    assert(m < 2 * len || (len == 16 && m == 32));
    if m < 2 * len {
        assert(m % len == m - len) by (nonlinear_arith)
            requires
                len < m < 2 * len,
        ;
    } else {
        assert(m % len == 0);
    }
}

/// The width that `normalize` pads a text of `len` bytes to, in full: the empty text
/// stays empty, a text of 1 to 16 bytes fills one block of 16, and a longer text is
/// padded past its last whole block to the next multiple of 16, so that a length that
/// is already a multiple of 16 gains a whole block of 16 spaces.
pub proof fn law_padded_width_exact(len: nat)
    ensures
        len == 0 ==> padded_width(len) == 0,
        1 <= len <= 16 ==> padded_width(len) == 16,
        len > 16 ==> padded_width(len) == 16 * (len / 16) + 16,
        len > 16 && len % 16 == 0 ==> padded_width(len) == len + 16,
{
    if len <= 8 {
        return;
    }
    let m = (len / 16 + 1) * 16;
    if len < 16 {
        assert(m == 16);
        assert(m % len == m - len) by (nonlinear_arith)
            requires
                len < m < 2 * len,
        ;
    } else if len == 16 {
        assert(m == 32);
        assert(m % len == 0);
    } else {
        assert(len < m <= len + 16);
        assert(m % len == m - len) by (nonlinear_arith)
            requires
                len < m < 2 * len,
        ;
        if len % 16 == 0 {
            assert(16 * (len / 16) == len);
        }
    }
}

/// Padding counts characters: the padded text is the text followed by spaces, as many
/// as bring it to `width` characters, and none when it has that many already.
pub proof fn law_pad_to_width(t: Seq<char>, width: nat)
    ensures
        pad_to_width(t, width).len() == if t.len() >= width {
            t.len()
        } else {
            width
        },
        pad_to_width(t, width).subrange(0, t.len() as int) == t,
        forall|i: int|
            t.len() <= i < pad_to_width(t, width).len() ==> #[trigger] pad_to_width(t, width)[i]
                == ' ',
{
    assert(pad_to_width(t, width).subrange(0, t.len() as int) =~= t);
}

/// An ASCII plaintext is padded with spaces to whole blocks of 16 bytes, so that
/// `encrypt` encrypts all of it: the padded bytes start with the plaintext's bytes, the
/// rest are spaces, and fewer than 16 bytes more are added than needed.
pub proof fn law_ascii_plaintext_whole_blocks(t: Seq<char>)
    requires
        is_ascii_chars(t),
    ensures
        padded_bytes(t).len() % 16 == 0,
        t.len() <= padded_bytes(t).len() <= t.len() + 16,
        padded_bytes(t).len() == padded_width(t.len()),
        normalize_text(t) == hex_of_bytes(padded_bytes(t)),
        normalize_text(t).len() == 2 * padded_bytes(t).len(),
        padded_bytes(t).subrange(0, t.len() as int) == encode_utf8(t),
        forall|i: int| t.len() <= i < padded_bytes(t).len() ==> #[trigger] padded_bytes(t)[i] == 32,
{
    is_ascii_chars_encode_utf8(t);
    let width = padded_width(encode_utf8(t).len());
    law_padded_width_blocks(t.len());
    let padded = pad_to_width(t, width);
    assert(padded.len() == width);
    assert(is_ascii_chars(padded)) by {
        assert forall|i: int| 0 <= i < padded.len() implies '\0' <= #[trigger] padded[i] <= '\u{7f}' by {
            if i >= t.len() {
                assert(padded[i] == ' ');
            }
        }
    }
    is_ascii_chars_encode_utf8(padded);
    lemma_hex_of_bytes_chars(padded_bytes(t));
    let b = padded_bytes(t);
    assert forall|i: int| 0 <= i < t.len() implies #[trigger] b.subrange(0, t.len() as int)[i]
        == encode_utf8(t)[i] by {
        assert(padded[i] == t[i]);
        assert(b[i] == padded[i] as u8);
    }
    assert(b.subrange(0, t.len() as int) =~= encode_utf8(t));
    assert forall|i: int| t.len() <= i < b.len() implies #[trigger] b[i] == 32 by {
        assert(padded[i] == ' ');
        assert(b[i] == padded[i] as u8);
    }
}

/// `encrypt` writes 32 hexadecimal digits for each whole block of 16 bytes of the padded
/// plaintext.
pub proof fn law_encrypt_length(plaintext: Seq<char>, passphrase: Seq<char>)
    ensures
        encrypt_text(plaintext, passphrase).len() == 32 * (padded_bytes(plaintext).len() / 16),
{
    let data = padded_bytes(plaintext);
    let ks = crate::model::aes_round_keys(crate::model::state_of_bytes(encode_utf8(passphrase)));
    lemma_ecb_length(data, ks, data.len() / 16);
    lemma_hex_of_bytes_chars(crate::encrypt::ecb_blocks(data, ks, data.len() / 16));
}

proof fn lemma_ecb_length(data: Seq<u8>, ks: Seq<Seq<Seq<u8>>>, n: nat)
    ensures
        crate::encrypt::ecb_blocks(data, ks, n).len() == 16 * n,
    decreases n,
{
    if n > 0 {
        lemma_ecb_length(data, ks, (n - 1) as nat);
    }
}

/// The first 16 bytes of the encrypted blocks are the first block encrypted.
proof fn lemma_ecb_first_block(data: Seq<u8>, ks: Seq<Seq<Seq<u8>>>, n: nat)
    requires
        n >= 1,
    ensures
        ecb_blocks(data, ks, n).len() >= 16,
        ecb_blocks(data, ks, n).subrange(0, 16) == bytes_of_state(
            cipher(state_of_bytes(data.subrange(0, 16)), ks),
        ),
    decreases n,
{
    lemma_ecb_length(data, ks, n);
    let st = cipher(state_of_bytes(data.subrange(0, 16)), ks);
    if n == 1 {
        assert(ecb_blocks(data, ks, 0) =~= Seq::<u8>::empty());
        assert(ecb_blocks(data, ks, 1) =~= bytes_of_state(st));
        assert(bytes_of_state(st).subrange(0, 16) =~= bytes_of_state(st));
    } else {
        lemma_ecb_first_block(data, ks, (n - 1) as nat);
        let prev = ecb_blocks(data, ks, (n - 1) as nat);
        lemma_ecb_length(data, ks, (n - 1) as nat);
        assert(ecb_blocks(data, ks, n).subrange(0, 16) =~= prev.subrange(0, 16));
    }
}

/// The 16 bytes of a state fill that state back.
proof fn lemma_state_of_bytes_of_state(s: Seq<Seq<u8>>, rest: Seq<u8>)
    requires
        is_state(s),
    ensures
        state_of_bytes(bytes_of_state(s) + rest) == s,
{
    let b = bytes_of_state(s) + rest;
    assert forall|c: int, r: int| 0 <= c < 4 && 0 <= r < 4 implies #[trigger] state_of_bytes(b)[c][r]
        == s[c][r] by {
        assert(b[4 * c + r] == s[c][r]);
    }
    assert forall|c: int| 0 <= c < 4 implies #[trigger] state_of_bytes(b)[c] =~= s[c] by {}
    assert(state_of_bytes(b) =~= s);
}

/// Decryption undoes encryption for the texts of the library: `decrypt`, given what
/// `encrypt` wrote and the same passphrase, may be called and gives the first block of
/// 16 bytes of the padded plaintext.
pub proof fn law_decrypt_undoes_encrypt(plaintext: Seq<char>, passphrase: Seq<char>)
    requires
        padded_bytes(plaintext).len() >= 16,
        encode_utf8(passphrase).len() >= 16,
    ensures
        encrypt_text(plaintext, passphrase).len() % 2 == 0,
        grid_decodes(state_grid(encrypt_text(plaintext, passphrase))),
        grid_of(
            inv_cipher(
                grid_value(state_grid(encrypt_text(plaintext, passphrase))),
                aes_round_keys(state_of_bytes(encode_utf8(passphrase))),
            ),
        ) == grid_of(state_of_bytes(padded_bytes(plaintext))),
{
    let data = padded_bytes(plaintext);
    let pass = encode_utf8(passphrase);
    let ks = aes_round_keys(state_of_bytes(pass));
    let n = data.len() / 16;
    let e = ecb_blocks(data, ks, n);
    lemma_ecb_first_block(data, ks, n);
    lemma_ecb_length(data, ks, n);
    lemma_state_grid_of_bytes(e);
    let st = cipher(state_of_bytes(data.subrange(0, 16)), ks);
    assert(e =~= e.subrange(0, 16) + e.subrange(16, e.len() as int));
    lemma_state_of_bytes_of_state(st, e.subrange(16, e.len() as int));
    assert(grid_value(state_grid(hex_of_bytes(e))) == st);
    lemma_inv_cipher_cipher(state_of_bytes(data.subrange(0, 16)), ks);
    assert(state_of_bytes(data.subrange(0, 16)) =~= state_of_bytes(data)) by {
        assert forall|c: int| 0 <= c < 4 implies #[trigger] state_of_bytes(data.subrange(0, 16))[c]
            =~= state_of_bytes(data)[c] by {}
    }
}

} // verus!
