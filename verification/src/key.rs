//! Key expansion: the ten round keys that follow a cipher key.
//
//  For each round n from 0 to 9:
//      1. Take the last word of key n rotated one place to the left (RotWord)
//      2. Substitute its bytes through the S-box (SubWord)
//      3. Add the round constant to its first byte
//      4. The first word of key n+1 is that word XOR the first word of key n
//      5. Each further word of key n+1 is the word before it XOR the word of key n
//         at its place
use vstd::prelude::*;
use crate::constants::rcon_byte;
use crate::encrypt::{rotate_left_texts, sbox_index};
use crate::gf::{sbox, sbox_lookup};
use crate::hexfmt::{
    byte_hex, cell_byte, decodes, hex2, hex2_value, is_hex2, lemma_hex2, lemma_hex_of_one_byte,
    lemma_is_hex2, prefix_cut_ok,
};
use crate::model::{
    grid_decodes, grid_of, grid_value, key_core, key_from_core, key_schedule, key_words,
    lemma_grid_of, next_key, rcon,
};
use crate::utils::{decode_hex, encode_hex};

verus! {

/// A key: four columns (words) of four two-digit hexadecimal texts.
pub type Key = Vec<Vec<String>>;

/// All the keys of an expansion, the cipher key first.
pub struct RoundKeys {
    pub keys: Vec<Key>,
}

/// A key from which the next round key can be derived: its first 4 words have 4
/// texts that read as bytes each, and its fourth word is exactly 4 two-digit
/// lowercase texts.
pub open spec fn key_expandable(g: Seq<Seq<Seq<char>>>) -> bool {
    &&& grid_decodes(g)
    &&& g[3].len() == 4
    &&& forall|r: int| 0 <= r < 4 ==> is_hex2(#[trigger] g[3][r])
}

/// The keys of an expansion started from `k0` alone are the AES-128 key schedule.
pub proof fn lemma_expansion_is_schedule(
    keys: Seq<Seq<Seq<Seq<char>>>>,
    k0: Seq<Seq<Seq<char>>>,
)
    requires
        keys.len() == 11,
        keys[0] == k0,
        forall|i: int|
            0 <= i < 10 ==> #[trigger] keys[1 + i] == grid_of(
                next_key(grid_value(keys[i]), i as nat),
            ),
    ensures
        forall|i: int| 0 <= i <= 10 ==> #[trigger] grid_value(keys[i]) == key_schedule(grid_value(k0), i as nat),
{
    assert forall|i: int| 0 <= i <= 10 implies #[trigger] grid_value(keys[i]) == key_schedule(
        grid_value(k0),
        i as nat,
    ) by {
        lemma_expansion_prefix(keys, k0, i as nat);
    }
}

proof fn lemma_expansion_prefix(keys: Seq<Seq<Seq<Seq<char>>>>, k0: Seq<Seq<Seq<char>>>, i: nat)
    requires
        keys.len() == 11,
        keys[0] == k0,
        i <= 10,
        forall|i: int|
            0 <= i < 10 ==> #[trigger] keys[1 + i] == grid_of(
                next_key(grid_value(keys[i]), i as nat),
            ),
    ensures
        grid_value(keys[i as int]) == key_schedule(grid_value(k0), i),
    decreases i,
{
    if i > 0 {
        let p = (i - 1) as nat;
        lemma_expansion_prefix(keys, k0, p);
        assert(keys[1 + p as int] == grid_of(next_key(grid_value(keys[p as int]), p)));
        lemma_grid_of(next_key(grid_value(keys[p as int]), p));
    }
}

/// What the expansion loop keeps: the keys held before are unchanged, and each of the
/// `i` keys appended so far is derived from the key at its index.
pub open spec fn expansion_inv(
    keys: Seq<Seq<Seq<Seq<char>>>>,
    old_keys: Seq<Seq<Seq<Seq<char>>>>,
    i: int,
) -> bool {
    &&& 0 <= i <= 10
    &&& old_keys.len() >= 1
    &&& keys.len() == old_keys.len() + i
    &&& keys.subrange(0, old_keys.len() as int) == old_keys
    &&& forall|j: int| 0 <= j < old_keys.len() && j < 10 ==> key_expandable(#[trigger] old_keys[j])
    &&& forall|j: int|
        0 <= j < i ==> #[trigger] keys[old_keys.len() + j] == grid_of(
            next_key(grid_value(keys[j]), j as nat),
        )
}

/// The key that the next round derives from can be derived from.
proof fn lemma_expansion_source(
    keys: Seq<Seq<Seq<Seq<char>>>>,
    old_keys: Seq<Seq<Seq<Seq<char>>>>,
    i: int,
)
    requires
        expansion_inv(keys, old_keys, i),
        i < 10,
    ensures
        key_expandable(keys[i]),
{
    let n = old_keys.len() as int;
    if i < n {
        assert(keys[i] == keys.subrange(0, n)[i]);
    } else {
        let j = i - n;
        assert(keys[n + j] == grid_of(next_key(grid_value(keys[j]), j as nat)));
        lemma_grid_of(next_key(grid_value(keys[j]), j as nat));
    }
}

/// The word built from the substituted rotated word is the core of the key schedule.
proof fn lemma_expansion_core(kg: Seq<Seq<Seq<char>>>, i: int, sv: Seq<Seq<char>>)
    requires
        key_expandable(kg),
        sv.len() == 4,
        forall|r: int| 0 <= r < 4 ==> #[trigger] sv[r] == hex2(sbox(hex2_value(kg[3][(r + 1) % 4]))),
    ensures
        seq![
            rcon(i as nat) ^ cell_byte(sv[0]),
            cell_byte(sv[1]),
            cell_byte(sv[2]),
            cell_byte(sv[3]),
        ] == key_core(grid_value(kg), i as nat),
{
    let k3 = kg[3];
    assert(sv[0] == hex2(sbox(hex2_value(k3[1]))));
    assert(sv[1] == hex2(sbox(hex2_value(k3[2]))));
    assert(sv[2] == hex2(sbox(hex2_value(k3[3]))));
    assert(sv[3] == hex2(sbox(hex2_value(k3[0]))));
    lemma_is_hex2(k3[0]);
    lemma_is_hex2(k3[1]);
    lemma_is_hex2(k3[2]);
    lemma_is_hex2(k3[3]);
    lemma_hex2(sbox(hex2_value(k3[0])));
    lemma_hex2(sbox(hex2_value(k3[1])));
    lemma_hex2(sbox(hex2_value(k3[2])));
    lemma_hex2(sbox(hex2_value(k3[3])));
    let k = grid_value(kg);
    assert(k[3][0] == cell_byte(k3[0]));
    assert(k[3][1] == cell_byte(k3[1]));
    assert(k[3][2] == cell_byte(k3[2]));
    assert(k[3][3] == cell_byte(k3[3]));
    assert(seq![
        rcon(i as nat) ^ cell_byte(sv[0]),
        cell_byte(sv[1]),
        cell_byte(sv[2]),
        cell_byte(sv[3]),
    ] =~= key_core(k, i as nat));
}

/// One round of the expansion keeps [`expansion_inv`].
proof fn lemma_expansion_step(
    before: Seq<Seq<Seq<Seq<char>>>>,
    after: Seq<Seq<Seq<Seq<char>>>>,
    old_keys: Seq<Seq<Seq<Seq<char>>>>,
    i: int,
)
    requires
        expansion_inv(before, old_keys, i),
        i < 10,
        after == before.push(grid_of(next_key(grid_value(before[i]), i as nat))),
    ensures
        expansion_inv(after, old_keys, i + 1),
{
    let n = old_keys.len() as int;
    assert(after.subrange(0, n) =~= before.subrange(0, n));
    assert forall|j: int| 0 <= j <= i implies #[trigger] after[n + j] == grid_of(
        next_key(grid_value(after[j]), j as nat),
    ) by {
        assert(after[j] == before[j]);
        if j < i {
            assert(after[n + j] == before[n + j]);
        }
    }
}

impl RoundKeys {
    /// Appends the ten round keys that follow: key `n + i` is derived from key `i`, where
    /// `n` is the number of keys held before (so that from a single cipher key the
    /// eleven keys of AES-128 result).
    pub fn generate(&mut self)
        requires
            old(self).keys@.len() >= 1,
            forall|i: int|
                0 <= i < old(self).keys@.len() && i < 10 ==> key_expandable(
                    #[trigger] old(self).keys.deep_view()[i],
                ),
        ensures
            final(self).keys@.len() == old(self).keys@.len() + 10,
            final(self).keys.deep_view().subrange(0, old(self).keys@.len() as int)
                == old(self).keys.deep_view(),
            forall|i: int|
                0 <= i < 10 ==> #[trigger] final(self).keys.deep_view()[old(self).keys@.len() + i]
                    == grid_of(next_key(grid_value(final(self).keys.deep_view()[i]), i as nat)),
    {
        let ghost old_keys = self.keys.deep_view();
        proof {
            assert(self.keys.deep_view().subrange(0, old_keys.len() as int) =~= old_keys);
        }
        let mut i: usize = 0;
        while i < 10
            invariant
                expansion_inv(self.keys.deep_view(), old_keys, i as int),
                old_keys.len() == old(self).keys@.len(),
            decreases 10 - i,
        {
            let ghost before = self.keys.deep_view();
            proof {
                lemma_expansion_source(before, old_keys, i as int);
            }
            //  Perform  RotWord permutation
            let rot = self.rot_word(i);
            assert(rot@.len() == rot.deep_view().len());
            proof {
                let w = before[i as int][3];
                assert forall|r: int| 0 <= r < 4 implies #[trigger] rot.deep_view()[r] == w[(r + 1) % 4] by {}
            }
            //  Perform SubByte
            let sub_byte_vector = self.sub_byte(rot);
            proof {
                assert forall|r: int| 0 <= r < 4 implies #[trigger] rot.deep_view()[r] == before[i as int][3][(r + 1) % 4] by {}
            }
            proof {
                let sv = sub_byte_vector.deep_view();
                assert forall|k: int| 0 <= k < 4 implies prefix_cut_ok(#[trigger] sv[k]) && decodes(sv[k]) by {
                    lemma_hex2(sbox(hex2_value(rot.deep_view()[k])));
                }
            }
            self.generate_key_columns(sub_byte_vector, i);
            proof {
                lemma_expansion_core(before[i as int], i as int, sub_byte_vector.deep_view());
                lemma_expansion_step(before, self.keys.deep_view(), old_keys, i as int);
            }
            i = i + 1;
        }
    }

    /// The fourth word of key `key_index`, rotated one place to the left.
    fn rot_word(&self, key_index: usize) -> (r: Vec<String>)
        requires
            key_index < self.keys@.len(),
            self.keys.deep_view()[key_index as int].len() >= 4,
            self.keys.deep_view()[key_index as int][3].len() >= 1,
        ensures
            r.deep_view() == Seq::new(
                self.keys.deep_view()[key_index as int][3].len(),
                |k: int|
                    self.keys.deep_view()[key_index as int][3][(k + 1)
                        % (self.keys.deep_view()[key_index as int][3].len() as int)],
            ),
    {
        assert(self.keys@[key_index as int].deep_view() == self.keys.deep_view()[key_index as int]);
        let third_word = &self.keys[key_index][3];
        assert(third_word.deep_view() == self.keys.deep_view()[key_index as int][3]);
        //  left cyclical rotation
        rotate_left_texts(third_word, 1)
    }

    /// The word of S-box images of the bytes of a rotated word.
    fn sub_byte(&self, rot: Vec<String>) -> (r: Vec<String>)
        requires
            rot@.len() == 4,
            forall|k: int| 0 <= k < 4 ==> is_hex2(#[trigger] rot.deep_view()[k]),
        ensures
            r@.len() == 4,
            forall|k: int|
                0 <= k < 4 ==> #[trigger] r.deep_view()[k] == hex2(sbox(hex2_value(rot.deep_view()[k]))),
    {
        let mut sub_vect: Vec<String> = Vec::new();
        let mut word_index: usize = 0;
        while word_index < 4
            invariant
                word_index <= 4,
                rot@.len() == 4,
                forall|k: int| 0 <= k < 4 ==> is_hex2(#[trigger] rot.deep_view()[k]),
                sub_vect@.len() == word_index,
                forall|k: int|
                    0 <= k < word_index ==> #[trigger] sub_vect@[k]@ == hex2(
                        sbox(hex2_value(rot.deep_view()[k])),
                    ),
            decreases 4 - word_index,
        {
            let word = rot[word_index].as_str();
            assert(word@ == rot.deep_view()[word_index as int]);
            // Populate indices and retrieve value from SBOX
            let value = sbox_lookup(sbox_index(word));
            sub_vect.push(byte_hex(value));
            word_index = word_index + 1;
        }
        sub_vect
    }

    /// Derives the next round key from the substituted word and key `process_num`, and
    /// appends it.
    fn generate_key_columns(&mut self, sub_byte: Vec<String>, process_num: usize)
        requires
            process_num < 10,
            process_num < old(self).keys@.len(),
            sub_byte@.len() == 4,
            forall|k: int|
                0 <= k < 4 ==> prefix_cut_ok(#[trigger] sub_byte.deep_view()[k]) && decodes(
                    sub_byte.deep_view()[k],
                ),
            grid_decodes(old(self).keys.deep_view()[process_num as int]),
        ensures
            final(self).keys.deep_view() == old(self).keys.deep_view().push(
                grid_of(
                    key_from_core(
                        seq![
                            rcon(process_num as nat) ^ cell_byte(sub_byte.deep_view()[0]),
                            cell_byte(sub_byte.deep_view()[1]),
                            cell_byte(sub_byte.deep_view()[2]),
                            cell_byte(sub_byte.deep_view()[3]),
                        ],
                        grid_value(old(self).keys.deep_view()[process_num as int]),
                    ),
                ),
            ),
    {
        let ghost kg = self.keys.deep_view()[process_num as int];
        let ghost sv = sub_byte.deep_view();
        let ghost core = seq![
            rcon(process_num as nat) ^ cell_byte(sv[0]),
            cell_byte(sv[1]),
            cell_byte(sv[2]),
            cell_byte(sv[3]),
        ];
        let ghost target = grid_of(key_from_core(core, grid_value(kg)));
        //  Add round constant
        let rcon = rcon_byte(process_num);
        assert(sub_byte@[0]@ == sv[0]);
        let first_in_sub_byte = decode_hex(sub_byte[0].as_str()).unwrap();
        //  Do xor operation
        let mut res: Vec<u8> = Vec::new();
        res.push(rcon ^ first_in_sub_byte[0]);
        //  Update vector
        let result_string = encode_hex(res.as_slice());
        proof {
            assert(res@ =~= seq![rcon ^ first_in_sub_byte[0]]);
            lemma_hex_of_one_byte(rcon ^ first_in_sub_byte[0]);
            lemma_hex2(rcon ^ first_in_sub_byte[0]);
        }
        let mut rcon_result = sub_byte;
        rcon_result.set(0, result_string);
        proof {
            assert forall|k: int| 0 <= k < 4 implies prefix_cut_ok(#[trigger] rcon_result.deep_view()[k])
                && decodes(rcon_result.deep_view()[k]) && cell_byte(rcon_result.deep_view()[k])
                == core[k] by {
                if k > 0 {
                    assert(rcon_result.deep_view()[k] == sv[k]);
                }
            }
        }
        let key = &self.keys[process_num];
        assert(key.deep_view() == kg);
        assert(key@[0].deep_view() == kg[0]);
        //  Calculate first column of new key
        let mut new_key: Key = Vec::new();
        let first = self.xor_words(&rcon_result, &key[0]);
        proof {
            assert(first.deep_view() =~= target[0]);
        }
        new_key.push(first);
        let mut i: usize = 1;
        while i < 4
            invariant
                1 <= i <= 4,
                key.deep_view() == kg,
                grid_decodes(kg),
                target == grid_of(key_from_core(core, grid_value(kg))),
                new_key@.len() == i,
                forall|m: int| 0 <= m < i ==> #[trigger] new_key@[m].deep_view() == target[m],
            decreases 4 - i,
        {
            assert(key@[i as int].deep_view() == kg[i as int]);
            let prev = &new_key[i - 1];
            proof {
                assert(prev.deep_view() == target[i - 1]);
                lemma_grid_of(key_from_core(core, grid_value(kg)));
                assert forall|r: int| 0 <= r < 4 implies prefix_cut_ok(#[trigger] prev.deep_view()[r])
                    && decodes(prev.deep_view()[r]) && cell_byte(prev.deep_view()[r]) == key_words(
                    core,
                    grid_value(kg),
                    (i - 1) as nat,
                )[r] by {
                    lemma_hex2(key_words(core, grid_value(kg), (i - 1) as nat)[r]);
                }
            }
            let next = self.xor_words(prev, &key[i]);
            proof {
                assert(next.deep_view() =~= target[i as int]);
            }
            new_key.push(next);
            i = i + 1;
        }
        assert(new_key.deep_view() =~= target);
        self.keys.push(new_key);
        assert(self.keys.deep_view() =~= old(self).keys.deep_view().push(target));
    }

    /// Byte-wise exclusive or of two words of texts, written as two-digit texts.
    fn xor_words(&self, word1: &Vec<String>, word2: &Vec<String>) -> (r: Vec<String>)
        requires
            word1@.len() >= 4,
            word2@.len() >= 4,
            forall|k: int|
                0 <= k < 4 ==> prefix_cut_ok(#[trigger] word1.deep_view()[k]) && decodes(
                    word1.deep_view()[k],
                ),
            forall|k: int|
                0 <= k < 4 ==> prefix_cut_ok(#[trigger] word2.deep_view()[k]) && decodes(
                    word2.deep_view()[k],
                ),
        ensures
            r.deep_view() == Seq::new(
                4,
                |k: int| hex2(cell_byte(word1.deep_view()[k]) ^ cell_byte(word2.deep_view()[k])),
            ),
    {
        let mut result_vector: Vec<String> = Vec::new();
        let mut i: usize = 0;
        while i < 4
            invariant
                i <= 4,
                word1@.len() >= 4,
                word2@.len() >= 4,
                forall|k: int|
                    0 <= k < 4 ==> prefix_cut_ok(#[trigger] word1.deep_view()[k]) && decodes(
                        word1.deep_view()[k],
                    ),
                forall|k: int|
                    0 <= k < 4 ==> prefix_cut_ok(#[trigger] word2.deep_view()[k]) && decodes(
                        word2.deep_view()[k],
                    ),
                result_vector@.len() == i,
                forall|k: int|
                    0 <= k < i ==> #[trigger] result_vector@[k]@ == hex2(
                        cell_byte(word1.deep_view()[k]) ^ cell_byte(word2.deep_view()[k]),
                    ),
            decreases 4 - i,
        {
            assert(word1@[i as int]@ == word1.deep_view()[i as int]);
            assert(word2@[i as int]@ == word2.deep_view()[i as int]);
            let letter_word1_bytes = decode_hex(word1[i].as_str()).unwrap();
            let letter_word2_bytes = decode_hex(word2[i].as_str()).unwrap();
            let mut result: Vec<u8> = Vec::new();
            result.push(letter_word1_bytes[0] ^ letter_word2_bytes[0]);
            let text = encode_hex(result.as_slice());
            proof {
                let v = letter_word1_bytes[0] ^ letter_word2_bytes[0];
                assert(result@ =~= seq![v]);
                lemma_hex_of_one_byte(v);
            }
            result_vector.push(text);
            i = i + 1;
        }
        assert(result_vector.deep_view() =~= Seq::new(
            4,
            |k: int| hex2(cell_byte(word1.deep_view()[k]) ^ cell_byte(word2.deep_view()[k])),
        ));
        result_vector
    }
}

} // verus!
