use aes_cipher::decrypt::{decrypt, decrypt_block, decrypt_traced};
use aes_cipher::encrypt::{encrypt, encrypt_block};
use aes_cipher::key::RoundKeys;
use aes_cipher::utils::{
    decode_hex, divide_into_state, encode_hex, input_is_valid, normalize, to_vec,
    vector_dot_product, xor_matrices, Block, HexError,
};

fn block(text: &str) -> Block {
    divide_into_state(text.to_string())
}

fn block_text(b: &Block) -> String {
    let mut s = String::new();
    for column in b {
        for cell in column {
            s.push_str(cell);
        }
    }
    s
}

fn expanded(key_text: &str) -> RoundKeys {
    let mut round_keys = RoundKeys { keys: vec![block(key_text)] };
    round_keys.generate();
    round_keys
}

#[test]
fn decode_hex_reads_the_first_two_digits() {
    assert_eq!(decode_hex("ab"), Ok(vec![0xab]));
    assert_eq!(decode_hex("AB"), Ok(vec![0xab]));
    assert_eq!(decode_hex("0f9"), Ok(vec![0x0f]));
    assert_eq!(decode_hex("+f"), Ok(vec![0x0f]));
}

#[test]
fn decode_hex_rejects_non_digits() {
    assert_eq!(decode_hex("zz"), Err(HexError::InvalidDigit));
    assert_eq!(decode_hex("-1"), Err(HexError::InvalidDigit));
    assert_eq!(decode_hex("++"), Err(HexError::InvalidDigit));
    assert_eq!(decode_hex("\u{e9}"), Err(HexError::InvalidDigit));
}

#[test]
fn encode_hex_writes_two_lowercase_digits_per_byte() {
    assert_eq!(encode_hex(&[0x00, 0xff, 0x10, 0xab]), "00ff10ab");
    assert_eq!(encode_hex(&[]), "");
}

#[test]
fn decode_hex_reads_back_encode_hex() {
    for b in 0..=255u8 {
        assert_eq!(decode_hex(&encode_hex(&[b])), Ok(vec![b]));
    }
}

#[test]
fn input_is_valid_counts_bytes() {
    assert!(input_is_valid("0123456789abcdef"));
    assert!(!input_is_valid("0123456789abcde"));
    assert!(!input_is_valid("0123456789abcdefg"));
    assert!(input_is_valid("\u{e9}\u{e9}\u{e9}0123456789"));
}

#[test]
fn to_vec_cuts_pairs() {
    assert_eq!(to_vec("a1b2c3".to_string()), vec!["a1", "b2", "c3"]);
    assert_eq!(to_vec(String::new()), Vec::<String>::new());
}

#[test]
fn divide_into_state_makes_columns_of_four() {
    let b = block("00112233445566778899");
    assert_eq!(b.len(), 3);
    assert_eq!(b[0], vec!["00", "11", "22", "33"]);
    assert_eq!(b[1], vec!["44", "55", "66", "77"]);
    assert_eq!(b[2], vec!["88", "99"]);
}

#[test]
fn xor_matrices_xors_bytes() {
    let a = block("000102030405060708090a0b0c0d0e0f");
    let b = block("ffffffffffffffffffffffffffffffff");
    let r = xor_matrices(a, b);
    assert_eq!(block_text(&r), "fffefdfcfbfaf9f8f7f6f5f4f3f2f1f0");
}

#[test]
fn xor_matrices_twice_gives_the_block_back() {
    let k = block("2b7e151628aed2a6abf7158809cf4f3c");
    let p = block("3243f6a8885a308d313198a2e0370734");
    let once = xor_matrices(block("2b7e151628aed2a6abf7158809cf4f3c"), p);
    let twice = xor_matrices(k, once);
    assert_eq!(block_text(&twice), "3243f6a8885a308d313198a2e0370734");
}

#[test]
fn vector_dot_product_mixes_a_column() {
    let column = vec!["db".to_string(), "13".to_string(), "53".to_string(), "45".to_string()];
    assert_eq!(vector_dot_product(vec!["02", "03", "01", "01"], column.clone(), true), "8e");
    assert_eq!(vector_dot_product(vec!["01", "02", "03", "01"], column.clone(), true), "4d");
    assert_eq!(vector_dot_product(vec!["01", "01", "02", "03"], column.clone(), true), "a1");
    assert_eq!(vector_dot_product(vec!["03", "01", "01", "02"], column, true), "bc");
}

#[test]
fn vector_dot_product_unmixes_a_column() {
    let column = vec!["8e".to_string(), "4d".to_string(), "a1".to_string(), "bc".to_string()];
    assert_eq!(vector_dot_product(vec!["0e", "0b", "0d", "09"], column.clone(), false), "db");
    assert_eq!(vector_dot_product(vec!["09", "0e", "0b", "0d"], column.clone(), false), "13");
    assert_eq!(vector_dot_product(vec!["0d", "09", "0e", "0b"], column.clone(), false), "53");
    assert_eq!(vector_dot_product(vec!["0b", "0d", "09", "0e"], column, false), "45");
}

#[test]
fn vector_dot_product_other_coefficients() {
    let column = vec!["ff".to_string(), "00".to_string(), "00".to_string(), "00".to_string()];
    assert_eq!(vector_dot_product(vec!["05", "01", "01", "01"], column, true), "e0");
    let column = vec!["ff".to_string(), "fe".to_string(), "01".to_string(), "02".to_string()];
    assert_eq!(vector_dot_product(vec!["ff", "ff", "ff", "ff"], column, true), "319");
}

#[test]
fn vector_dot_product_triple_reads_the_whole_text() {
    let column = vec!["ab7".to_string(), "00".to_string(), "00".to_string(), "00".to_string()];
    assert_eq!(vector_dot_product(vec!["03", "01", "01", "01"], column, true), "afa");
}

#[test]
fn generate_appends_the_key_schedule() {
    let round_keys = expanded("2b7e151628aed2a6abf7158809cf4f3c");
    assert_eq!(round_keys.keys.len(), 11);
    assert_eq!(block_text(&round_keys.keys[0]), "2b7e151628aed2a6abf7158809cf4f3c");
    assert_eq!(block_text(&round_keys.keys[1]), "a0fafe1788542cb123a339392a6c7605");
    assert_eq!(block_text(&round_keys.keys[10]), "d014f9a8c9ee2589e13f0cc8b6630ca6");
}

#[test]
fn encrypt_block_known_answer() {
    let round_keys = expanded("000102030405060708090a0b0c0d0e0f");
    let c = encrypt_block(block("00112233445566778899aabbccddeeff"), &round_keys);
    assert_eq!(block_text(&c), "69c4e0d86a7b0430d8cdb78070b4c55a");
}

#[test]
fn decrypt_block_known_answer() {
    let round_keys = expanded("000102030405060708090a0b0c0d0e0f");
    let p = decrypt_block(block("69c4e0d86a7b0430d8cdb78070b4c55a"), &round_keys);
    assert_eq!(block_text(&p), "00112233445566778899aabbccddeeff");
}

#[test]
fn decrypt_block_undoes_encrypt_block() {
    let round_keys = expanded("2b7e151628aed2a6abf7158809cf4f3c");
    let plain = "3243f6a8885a308d313198a2e0370734";
    let c = encrypt_block(block(plain), &round_keys);
    assert_eq!(block_text(&c), "3925841d02dc09fbdc118597196a0b32");
    let p = decrypt_block(c, &round_keys);
    assert_eq!(block_text(&p), plain);
}

#[test]
fn normalize_pads_and_encodes() {
    assert_eq!(normalize(&"hello".to_string()), "68656c6c6f2020202020202020202020");
    assert_eq!(normalize(&String::new()), "");
    assert_eq!(normalize(&"Two One Nine Two".to_string()), "54776f204f6e65204e696e652054776f");
    assert_eq!(normalize(&"0123456789".to_string()), "30313233343536373839202020202020");
}

#[test]
fn encrypt_known_answer() {
    let c = encrypt(&"Two One Nine Two".to_string(), &"Thats my Kung Fu".to_string());
    assert_eq!(c, "29c3505f571420f6402299b31a02d73a");
}

#[test]
fn encrypt_pads_to_whole_blocks() {
    let c = encrypt(&"0123456789".to_string(), &"passphrase123456".to_string());
    assert_eq!(c, "a0ba89a7c5f5cca0dc3e4c683c3cf29a");
    let c = encrypt(
        &"The quick brown fox jumps over the lazy dog".to_string(),
        &"0123456789abcdef".to_string(),
    );
    assert_eq!(
        c,
        "08eaec72a2775e8a412e92731f4a4a2e4d8b9161a0f6411f4f7d0970100abbb0b270101a2eec7a559162c96c95da970d"
    );
}

#[test]
fn encrypt_short_plaintext_fills_one_block() {
    assert_eq!(
        encrypt(&"hello".to_string(), &"passphrase123456".to_string()),
        "0b51f33f0c2ac99a390f1b4ec323efe2"
    );
    assert_eq!(
        encrypt(&"a".to_string(), &"0123456789abcdef".to_string()),
        "61f96a8dd397f76f1ccb394e70e6bb79"
    );
    assert_eq!(encrypt(&String::new(), &"0123456789abcdef".to_string()), "");
}

#[test]
fn decrypt_known_answer() {
    let p = decrypt(
        &"29c3505f571420f6402299b31a02d73a".to_string(),
        &"Thats my Kung Fu".to_string(),
    );
    assert_eq!(
        p,
        vec![
            vec!["54", "77", "6f", "20"],
            vec!["4f", "6e", "65", "20"],
            vec!["4e", "69", "6e", "65"],
            vec!["20", "54", "77", "6f"],
        ]
    );
}

#[test]
fn decrypt_with_passphrase_undoes_encrypt() {
    for plain in ["Two One Nine Two", "hello", "x"] {
        let c = encrypt(&plain.to_string(), &"Thats my Kung Fu".to_string());
        let p = decrypt(&c, &"Thats my Kung Fu".to_string());
        assert_eq!(block_text(&p), normalize(&plain.to_string()));
    }
}

#[test]
fn decrypt_traced_lists_every_round() {
    let passphrase: String = (0u8..16).map(char::from).collect();
    let (p, trace) =
        decrypt_traced(&"69c4e0d86a7b0430d8cdb78070b4c55a".to_string(), &passphrase);
    assert_eq!(block_text(&p), "00112233445566778899aabbccddeeff");
    assert_eq!(trace.len(), 58);
    assert_eq!(block_text(&trace[0]), "13111d7fe3944a17f307a78b4d2b30c5");
    assert_eq!(block_text(&trace[1]), "7ad5fda789ef4e272bca100b3d9ff59f");
    assert_eq!(block_text(&trace[2]), "bdb52189f261b63d0b107c9e8b6e776e");
    assert_eq!(block_text(&trace[3]), "bd6e7c3df2b5779e0b61216e8b10b689");
    assert_eq!(block_text(&trace[4]), "4773b91ff72f354361cb018ea1e6cf2c");
    assert_eq!(block_text(&trace[5]), "13aa29be9c8faff6f770f58000f7bf03");
    assert_eq!(block_text(&trace[6]), "54d990a16ba09ab596bbf40ea111702f");
    assert_eq!(block_text(&trace[54]), "6353e08c0960e104cd70b751bacad0e7");
    assert_eq!(block_text(&trace[55]), "0050a0f04090e03080d02070c01060b0");
    assert_eq!(block_text(&trace[56]), "00102030405060708090a0b0c0d0e0f0");
    assert_eq!(block_text(&trace[57]), "000102030405060708090a0b0c0d0e0f");
}

#[test]
fn generate_derives_each_new_key_from_the_key_at_its_index() {
    let mut round_keys = RoundKeys {
        keys: vec![
            block("2b7e151628aed2a6abf7158809cf4f3c"),
            block("000102030405060708090a0b0c0d0e0f"),
        ],
    };
    round_keys.generate();
    assert_eq!(round_keys.keys.len(), 12);
    assert_eq!(block_text(&round_keys.keys[1]), "000102030405060708090a0b0c0d0e0f");
    assert_eq!(block_text(&round_keys.keys[2]), "a0fafe1788542cb123a339392a6c7605");
    assert_eq!(block_text(&round_keys.keys[3]), "d5aa74fdd1af72fad9a678f1d5ab76fe");
}

#[test]
fn to_vec_pairs_rejoin_to_the_text() {
    let text = "0a1b2c3d4e5f";
    let joined: String = to_vec(text.to_string()).concat();
    assert_eq!(joined, text);
}

#[test]
fn normalize_pads_every_ascii_text_to_whole_blocks() {
    for len in 0..60 {
        let text: String = "x".repeat(len);
        let n = normalize(&text);
        assert_eq!(n.len() % 32, 0, "length {}", len);
        assert!(n.len() >= 2 * len);
        assert!(n.len() <= 2 * len + 32);
    }
}

#[test]
fn normalize_short_texts_fill_one_block() {
    assert_eq!(normalize(&"abc".to_string()), "61626320202020202020202020202020");
    assert_eq!(normalize(&"abcde".to_string()).len(), 32);
    assert_eq!(normalize(&"abcdefgh".to_string()).len(), 32);
}

#[test]
fn mix_product_text_is_two_digits() {
    let column = vec!["bf".to_string(), "00".to_string(), "00".to_string(), "00".to_string()];
    assert_eq!(vector_dot_product(vec!["03", "00", "00", "00"], column.clone(), true), "da");
    assert_eq!(vector_dot_product(vec!["02", "00", "00", "00"], column.clone(), true), "65");
    assert_eq!(vector_dot_product(vec!["01", "00", "00", "00"], column, true), "bf");
}

#[test]
fn normalize_pads_by_characters() {
    assert_eq!(
        normalize(&"\u{e9}\u{e9}\u{e9}\u{e9}\u{e9}".to_string()),
        "c3a9c3a9c3a9c3a9c3a92020202020202020202020"
    );
}

#[test]
fn encrypt_writes_32_digits_per_whole_block() {
    assert_eq!(encrypt(&"abcdefghijklmnopq".to_string(), &"0123456789abcdef".to_string()).len(), 64);
    let c = encrypt(&"\u{e9}\u{e9}\u{e9}\u{e9}\u{e9}".to_string(), &"0123456789abcdef".to_string());
    assert_eq!(c.len(), 32);
    assert_eq!(encrypt(&"abc".to_string(), &"0123456789abcdef".to_string()).len(), 32);
}

#[test]
fn encrypt_reads_only_the_first_sixteen_passphrase_bytes() {
    let a = encrypt(
        &"The quick brown fox jumps over the lazy dog".to_string(),
        &"0123456789abcdef0123".to_string(),
    );
    let b = encrypt(
        &"The quick brown fox jumps over the lazy dog".to_string(),
        &"0123456789abcdef".to_string(),
    );
    assert_eq!(a, b);
}

#[test]
fn divide_into_state_rejoins_to_the_text() {
    for text in ["", "00", "00112233445566778899", "000102030405060708090a0b0c0d0e0f1011"] {
        assert_eq!(block_text(&block(text)), text);
    }
}
