# aes_cipher

AES-128 in ECB mode over hexadecimal text, verified with Verus.

Every byte of a state or round key is kept as a two-digit hexadecimal text; blocks are
columns of four such texts. The library pads a plaintext, encrypts each whole block of 16
bytes, expands keys, and decrypts one block, and Verus proves what each of these returns
against a mathematical model of AES-128.

Layout:

- `src/hexfmt.rs`: reading and writing numbers in base 16 and base 10.
- `src/gf.rs`: GF(2^8) arithmetic and the S-box.
- `src/model.rs`: states, the round operations, the cipher, its inverse and the key
  schedule, with the proof that the inverse cipher undoes the cipher.
- `src/constants.rs`: round constants and the coefficient texts of MixColumns.
- `src/utils.rs`: hex text helpers, AddRoundKey on blocks, the MixColumns products,
  cutting a text into a block, and padding.
- `src/key.rs`: key expansion.
- `src/encrypt.rs`, `src/decrypt.rs`: the rounds and the two top-level operations.
- `src/laws.rs`: properties of the library as a whole.
- `app/main.rs`: the interactive program (reading input, printing results).
- `tests/cipher.rs`: tests, among them the known-answer vectors of FIPS-197.
