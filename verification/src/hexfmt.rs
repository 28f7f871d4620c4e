//! Hexadecimal digits and texts: the reading and writing rules that the rest of the
//! library builds on.
use vstd::prelude::*;
use vstd::string::*;
use vstd::arithmetic::div_mod::lemma_fundamental_div_mod_converse;

verus! {

/// Lowercase hexadecimal digit for a value below 16.
pub open spec fn hex_digit(d: nat) -> char {
    if d < 10 {
        (d + 48) as char
    } else {
        (d + 87) as char
    }
}

/// Value of a hexadecimal digit of either case.
pub open spec fn hex_value(c: char) -> Option<nat> {
    if '0' <= c <= '9' {
        Some((c as nat - 48) as nat)
    } else if 'a' <= c <= 'f' {
        Some((c as nat - 87) as nat)
    } else if 'A' <= c <= 'F' {
        Some((c as nat - 55) as nat)
    } else {
        None
    }
}

/// Value of a decimal digit or of a lowercase letter `a` to `f`.
pub open spec fn lower_value(c: char) -> Option<nat> {
    if '0' <= c <= '9' {
        Some((c as nat - 48) as nat)
    } else if 'a' <= c <= 'f' {
        Some((c as nat - 87) as nat)
    } else {
        None
    }
}

/// Two characters that are equal, or the same ASCII letter in the two cases.
pub open spec fn same_ignoring_case(a: char, b: char) -> bool {
    ||| a == b
    ||| ('a' <= b <= 'z' && a as u32 + 32 == b as u32)
    ||| ('a' <= a <= 'z' && b as u32 + 32 == a as u32)
}

/// Two texts of the same length whose characters are pairwise the same ignoring case.
pub open spec fn texts_same_ignoring_case(s: Seq<char>, t: Seq<char>) -> bool {
    s.len() == t.len() && forall|i: int| 0 <= i < s.len() ==> same_ignoring_case(#[trigger] s[i], t[i])
}

/// The two lowercase digits of a byte.
pub open spec fn hex2(b: u8) -> Seq<char> {
    seq![hex_digit(b as nat / 16), hex_digit(b as nat % 16)]
}

/// Texts of exactly two lowercase hexadecimal digits: the form in which every byte
/// that the library writes is kept.
pub open spec fn is_hex2(cs: Seq<char>) -> bool {
    cs.len() == 2 && lower_value(cs[0]) is Some && lower_value(cs[1]) is Some
}

/// The byte that a two-digit lowercase text stands for.
pub open spec fn hex2_value(cs: Seq<char>) -> u8 {
    (16 * lower_value(cs[0])->0 + lower_value(cs[1])->0) as u8
}

/// The lowercase hexadecimal text of a byte sequence, two digits per byte.
pub open spec fn hex_of_bytes(bytes: Seq<u8>) -> Seq<char>
    decreases bytes.len(),
{
    if bytes.len() == 0 {
        Seq::empty()
    } else {
        hex_of_bytes(bytes.drop_last()) + hex2(bytes.last())
    }
}

/// What `u8::from_str_radix` gives in base 16 for a text of two ASCII characters:
/// an optional `+` followed by digits of either case.
pub open spec fn pair_value(c0: char, c1: char) -> Option<u8> {
    if c0 == '+' {
        match hex_value(c1) {
            Some(v) => Some(v as u8),
            None => None,
        }
    } else {
        match (hex_value(c0), hex_value(c1)) {
            (Some(h), Some(l)) => Some((16 * h + l) as u8),
            _ => None,
        }
    }
}

/// Whether the first two bytes of the UTF-8 form of `s` exist and end on a character
/// boundary, so that they can be cut out of the text.
pub open spec fn prefix_cut_ok(s: Seq<char>) -> bool {
    ||| (s.len() >= 2 && (s[0] as u32) < 0x80 && (s[1] as u32) < 0x80)
    ||| (s.len() >= 1 && 0x80 <= (s[0] as u32) < 0x800)
}

/// The byte that the first two bytes of `s` denote in base 16, if they denote one.
pub open spec fn prefix_value(s: Seq<char>) -> Option<u8> {
    if s.len() >= 2 {
        pair_value(s[0], s[1])
    } else {
        None
    }
}

/// A text whose first two characters read as a byte in base 16.
pub open spec fn decodes(s: Seq<char>) -> bool {
    prefix_value(s) is Some
}

/// The byte that the first two characters of a decodable text denote.
pub open spec fn cell_byte(s: Seq<char>) -> u8 {
    prefix_value(s)->0
}

/// The digits of a number in base 16, lowercase, without leading zeros.
pub open spec fn hex_text(v: nat) -> Seq<char>
    decreases v,
{
    if v < 16 {
        seq![hex_digit(v)]
    } else {
        hex_text(v / 16).push(hex_digit(v % 16))
    }
}

/// The digits of a number in base 16, lowercase, padded with zeros to two digits at least.
pub open spec fn hex_text_min2(v: nat) -> Seq<char> {
    if v < 16 {
        seq!['0', hex_digit(v)]
    } else {
        hex_text(v)
    }
}

/// The digits of a number in base 10, without leading zeros.
pub open spec fn dec_text(v: nat) -> Seq<char>
    decreases v,
{
    if v < 10 {
        seq![hex_digit(v)]
    } else {
        dec_text(v / 10).push(hex_digit(v % 10))
    }
}

/// Value of a digit in base `radix` (10 or 16), letters of either case.
pub open spec fn digit_value(c: char, radix: nat) -> Option<nat> {
    match hex_value(c) {
        Some(d) => if d < radix {
            Some(d)
        } else {
            None
        },
        None => None,
    }
}

/// The value of a sequence of digits in base `radix`, if all are digits.
pub open spec fn digits_value(s: Seq<char>, radix: nat) -> Option<nat>
    decreases s.len(),
{
    if s.len() == 0 {
        Some(0)
    } else {
        match (digits_value(s.drop_last(), radix), digit_value(s.last(), radix)) {
            (Some(a), Some(d)) => Some(radix * a + d),
            _ => None,
        }
    }
}

/// What `i64::from_str_radix(s, radix)` gives, `None` standing for its error: an optional
/// sign, then at least one digit, and a value within the range of `i64`.
pub open spec fn i64_from_radix(s: Seq<char>, radix: nat) -> Option<i64> {
    if s.len() == 0 {
        None
    } else if s.len() == 1 && (s[0] == '+' || s[0] == '-') {
        None
    } else {
        let neg = s[0] == '-';
        let digits = if s[0] == '+' || s[0] == '-' {
            s.drop_first()
        } else {
            s
        };
        match digits_value(digits, radix) {
            Some(v) => if neg {
                if v <= 0x8000_0000_0000_0000 {
                    Some((-v) as i64)
                } else {
                    None
                }
            } else {
                if v <= 0x7fff_ffff_ffff_ffff {
                    Some(v as i64)
                } else {
                    None
                }
            },
            None => None,
        }
    }
}

/// What `i64::from_str_radix(s, 16)` gives, `None` standing for its error.
pub open spec fn i64_from_hex(s: Seq<char>) -> Option<i64> {
    i64_from_radix(s, 16)
}

/// The one-character text of a lowercase hexadecimal digit.
fn digit_text(d: u8) -> (r: &'static str)
    requires
        d < 16,
    ensures
        r@ == seq![hex_digit(d as nat)],
{
    proof {
        reveal_strlit("0");
        reveal_strlit("1");
        reveal_strlit("2");
        reveal_strlit("3");
        reveal_strlit("4");
        reveal_strlit("5");
        reveal_strlit("6");
        reveal_strlit("7");
        reveal_strlit("8");
        reveal_strlit("9");
        reveal_strlit("a");
        reveal_strlit("b");
        reveal_strlit("c");
        reveal_strlit("d");
        reveal_strlit("e");
        reveal_strlit("f");
    }
    if d == 0 {
        "0"
    } else if d == 1 {
        "1"
    } else if d == 2 {
        "2"
    } else if d == 3 {
        "3"
    } else if d == 4 {
        "4"
    } else if d == 5 {
        "5"
    } else if d == 6 {
        "6"
    } else if d == 7 {
        "7"
    } else if d == 8 {
        "8"
    } else if d == 9 {
        "9"
    } else if d == 10 {
        "a"
    } else if d == 11 {
        "b"
    } else if d == 12 {
        "c"
    } else if d == 13 {
        "d"
    } else if d == 14 {
        "e"
    } else {
        "f"
    }
}

/// The text of the two lowercase hexadecimal digits of a byte.
pub fn byte_hex(b: u8) -> (r: String)
    ensures
        r@ == hex2(b),
{
    let mut s = String::new();
    s.append(digit_text(b / 16));
    s.append(digit_text(b % 16));
    s
}

/// Appends the base-16 digits of `v`, without leading zeros.
fn push_hex_digits(s: &mut String, v: u64)
    ensures
        final(s)@ == old(s)@ + hex_text(v as nat),
    decreases v,
{
    if v >= 16 {
        push_hex_digits(s, v / 16);
    }
    s.append(digit_text((v % 16) as u8));
    proof {
        if v >= 16 {
            assert(hex_text(v as nat) == hex_text((v / 16) as nat).push(hex_digit((v % 16) as nat)));
        }
    }
}

/// The text that `format!("{:02x}", v)` gives for a number that is not negative.
pub fn format_hex(v: i64) -> (r: String)
    requires
        v >= 0,
    ensures
        r@ == hex_text_min2(v as nat),
{
    let mut s = String::new();
    if v < 16 {
        s.append(digit_text(0));
    }
    push_hex_digits(&mut s, v as u64);
    s
}

/// Value of a hexadecimal digit of either case.
fn digit_of(c: char) -> (r: Option<u8>)
    ensures
        match hex_value(c) {
            Some(v) => r == Some(v as u8),
            None => r is None,
        },
{
    if '0' <= c && c <= '9' {
        Some(((c as u32) - 48) as u8)
    } else if 'a' <= c && c <= 'f' {
        Some(((c as u32) - 87) as u8)
    } else if 'A' <= c && c <= 'F' {
        Some(((c as u32) - 55) as u8)
    } else {
        None
    }
}

/// Value of a digit in base `radix` (10 or 16).
fn digit_in_radix(c: char, radix: u32) -> (r: Option<u8>)
    requires
        radix == 10 || radix == 16,
    ensures
        match digit_value(c, radix as nat) {
            Some(v) => r == Some(v as u8),
            None => r is None,
        },
{
    match digit_of(c) {
        Some(d) => if (d as u32) < radix {
            Some(d)
        } else {
            None
        },
        None => None,
    }
}

/// Reads two characters the way `u8::from_str_radix` reads them in base 16.
pub fn read_pair(c0: char, c1: char) -> (r: Option<u8>)
    ensures
        r == pair_value(c0, c1),
{
    if c0 == '+' {
        digit_of(c1)
    } else {
        match (digit_of(c0), digit_of(c1)) {
            (Some(h), Some(l)) => Some(16 * h + l),
            _ => None,
        }
    }
}

/// A prefix of a digit sequence has a value, and that value is not greater.
proof fn lemma_digits_prefix(d: Seq<char>, k: int, radix: nat)
    requires
        digits_value(d, radix) is Some,
        0 <= k <= d.len(),
        radix >= 1,
    ensures
        digits_value(d.subrange(0, k), radix) is Some,
        digits_value(d.subrange(0, k), radix)->0 <= digits_value(d, radix)->0,
    decreases d.len(),
{
    if k == d.len() {
        assert(d.subrange(0, k) =~= d);
    } else {
        let e = d.drop_last();
        lemma_digits_prefix(e, k, radix);
        assert(e.subrange(0, k) =~= d.subrange(0, k));
        let a = digits_value(e, radix)->0;
        assert(a <= radix * a) by (nonlinear_arith)
            requires
                radix >= 1,
        ;
    }
}

/// Reads a text the way `i64::from_str_radix(s, radix)` reads it, `None` standing for
/// an error (`str::parse::<i64>` reads in base 10 the same way).
pub fn i64_from_str_radix(s: &str, radix: u32) -> (r: Option<i64>)
    requires
        radix == 10 || radix == 16,
    ensures
        r == i64_from_radix(s@, radix as nat),
{
    let n = s.unicode_len();
    if n == 0 {
        return None;
    }
    let c0 = s.get_char(0);
    if n == 1 && (c0 == '+' || c0 == '-') {
        return None;
    }
    let neg = c0 == '-';
    let start: usize = if c0 == '+' || c0 == '-' { 1 } else { 0 };
    let limit: u128 = if neg { 0x8000_0000_0000_0000 } else { 0x7fff_ffff_ffff_ffff };
    let ghost d = s@.subrange(start as int, n as int);
    let ghost rad = radix as nat;
    proof {
        if c0 == '+' || c0 == '-' {
            assert(d =~= s@.drop_first());
        } else {
            assert(d =~= s@);
        }
        assert(d.subrange(0, 0) =~= Seq::<char>::empty());
    }
    let mut acc: u128 = 0;
    let mut i: usize = start;
    while i < n
        invariant
            start <= i <= n,
            n == s@.len(),
            radix == 10 || radix == 16,
            rad == radix as nat,
            d == s@.subrange(start as int, n as int),
            acc <= limit,
            limit <= 0x8000_0000_0000_0000,
            n >= 1,
            !(n == 1 && (s@[0] == '+' || s@[0] == '-')),
            neg == (s@[0] == '-'),
            limit == (if neg { 0x8000_0000_0000_0000u128 } else { 0x7fff_ffff_ffff_ffffu128 }),
            d == (if s@[0] == '+' || s@[0] == '-' { s@.drop_first() } else { s@ }),
            digits_value(d.subrange(0, i - start), rad) == Some(acc as nat),
        decreases n - i,
    {
        let c = s.get_char(i);
        let ghost k: int = i - start;
        assert(d.subrange(0, k + 1).drop_last() =~= d.subrange(0, k));
        assert(d.subrange(0, k + 1).last() == c);
        match digit_in_radix(c, radix) {
            None => {
                proof {
                    if digits_value(d, rad) is Some {
                        lemma_digits_prefix(d, k + 1, rad);
                    }
                }
                return None;
            },
            Some(v) => {
                assert(acc * (radix as u128) <= 0x8000_0000_0000_0000 * 16) by (nonlinear_arith)
                    requires
                        acc <= 0x8000_0000_0000_0000,
                        radix <= 16,
                ;
                let next = acc * (radix as u128) + v as u128;
                assert(next == rad * acc + v) by (nonlinear_arith)
                    requires
                        next == acc * (radix as u128) + v as u128,
                        rad == radix as nat,
                ;
                if next > limit {
                    proof {
                        if digits_value(d, rad) is Some {
                            lemma_digits_prefix(d, k + 1, rad);
                        }
                    }
                    return None;
                }
                acc = next;
            },
        }
        i = i + 1;
    }
    assert(d.subrange(0, n - start) =~= d);
    if neg {
        if acc == 0x8000_0000_0000_0000 {
            Some(i64::MIN)
        } else {
            Some(-(acc as i64))
        }
    } else {
        Some(acc as i64)
    }
}

/// Number of base-16 digits of a number, at least one.
pub open spec fn hex_len(v: nat) -> nat
    decreases v,
{
    if v < 16 {
        1
    } else {
        1 + hex_len(v / 16)
    }
}

/// Powers of 16.
pub open spec fn pow16(k: nat) -> nat
    decreases k,
{
    if k == 0 {
        1
    } else {
        16 * pow16((k - 1) as nat)
    }
}

/// Powers of 16 are positive, and at least 16 from the first power on.
pub proof fn lemma_pow16_pos(k: nat)
    ensures
        pow16(k) >= 1,
        k >= 1 ==> pow16(k) >= 16,
    decreases k,
{
    if k > 0 {
        lemma_pow16_pos((k - 1) as nat);
    }
}

/// The value of the text `format!("{:02x}", v)` once its first character is removed:
/// the number that its remaining digits spell.
pub open spec fn drop_first_digit(v: nat) -> nat {
    let len = if hex_len(v) < 2 { 2 } else { hex_len(v) };
    v % pow16((len - 1) as nat)
}

/// A digit below 16 reads back as itself.
pub proof fn lemma_hex_digit(d: nat)
    requires
        d < 16,
    ensures
        lower_value(hex_digit(d)) == Some(d),
        hex_value(hex_digit(d)) == Some(d),
        hex_digit(d) != '+',
        hex_digit(d) != '-',
        (hex_digit(d) as u32) < 0x80,
{
}

/// The two-digit text of a byte is in canonical form and reads back as the byte,
/// whichever reading rule is applied.
pub proof fn lemma_hex2(b: u8)
    ensures
        is_hex2(hex2(b)),
        hex2_value(hex2(b)) == b,
        prefix_cut_ok(hex2(b)),
        prefix_value(hex2(b)) == Some(b),
        decodes(hex2(b)),
        cell_byte(hex2(b)) == b,
        i64_from_hex(hex2(b)) == Some(b as i64),
        hex_text_min2(b as nat) == hex2(b),
{
    let h = b as nat / 16;
    let l = b as nat % 16;
    lemma_hex_digit(h);
    lemma_hex_digit(l);
    let t = hex2(b);
    assert(t.drop_last() =~= seq![hex_digit(h)]);
    assert(seq![hex_digit(h)].drop_last() =~= Seq::<char>::empty());
    assert(digits_value(Seq::<char>::empty(), 16) == Some(0nat));
    assert(digits_value(seq![hex_digit(h)], 16) == Some(h));
    assert(digits_value(t, 16) == Some(16 * h + l));
    if b >= 16 {
        assert(hex_text(b as nat) == hex_text(h).push(hex_digit(l)));
        assert(hex_text(b as nat) =~= t);
    }
}

/// A canonical two-digit text is the text of the byte it stands for.
pub proof fn lemma_is_hex2(cs: Seq<char>)
    requires
        is_hex2(cs),
    ensures
        cs == hex2(hex2_value(cs)),
        hex2_value(cs) == cell_byte(cs),
        prefix_cut_ok(cs),
        decodes(cs),
{
    let h = lower_value(cs[0])->0;
    let l = lower_value(cs[1])->0;
    assert(h < 16 && l < 16);
    let v = hex2_value(cs);
    assert(v as nat / 16 == h && v as nat % 16 == l);
    assert(hex_digit(h) == cs[0]);
    assert(hex_digit(l) == cs[1]);
    assert(cs =~= hex2(v));
    lemma_hex2(v);
}

/// The text of a byte sequence has two characters per byte: those of [`hex2`].
pub proof fn lemma_hex_of_bytes_chars(b: Seq<u8>)
    ensures
        hex_of_bytes(b).len() == 2 * b.len(),
        forall|p: int|
            0 <= p < 2 * b.len() ==> #[trigger] hex_of_bytes(b)[p] == hex2(b[p / 2])[p % 2],
    decreases b.len(),
{
    if b.len() > 0 {
        let c = b.drop_last();
        lemma_hex_of_bytes_chars(c);
        assert forall|p: int| 0 <= p < 2 * b.len() implies #[trigger] hex_of_bytes(b)[p] == hex2(
            b[p / 2],
        )[p % 2] by {
            if p < 2 * c.len() {
                assert(b[p / 2] == c[p / 2]);
            } else {
                assert(p / 2 == c.len());
            }
        }
    }
}

/// The text of a concatenation is the concatenation of the texts.
pub proof fn lemma_hex_of_bytes_concat(a: Seq<u8>, b: Seq<u8>)
    ensures
        hex_of_bytes(a + b) == hex_of_bytes(a) + hex_of_bytes(b),
    decreases b.len(),
{
    if b.len() == 0 {
        assert(a + b =~= a);
        assert(hex_of_bytes(a) + hex_of_bytes(b) =~= hex_of_bytes(a));
    } else {
        lemma_hex_of_bytes_concat(a, b.drop_last());
        assert((a + b).drop_last() =~= a + b.drop_last());
        assert(hex_of_bytes(a + b) =~= hex_of_bytes(a) + hex_of_bytes(b));
    }
}

/// The text of a single byte is its two digits.
pub proof fn lemma_hex_of_one_byte(b: u8)
    ensures
        hex_of_bytes(seq![b]) == hex2(b),
{
    assert(seq![b].drop_last() =~= Seq::<u8>::empty());
    assert(hex_of_bytes(Seq::<u8>::empty()) =~= Seq::<char>::empty());
    assert(Seq::<char>::empty() + hex2(b) =~= hex2(b));
}

/// The characters `2 * i` to `2 * j` of the text of a byte sequence are the text of the
/// bytes `i` to `j`.
pub proof fn lemma_hex_of_bytes_subrange(b: Seq<u8>, i: int, j: int)
    requires
        0 <= i <= j <= b.len(),
    ensures
        hex_of_bytes(b).subrange(2 * i, 2 * j) == hex_of_bytes(b.subrange(i, j)),
{
    lemma_hex_of_bytes_chars(b);
    lemma_hex_of_bytes_chars(b.subrange(i, j));
    assert forall|p: int| 0 <= p < 2 * (j - i) implies #[trigger] hex_of_bytes(b).subrange(
        2 * i,
        2 * j,
    )[p] == hex_of_bytes(b.subrange(i, j))[p] by {
        assert((2 * i + p) / 2 == i + p / 2);
        assert((2 * i + p) % 2 == p % 2);
    }
    assert(hex_of_bytes(b).subrange(2 * i, 2 * j) =~= hex_of_bytes(b.subrange(i, j)));
}

/// The pairs of characters of the text of a byte sequence are the texts of its bytes.
pub proof fn lemma_hex_of_bytes_pair(b: Seq<u8>, k: int)
    requires
        0 <= k < b.len(),
    ensures
        hex_of_bytes(b).subrange(2 * k, 2 * k + 2) == hex2(b[k]),
{
    lemma_hex_of_bytes_chars(b);
    assert(hex_of_bytes(b)[2 * k] == hex2(b[k])[0]);
    assert((2 * k + 1) / 2 == k);
    assert(hex_of_bytes(b)[2 * k + 1] == hex2(b[k])[1]);
    assert(hex_of_bytes(b).subrange(2 * k, 2 * k + 2) =~= hex2(b[k]));
}

/// The base-16 digits of a number spell it back.
pub proof fn lemma_hex_text(v: nat)
    ensures
        digits_value(hex_text(v), 16) == Some(v),
        hex_text(v).len() == hex_len(v),
        hex_text(v).len() >= 1,
        hex_value(hex_text(v)[0]) is Some,
    decreases v,
{
    if v < 16 {
        lemma_hex_digit(v);
        assert(hex_text(v).drop_last() =~= Seq::<char>::empty());
        assert(digits_value(Seq::<char>::empty(), 16) == Some(0nat));
    } else {
        lemma_hex_text(v / 16);
        lemma_hex_digit(v % 16);
        assert(hex_text(v).drop_last() =~= hex_text(v / 16));
    }
}

/// The base-10 digits of a number spell it back.
pub proof fn lemma_dec_text(v: nat)
    ensures
        digits_value(dec_text(v), 10) == Some(v),
        dec_text(v).len() >= 1,
        hex_value(dec_text(v)[0]) is Some,
    decreases v,
{
    if v < 10 {
        lemma_hex_digit(v);
        assert(dec_text(v).drop_last() =~= Seq::<char>::empty());
        assert(digits_value(Seq::<char>::empty(), 10) == Some(0nat));
    } else {
        lemma_dec_text(v / 10);
        lemma_hex_digit(v % 10);
        assert(dec_text(v).drop_last() =~= dec_text(v / 10));
    }
}

/// A text of digits without a sign, of a value that `i64` holds, reads as that value.
pub proof fn lemma_i64_of_digits(t: Seq<char>, radix: nat, v: nat)
    requires
        t.len() >= 1,
        hex_value(t[0]) is Some,
        digits_value(t, radix) == Some(v),
        v <= 0x7fff_ffff_ffff_ffff,
    ensures
        i64_from_radix(t, radix) == Some(v as i64),
{
}

/// The two-digit-at-least text of a number spells it back.
pub proof fn lemma_hex_text_min2(v: nat)
    ensures
        digits_value(hex_text_min2(v), 16) == Some(v),
        hex_text_min2(v).len() == (if hex_len(v) < 2 { 2 } else { hex_len(v) }),
        hex_value(hex_text_min2(v)[0]) is Some,
        v <= 0x7fff_ffff_ffff_ffff ==> i64_from_hex(hex_text_min2(v)) == Some(v as i64),
        hex_text_min2(v).len() > 2 <==> v >= 256,
{
    lemma_hex_text(v);
    if v < 16 {
        let t = hex_text_min2(v);
        lemma_hex_digit(v);
        lemma_hex_digit(0);
        assert(hex_digit(0) == '0');
        assert(t.drop_last() =~= seq!['0']);
        assert(seq!['0'].drop_last() =~= Seq::<char>::empty());
        assert(digits_value(Seq::<char>::empty(), 16) == Some(0nat));
        assert(digits_value(seq!['0'], 16) == Some(0nat));
    } else {
        assert(hex_len(v) == 1 + hex_len(v / 16));
        if v < 256 {
            assert(hex_len(v / 16) == 1);
        } else {
            assert(hex_len(v / 16) == 1 + hex_len(v / 16 / 16));
            assert(hex_len(v / 16 / 16) >= 1) by {
                lemma_hex_text(v / 16 / 16);
            }
        }
    }
    if v <= 0x7fff_ffff_ffff_ffff {
        lemma_i64_of_digits(hex_text_min2(v), 16, v);
    }
}

/// Dropping the first digit of the text of a number of two digits or more leaves the
/// number modulo the power of 16 below its leading digit.
proof fn lemma_hex_text_drop_first(v: nat)
    requires
        v >= 16,
    ensures
        hex_text(v).drop_first().len() >= 1,
        hex_value(hex_text(v).drop_first()[0]) is Some,
        digits_value(hex_text(v).drop_first(), 16) == Some(v % pow16((hex_len(v) - 1) as nat)),
    decreases v,
{
    let q = v / 16;
    let r = v % 16;
    lemma_hex_digit(r);
    lemma_hex_text(q);
    assert(hex_len(v) == 1 + hex_len(q));
    if q < 16 {
        lemma_hex_digit(q);
        assert(hex_text(v).drop_first() =~= seq![hex_digit(r)]);
        assert(seq![hex_digit(r)].drop_last() =~= Seq::<char>::empty());
        assert(digits_value(Seq::<char>::empty(), 16) == Some(0nat));
        assert(hex_len(q) == 1);
        assert(pow16(1) == 16) by {
            reveal_with_fuel(pow16, 2);
        }
    } else {
        lemma_hex_text_drop_first(q);
        let a = hex_text(q);
        assert(hex_text(v) == a.push(hex_digit(r)));
        assert(hex_text(v).drop_first() =~= a.drop_first().push(hex_digit(r)));
        assert(hex_text(v).drop_first().drop_last() =~= a.drop_first());
        let p = pow16((hex_len(q) - 1) as nat);
        lemma_pow16_pos((hex_len(q) - 1) as nat);
        assert(pow16((hex_len(v) - 1) as nat) == 16 * p);
        let b = q % p;
        let c = q / p;
        assert(q == p * c + b) by {
            vstd::arithmetic::div_mod::lemma_fundamental_div_mod(q as int, p as int);
        }
        assert(v == c * (16 * p) + (16 * b + r)) by (nonlinear_arith)
            requires
                v == 16 * q + r,
                q == p * c + b,
        ;
        assert(0 <= 16 * b + r < 16 * p) by (nonlinear_arith)
            requires
                0 <= b < p,
                0 <= r < 16,
        ;
        lemma_fundamental_div_mod_converse(v as int, (16 * p) as int, c as int, (16 * b + r) as int);
    }
}

/// Removing the first character of `format!("{:02x}", v)` leaves a text of digits that
/// spells [`drop_first_digit`].
pub proof fn lemma_hex_text_min2_drop_first(v: nat)
    ensures
        hex_text_min2(v).drop_first().len() >= 1,
        hex_value(hex_text_min2(v).drop_first()[0]) is Some,
        digits_value(hex_text_min2(v).drop_first(), 16) == Some(drop_first_digit(v)),
        drop_first_digit(v) <= v,
{
    if v < 16 {
        lemma_hex_digit(v);
        assert(hex_text_min2(v).drop_first() =~= seq![hex_digit(v)]);
        assert(seq![hex_digit(v)].drop_last() =~= Seq::<char>::empty());
        assert(digits_value(Seq::<char>::empty(), 16) == Some(0nat));
        lemma_hex_text(v);
        assert(pow16(1) == 16) by {
            reveal_with_fuel(pow16, 2);
        }
    } else {
        lemma_hex_text(v);
        lemma_hex_text_drop_first(v);
        lemma_pow16_pos((hex_len(v) - 1) as nat);
        assert(hex_len(v) >= 2) by {
            lemma_hex_text(v / 16);
        }
    }
    let len = if hex_len(v) < 2 { 2 } else { hex_len(v) };
    lemma_pow16_pos((len - 1) as nat);
    assert(v % pow16((len - 1) as nat) <= v) by (nonlinear_arith)
        requires
            pow16((len - 1) as nat) >= 1,
    ;
}

/// A number of three hexadecimal digits with leading digit 1 loses 256 when that digit
/// is removed, and what is left is the two-digit text of the remaining byte.
pub proof fn lemma_hex_text_min2_drop_one(v: nat)
    requires
        256 <= v < 512,
    ensures
        hex_text_min2(v).drop_first() == hex2((v - 256) as u8),
        drop_first_digit(v) == v - 256,
{
    let q = v / 16;
    assert(16 <= q < 32);
    assert(q / 16 == 1);
    assert(hex_text(q) == hex_text(1).push(hex_digit(q % 16)));
    assert(hex_text(v) == hex_text(q).push(hex_digit(v % 16)));
    let b = (v - 256) as u8;
    assert(b as nat / 16 == q % 16);
    assert(b as nat % 16 == v % 16);
    assert(hex_text_min2(v).drop_first() =~= hex2(b));
    assert(hex_len(v / 256) == 1);
    assert(hex_len(v / 16) == 1 + hex_len(v / 16 / 16));
    assert(v / 16 / 16 == v / 256);
    assert(hex_len(v) == 3);
    assert(pow16(2) == 256) by {
        reveal_with_fuel(pow16, 3);
    }
}

/// Removes the first character of a non-empty text.
pub fn remove_first_char(s: String) -> (r: String)
    requires
        s@.len() >= 1,
    ensures
        r@ == s@.drop_first(),
{
    let n = s.as_str().unicode_len();
    let rest = s.as_str().substring_char(1, n).to_owned();
    assert(rest@ =~= s@.drop_first());
    rest
}

/// The text that `format!("{:x}", v)` gives for a number that is not negative.
pub fn format_hex_plain(v: i64) -> (r: String)
    requires
        v >= 0,
    ensures
        r@ == hex_text(v as nat),
{
    let mut s = String::new();
    push_hex_digits(&mut s, v as u64);
    assert(s@ =~= hex_text(v as nat));
    s
}

/// Appends the base-10 digits of `v`, without leading zeros.
fn push_dec_digits(s: &mut String, v: u64)
    ensures
        final(s)@ == old(s)@ + dec_text(v as nat),
    decreases v,
{
    if v >= 10 {
        push_dec_digits(s, v / 10);
    }
    s.append(digit_text((v % 10) as u8));
    proof {
        if v >= 10 {
            assert(dec_text(v as nat) == dec_text((v / 10) as nat).push(hex_digit((v % 10) as nat)));
        }
    }
}

/// Appends the decimal text of a byte, as `format!("{}", b)` writes it.
pub fn push_decimal(s: &mut String, b: u8)
    ensures
        final(s)@ == old(s)@ + dec_text(b as nat),
{
    push_dec_digits(s, b as u64);
}

} // verus!
