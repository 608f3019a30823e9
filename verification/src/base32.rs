//! Base 32: numbers in a compact, URL-safe form.
//!
//! A number is written least significant digit first, five bits per digit,
//! with the alphabet of [`digit`]. Two spellings are avoided for the sake of
//! link detection: a second `.` right after a `.` is written `0`, and a second
//! `$` right after a `$` is written `E` (both read back as the digit they stand
//! for). The encoding is never empty, never the word `RSS`, and never ends in
//! `.`: a trailing zero digit `2` is added in those cases.
use vstd::prelude::*;
use vstd::std_specs::cmp::PartialOrdSpecImpl;
use vstd::std_specs::cmp::PartialOrdIs;
use core::cmp::Ordering;
use crate::text::{ascii_upper, chars_of, push_char, string_of, to_ascii_uppercase};

verus! {

/// The 32 digits, in order of value.
pub open spec fn digits() -> Seq<char> {
    seq![
        '2', '3', '4', '5', '6', '7', '8', '9', 'B', 'C', 'D', 'F', 'G', 'H', 'J', 'K',
        'L', 'M', 'N', 'P', 'Q', 'R', 'S', 'T', 'V', 'W', 'X', 'Y', 'Z', '_', '$', '.',
    ]
}

/// The digit that stands for `d`.
pub open spec fn digit(d: int) -> char {
    digits()[d]
}

/// The value of a digit, if `c` is one.
pub open spec fn digit_value_spec(c: char) -> Option<int> {
    match c {
        '2' => Some(0int),
        '3' => Some(1int),
        '4' => Some(2int),
        '5' => Some(3int),
        '6' => Some(4int),
        '7' => Some(5int),
        '8' => Some(6int),
        '9' => Some(7int),
        'B' => Some(8int),
        'C' => Some(9int),
        'D' => Some(10int),
        'F' => Some(11int),
        'G' => Some(12int),
        'H' => Some(13int),
        'J' => Some(14int),
        'K' => Some(15int),
        'L' => Some(16int),
        'M' => Some(17int),
        'N' => Some(18int),
        'P' => Some(19int),
        'Q' => Some(20int),
        'R' => Some(21int),
        'S' => Some(22int),
        'T' => Some(23int),
        'V' => Some(24int),
        'W' => Some(25int),
        'X' => Some(26int),
        'Y' => Some(27int),
        'Z' => Some(28int),
        '_' => Some(29int),
        '$' => Some(30int),
        '.' => Some(31int),
        _ => None,
    }
}

/// Every digit reads back as its own value, so no digit occurs twice.
pub proof fn lemma_digit_value(d: int)
    requires
        0 <= d < 32,
    ensures
        digit_value_spec(digit(d)) == Some(d),
{
    assert(digits().len() == 32);
}

/// Characters that are read as another digit: `-` and space as `_`,
/// `,`, `0`, `O` and `o` as `.`, and `E` and `e` as `$`.
pub open spec fn equiv_chars_spec(c: char) -> char {
    match c {
        '-' => '_',
        ' ' => '_',
        ',' => '.',
        '0' => '.',
        'O' => '.',
        'o' => '.',
        'E' => '$',
        'e' => '$',
        _ => c,
    }
}

/// The digit that a character of an encoded number is read as.
pub open spec fn canonical(c: char) -> char {
    equiv_chars_spec(ascii_upper(c))
}

/// The value of the digits `s`, least significant first, when each character
/// is a digit up to case and the equivalences of [`equiv_chars_spec`].
pub open spec fn value_of(s: Seq<char>) -> Option<nat>
    decreases s.len(),
{
    if s.len() == 0 {
        Some(0)
    } else {
        match (digit_value_spec(canonical(s[0])), value_of(s.drop_first())) {
            (Some(d), Some(v)) => Some((d + 32 * v) as nat),
            _ => None,
        }
    }
}

/// The base-32 digits of `n`, least significant first, with no leading zero.
pub open spec fn raw_digits(n: nat) -> Seq<int>
    decreases n,
{
    if n == 0 {
        seq![]
    } else {
        seq![(n % 32) as int] + raw_digits(n / 32)
    }
}

/// The character written for a digit `c` after the characters `prev`.
pub open spec fn spelled(prev: Seq<char>, c: char) -> char {
    if prev.len() > 0 && prev.last() == '.' && c == '.' {
        '0'
    } else if prev.len() > 0 && prev.last() == '$' && c == '$' {
        'E'
    } else {
        c
    }
}

/// The characters written for a digit sequence, before the final check.
pub open spec fn spell(ds: Seq<int>) -> Seq<char>
    decreases ds.len(),
{
    if ds.len() == 0 {
        seq![]
    } else {
        let prev = spell(ds.drop_last());
        prev.push(spelled(prev, digit(ds.last())))
    }
}

pub open spec fn rss() -> Seq<char> {
    seq!['R', 'S', 'S']
}

/// Whether a spelled number needs the extra trailing `2`.
pub open spec fn needs_padding(s: Seq<char>) -> bool {
    s.len() == 0 || s == rss() || s.last() == '.'
}

/// The encoding of `n`.
pub open spec fn encode_spec(n: nat) -> Seq<char> {
    let s = spell(raw_digits(n));
    if needs_padding(s) {
        s.push('2')
    } else {
        s
    }
}

/// The digit character for `d` (the table `DIGITS` of the alphabet).
pub fn digit_char(d: u64) -> (c: char)
    requires
        d < 32,
    ensures
        c == digit(d as int),
{
    match d {
        0 => '2',
        1 => '3',
        2 => '4',
        3 => '5',
        4 => '6',
        5 => '7',
        6 => '8',
        7 => '9',
        8 => 'B',
        9 => 'C',
        10 => 'D',
        11 => 'F',
        12 => 'G',
        13 => 'H',
        14 => 'J',
        15 => 'K',
        16 => 'L',
        17 => 'M',
        18 => 'N',
        19 => 'P',
        20 => 'Q',
        21 => 'R',
        22 => 'S',
        23 => 'T',
        24 => 'V',
        25 => 'W',
        26 => 'X',
        27 => 'Y',
        28 => 'Z',
        29 => '_',
        30 => '$',
        _ => '.',
    }
}

/// The value of a digit character (the reverse table of `DIGITS`).
pub fn digit_value(c: char) -> (r: Option<u64>)
    ensures
        match digit_value_spec(c) {
            Some(d) => r == Some(d as u64),
            None => r is None,
        },
{
    match c {
        '2' => Some(0),
        '3' => Some(1),
        '4' => Some(2),
        '5' => Some(3),
        '6' => Some(4),
        '7' => Some(5),
        '8' => Some(6),
        '9' => Some(7),
        'B' => Some(8),
        'C' => Some(9),
        'D' => Some(10),
        'F' => Some(11),
        'G' => Some(12),
        'H' => Some(13),
        'J' => Some(14),
        'K' => Some(15),
        'L' => Some(16),
        'M' => Some(17),
        'N' => Some(18),
        'P' => Some(19),
        'Q' => Some(20),
        'R' => Some(21),
        'S' => Some(22),
        'T' => Some(23),
        'V' => Some(24),
        'W' => Some(25),
        'X' => Some(26),
        'Y' => Some(27),
        'Z' => Some(28),
        '_' => Some(29),
        '$' => Some(30),
        '.' => Some(31),
        _ => None,
    }
}

/// Maps the alternative spellings of a digit to the digit.
pub fn equiv_chars(c: char) -> (r: char)
    ensures
        r == equiv_chars_spec(c),
{
    match c {
        '-' => '_',
        ' ' => '_',
        ',' => '.',
        '0' => '.',
        'O' => '.',
        'o' => '.',
        'E' => '$',
        'e' => '$',
        _ => c,
    }
}


/// The value of digits `ds`, least significant first.
pub open spec fn digits_value(ds: Seq<int>) -> int
    decreases ds.len(),
{
    if ds.len() == 0 {
        0
    } else {
        ds[0] + 32 * digits_value(ds.drop_first())
    }
}

pub open spec fn all_digits(ds: Seq<int>) -> bool {
    forall|i: int| 0 <= i < ds.len() ==> 0 <= #[trigger] ds[i] < 32
}

proof fn lemma_raw_digits(n: nat)
    ensures
        all_digits(raw_digits(n)),
        digits_value(raw_digits(n)) == n,
        raw_digits(n).len() > 0 ==> raw_digits(n).last() != 0,
    decreases n,
{
    if n != 0 {
        lemma_raw_digits(n / 32);
        let ds = raw_digits(n);
        assert(ds.drop_first() =~= raw_digits(n / 32));
        if raw_digits(n / 32).len() == 0 {
            assert(n / 32 == 0);
            assert(ds.last() == n % 32);
        } else {
            assert(ds.last() == raw_digits(n / 32).last());
        }
    }
}

/// A string whose characters read as the digits `ds` has their value.
proof fn lemma_value_of_digits(s: Seq<char>, ds: Seq<int>)
    requires
        s.len() == ds.len(),
        all_digits(ds),
        forall|i: int| 0 <= i < s.len() ==> canonical(#[trigger] s[i]) == digit(ds[i]),
    ensures
        value_of(s) == Some(digits_value(ds) as nat),
        digits_value(ds) >= 0,
    decreases s.len(),
{
    if s.len() > 0 {
        assert forall|i: int| 0 <= i < s.drop_first().len() implies canonical(
            #[trigger] s.drop_first()[i],
        ) == digit(ds.drop_first()[i]) by {
            assert(s.drop_first()[i] == s[i + 1]);
        }
        assert(all_digits(ds.drop_first())) by {
            assert forall|i: int| 0 <= i < ds.drop_first().len() implies 0 <= #[trigger] ds.drop_first()[i] < 32 by {
                assert(ds.drop_first()[i] == ds[i + 1]);
            }
        }
        lemma_value_of_digits(s.drop_first(), ds.drop_first());
        assert(canonical(s[0]) == digit(ds[0]));
        lemma_digit_value(ds[0]);
    }
}

/// An extra zero digit at the most significant end adds nothing.
proof fn lemma_digits_value_push_zero(ds: Seq<int>)
    ensures
        digits_value(ds.push(0)) == digits_value(ds),
    decreases ds.len(),
{
    if ds.len() == 0 {
        assert(ds.push(0).drop_first() =~= Seq::<int>::empty());
        assert(digits_value(ds.push(0).drop_first()) == 0);
        assert(ds.push(0)[0] == 0);
    } else {
        assert(ds.push(0).drop_first() =~= ds.drop_first().push(0));
        lemma_digits_value_push_zero(ds.drop_first());
    }
}

/// Each character of a spelled digit sequence reads as its digit, and no
/// `.` or `$` follows itself.
proof fn lemma_spell(ds: Seq<int>)
    requires
        all_digits(ds),
    ensures
        spell(ds).len() == ds.len(),
        forall|i: int| 0 <= i < ds.len() ==> canonical(#[trigger] spell(ds)[i]) == digit(ds[i]),
        no_repeated_marks(spell(ds)),
    decreases ds.len(),
{
    if ds.len() > 0 {
        let pre = ds.drop_last();
        assert(all_digits(pre)) by {
            assert forall|i: int| 0 <= i < pre.len() implies 0 <= #[trigger] pre[i] < 32 by {
                assert(pre[i] == ds[i]);
            }
        }
        lemma_spell(pre);
        let prev = spell(pre);
        let c = digit(ds.last());
        lemma_digit_value(ds.last());
        let s = spell(ds);
        assert(s == prev.push(spelled(prev, c)));
        assert forall|i: int| 0 <= i < ds.len() implies canonical(#[trigger] s[i]) == digit(ds[i]) by {
            if i < ds.len() - 1 {
                assert(s[i] == prev[i]);
                assert(pre[i] == ds[i]);
            }
        }
    }
}

/// No `.` is directly followed by a `.`, and no `$` by a `$`.
pub open spec fn no_repeated_marks(s: Seq<char>) -> bool {
    forall|i: int|
        0 <= i < s.len() - 1 ==> !(#[trigger] s[i] == '.' && s[i + 1] == '.') && !(s[i] == '$'
            && s[i + 1] == '$')
}

/// Decoding gives back what encoding wrote: `decode(encode(n)) == Ok(n)`.
pub proof fn law_round_trip(n: u64)
    ensures
        value_of(encode_spec(n as nat)) == Some(n as nat),
{
    let ds = raw_digits(n as nat);
    lemma_raw_digits(n as nat);
    lemma_spell(ds);
    let s = spell(ds);
    if needs_padding(s) {
        let ds2 = ds.push(0);
        lemma_digits_value_push_zero(ds);
        assert(all_digits(ds2));
        assert forall|i: int| 0 <= i < s.push('2').len() implies canonical(
            #[trigger] s.push('2')[i],
        ) == digit(ds2[i]) by {
            if i < s.len() {
                assert(s.push('2')[i] == s[i]);
            }
        }
        lemma_value_of_digits(s.push('2'), ds2);
    } else {
        lemma_value_of_digits(s, ds);
    }
}

/// An encoding is never empty, is never `RSS`, never ends in `.`, and never
/// holds `..` or `$$`.
pub proof fn law_encoding_shape(n: u64)
    ensures
        encode_spec(n as nat).len() > 0,
        encode_spec(n as nat) != rss(),
        encode_spec(n as nat).last() != '.',
        no_repeated_marks(encode_spec(n as nat)),
{
    let ds = raw_digits(n as nat);
    lemma_raw_digits(n as nat);
    lemma_spell(ds);
    let s = spell(ds);
    if needs_padding(s) {
        let t = s.push('2');
        assert(t.len() == 4 || s.len() != 3 || s != rss());
        if t == rss() {
            assert(t.len() == 3);
            assert(s.len() == 2);
        }
        assert forall|i: int| 0 <= i < t.len() - 1 implies !(#[trigger] t[i] == '.' && t[i + 1] == '.')
            && !(t[i] == '$' && t[i + 1] == '$') by {
            if i < s.len() - 1 {
                assert(t[i] == s[i] && t[i + 1] == s[i + 1]);
            } else {
                assert(t[i + 1] == '2');
            }
        }
    }
}

/// Reading depends only on the digits the characters stand for: upper and
/// lower case, and the equivalent spellings, read alike.
pub proof fn law_equivalent_spellings(s1: Seq<char>, s2: Seq<char>)
    requires
        s1.len() == s2.len(),
        forall|i: int| 0 <= i < s1.len() ==> canonical(#[trigger] s1[i]) == canonical(s2[i]),
    ensures
        value_of(s1) == value_of(s2),
    decreases s1.len(),
{
    if s1.len() > 0 {
        assert forall|i: int| 0 <= i < s1.drop_first().len() implies canonical(
            #[trigger] s1.drop_first()[i],
        ) == canonical(s2.drop_first()[i]) by {
            assert(s1.drop_first()[i] == s1[i + 1]);
            assert(s2.drop_first()[i] == s2[i + 1]);
        }
        law_equivalent_spellings(s1.drop_first(), s2.drop_first());
        assert(canonical(s1[0]) == canonical(s2[0]));
    }
}



/// Writes `number` in base 32 (see the module documentation).
pub fn encode(number: u64) -> (s: String)
    ensures
        s@ == encode_spec(number as nat),
{
    let mut n = number;
    let mut out: Vec<char> = Vec::new();
    let ghost mut done: Seq<int> = seq![];
    while n != 0
        invariant
            raw_digits(number as nat) =~= done + raw_digits(n as nat),
            out@ == spell(done),
        decreases n,
    {
        let d = n & 31;
        assert(n & 31 == n % 32) by (bit_vector);
        assert(n >> 5 == n / 32) by (bit_vector);
        let c = digit_char(d);
        let last_is = |m: char| -> (b: bool)
            ensures
                b == (out@.len() > 0 && out@.last() == m),
            { out.len() > 0 && out[out.len() - 1] == m };
        let written = if c == '.' && last_is('.') {
            '0'
        } else if c == '$' && last_is('$') {
            'E'
        } else {
            c
        };
        proof {
            let ghost next = done.push(d as int);
            assert(next.drop_last() =~= done);
            assert(raw_digits(n as nat) =~= seq![d as int] + raw_digits((n / 32) as nat));
            assert(done + raw_digits(n as nat) =~= next + raw_digits((n / 32) as nat));
            done = next;
        }
        out.push(written);
        n = n >> 5;
    }
    assert(done =~= raw_digits(number as nat));
    let len = out.len();
    let is_rss = len == 3 && out[0] == 'R' && out[1] == 'S' && out[2] == 'S';
    assert(is_rss == (out@ == rss())) by {
        if out@ == rss() {
            assert(out@[0] == 'R' && out@[1] == 'S' && out@[2] == 'S');
        }
        if is_rss {
            assert(out@ =~= rss());
        }
    }
    if len == 0 || is_rss || out[len - 1] == '.' {
        out.push('2');
    }
    string_of(&out)
}

/// The mod-2^64 step of reading one more significant digit.
proof fn lemma_shift_in_digit(v: nat, x: u64, d: u64)
    requires
        x as int == v % 0x1_0000_0000_0000_0000,
        d < 32,
    ensures
        ((x << 5) | d) as int == (d + 32 * v) % 0x1_0000_0000_0000_0000,
{
    let m: int = 0x1_0000_0000_0000_0000;
    let k: int = 0x800_0000_0000_0000;
    assert(((x << 5) | d) == (x % 0x800_0000_0000_0000) * 32 + d) by (bit_vector)
        requires
            d < 32,
    ;
    let q = x as int / k;
    let r = x as int % k;
    assert(x as int == q * k + r && 0 <= r < k) by (nonlinear_arith)
        requires
            k > 0,
            q == x as int / k,
            r == x as int % k,
    ;
    assert(32 * x + d == q * m + (32 * r + d)) by (nonlinear_arith)
        requires
            x as int == q * k + r,
            m == 32 * k,
    ;
    vstd::arithmetic::div_mod::lemma_fundamental_div_mod_converse(32 * x + d, m, q, 32 * r + d);
    vstd::arithmetic::div_mod::lemma_mul_mod_noop_right(32, v as int, m);
    vstd::arithmetic::div_mod::lemma_add_mod_noop_right(d as int, 32 * (v as int), m);
    vstd::arithmetic::div_mod::lemma_add_mod_noop_right(d as int, 32 * (v as int % m), m);
}

proof fn lemma_value_of_suffix_invalid(s: Seq<char>, j: int)
    requires
        0 <= j <= s.len(),
        value_of(s.skip(j)) is None,
    ensures
        value_of(s) is None,
    decreases j,
{
    if j > 0 {
        assert(s.skip(j - 1).drop_first() =~= s.skip(j));
        lemma_value_of_suffix_invalid(s, j - 1);
    } else {
        assert(s.skip(0) =~= s);
    }
}

/// Reads a base-32 number: `Ok` with the value of `encoded` (least
/// significant digit first, reduced mod 2^64) when every character is a digit
/// up to case and the equivalent spellings, `Err` otherwise.
pub fn decode(encoded: &str) -> (r: Result<u64, Base32Error>)
    ensures
        match value_of(encoded@) {
            Some(v) => r == Ok::<u64, Base32Error>((v % 0x1_0000_0000_0000_0000) as u64),
            None => r == Err::<u64, Base32Error>(Base32Error),
        },
{
    let cs = chars_of(encoded);
    let mut decoded: u64 = 0;
    let mut i = cs.len();
    assert(cs@.skip(cs@.len() as int) =~= Seq::<char>::empty());
    while i > 0
        invariant
            i <= cs@.len(),
            cs@ == encoded@,
            value_of(cs@.skip(i as int)) is Some,
            decoded as int == value_of(cs@.skip(i as int))->0 % 0x1_0000_0000_0000_0000,
        decreases i,
    {
        i -= 1;
        let c = equiv_chars(to_ascii_uppercase(cs[i]));
        let ghost rest = cs@.skip(i + 1);
        assert(cs@.skip(i as int).drop_first() =~= rest);
        assert(cs@.skip(i as int)[0] == cs@[i as int]);
        match digit_value(c) {
            Some(d) => {
                proof {
                    lemma_shift_in_digit(value_of(rest)->0, decoded, d);
                }
                decoded = (decoded << 5) | d;
            },
            None => {
                proof {
                    lemma_value_of_suffix_invalid(cs@, i as int);
                }
                return Err(Base32Error);
            },
        }
    }
    assert(cs@.skip(0) =~= cs@);
    Ok(decoded)
}

/// The error for text that is not a base-32 number.
#[derive(Clone, Copy, Debug, PartialEq, Eq, Structural, PartialOrd, Ord)]
pub struct Base32Error;

impl Base32Error {
    /// The message shown for this error.
    pub fn to_string(&self) -> (s: String)
        ensures
            s@ == "Invalid base128 number"@,
    {
        "Invalid base128 number".to_string()
    }

    /// The short description of this error.
    pub fn description(&self) -> (s: &'static str)
        ensures
            s@ == "Invalid base32 number"@,
    {
        "Invalid base32 number"
    }
}

/// A 64-bit number that is written in base 32.
#[derive(Clone, Copy, Debug, PartialEq, Eq, Structural, Ord)]
pub struct Base32 {
    data: u64,
}

impl View for Base32 {
    type V = u64;

    closed spec fn view(&self) -> u64 {
        self.data
    }
}

impl Base32 {
    pub fn into_u64(self) -> (r: u64)
        ensures
            r == self@,
    {
        self.data
    }

    pub fn from_u64(u: u64) -> (r: Base32)
        ensures
            r@ == u,
    {
        Base32 { data: u }
    }

    /// The number read as a two's complement signed number.
    pub fn into_i64(self) -> (r: i64)
        ensures
            r == self@ as i64,
    {
        self.data as i64
    }

    /// Stores a signed number by its two's complement bits.
    pub fn from_i64(i: i64) -> (r: Base32)
        ensures
            r@ == i as u64,
    {
        Base32 { data: i as u64 }
    }

    pub fn zero() -> (r: Base32)
        ensures
            r@ == 0,
    {
        Base32 { data: 0 }
    }

    /// The base-32 text of the number.
    pub fn to_string(&self) -> (s: String)
        ensures
            s@ == encode_spec(self@ as nat),
    {
        encode(self.data)
    }

    /// Reads a number from its base-32 text.
    pub fn parse(s: &str) -> (r: Result<Base32, Base32Error>)
        ensures
            match value_of(s@) {
                Some(v) => r matches Ok(b) && b@ == (v % 0x1_0000_0000_0000_0000) as u64,
                None => r == Err::<Base32, Base32Error>(Base32Error),
            },
    {
        match decode(s) {
            Ok(data) => Ok(Base32 { data }),
            Err(e) => Err(e),
        }
    }
}

/// Decoding ignores case: writing one lower-case ASCII letter of a text in
/// upper case does not change the number the text reads as, or whether it
/// reads as one.
pub proof fn law_decoding_ignores_case(s: Seq<char>, i: int)
    requires
        0 <= i < s.len(),
        'a' <= s[i] <= 'z',
    ensures
        value_of(s.update(i, ((s[i] as u32) - 32) as char)) == value_of(s),
    decreases i,
{
    let u = ((s[i] as u32) - 32) as char;
    let t = s.update(i, u);
    if i == 0 {
        assert(t.drop_first() =~= s.drop_first());
        assert('A' <= u <= 'Z');
        assert(ascii_upper(u) == u);
        assert(ascii_upper(s[0]) == u);
        assert(canonical(t[0]) == canonical(s[0]));
    } else {
        law_decoding_ignores_case(s.drop_first(), i - 1);
        assert(t.drop_first() =~= s.drop_first().update(i - 1, u));
        assert(t[0] == s[0]);
    }
}

/// Values order as their numbers do.
impl PartialOrd for Base32 {
    fn partial_cmp(&self, other: &Base32) -> (r: Option<Ordering>) {
        if self.data < other.data {
            Some(Ordering::Less)
        } else if self.data == other.data {
            Some(Ordering::Equal)
        } else {
            Some(Ordering::Greater)
        }
    }
}

impl PartialOrdSpecImpl for Base32 {
    open spec fn obeys_partial_cmp_spec() -> bool {
        true
    }

    open spec fn partial_cmp_spec(&self, other: &Base32) -> Option<Ordering> {
        if self@ < other@ {
            Some(Ordering::Less)
        } else if self@ == other@ {
            Some(Ordering::Equal)
        } else {
            Some(Ordering::Greater)
        }
    }
}

/// Two values are the same exactly when their numbers are, and they order
/// as their numbers do.
pub proof fn law_order_follows_number(a: Base32, b: Base32)
    ensures
        (a == b) == (a@ == b@),
        a.is_lt(&b) == (a@ < b@),
        a.is_le(&b) == (a@ <= b@),
        a.is_gt(&b) == (a@ > b@),
        a.is_ge(&b) == (a@ >= b@),
{
}

impl core::str::FromStr for Base32 {
    type Err = Base32Error;

    fn from_str(s: &str) -> (r: Result<Base32, Base32Error>)
        ensures
            match value_of(s@) {
                Some(v) => r matches Ok(b) && b@ == (v % 0x1_0000_0000_0000_0000) as u64,
                None => r == Err::<Base32, Base32Error>(Base32Error),
            },
    {
        Base32::parse(s)
    }
}

/// Converting to and from the signed form gives back the number.
pub proof fn law_signed_round_trip(i: i64, u: u64)
    ensures
        (i as u64) as i64 == i,
        (u as i64) as u64 == u,
{
    assert((i as u64) as i64 == i) by (bit_vector);
    assert((u as i64) as u64 == u) by (bit_vector);
}

} // verus!

verus! {

impl Base32 {
    /// The number's eight big-endian bytes (its binary form).
    pub fn to_bytes(&self) -> (r: Vec<u8>)
        ensures
            r@ == crate::bytes::be_bytes(self@ as nat, 8),
    {
        crate::bytes::write_u64_be(self.data)
    }

    /// The number that the first eight bytes of `b` stand for, big-endian.
    pub fn from_bytes(b: &[u8]) -> (r: Base32)
        requires
            b@.len() >= 8,
        ensures
            r@ as nat == crate::bytes::be_value(b@.take(8)),
    {
        Base32 { data: crate::bytes::read_u64_be(b) }
    }
}

/// Reading back the binary form of a number gives the number.
pub proof fn law_bytes_round_trip(n: u64)
    ensures
        crate::bytes::be_bytes(n as nat, 8).len() == 8,
        crate::bytes::be_value(crate::bytes::be_bytes(n as nat, 8).take(8)) == n,
{
    crate::bytes::lemma_be_round_trip(n as nat, 8);
    assert(crate::bytes::be_bytes(n as nat, 8).take(8) =~= crate::bytes::be_bytes(n as nat, 8));
    crate::bytes::lemma_pow256();
    vstd::arithmetic::div_mod::lemma_small_mod(n as nat, 0x1_0000_0000_0000_0000nat);
}

} // verus!

verus! {

/// No digit occurs twice in the alphabet.
pub proof fn law_digits_distinct(d1: int, d2: int)
    requires
        0 <= d1 < 32,
        0 <= d2 < 32,
        d1 != d2,
    ensures
        digit(d1) != digit(d2),
{
    lemma_digit_value(d1);
    lemma_digit_value(d2);
}

} // verus!
