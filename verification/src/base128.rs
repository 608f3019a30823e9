//! Base 128: numbers (such as UUIDs) written very compactly with Unicode digits.
//!
//! A number is written least significant digit first, seven bits per digit,
//! with the alphabet of [`digit`]; zero is written `0`.
use vstd::prelude::*;
use vstd::std_specs::cmp::PartialOrdSpecImpl;
use vstd::std_specs::cmp::PartialOrdIs;
use core::cmp::Ordering;
use crate::text::chars_of;
use crate::text::string_of;

verus! {

/// The 128 digits, in order of value.
pub open spec fn digits() -> Seq<char> {
    seq![
        '0', '1', '2', '3', '4', '5', '6', '7',
        '8', '9', 'b', 'c', 'd', 'f', 'g', 'h',
        'j', 'k', 'l', 'm', 'n', 'p', 'q', 'r',
        's', 't', 'v', 'w', 'x', 'y', 'z', 'B',
        'C', 'D', 'F', 'G', 'H', 'J', 'K', 'L',
        'M', 'N', 'P', 'Q', 'R', 'S', 'T', 'V',
        'W', 'X', 'Y', 'Z', '\u{f8}', '\u{111}', '\u{142}', '\u{1e81}',
        '\u{1ef3}', '\u{1f9}', '\u{df}', '\u{1e83}', '\u{1e55}', '\u{1f5}', '\u{13a}', '\u{fd}',
        '\u{155}', '\u{15b}', '\u{144}', '\u{17a}', '\u{107}', '\u{1e31}', '\u{1e3f}', '\u{1e85}',
        '\u{1e8d}', '\u{ff}', '\u{1e7}', '\u{21f}', '\u{1f0}', '\u{1e9}', '\u{148}', '\u{f1}',
        '!', '\u{177}', '\u{127}', '\u{f0}', '\u{fe}', '\u{d8}', '\u{110}', '\u{141}',
        '\u{1e80}', '\u{1ef2}', '\u{1f8}', '.', '-', '+', '\u{1e82}', '\u{1e54}',
        '\u{1f4}', '\u{139}', '\u{dd}', '\u{154}', '\u{15a}', '\u{143}', '@', '~',
        '_', '\u{179}', '\u{106}', '\u{1e30}', '\u{1e3e}', '\u{1e84}', ',', '\u{c7}',
        '\u{1e8c}', '\u{1e98}', '\u{1e6}', '\u{21e}', '\u{1e8}', '\u{147}', '\u{d1}', '\u{c6}',
        '\u{1e99}', '=', '\u{e7}', '$', '\u{176}', '\u{126}', '\u{d0}', '\u{de}',
    ]
}

/// The digit that stands for `d`.
pub open spec fn digit(d: int) -> char {
    digits()[d]
}

/// The value of a digit, if `c` is one.
pub open spec fn digit_value_spec(c: char) -> Option<int> {
    match c {
        '0' => Some(0int),
        '1' => Some(1int),
        '2' => Some(2int),
        '3' => Some(3int),
        '4' => Some(4int),
        '5' => Some(5int),
        '6' => Some(6int),
        '7' => Some(7int),
        '8' => Some(8int),
        '9' => Some(9int),
        'b' => Some(10int),
        'c' => Some(11int),
        'd' => Some(12int),
        'f' => Some(13int),
        'g' => Some(14int),
        'h' => Some(15int),
        'j' => Some(16int),
        'k' => Some(17int),
        'l' => Some(18int),
        'm' => Some(19int),
        'n' => Some(20int),
        'p' => Some(21int),
        'q' => Some(22int),
        'r' => Some(23int),
        's' => Some(24int),
        't' => Some(25int),
        'v' => Some(26int),
        'w' => Some(27int),
        'x' => Some(28int),
        'y' => Some(29int),
        'z' => Some(30int),
        'B' => Some(31int),
        'C' => Some(32int),
        'D' => Some(33int),
        'F' => Some(34int),
        'G' => Some(35int),
        'H' => Some(36int),
        'J' => Some(37int),
        'K' => Some(38int),
        'L' => Some(39int),
        'M' => Some(40int),
        'N' => Some(41int),
        'P' => Some(42int),
        'Q' => Some(43int),
        'R' => Some(44int),
        'S' => Some(45int),
        'T' => Some(46int),
        'V' => Some(47int),
        'W' => Some(48int),
        'X' => Some(49int),
        'Y' => Some(50int),
        'Z' => Some(51int),
        '\u{f8}' => Some(52int),
        '\u{111}' => Some(53int),
        '\u{142}' => Some(54int),
        '\u{1e81}' => Some(55int),
        '\u{1ef3}' => Some(56int),
        '\u{1f9}' => Some(57int),
        '\u{df}' => Some(58int),
        '\u{1e83}' => Some(59int),
        '\u{1e55}' => Some(60int),
        '\u{1f5}' => Some(61int),
        '\u{13a}' => Some(62int),
        '\u{fd}' => Some(63int),
        '\u{155}' => Some(64int),
        '\u{15b}' => Some(65int),
        '\u{144}' => Some(66int),
        '\u{17a}' => Some(67int),
        '\u{107}' => Some(68int),
        '\u{1e31}' => Some(69int),
        '\u{1e3f}' => Some(70int),
        '\u{1e85}' => Some(71int),
        '\u{1e8d}' => Some(72int),
        '\u{ff}' => Some(73int),
        '\u{1e7}' => Some(74int),
        '\u{21f}' => Some(75int),
        '\u{1f0}' => Some(76int),
        '\u{1e9}' => Some(77int),
        '\u{148}' => Some(78int),
        '\u{f1}' => Some(79int),
        '!' => Some(80int),
        '\u{177}' => Some(81int),
        '\u{127}' => Some(82int),
        '\u{f0}' => Some(83int),
        '\u{fe}' => Some(84int),
        '\u{d8}' => Some(85int),
        '\u{110}' => Some(86int),
        '\u{141}' => Some(87int),
        '\u{1e80}' => Some(88int),
        '\u{1ef2}' => Some(89int),
        '\u{1f8}' => Some(90int),
        '.' => Some(91int),
        '-' => Some(92int),
        '+' => Some(93int),
        '\u{1e82}' => Some(94int),
        '\u{1e54}' => Some(95int),
        '\u{1f4}' => Some(96int),
        '\u{139}' => Some(97int),
        '\u{dd}' => Some(98int),
        '\u{154}' => Some(99int),
        '\u{15a}' => Some(100int),
        '\u{143}' => Some(101int),
        '@' => Some(102int),
        '~' => Some(103int),
        '_' => Some(104int),
        '\u{179}' => Some(105int),
        '\u{106}' => Some(106int),
        '\u{1e30}' => Some(107int),
        '\u{1e3e}' => Some(108int),
        '\u{1e84}' => Some(109int),
        ',' => Some(110int),
        '\u{c7}' => Some(111int),
        '\u{1e8c}' => Some(112int),
        '\u{1e98}' => Some(113int),
        '\u{1e6}' => Some(114int),
        '\u{21e}' => Some(115int),
        '\u{1e8}' => Some(116int),
        '\u{147}' => Some(117int),
        '\u{d1}' => Some(118int),
        '\u{c6}' => Some(119int),
        '\u{1e99}' => Some(120int),
        '=' => Some(121int),
        '\u{e7}' => Some(122int),
        '$' => Some(123int),
        '\u{176}' => Some(124int),
        '\u{126}' => Some(125int),
        '\u{d0}' => Some(126int),
        '\u{de}' => Some(127int),
        _ => None,
    }
}

/// The digit character for `d` (the table `DIGITS` of the alphabet).
pub fn digit_char(d: u128) -> (c: char)
    requires
        d < 128,
    ensures
        c == digit(d as int),
{
    match d {
        0 => '0',
        1 => '1',
        2 => '2',
        3 => '3',
        4 => '4',
        5 => '5',
        6 => '6',
        7 => '7',
        8 => '8',
        9 => '9',
        10 => 'b',
        11 => 'c',
        12 => 'd',
        13 => 'f',
        14 => 'g',
        15 => 'h',
        16 => 'j',
        17 => 'k',
        18 => 'l',
        19 => 'm',
        20 => 'n',
        21 => 'p',
        22 => 'q',
        23 => 'r',
        24 => 's',
        25 => 't',
        26 => 'v',
        27 => 'w',
        28 => 'x',
        29 => 'y',
        30 => 'z',
        31 => 'B',
        32 => 'C',
        33 => 'D',
        34 => 'F',
        35 => 'G',
        36 => 'H',
        37 => 'J',
        38 => 'K',
        39 => 'L',
        40 => 'M',
        41 => 'N',
        42 => 'P',
        43 => 'Q',
        44 => 'R',
        45 => 'S',
        46 => 'T',
        47 => 'V',
        48 => 'W',
        49 => 'X',
        50 => 'Y',
        51 => 'Z',
        52 => '\u{f8}',
        53 => '\u{111}',
        54 => '\u{142}',
        55 => '\u{1e81}',
        56 => '\u{1ef3}',
        57 => '\u{1f9}',
        58 => '\u{df}',
        59 => '\u{1e83}',
        60 => '\u{1e55}',
        61 => '\u{1f5}',
        62 => '\u{13a}',
        63 => '\u{fd}',
        64 => '\u{155}',
        65 => '\u{15b}',
        66 => '\u{144}',
        67 => '\u{17a}',
        68 => '\u{107}',
        69 => '\u{1e31}',
        70 => '\u{1e3f}',
        71 => '\u{1e85}',
        72 => '\u{1e8d}',
        73 => '\u{ff}',
        74 => '\u{1e7}',
        75 => '\u{21f}',
        76 => '\u{1f0}',
        77 => '\u{1e9}',
        78 => '\u{148}',
        79 => '\u{f1}',
        80 => '!',
        81 => '\u{177}',
        82 => '\u{127}',
        83 => '\u{f0}',
        84 => '\u{fe}',
        85 => '\u{d8}',
        86 => '\u{110}',
        87 => '\u{141}',
        88 => '\u{1e80}',
        89 => '\u{1ef2}',
        90 => '\u{1f8}',
        91 => '.',
        92 => '-',
        93 => '+',
        94 => '\u{1e82}',
        95 => '\u{1e54}',
        96 => '\u{1f4}',
        97 => '\u{139}',
        98 => '\u{dd}',
        99 => '\u{154}',
        100 => '\u{15a}',
        101 => '\u{143}',
        102 => '@',
        103 => '~',
        104 => '_',
        105 => '\u{179}',
        106 => '\u{106}',
        107 => '\u{1e30}',
        108 => '\u{1e3e}',
        109 => '\u{1e84}',
        110 => ',',
        111 => '\u{c7}',
        112 => '\u{1e8c}',
        113 => '\u{1e98}',
        114 => '\u{1e6}',
        115 => '\u{21e}',
        116 => '\u{1e8}',
        117 => '\u{147}',
        118 => '\u{d1}',
        119 => '\u{c6}',
        120 => '\u{1e99}',
        121 => '=',
        122 => '\u{e7}',
        123 => '$',
        124 => '\u{176}',
        125 => '\u{126}',
        126 => '\u{d0}',
        _ => '\u{de}',
    }
}

/// The value of a digit character (the reverse table of `DIGITS`).
pub fn digit_value(c: char) -> (r: Option<u128>)
    ensures
        match digit_value_spec(c) {
            Some(d) => r == Some(d as u128),
            None => r is None,
        },
{
    match c {
        '0' => Some(0),
        '1' => Some(1),
        '2' => Some(2),
        '3' => Some(3),
        '4' => Some(4),
        '5' => Some(5),
        '6' => Some(6),
        '7' => Some(7),
        '8' => Some(8),
        '9' => Some(9),
        'b' => Some(10),
        'c' => Some(11),
        'd' => Some(12),
        'f' => Some(13),
        'g' => Some(14),
        'h' => Some(15),
        'j' => Some(16),
        'k' => Some(17),
        'l' => Some(18),
        'm' => Some(19),
        'n' => Some(20),
        'p' => Some(21),
        'q' => Some(22),
        'r' => Some(23),
        's' => Some(24),
        't' => Some(25),
        'v' => Some(26),
        'w' => Some(27),
        'x' => Some(28),
        'y' => Some(29),
        'z' => Some(30),
        'B' => Some(31),
        'C' => Some(32),
        'D' => Some(33),
        'F' => Some(34),
        'G' => Some(35),
        'H' => Some(36),
        'J' => Some(37),
        'K' => Some(38),
        'L' => Some(39),
        'M' => Some(40),
        'N' => Some(41),
        'P' => Some(42),
        'Q' => Some(43),
        'R' => Some(44),
        'S' => Some(45),
        'T' => Some(46),
        'V' => Some(47),
        'W' => Some(48),
        'X' => Some(49),
        'Y' => Some(50),
        'Z' => Some(51),
        '\u{f8}' => Some(52),
        '\u{111}' => Some(53),
        '\u{142}' => Some(54),
        '\u{1e81}' => Some(55),
        '\u{1ef3}' => Some(56),
        '\u{1f9}' => Some(57),
        '\u{df}' => Some(58),
        '\u{1e83}' => Some(59),
        '\u{1e55}' => Some(60),
        '\u{1f5}' => Some(61),
        '\u{13a}' => Some(62),
        '\u{fd}' => Some(63),
        '\u{155}' => Some(64),
        '\u{15b}' => Some(65),
        '\u{144}' => Some(66),
        '\u{17a}' => Some(67),
        '\u{107}' => Some(68),
        '\u{1e31}' => Some(69),
        '\u{1e3f}' => Some(70),
        '\u{1e85}' => Some(71),
        '\u{1e8d}' => Some(72),
        '\u{ff}' => Some(73),
        '\u{1e7}' => Some(74),
        '\u{21f}' => Some(75),
        '\u{1f0}' => Some(76),
        '\u{1e9}' => Some(77),
        '\u{148}' => Some(78),
        '\u{f1}' => Some(79),
        '!' => Some(80),
        '\u{177}' => Some(81),
        '\u{127}' => Some(82),
        '\u{f0}' => Some(83),
        '\u{fe}' => Some(84),
        '\u{d8}' => Some(85),
        '\u{110}' => Some(86),
        '\u{141}' => Some(87),
        '\u{1e80}' => Some(88),
        '\u{1ef2}' => Some(89),
        '\u{1f8}' => Some(90),
        '.' => Some(91),
        '-' => Some(92),
        '+' => Some(93),
        '\u{1e82}' => Some(94),
        '\u{1e54}' => Some(95),
        '\u{1f4}' => Some(96),
        '\u{139}' => Some(97),
        '\u{dd}' => Some(98),
        '\u{154}' => Some(99),
        '\u{15a}' => Some(100),
        '\u{143}' => Some(101),
        '@' => Some(102),
        '~' => Some(103),
        '_' => Some(104),
        '\u{179}' => Some(105),
        '\u{106}' => Some(106),
        '\u{1e30}' => Some(107),
        '\u{1e3e}' => Some(108),
        '\u{1e84}' => Some(109),
        ',' => Some(110),
        '\u{c7}' => Some(111),
        '\u{1e8c}' => Some(112),
        '\u{1e98}' => Some(113),
        '\u{1e6}' => Some(114),
        '\u{21e}' => Some(115),
        '\u{1e8}' => Some(116),
        '\u{147}' => Some(117),
        '\u{d1}' => Some(118),
        '\u{c6}' => Some(119),
        '\u{1e99}' => Some(120),
        '=' => Some(121),
        '\u{e7}' => Some(122),
        '$' => Some(123),
        '\u{176}' => Some(124),
        '\u{126}' => Some(125),
        '\u{d0}' => Some(126),
        '\u{de}' => Some(127),
        _ => None,
    }
}


/// Every digit reads back as its own value, so no digit occurs twice.
pub proof fn lemma_digit_value(d: int)
    requires
        0 <= d < 128,
    ensures
        digit_value_spec(digit(d)) == Some(d),
{
    assert(digits().len() == 128);
}

/// The value of the digits `s`, least significant first, when each
/// character is a digit.
pub open spec fn value_of(s: Seq<char>) -> Option<nat>
    decreases s.len(),
{
    if s.len() == 0 {
        Some(0)
    } else {
        match (digit_value_spec(s[0]), value_of(s.drop_first())) {
            (Some(d), Some(v)) => Some((d + 128 * v) as nat),
            _ => None,
        }
    }
}

/// The base-128 digits of `n`, least significant first, with no leading zero.
pub open spec fn raw_digits(n: nat) -> Seq<int>
    decreases n,
{
    if n == 0 {
        seq![]
    } else {
        seq![(n % 128) as int] + raw_digits(n / 128)
    }
}

/// The characters of a digit sequence.
pub open spec fn spell(ds: Seq<int>) -> Seq<char> {
    ds.map_values(|d: int| digit(d))
}

/// The encoding of `n`.
pub open spec fn encode_spec(n: nat) -> Seq<char> {
    if n == 0 {
        seq!['0']
    } else {
        spell(raw_digits(n))
    }
}

proof fn lemma_raw_digits(n: nat)
    ensures
        forall|i: int| 0 <= i < raw_digits(n).len() ==> 0 <= #[trigger] raw_digits(n)[i] < 128,
        value_of(spell(raw_digits(n))) == Some(n),
    decreases n,
{
    if n != 0 {
        lemma_raw_digits(n / 128);
        let ds = raw_digits(n);
        let rest = raw_digits(n / 128);
        assert(ds.drop_first() =~= rest);
        assert forall|i: int| 0 <= i < ds.len() implies 0 <= #[trigger] ds[i] < 128 by {
            if i > 0 {
                assert(ds[i] == rest[i - 1]);
            }
        }
        assert(spell(ds).drop_first() =~= spell(rest));
        lemma_digit_value((n % 128) as int);
    } else {
        assert(spell(raw_digits(n)) =~= Seq::<char>::empty());
    }
}

/// Decoding gives back what encoding wrote: `decode(encode(n)) == Ok(n)`.
pub proof fn law_round_trip(n: u128)
    ensures
        value_of(encode_spec(n as nat)) == Some(n as nat),
{
    lemma_raw_digits(n as nat);
    if n == 0 {
        assert(seq!['0'].drop_first() =~= Seq::<char>::empty());
        assert(value_of(seq!['0'].drop_first()) == Some(0nat));
        assert(digit_value_spec(seq!['0'][0]) == Some(0int));
    }
}

/// Writes `number` in base 128.
pub fn encode(number: u128) -> (s: String)
    ensures
        s@ == encode_spec(number as nat),
{
    if number == 0 {
        let mut v: Vec<char> = Vec::new();
        v.push('0');
        assert(v@ =~= seq!['0']);
        return string_of(&v);
    }
    let mut n = number;
    let mut out: Vec<char> = Vec::new();
    let ghost mut done: Seq<int> = seq![];
    while n != 0
        invariant
            raw_digits(number as nat) =~= done + raw_digits(n as nat),
            out@ =~= spell(done),
        decreases n,
    {
        let d = n & 127;
        assert(n & 127 == n % 128) by (bit_vector);
        assert(n >> 7 == n / 128) by (bit_vector);
        proof {
            let ghost next = done.push(d as int);
            assert(raw_digits(n as nat) =~= seq![d as int] + raw_digits((n / 128) as nat));
            assert(done + raw_digits(n as nat) =~= next + raw_digits((n / 128) as nat));
            done = next;
        }
        out.push(digit_char(d));
        n = n >> 7;
    }
    assert(done =~= raw_digits(number as nat));
    string_of(&out)
}

/// The mod-2^128 step of reading one more significant digit.
proof fn lemma_shift_in_digit(v: nat, x: u128, d: u128)
    requires
        x as int == v % 0x1_0000_0000_0000_0000_0000_0000_0000_0000nat,
        d < 128,
    ensures
        ((x << 7) | d) as int == (d + 128 * v) % 0x1_0000_0000_0000_0000_0000_0000_0000_0000int,
{
    let m: int = 0x1_0000_0000_0000_0000_0000_0000_0000_0000int;
    let k: int = 0x200_0000_0000_0000_0000_0000_0000_0000int;
    assert(((x << 7) | d) == (x % 0x200_0000_0000_0000_0000_0000_0000_0000) * 128 + d)
        by (bit_vector)
        requires
            d < 128,
    ;
    let q = x as int / k;
    let r = x as int % k;
    assert(x as int == q * k + r && 0 <= r < k) by (nonlinear_arith)
        requires
            k > 0,
            q == x as int / k,
            r == x as int % k,
    ;
    assert(128 * x + d == q * m + (128 * r + d)) by (nonlinear_arith)
        requires
            x as int == q * k + r,
            m == 128 * k,
    ;
    vstd::arithmetic::div_mod::lemma_fundamental_div_mod_converse(128 * x + d, m, q, 128 * r + d);
    vstd::arithmetic::div_mod::lemma_mul_mod_noop_right(128, v as int, m);
    vstd::arithmetic::div_mod::lemma_add_mod_noop_right(d as int, 128 * (v as int), m);
    vstd::arithmetic::div_mod::lemma_add_mod_noop_right(d as int, 128 * (v as int % m), m);
}

proof fn lemma_value_of_suffix_invalid(s: Seq<char>, j: int)
    requires
        0 <= j <= s.len(),
        value_of(s.skip(j)) is None,
    ensures
        value_of(s) is None,
    decreases j,
{
    if j > 0 {
        assert(s.skip(j - 1).drop_first() =~= s.skip(j));
        lemma_value_of_suffix_invalid(s, j - 1);
    } else {
        assert(s.skip(0) =~= s);
    }
}

/// Reads a base-128 number: `Ok` with the value of `encoded` (least
/// significant digit first, reduced mod 2^128) when every character is a
/// digit, `Err` otherwise.
pub fn decode(encoded: &str) -> (r: Result<u128, Base128Error>)
    ensures
        match value_of(encoded@) {
            Some(v) => r == Ok::<u128, Base128Error>(
                (v % 0x1_0000_0000_0000_0000_0000_0000_0000_0000nat) as u128,
            ),
            None => r == Err::<u128, Base128Error>(Base128Error),
        },
{
    let cs = chars_of(encoded);
    let mut decoded: u128 = 0;
    let mut i = cs.len();
    assert(cs@.skip(cs@.len() as int) =~= Seq::<char>::empty());
    while i > 0
        invariant
            i <= cs@.len(),
            cs@ == encoded@,
            value_of(cs@.skip(i as int)) is Some,
            decoded as int == value_of(cs@.skip(i as int))->0
                % 0x1_0000_0000_0000_0000_0000_0000_0000_0000nat,
        decreases i,
    {
        i -= 1;
        let ghost rest = cs@.skip(i + 1);
        assert(cs@.skip(i as int).drop_first() =~= rest);
        assert(cs@.skip(i as int)[0] == cs@[i as int]);
        match digit_value(cs[i]) {
            Some(d) => {
                proof {
                    lemma_shift_in_digit(value_of(rest)->0, decoded, d);
                }
                decoded = (decoded << 7) | d;
            },
            None => {
                proof {
                    lemma_value_of_suffix_invalid(cs@, i as int);
                }
                return Err(Base128Error);
            },
        }
    }
    assert(cs@.skip(0) =~= cs@);
    Ok(decoded)
}

/// The error for text that is not a base-128 number.
#[derive(Clone, Copy, Debug, PartialEq, Eq, Structural, PartialOrd, Ord)]
pub struct Base128Error;

impl Base128Error {
    /// The message shown for this error.
    pub fn to_string(&self) -> (s: String)
        ensures
            s@ == "Invalid base128 number"@,
    {
        "Invalid base128 number".to_string()
    }

    /// The short description of this error.
    pub fn description(&self) -> (s: &'static str)
        ensures
            s@ == "Invalid base128 number"@,
    {
        "Invalid base128 number"
    }
}

/// A 128-bit number (such as a UUID) that is written in base 128.
#[derive(Clone, Copy, Debug, PartialEq, Eq, Structural, Ord)]
pub struct Base128 {
    data: u128,
}

impl View for Base128 {
    type V = u128;

    closed spec fn view(&self) -> u128 {
        self.data
    }
}

impl Base128 {
    /// The number, as a UUID's big-endian 128-bit value.
    pub fn into_u128(self) -> (r: u128)
        ensures
            r == self@,
    {
        self.data
    }

    /// The number with a UUID's big-endian 128-bit value.
    pub fn from_u128(u: u128) -> (r: Base128)
        ensures
            r@ == u,
    {
        Base128 { data: u }
    }

    /// The base-128 text of the number.
    pub fn to_string(&self) -> (s: String)
        ensures
            s@ == encode_spec(self@ as nat),
    {
        encode(self.data)
    }

    /// Reads a number from its base-128 text.
    pub fn parse(s: &str) -> (r: Result<Base128, Base128Error>)
        ensures
            match value_of(s@) {
                Some(v) => r matches Ok(b) && b@ == (v
                    % 0x1_0000_0000_0000_0000_0000_0000_0000_0000nat) as u128,
                None => r == Err::<Base128, Base128Error>(Base128Error),
            },
    {
        match decode(s) {
            Ok(data) => Ok(Base128 { data }),
            Err(e) => Err(e),
        }
    }
}

/// Values order as their numbers do.
impl PartialOrd for Base128 {
    fn partial_cmp(&self, other: &Base128) -> (r: Option<Ordering>) {
        if self.data < other.data {
            Some(Ordering::Less)
        } else if self.data == other.data {
            Some(Ordering::Equal)
        } else {
            Some(Ordering::Greater)
        }
    }
}

impl PartialOrdSpecImpl for Base128 {
    open spec fn obeys_partial_cmp_spec() -> bool {
        true
    }

    open spec fn partial_cmp_spec(&self, other: &Base128) -> Option<Ordering> {
        if self@ < other@ {
            Some(Ordering::Less)
        } else if self@ == other@ {
            Some(Ordering::Equal)
        } else {
            Some(Ordering::Greater)
        }
    }
}

/// Two values are the same exactly when their numbers are, and they order
/// as their numbers do.
pub proof fn law_order_follows_number(a: Base128, b: Base128)
    ensures
        (a == b) == (a@ == b@),
        a.is_lt(&b) == (a@ < b@),
        a.is_le(&b) == (a@ <= b@),
        a.is_gt(&b) == (a@ > b@),
        a.is_ge(&b) == (a@ >= b@),
{
}

impl core::str::FromStr for Base128 {
    type Err = Base128Error;

    fn from_str(s: &str) -> (r: Result<Base128, Base128Error>)
        ensures
            match value_of(s@) {
                Some(v) => r matches Ok(b) && b@ == (v
                    % 0x1_0000_0000_0000_0000_0000_0000_0000_0000nat) as u128,
                None => r == Err::<Base128, Base128Error>(Base128Error),
            },
    {
        Base128::parse(s)
    }
}

} // verus!

verus! {

impl Base128 {
    /// The number's sixteen big-endian bytes (its binary form, and the
    /// bytes of the UUID it stands for).
    pub fn to_bytes(&self) -> (r: Vec<u8>)
        ensures
            r@ == crate::bytes::be_bytes(self@ as nat, 16),
    {
        crate::bytes::write_u128_be(self.data)
    }

    /// The number that the first sixteen bytes of `b` stand for, big-endian.
    pub fn from_bytes(b: &[u8]) -> (r: Base128)
        requires
            b@.len() >= 16,
        ensures
            r@ as nat == crate::bytes::be_value(b@.take(16)),
    {
        Base128 { data: crate::bytes::read_u128_be(b) }
    }
}

/// A UUID of the `uuid` crate, carried as it is.
#[verifier::external_type_specification]
#[verifier::external_body]
pub struct ExUuid(uuid::Uuid);

/// The sixteen bytes that a UUID holds, in order (the UUID's big-endian
/// 128-bit value).
pub uninterp spec fn uuid_bytes(u: uuid::Uuid) -> Seq<u8>;

/// `uuid::Uuid::from_bytes`: the UUID that holds these bytes.
#[verifier::external_body]
fn uuid_from_bytes(b: [u8; 16]) -> (r: uuid::Uuid)
    ensures
        uuid_bytes(r) == b@,
{
    uuid::Uuid::from_bytes(b)
}

/// `uuid::Uuid::as_bytes`: the bytes that a UUID holds.
#[verifier::external_body]
fn uuid_as_bytes(u: &uuid::Uuid) -> (r: [u8; 16])
    ensures
        r@ == uuid_bytes(*u),
{
    *u.as_bytes()
}

impl Base128 {
    /// The UUID that the number stands for: its sixteen big-endian bytes.
    pub fn into_uuid(self) -> (r: uuid::Uuid)
        ensures
            uuid_bytes(r) == crate::bytes::be_bytes(self@ as nat, 16),
    {
        let v = self.to_bytes();
        proof {
            law_bytes_round_trip(self@);
        }
        let a: [u8; 16] = [
            v[0], v[1], v[2], v[3], v[4], v[5], v[6], v[7],
            v[8], v[9], v[10], v[11], v[12], v[13], v[14], v[15],
        ];
        assert(a@ =~= v@);
        uuid_from_bytes(a)
    }

    /// The number that a UUID's sixteen bytes stand for, big-endian.
    pub fn from_uuid(u: uuid::Uuid) -> (r: Base128)
        ensures
            r@ as nat == crate::bytes::be_value(uuid_bytes(u)),
    {
        let a = uuid_as_bytes(&u);
        let r = Base128::from_bytes(a.as_slice());
        assert(a@.take(16) =~= a@);
        r
    }
}

/// Reading back the binary form of a number gives the number.
pub proof fn law_bytes_round_trip(n: u128)
    ensures
        crate::bytes::be_bytes(n as nat, 16).len() == 16,
        crate::bytes::be_value(crate::bytes::be_bytes(n as nat, 16).take(16)) == n,
{
    crate::bytes::lemma_be_round_trip(n as nat, 16);
    assert(crate::bytes::be_bytes(n as nat, 16).take(16) =~= crate::bytes::be_bytes(n as nat, 16));
    crate::bytes::lemma_pow256();
    vstd::arithmetic::div_mod::lemma_small_mod(n as nat, 0x1_0000_0000_0000_0000_0000_0000_0000_0000nat);
}

} // verus!

verus! {

/// No digit occurs twice in the alphabet.
pub proof fn law_digits_distinct(d1: int, d2: int)
    requires
        0 <= d1 < 128,
        0 <= d2 < 128,
        d1 != d2,
    ensures
        digit(d1) != digit(d2),
{
    lemma_digit_value(d1);
    lemma_digit_value(d2);
}

} // verus!
