//! Scanning UTF-8 text by bytes: literal and case-insensitive matching,
//! searching, and the two lexical scanners of the renderer.
use vstd::prelude::*;
use vstd::utf8::*;
use vstd::string::StringSliceAdditionalSpecFns;

verus! {

/// The bytes of an ASCII character sequence.
pub open spec fn ascii(s: Seq<char>) -> Seq<u8> {
    s.map_values(|c: char| c as u8)
}

/// The bytes of an ASCII string literal.
pub fn lit(s: &'static str) -> (b: &'static [u8])
    requires
        is_ascii_chars(s@),
    ensures
        b@ == ascii(s@),
{
    proof {
        is_ascii_chars_encode_utf8(s@);
    }
    let b = s.as_bytes();
    assert(b@ =~= ascii(s@));
    b
}

/// In valid UTF-8, a position is a character boundary exactly when it is the
/// end or its byte is not a continuation byte.
pub proof fn lemma_boundary_iff(b: Seq<u8>, q: int)
    requires
        valid_utf8(b),
        0 <= q <= b.len(),
    ensures
        is_char_boundary(b, q) == (q == b.len() || !is_continuation_byte(b[q])),
{
    if q == b.len() {
        is_char_boundary_start_end_of_seq(b);
    } else {
        is_char_boundary_iff_not_is_continuation_byte(b, q);
    }
}

/// In valid UTF-8, the position right after an ASCII byte is a boundary.
pub proof fn lemma_boundary_after_ascii(b: Seq<u8>, q: int)
    requires
        valid_utf8(b),
        0 <= q < b.len(),
        b[q] < 0x80,
    ensures
        is_char_boundary(b, q),
        is_char_boundary(b, q + 1),
    decreases b.len(),
{
    lemma_boundary_iff(b, q);
    let l = length_of_first_scalar(b);
    if q == 0 {
        assert(l == 1);
        is_char_boundary_start_end_of_seq(pop_first_scalar(b));
    } else {
        assert(valid_first_scalar(b) && valid_utf8(pop_first_scalar(b)));
        assert(is_char_boundary(pop_first_scalar(b), q - l));
        assert(pop_first_scalar(b)[q - l] == b[q]);
        lemma_boundary_after_ascii(pop_first_scalar(b), q - l);
    }
}

/// In valid UTF-8, the end, an ASCII byte, and the byte after an ASCII byte
/// are at boundaries.
pub proof fn lemma_boundary_at(b: Seq<u8>, q: int)
    requires
        valid_utf8(b),
        0 <= q <= b.len(),
        q == b.len() || b[q] < 0x80 || (q > 0 && b[q - 1] < 0x80),
    ensures
        is_char_boundary(b, q),
{
    if q == b.len() || b[q] < 0x80 {
        lemma_boundary_iff(b, q);
    } else {
        lemma_boundary_after_ascii(b, q - 1);
    }
}

/// The substring of `s` between two byte positions that are boundaries.
pub fn substr(s: &str, a: usize, c: usize) -> (r: &str)
    requires
        a <= c <= s.spec_bytes().len(),
        is_char_boundary(s.spec_bytes(), a as int),
        is_char_boundary(s.spec_bytes(), c as int),
    ensures
        r.spec_bytes() == s.spec_bytes().subrange(a as int, c as int),
        r@ == decode_utf8(s.spec_bytes().subrange(a as int, c as int)),
{
    let ghost b = s.spec_bytes();
    proof {
        encode_utf8_valid_utf8(s@);
        valid_utf8_split(b, c as int);
        lemma_boundary_iff(b, a as int);
        lemma_boundary_iff(b.subrange(0, c as int), a as int);
    }
    let (head, _) = s.split_at(c);
    assert(head.spec_bytes() =~= b.subrange(0, c as int));
    let (_, mid) = head.split_at(a);
    assert(mid.spec_bytes() =~= b.subrange(a as int, c as int));
    proof {
        encode_utf8_decode_utf8(mid@);
    }
    mid
}

/// Whether `pat` occurs in `b` at position `p`.
pub open spec fn starts_at(b: Seq<u8>, p: int, pat: Seq<u8>) -> bool {
    0 <= p && p + pat.len() <= b.len() && b.subrange(p, p + pat.len()) == pat
}

/// The bytes of an occurrence.
pub proof fn lemma_starts_at_bytes(b: Seq<u8>, p: int, pat: Seq<u8>)
    ensures
        starts_at(b, p, pat) ==> forall|i: int| 0 <= i < pat.len() ==> #[trigger] b[p + i] == pat[i],
{
    if starts_at(b, p, pat) {
        assert forall|i: int| 0 <= i < pat.len() implies #[trigger] b[p + i] == pat[i] by {
            assert(b.subrange(p, p + pat.len())[i] == b[p + i]);
        }
    }
}

pub fn starts_with_at(b: &[u8], p: usize, pat: &[u8]) -> (r: bool)
    ensures
        r == starts_at(b@, p as int, pat@),
{
    if p > b.len() || pat.len() > b.len() - p {
        return false;
    }
    let mut k: usize = 0;
    while k < pat.len()
        invariant
            k <= pat.len(),
            p + pat.len() <= b.len(),
            forall|j: int| 0 <= j < k ==> b@[p + j] == pat@[j],
        decreases pat.len() - k,
    {
        if b[p + k] != pat[k] {
            assert(b@.subrange(p as int, p + pat.len())[k as int] != pat@[k as int]);
            return false;
        }
        k += 1;
    }
    assert(b@.subrange(p as int, p + pat.len()) =~= pat@);
    true
}

/// The first position at or after `i` where `pat` occurs.
pub open spec fn find_from(b: Seq<u8>, i: int, pat: Seq<u8>) -> Option<int>
    decreases b.len() + 1 - i,
{
    if i < 0 || i > b.len() {
        None
    } else if starts_at(b, i, pat) {
        Some(i)
    } else {
        find_from(b, i + 1, pat)
    }
}

/// The first position at or after `from` where `pat` occurs (`str::find`).
pub fn find_bytes(b: &[u8], from: usize, pat: &[u8]) -> (r: Option<usize>)
    requires
        from <= b.len(),
    ensures
        match find_from(b@, from as int, pat@) {
            Some(i) => r == Some(i as usize),
            None => r is None,
        },
{
    let mut i = from;
    loop
        invariant
            from <= i <= b.len(),
            find_from(b@, from as int, pat@) == find_from(b@, i as int, pat@),
        decreases b.len() - i,
    {
        if starts_with_at(b, i, pat) {
            return Some(i);
        }
        if i == b.len() {
            assert(find_from(b@, i + 1, pat@) is None);
            return None;
        }
        i += 1;
    }
}

/// ASCII letters folded to lower case.
pub open spec fn fold(x: u8) -> u8 {
    if 65 <= x <= 90 {
        (x + 32) as u8
    } else {
        x
    }
}

fn fold_byte(x: u8) -> (r: u8)
    ensures
        r == fold(x),
{
    if 65 <= x && x <= 90 {
        x + 32
    } else {
        x
    }
}

/// The end of a case-insensitive match of `pat[k..]` at `j`, as a regular
/// expression with `(?i)` matches an ASCII pattern: letters match either
/// case, and `s` also matches `ſ` (U+017F, bytes C5 BF).
pub open spec fn ci_match(b: Seq<u8>, j: int, pat: Seq<u8>, k: int) -> Option<int>
    decreases pat.len() - k,
{
    if k < 0 || k >= pat.len() {
        Some(j)
    } else if 0 <= j < b.len() && fold(b[j]) == fold(pat[k]) {
        ci_match(b, j + 1, pat, k + 1)
    } else if fold(pat[k]) == 115 && 0 <= j && j + 1 < b.len() && b[j] == 0xc5 && b[j + 1]
        == 0xbf {
        ci_match(b, j + 2, pat, k + 1)
    } else {
        None
    }
}

/// The end of a case-insensitive match of `pat` at `p`.
pub fn ci_match_at(b: &[u8], p: usize, pat: &[u8]) -> (r: Option<usize>)
    requires
        p <= b.len(),
    ensures
        match ci_match(b@, p as int, pat@, 0) {
            Some(e) => r == Some(e as usize),
            None => r is None,
        },
{
    let mut j = p;
    let mut k: usize = 0;
    while k < pat.len()
        invariant
            p <= j <= b.len(),
            k <= pat.len(),
            ci_match(b@, p as int, pat@, 0) == ci_match(b@, j as int, pat@, k as int),
        decreases pat.len() - k,
    {
        let pk = fold_byte(pat[k]);
        if j < b.len() && fold_byte(b[j]) == pk {
            j += 1;
        } else if pk == 115 && j < b.len() && b.len() - j >= 2 && b[j] == 0xc5 && b[j + 1] == 0xbf {
            j += 2;
        } else {
            return None;
        }
        k += 1;
    }
    Some(j)
}

/// The first case-insensitive match of `pat` at or after `i`: its start and end.
pub open spec fn ci_find(b: Seq<u8>, i: int, pat: Seq<u8>) -> Option<(int, int)>
    decreases b.len() + 1 - i,
{
    if i < 0 || i > b.len() {
        None
    } else if ci_match(b, i, pat, 0) is Some {
        Some((i, ci_match(b, i, pat, 0)->0))
    } else {
        ci_find(b, i + 1, pat)
    }
}

/// The first case-insensitive match of `pat` in `b`: its start and end.
pub fn ci_find_bytes(b: &[u8], pat: &[u8]) -> (r: Option<(usize, usize)>)
    ensures
        match ci_find(b@, 0, pat@) {
            Some((s, e)) => r == Some((s as usize, e as usize)),
            None => r is None,
        },
{
    let mut i: usize = 0;
    loop
        invariant
            i <= b.len(),
            ci_find(b@, 0, pat@) == ci_find(b@, i as int, pat@),
        decreases b.len() - i,
    {
        match ci_match_at(b, i, pat) {
            Some(e) => {
                return Some((i, e));
            },
            None => {},
        }
        if i == b.len() {
            assert(ci_find(b@, i + 1, pat@) is None);
            return None;
        }
        i += 1;
    }
}


/// Whether one of the link protocols `http:`, `https:`, `ftp:`, `gopher:`,
/// `mailto:` or `magnet:` starts at `p`.
pub open spec fn protocol_at(b: Seq<u8>, p: int) -> bool {
    ||| starts_at(b, p, ascii("http:"@))
    ||| starts_at(b, p, ascii("https:"@))
    ||| starts_at(b, p, ascii("ftp:"@))
    ||| starts_at(b, p, ascii("gopher:"@))
    ||| starts_at(b, p, ascii("mailto:"@))
    ||| starts_at(b, p, ascii("magnet:"@))
}

/// Whether a link protocol starts at byte `p` of `b`.
pub fn protocol_at_exec(b: &[u8], p: usize) -> (r: bool)
    ensures
        r == protocol_at(b@, p as int),
{
    proof {
        reveal_strlit("http:");
        reveal_strlit("https:");
        reveal_strlit("ftp:");
        reveal_strlit("gopher:");
        reveal_strlit("mailto:");
        reveal_strlit("magnet:");
    }
    starts_with_at(b, p, lit("http:")) || starts_with_at(b, p, lit("https:")) || starts_with_at(
        b,
        p,
        lit("ftp:"),
    ) || starts_with_at(b, p, lit("gopher:")) || starts_with_at(b, p, lit("mailto:"))
        || starts_with_at(b, p, lit("magnet:"))
}

/// Whether `s` starts with one of the link protocols.
pub fn starts_with_url_protocol(s: &str) -> (r: bool)
    ensures
        r == protocol_at(s.spec_bytes(), 0),
{
    protocol_at_exec(s.as_bytes(), 0)
}

/// The position of the first byte at or after `k` that is not `<`.
pub open spec fn lead_lt(b: Seq<u8>, k: int) -> int
    decreases b.len() - k,
{
    if 0 <= k < b.len() && b[k] == 60 {
        lead_lt(b, k + 1)
    } else {
        k
    }
}

/// Whether `n` bytes `>` follow from position `j`.
pub open spec fn closes_at(b: Seq<u8>, j: int, n: int) -> bool {
    0 <= j && j + n <= b.len() && forall|i: int| 0 <= i < n ==> #[trigger] b[j + i] == 62
}

/// A space or a newline.
pub open spec fn blank(x: u8) -> bool {
    x == 10 || x == 32
}

/// The first position at or after `j` from which `n` bytes `>` follow,
/// unless the text ends or a space or newline comes first.
pub open spec fn first_close(b: Seq<u8>, j: int, n: int) -> Option<int>
    decreases b.len() - j,
{
    if j < 0 || j >= b.len() || blank(b[j]) {
        None
    } else if closes_at(b, j, n) {
        Some(j)
    } else {
        first_close(b, j + 1, n)
    }
}

/// For text that starts with `<`: the number of opening `<` and the end of
/// the bracketed contents. The contents run from the first up to the first
/// place where as many `>` follow, and are empty (the end equals the count)
/// when the text ends or a space or newline comes first.
pub open spec fn angle_scan(b: Seq<u8>) -> (int, int) {
    let bc = lead_lt(b, 1);
    match first_close(b, bc, bc) {
        Some(j) => (bc, j),
        None => (bc, bc),
    }
}

proof fn lemma_lead_lt_stops(b: Seq<u8>, k: int)
    requires
        0 <= k <= b.len(),
        k == b.len() || b[k] != 60,
    ensures
        lead_lt(b, k) == k,
{
}

/// A run of fewer than `n` bytes `>` holds no closing position.
proof fn lemma_skip_short_run(b: Seq<u8>, j: int, i: int, n: int)
    requires
        0 <= j,
        1 <= i < n,
        j + i <= b.len(),
        forall|k: int| 0 <= k < i ==> #[trigger] b[j + k] == 62,
        j + i == b.len() || b[j + i] != 62,
    ensures
        first_close(b, j, n) == first_close(b, j + i, n),
    decreases i,
{
    assert(b[j + 0] == 62);
    assert(!closes_at(b, j, n)) by {
        if closes_at(b, j, n) {
            assert(b[j + i] == 62);
        }
    }
    if i > 1 {
        assert forall|k: int| 0 <= k < i - 1 implies #[trigger] b[(j + 1) + k] == 62 by {
            assert(b[j + (k + 1)] == 62);
        }
        lemma_skip_short_run(b, j + 1, i - 1, n);
    }
}

/// The count of opening brackets and the end of the contents (see [`angle_scan`]).
pub fn angle_brackets(b: &[u8]) -> (r: (usize, usize))
    requires
        b@.len() > 0,
        b@[0] == 60,
    ensures
        r.0 as int == angle_scan(b@).0,
        r.1 as int == angle_scan(b@).1,
{
    let mut bc: usize = 1;
    while bc < b.len() && b[bc] == 60
        invariant
            1 <= bc <= b.len(),
            lead_lt(b@, 1) == lead_lt(b@, bc as int),
        decreases b.len() - bc,
    {
        bc += 1;
    }
    proof {
        lemma_lead_lt_stops(b@, bc as int);
    }
    if bc == b.len() || b[bc] == 10 || b[bc] == 32 {
        return (bc, bc);
    }
    let mut j = bc;
    loop
        invariant
            1 <= bc <= j <= b.len(),
            lead_lt(b@, 1) == bc,
            first_close(b@, bc as int, bc as int) == first_close(b@, j as int, bc as int),
        decreases b.len() - j,
    {
        if j == b.len() {
            return (bc, bc);
        }
        let c = b[j];
        if c == 62 {
            let mut i: usize = 1;
            while i < bc
                invariant
                    1 <= i <= bc,
                    j < b.len(),
                    j + i <= b.len(),
                    forall|k: int| 0 <= k < i ==> j + k < b.len() && #[trigger] b@[j + k] == 62,
                ensures
                    i == bc || j + i == b.len() || b@[j + i] != 62,
                    forall|k: int| 0 <= k < i ==> j + k < b.len() && #[trigger] b@[j + k] == 62,
                    1 <= i <= bc,
                    j + i <= b.len(),
                decreases bc - i,
            {
                if i < b.len() - j && b[j + i] == 62 {
                    i += 1;
                } else {
                    break ;
                }
            }
            if i == bc {
                assert(b@[j + (bc - 1)] == 62);
                assert(closes_at(b@, j as int, bc as int));
                return (bc, j);
            }
            proof {
                assert(b@[j + 0] == 62);
                lemma_skip_short_run(b@, j as int, i as int, bc as int);
            }
            j += i;
        } else if c == 10 || c == 32 {
            return (bc, bc);
        } else {
            assert(!closes_at(b@, j as int, bc as int)) by {
                if closes_at(b@, j as int, bc as int) {
                    assert(b@[j + 0] == 62);
                }
            }
            j += 1;
        }
    }
}

/// Given text that starts with `<`, the contents wrapped in angle brackets,
/// the number of opening brackets, and the end of the contents (all counts
/// in bytes); see [`angle_scan`]. The contents are empty when they cannot be
/// matched.
pub fn scan_angle_brackets(input: &str) -> (r: (&str, usize, usize))
    requires
        input.spec_bytes().len() > 0,
        input.spec_bytes()[0] == 60,
    ensures
        r.1 as int == angle_scan(input.spec_bytes()).0,
        r.2 as int == angle_scan(input.spec_bytes()).1,
        r.0@ == decode_utf8(input.spec_bytes().subrange(r.1 as int, r.2 as int)),
{
    let b = input.as_bytes();
    let (bc, count) = angle_brackets(b);
    proof {
        encode_utf8_valid_utf8(input@);
        lemma_angle_scan_bounds(b@);
        lemma_boundary_after_ascii(b@, bc - 1);
        if count != bc {
            lemma_boundary_iff(b@, count as int);
        }
    }
    (substr(input, bc, count), bc, count)
}

/// The bounds of a bracket scan, and the bytes around the contents.
pub proof fn lemma_angle_scan_bounds(b: Seq<u8>)
    requires
        b.len() > 0,
        b[0] == 60,
    ensures
        1 <= angle_scan(b).0 <= angle_scan(b).1 <= b.len(),
        b[angle_scan(b).0 - 1] == 60,
        angle_scan(b).1 == angle_scan(b).0 || b[angle_scan(b).1] == 62,
        angle_scan(b).0 < angle_scan(b).1 ==> closes_at(b, angle_scan(b).1, angle_scan(b).0),
        forall|k: int| 0 <= k < angle_scan(b).0 ==> #[trigger] b[k] == 60,
{
    lemma_lead_lt(b, 1);
    let bc = lead_lt(b, 1);
    lemma_first_close(b, bc, bc);
    if let Some(e) = first_close(b, bc, bc) {
        assert(b[e + 0] == 62);
    }
    if bc < b.len() {
        assert(b[bc] != 60);
    }
}

proof fn lemma_lead_lt(b: Seq<u8>, k: int)
    requires
        1 <= k <= b.len(),
        forall|i: int| 0 <= i < k ==> #[trigger] b[i] == 60,
    ensures
        k <= lead_lt(b, k) <= b.len(),
        forall|i: int| 0 <= i < lead_lt(b, k) ==> #[trigger] b[i] == 60,
        lead_lt(b, k) == b.len() || b[lead_lt(b, k)] != 60,
    decreases b.len() - k,
{
    if k < b.len() && b[k] == 60 {
        lemma_lead_lt(b, k + 1);
    }
}

proof fn lemma_first_close(b: Seq<u8>, j: int, n: int)
    requires
        0 <= j,
    ensures
        first_close(b, j, n) matches Some(e) ==> j <= e < b.len() && closes_at(b, e, n),
    decreases b.len() - j,
{
    if !(j < 0 || j >= b.len() || blank(b[j])) && !closes_at(b, j, n) {
        lemma_first_close(b, j + 1, n);
    }
}


/// Punctuation that ends a token when it is followed by a space, a bracket or
/// more punctuation: `.`, `,`, `?`, `'`, `"`, `!`, `:` and `*`.
pub open spec fn punct(x: u8) -> bool {
    x == 46 || x == 44 || x == 63 || x == 39 || x == 34 || x == 33 || x == 58 || x == 42
}

/// What ends a token when it follows punctuation.
pub open spec fn ends_after_punct(x: u8) -> bool {
    x == 10 || x == 32 || x == 62 || x == 60 || punct(x)
}

/// The end of the lexical token that starts at byte 0, scanned from `i` with
/// `stack` the round and square brackets still open. A token ends at a space,
/// newline, `<` or `>`; at `#` or `@` unless it is a URL; at `[/` (a BBCode
/// end tag); at a closing bracket that does not close the innermost open one;
/// and before punctuation that is followed by the end, a space, a bracket
/// `<` or `>`, or more punctuation, or by a closing bracket that does not
/// match.
pub open spec fn lex(b: Seq<u8>, i: int, stack: Seq<u8>, is_url: bool) -> int
    decreases b.len() - i,
{
    if i < 0 || i >= b.len() {
        i
    } else {
        let c = b[i];
        let has_next = i + 1 < b.len();
        let open_round = stack.len() > 0 && stack.last() == 40;
        let open_square = stack.len() > 0 && stack.last() == 91;
        if c == 32 || c == 10 || c == 60 || c == 62 {
            i
        } else if (c == 35 || c == 64) && !is_url {
            i
        } else if c == 40 {
            lex(b, i + 1, stack.push(40), is_url)
        } else if c == 91 {
            if has_next && b[i + 1] == 47 {
                i
            } else {
                lex(b, i + 1, stack.push(91), is_url)
            }
        } else if c == 41 {
            if open_round {
                lex(b, i + 1, stack.drop_last(), is_url)
            } else {
                i
            }
        } else if c == 93 {
            if open_square {
                lex(b, i + 1, stack.drop_last(), is_url)
            } else {
                i
            }
        } else if punct(c) {
            if !has_next || ends_after_punct(b[i + 1]) {
                i
            } else if b[i + 1] == 41 {
                if open_round {
                    lex(b, i + 1, stack.drop_last(), is_url)
                } else {
                    i
                }
            } else if b[i + 1] == 93 {
                if open_square {
                    lex(b, i + 1, stack.drop_last(), is_url)
                } else {
                    i
                }
            } else {
                lex(b, i + 1, stack, is_url)
            }
        } else {
            lex(b, i + 1, stack, is_url)
        }
    }
}

/// A token ends at the end of the text or at an ASCII byte.
pub proof fn lemma_lex_end(b: Seq<u8>, i: int, stack: Seq<u8>, is_url: bool)
    requires
        0 <= i <= b.len(),
    ensures
        i <= lex(b, i, stack, is_url) <= b.len(),
        lex(b, i, stack, is_url) == b.len() || b[lex(b, i, stack, is_url)] < 0x80,
    decreases b.len() - i,
{
    if i < b.len() {
        let c = b[i];
        let has_next = i + 1 < b.len();
        if c == 40 {
            lemma_lex_end(b, i + 1, stack.push(40), is_url);
        } else if c == 91 {
            lemma_lex_end(b, i + 1, stack.push(91), is_url);
        } else if c == 41 || c == 93 {
            lemma_lex_end(b, i + 1, stack.drop_last(), is_url);
        } else if punct(c) && has_next && (b[i + 1] == 41 || b[i + 1] == 93) {
            lemma_lex_end(b, i + 1, stack.drop_last(), is_url);
        } else {
            lemma_lex_end(b, i + 1, stack, is_url);
        }
    }
}

/// The characters that are [`punct`] bytes.
pub open spec fn punct_char(c: char) -> bool {
    c == '.' || c == ',' || c == '?' || c == '\'' || c == '"' || c == '!' || c == ':' || c == '*'
}

/// The lexical token at the start of a text, as [`scan_lexical_token`]
/// returns it.
pub open spec fn lexical_token(s: Seq<char>, is_url: bool) -> Seq<char> {
    decode_utf8(encode_utf8(s).subrange(0, lex(encode_utf8(s), 0, seq![], is_url)))
}

/// Appending an ASCII character appends its one byte to the encoding.
proof fn lemma_encode_push_ascii(s: Seq<char>, c: char)
    requires
        (c as u32) <= 0x7f,
    ensures
        encode_utf8(s + seq![c]) == encode_utf8(s).push((c as u32) as u8),
    decreases s.len(),
{
    let v = c as u32;
    assert((v & 0x7f) as u8 == v as u8) by (bit_vector)
        requires
            v <= 0x7f,
    ;
    if s.len() == 0 {
        assert(s + seq![c] =~= seq![c]);
        assert(seq![c].drop_first() =~= Seq::<char>::empty());
        assert(encode_utf8(Seq::<char>::empty()) =~= Seq::<u8>::empty());
        assert(has_width_1_encoding(v));
        assert(encode_scalar(v) =~= seq![v as u8]);
        assert(seq![c][0] == c);
        assert(encode_utf8(seq![c]) =~= seq![v as u8]);
    } else {
        let t = s + seq![c];
        assert(t.drop_first() =~= s.drop_first() + seq![c]);
        lemma_encode_push_ascii(s.drop_first(), c);
        assert(t[0] == s[0]);
        assert(encode_utf8(t) =~= encode_utf8(s).push(v as u8));
    }
}

/// A punctuation byte after the end of the bytes never lengthens the token.
proof fn lemma_lex_push_punct(b: Seq<u8>, x: u8, i: int, stack: Seq<u8>, is_url: bool)
    requires
        punct(x),
        0 <= i <= b.len(),
    ensures
        lex(b.push(x), i, stack, is_url) == lex(b, i, stack, is_url),
    decreases b.len() - i,
{
    let bx = b.push(x);
    assert(bx[b.len() as int] == x);
    if i < b.len() {
        assert(bx[i] == b[i]);
        if i + 1 < b.len() {
            assert(bx[i + 1] == b[i + 1]);
        }
        let c = b[i];
        if c == 40 {
            lemma_lex_push_punct(b, x, i + 1, stack.push(40), is_url);
        } else if c == 91 {
            lemma_lex_push_punct(b, x, i + 1, stack.push(91), is_url);
        } else if c == 41 || c == 93 {
            lemma_lex_push_punct(b, x, i + 1, stack.drop_last(), is_url);
        } else if punct(c) && i + 1 < b.len() && (b[i + 1] == 41 || b[i + 1] == 93) {
            lemma_lex_push_punct(b, x, i + 1, stack.drop_last(), is_url);
        } else {
            lemma_lex_push_punct(b, x, i + 1, stack, is_url);
        }
    }
}

/// A punctuation character (`.`, `,`, `?`, `'`, `"`, `!`, `:` or `*`) at the
/// end of a text is never part of the lexical token at its start: adding one
/// does not change the token.
pub proof fn law_trailing_punct_outside_token(s: Seq<char>, p: char, is_url: bool)
    requires
        punct_char(p),
    ensures
        lexical_token(s + seq![p], is_url) == lexical_token(s, is_url),
{
    lemma_encode_push_ascii(s, p);
    let b = encode_utf8(s);
    let x = (p as u32) as u8;
    assert(punct(x));
    lemma_lex_push_punct(b, x, 0, seq![], is_url);
    lemma_lex_end(b, 0, seq![], is_url);
    let n = lex(b, 0, seq![], is_url);
    assert(b.push(x).subrange(0, n) =~= b.subrange(0, n));
}

fn is_punct(x: u8) -> (r: bool)
    ensures
        r == punct(x),
{
    x == 46 || x == 44 || x == 63 || x == 39 || x == 34 || x == 33 || x == 58 || x == 42
}

/// The length in bytes of the lexical token at the start of `b` (see [`lex`]).
pub fn lexical_token_len(b: &[u8], is_url: bool) -> (r: usize)
    ensures
        r as int == lex(b@, 0, seq![], is_url),
{
    let mut i: usize = 0;
    let mut stack: Vec<u8> = Vec::new();
    while i < b.len()
        invariant
            i <= b.len(),
            lex(b@, 0, seq![], is_url) == lex(b@, i as int, stack@, is_url),
        decreases b.len() - i,
    {
        let c = b[i];
        let has_next = i + 1 < b.len();
        let open_round = stack.len() > 0 && stack[stack.len() - 1] == 40;
        let open_square = stack.len() > 0 && stack[stack.len() - 1] == 91;
        if c == 32 || c == 10 || c == 60 || c == 62 {
            return i;
        } else if (c == 35 || c == 64) && !is_url {
            return i;
        } else if c == 40 {
            stack.push(40);
        } else if c == 91 {
            if has_next && b[i + 1] == 47 {
                return i;
            }
            stack.push(91);
        } else if c == 41 {
            if !open_round {
                return i;
            }
            stack.pop();
        } else if c == 93 {
            if !open_square {
                return i;
            }
            stack.pop();
        } else if is_punct(c) {
            if !has_next || b[i + 1] == 10 || b[i + 1] == 32 || b[i + 1] == 62 || b[i + 1] == 60
                || is_punct(b[i + 1]) {
                return i;
            } else if b[i + 1] == 41 {
                if !open_round {
                    return i;
                }
                stack.pop();
            } else if b[i + 1] == 93 {
                if !open_square {
                    return i;
                }
                stack.pop();
            }
        }
        i += 1;
    }
    i
}

/// If we're at the beginning of a syntactical construct, such as a URL or an
/// @mention, the rest of it (see [`lex`]).
pub fn scan_lexical_token(input: &str, is_url: bool) -> (r: &str)
    ensures
        r@ == decode_utf8(
            input.spec_bytes().subrange(0, lex(input.spec_bytes(), 0, seq![], is_url)),
        ),
        r@ == lexical_token(input@, is_url),
{
    let b = input.as_bytes();
    let n = lexical_token_len(b, is_url);
    proof {
        encode_utf8_valid_utf8(input@);
        lemma_lex_end(b@, 0, seq![], is_url);
        lemma_boundary_iff(b@, n as int);
        lemma_boundary_iff(b@, 0);
    }
    substr(input, 0, n)
}


/// A search that finds nothing in `[i, j)` goes on from `j`.
pub proof fn lemma_find_skip(b: Seq<u8>, i: int, j: int, pat: Seq<u8>)
    requires
        0 <= i <= j <= b.len() + 1,
        forall|k: int| i <= k < j ==> !starts_at(b, k, pat),
    ensures
        find_from(b, i, pat) == find_from(b, j, pat),
    decreases j - i,
{
    if i < j {
        lemma_find_skip(b, i + 1, j, pat);
    }
}

/// What a search finds is a match at or after where it started.
pub proof fn lemma_find_found(b: Seq<u8>, i: int, pat: Seq<u8>)
    requires
        0 <= i,
    ensures
        find_from(b, i, pat) matches Some(e) ==> i <= e && starts_at(b, e, pat),
    decreases b.len() + 1 - i,
{
    if i <= b.len() && !starts_at(b, i, pat) {
        lemma_find_found(b, i + 1, pat);
    }
}

/// A case-insensitive match takes at least one byte per pattern byte.
pub proof fn lemma_ci_match_len(b: Seq<u8>, j: int, pat: Seq<u8>, k: int)
    requires
        0 <= j <= b.len(),
        0 <= k <= pat.len(),
    ensures
        ci_match(b, j, pat, k) matches Some(e) ==> j + (pat.len() - k) <= e <= b.len(),
    decreases pat.len() - k,
{
    if k < pat.len() {
        if j < b.len() && fold(b[j]) == fold(pat[k]) {
            lemma_ci_match_len(b, j + 1, pat, k + 1);
        } else if fold(pat[k]) == 115 && j + 1 < b.len() && b[j] == 0xc5 && b[j + 1] == 0xbf {
            lemma_ci_match_len(b, j + 2, pat, k + 1);
        }
    }
}

/// A pattern byte that is not a letter matches only itself.
pub proof fn lemma_ci_match_head(b: Seq<u8>, j: int, pat: Seq<u8>, k: int)
    requires
        0 <= j <= b.len(),
        0 <= k < pat.len(),
        pat[k] < 65 || (90 < pat[k] < 97) || 122 < pat[k],
    ensures
        ci_match(b, j, pat, k) is Some ==> j < b.len() && b[j] == pat[k] && ci_match(b, j, pat, k)
            == ci_match(b, j + 1, pat, k + 1),
{
}

/// A pattern that ends with a byte that is not a letter matches up to and
/// including that byte.
pub proof fn lemma_ci_match_last(b: Seq<u8>, j: int, pat: Seq<u8>, k: int)
    requires
        0 <= j <= b.len(),
        0 <= k < pat.len(),
        pat.last() < 65 || (90 < pat.last() < 97) || 122 < pat.last(),
    ensures
        ci_match(b, j, pat, k) matches Some(e) ==> 0 < e <= b.len() && b[e - 1] == pat.last(),
    decreases pat.len() - k,
{
    if k == pat.len() - 1 {
        lemma_ci_match_head(b, j, pat, k);
    } else if j < b.len() && fold(b[j]) == fold(pat[k]) {
        lemma_ci_match_last(b, j + 1, pat, k + 1);
    } else if fold(pat[k]) == 115 && j + 1 < b.len() && b[j] == 0xc5 && b[j + 1] == 0xbf {
        lemma_ci_match_last(b, j + 2, pat, k + 1);
    }
}

/// A pattern without `s` or `S` matches byte for byte up to ASCII case.
pub proof fn lemma_ci_match_bytes(b: Seq<u8>, d: int, pat: Seq<u8>, k: int)
    requires
        0 <= d + k <= b.len(),
        0 <= k <= pat.len(),
        forall|i: int| 0 <= i < pat.len() ==> fold(#[trigger] pat[i]) != 115,
    ensures
        ci_match(b, d + k, pat, k) matches Some(e) ==> e == d + pat.len() && forall|i: int|
            k <= i < pat.len() ==> fold(#[trigger] b[d + i]) == fold(pat[i]),
    decreases pat.len() - k,
{
    if k < pat.len() {
        assert(fold(pat[k]) != 115);
        if d + k < b.len() && fold(b[d + k]) == fold(pat[k]) {
            lemma_ci_match_bytes(b, d, pat, k + 1);
        }
    }
}

/// Before the end of a tag `pat` matched at the start, no byte `x` occurs
/// unless the tag holds it.
pub proof fn lemma_find_after_tag(r: Seq<u8>, pat: Seq<u8>, x: u8)
    requires
        ci_match(r, 0, pat, 0) is Some,
        forall|i: int| 0 <= i < pat.len() ==> fold(#[trigger] pat[i]) != 115,
        forall|i: int| 0 <= i < pat.len() ==> #[trigger] pat[i] != x,
        x < 65 || (90 < x < 97) || 122 < x,
    ensures
        find_from(r, 0, seq![x]) matches Some(e) ==> e >= pat.len(),
{
    lemma_ci_match_bytes(r, 0, pat, 0);
    lemma_ci_match_len(r, 0, pat, 0);
    assert forall|i: int| 0 <= i < pat.len() implies !starts_at(r, i, seq![x]) by {
        assert(fold(r[0 + i]) == fold(pat[i]));
        if starts_at(r, i, seq![x]) {
            assert(r.subrange(i, i + 1)[0] == r[i]);
        }
    }
    lemma_find_skip(r, 0, pat.len() as int, seq![x]);
    lemma_find_found(r, pat.len() as int, seq![x]);
}

/// The search for an end tag `[/...` after an opening tag `pat` matched at
/// the start, whose second byte is a letter and which has no other `[`,
/// finds nothing inside the opening tag.
pub proof fn lemma_ci_find_after_tag(r: Seq<u8>, pat: Seq<u8>, end: Seq<u8>)
    requires
        ci_match(r, 0, pat, 0) is Some,
        pat.len() >= 2,
        forall|i: int| 0 <= i < pat.len() ==> fold(#[trigger] pat[i]) != 115,
        forall|i: int| 1 <= i < pat.len() ==> #[trigger] pat[i] != 91,
        97 <= fold(pat[1]) <= 122,
        end.len() >= 2,
        end[0] == 91,
        end[1] == 47,
    ensures
        ci_find(r, 0, end) matches Some((s, e)) ==> s >= pat.len(),
{
    lemma_ci_match_bytes(r, 0, pat, 0);
    lemma_ci_match_len(r, 0, pat, 0);
    assert forall|i: int| 0 <= i < pat.len() implies ci_match(r, i, end, 0) is None by {
        lemma_ci_match_head(r, i, end, 0);
        assert(fold(r[0 + i]) == fold(pat[i]));
        if i == 0 {
            lemma_ci_match_head(r, 1, end, 1);
            assert(fold(r[0int + 1]) == fold(pat[1]));
        }
    }
    lemma_ci_find_skip(r, 0, pat.len() as int, end);
    lemma_ci_find_found(r, pat.len() as int, end);
}

/// A case-insensitive search that finds nothing in `[i, j)` goes on from `j`.
pub proof fn lemma_ci_find_skip(b: Seq<u8>, i: int, j: int, pat: Seq<u8>)
    requires
        0 <= i <= j <= b.len() + 1,
        forall|k: int| i <= k < j ==> ci_match(b, k, pat, 0) is None,
    ensures
        ci_find(b, i, pat) == ci_find(b, j, pat),
    decreases j - i,
{
    if i < j {
        lemma_ci_find_skip(b, i + 1, j, pat);
    }
}

/// The first case-insensitive match found from `i`.
pub proof fn lemma_ci_find_found(b: Seq<u8>, i: int, pat: Seq<u8>)
    requires
        0 <= i,
    ensures
        ci_find(b, i, pat) matches Some((s, e)) ==> i <= s <= b.len() && ci_match(b, s, pat, 0)
            == Some(e) && s + pat.len() <= e <= b.len(),
    decreases b.len() + 1 - i,
{
    if i <= b.len() {
        if ci_match(b, i, pat, 0) is Some {
            lemma_ci_match_len(b, i, pat, 0);
        } else {
            lemma_ci_find_found(b, i + 1, pat);
        }
    }
}

} // verus!
