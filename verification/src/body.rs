//! The tokenizer of comment and post bodies.
//!
//! Syntax: links starting with `http:`, `https:`, `ftp:`, `gopher:`,
//! `mailto:` or `magnet:`, or with `www.`, optionally enclosed in any number
//! of angle brackets; e-mail addresses in angle brackets; `@` mentions and
//! `#` references, optionally in angle brackets; `<table>` and `<code>`
//! blocks; a set of BBCode tags; and paragraph breaks at blank lines.
use vstd::prelude::*;
use vstd::utf8::*;
use crate::html::escape_spec;
use crate::prettify::{Piece, Token, pieces_of};
use crate::html::escape_into;
use crate::text::push_str;
use vstd::string::StringSliceAdditionalSpecFns;
use crate::scan::{fold, 
    ascii, angle_scan, ci_find, ci_match, find_from, lemma_angle_scan_bounds, lemma_ci_find_found,
    lemma_ci_match_last, lemma_ci_match_len, lemma_find_found, lemma_find_skip, lemma_lex_end,
    lemma_starts_at_bytes, lemma_boundary_at, lex, protocol_at, starts_at, substr, angle_brackets,
    protocol_at_exec, starts_with_at, lit, find_bytes, ci_match_at, ci_find_bytes,
    lexical_token_len, lemma_ci_match_bytes, lemma_find_after_tag, lemma_ci_find_after_tag,
    lemma_ci_match_head,
};

verus! {

/// Escaped text of some bytes.
pub open spec fn esc(b: Seq<u8>) -> Seq<char> {
    escape_spec(decode_utf8(b))
}

/// `s` written `n` times.
pub open spec fn rep(s: Seq<char>, n: int) -> Seq<char>
    decreases n,
{
    if n <= 0 {
        seq![]
    } else {
        rep(s, n - 1) + s
    }
}

/// The byte `x` written `n` times.
pub open spec fn rep_byte(x: u8, n: int) -> Seq<u8> {
    Seq::new(n as nat, |i: int| x)
}

pub open spec fn link_plain(h: Seq<char>) -> Seq<char> {
    "<a href=\""@ + h + "\">"@ + h + "</a>"@
}

pub open spec fn link_www(h: Seq<char>) -> Seq<char> {
    "<a href=\"https://"@ + h + "\">"@ + h + "</a>"@
}

pub open spec fn link_mail(h: Seq<char>) -> Seq<char> {
    "<a href=\"mailto:"@ + h + "\">"@ + h + "</a>"@
}

/// The outcome of one step of the tokenizer: its pieces and how far it
/// went.
pub type Step = (Seq<Piece>, int);

/// The closing tag of a block opened with `n` angle brackets.
pub open spec fn end_tag(name: Seq<u8>, n: int) -> Seq<u8> {
    rep_byte(60, n) + seq![47u8] + name + rep_byte(62, n)
}

/// The name of a block: `table` or `code`.
pub open spec fn block_name(is_table: bool) -> Seq<u8> {
    if is_table {
        ascii("table"@)
    } else {
        ascii("code"@)
    }
}

/// A `<table>` or `<code>` block opened with `bc` brackets, at the start of
/// `r`: everything up to the matching closing tag, or to the end of the text
/// where there is none, is kept as it is (table) or escaped (code).
pub open spec fn block_step(r: Seq<u8>, bc: int, is_table: bool) -> Step {
    let stl = block_name(is_table).len() + 2 * bc;
    let (etp, next) = match find_from(r, 0, end_tag(block_name(is_table), bc)) {
        Some(e) => (e, e + stl + 1),
        None => (r.len() as int, r.len() as int),
    };
    (
        seq![
            Piece::Html(
                rep("&lt;"@, bc) + (if is_table {
                    "<a href=assets/how-to-table.html>table</a>"@
                } else {
                    "<a href=assets/how-to-code.html>code</a>"@
                }) + rep("&gt;"@, bc) + (if is_table {
                    "<table class=good-table>"@ + decode_utf8(r.subrange(stl, etp))
                        + "</table><p>"@
                } else {
                    "<pre class=good-code><code>"@ + esc(r.subrange(stl, etp))
                        + "</code></pre><p>"@
                }),
            ),
        ],
        next,
    )
}

/// Text in angle brackets, at the start of `r`.
pub open spec fn angle_step(r: Seq<u8>) -> Step {
    let (bc, count) = angle_scan(r);
    let cont = r.subrange(bc, count);
    let opens = rep("&lt;"@, bc);
    let closes = rep("&gt;"@, bc);
    let h = esc(cont);
    if cont.len() == 0 {
        (seq![Piece::Html(opens)], bc)
    } else if protocol_at(cont, 0) {
        (seq![Piece::Html(opens + link_plain(h) + closes)], bc + count)
    } else if starts_at(cont, 0, ascii("www."@)) {
        (seq![Piece::Html(opens + link_www(h) + closes)], bc + count)
    } else if cont[0] == 64 {
        (
            seq![
                Piece::Html(opens),
                Piece::Mention(decode_utf8(cont.subrange(1, cont.len() as int))),
                Piece::Html(closes),
            ],
            bc + count,
        )
    } else if exists|k: int| 0 <= k < cont.len() && cont[k] == 64 {
        (seq![Piece::Html(opens + link_mail(h) + closes)], bc + count)
    } else if cont[0] == 35 {
        (
            seq![
                Piece::Html(opens),
                Piece::Hash(decode_utf8(cont.subrange(1, cont.len() as int))),
                Piece::Html(closes),
            ],
            bc + count,
        )
    } else if cont == ascii("table"@) {
        block_step(r, bc, true)
    } else if cont == ascii("code"@) {
        block_step(r, bc, false)
    } else {
        (seq![Piece::Html(opens + h + closes)], bc + count)
    }
}

/// A case-insensitive match at the start of `r`.
pub open spec fn tag_at(r: Seq<u8>, pat: Seq<char>) -> Option<int> {
    ci_match(r, 0, ascii(pat), 0)
}

/// The end of a `[size=...]` tag at the start of `r`: the tag name, at least
/// one byte other than `]`, and the first `]` after it.
pub open spec fn size_open_at(r: Seq<u8>) -> Option<int> {
    match tag_at(r, "[size="@) {
        Some(m) => match find_from(r, m, ascii("]"@)) {
            Some(j) => if j > m {
                Some(j + 1)
            } else {
                None
            },
            None => None,
        },
        None => None,
    }
}

/// A tag that is replaced by `html`, ending at `end`.
pub open spec fn simple(html: Seq<char>, end: int) -> Option<(Seq<Piece>, int)> {
    Some((seq![Piece::Html(html)], end))
}

/// A `[` that starts no tag: written as it is.
pub open spec fn bracket_text() -> Option<(Seq<Piece>, int)> {
    simple("["@, 1)
}

/// The first of two alternatives that is there.
pub open spec fn or_else(
    a: Option<(Seq<Piece>, int)>,
    b: Option<(Seq<Piece>, int)>,
) -> Option<(Seq<Piece>, int)> {
    if a is Some {
        a
    } else {
        b
    }
}

/// `[b]`, `[i]`, `[u]` and their end tags (exactly these bytes, either case).
pub open spec fn bbcode_emphasis(r: Seq<u8>) -> Option<(Seq<Piece>, int)> {
    if starts_at(r, 1, ascii("B]"@)) || starts_at(r, 1, ascii("b]"@)) {
        simple("<b>"@, 3)
    } else if starts_at(r, 1, ascii("I]"@)) || starts_at(r, 1, ascii("i]"@)) {
        simple("<i>"@, 3)
    } else if starts_at(r, 1, ascii("U]"@)) || starts_at(r, 1, ascii("u]"@)) {
        simple("<i>"@, 3)
    } else if starts_at(r, 1, ascii("/B]"@)) || starts_at(r, 1, ascii("/b]"@)) {
        simple("</b>"@, 4)
    } else if starts_at(r, 1, ascii("/I]"@)) || starts_at(r, 1, ascii("/i]"@)) {
        simple("</i>"@, 4)
    } else if starts_at(r, 1, ascii("/U]"@)) || starts_at(r, 1, ascii("/u]"@)) {
        simple("</i>"@, 4)
    } else {
        None
    }
}

/// `[url]link[/url]` and `[url=link]text[/url]`.
pub open spec fn bbcode_url(r: Seq<u8>) -> Option<(Seq<Piece>, int)> {
    if tag_at(r, "[url]"@) is Some {
        match ci_find(r, 0, ascii("[/url]"@)) {
            Some((s, e)) => simple(link_plain(esc(r.subrange(5, s))), e),
            None => bracket_text(),
        }
    } else if tag_at(r, "[url="@) is Some {
        match (ci_find(r, 0, ascii("[/url]"@)), find_from(r, 0, ascii("]"@))) {
            (Some((s, e)), Some(ep)) => if ep < s {
                simple(
                    "<a href=\""@ + esc(r.subrange(5, ep)) + "\">"@ + esc(r.subrange(ep + 1, s))
                        + "</a>"@,
                    e,
                )
            } else {
                bracket_text()
            },
            _ => bracket_text(),
        }
    } else {
        None
    }
}

/// `[quote]`, `[/quote]` and `[quote=name]`.
pub open spec fn bbcode_quote(r: Seq<u8>) -> Option<(Seq<Piece>, int)> {
    if tag_at(r, "[quote]"@) is Some {
        simple("<blockquote>"@, tag_at(r, "[quote]"@)->0)
    } else if tag_at(r, "[/quote]"@) is Some {
        simple("</blockquote>"@, tag_at(r, "[/quote]"@)->0)
    } else if tag_at(r, "[quote="@) is Some {
        match find_from(r, 0, ascii("]"@)) {
            Some(ep) => Some(
                (
                    seq![Piece::Mention(esc(r.subrange(7, ep))), Piece::Html("<blockquote>"@)],
                    ep + 1,
                ),
            ),
            None => bracket_text(),
        }
    } else {
        None
    }
}

/// `[code]...[/code]`.
pub open spec fn bbcode_code(r: Seq<u8>) -> Option<(Seq<Piece>, int)> {
    if tag_at(r, "[code]"@) is Some {
        match ci_find(r, 0, ascii("[/code]"@)) {
            Some((s, e)) => simple("<code>"@ + esc(r.subrange(6, s)) + "</code>"@, e),
            None => bracket_text(),
        }
    } else {
        None
    }
}

/// The tags that are only replaced: `[tt]`, `[pre]`, `[char]`, `[size=..]`,
/// `[ab]`, `[sb]`, `[cb]` and their end tags.
pub open spec fn bbcode_simple(r: Seq<u8>) -> Option<(Seq<Piece>, int)> {
    if tag_at(r, "[tt]"@) is Some {
        simple("<tt>"@, tag_at(r, "[tt]"@)->0)
    } else if tag_at(r, "[/tt]"@) is Some {
        simple("</tt>"@, tag_at(r, "[/tt]"@)->0)
    } else if tag_at(r, "[pre]"@) is Some {
        simple("<pre>"@, tag_at(r, "[pre]"@)->0)
    } else if tag_at(r, "[/pre]"@) is Some {
        simple("</pre>"@, tag_at(r, "[/pre]"@)->0)
    } else if tag_at(r, "[char]"@) is Some {
        simple("&"@, tag_at(r, "[char]"@)->0)
    } else if tag_at(r, "[/char]"@) is Some {
        simple(";"@, tag_at(r, "[/char]"@)->0)
    } else if size_open_at(r) is Some {
        simple(Seq::empty(), size_open_at(r)->0)
    } else if tag_at(r, "[/size]"@) is Some {
        simple(Seq::empty(), tag_at(r, "[/size]"@)->0)
    } else if tag_at(r, "[ab]"@) is Some {
        simple("&lt;"@, tag_at(r, "[ab]"@)->0)
    } else if tag_at(r, "[/ab]"@) is Some {
        simple("&gt;"@, tag_at(r, "[/ab]"@)->0)
    } else if tag_at(r, "[sb]"@) is Some {
        simple("["@, tag_at(r, "[sb]"@)->0)
    } else if tag_at(r, "[/sb]"@) is Some {
        simple("]"@, tag_at(r, "[/sb]"@)->0)
    } else if tag_at(r, "[cb]"@) is Some {
        simple("{"@, tag_at(r, "[cb]"@)->0)
    } else if tag_at(r, "[/cb]"@) is Some {
        simple("}"@, tag_at(r, "[/cb]"@)->0)
    } else {
        None
    }
}

/// `[img]...[/img]`.
pub open spec fn bbcode_img(r: Seq<u8>) -> Option<(Seq<Piece>, int)> {
    if tag_at(r, "[img]"@) is Some {
        match ci_find(r, 0, ascii("[/img]"@)) {
            Some((s, e)) => simple(
                "<details><summary>image</summary><img src=\""@ + esc(r.subrange(5, s))
                    + "\"></details>"@,
                e,
            ),
            None => bracket_text(),
        }
    } else {
        None
    }
}

/// A BBCode tag at the start of `r`, if one is there, tried in this order.
pub open spec fn bracket_step(r: Seq<u8>) -> Option<(Seq<Piece>, int)> {
    or_else(
        bbcode_emphasis(r),
        or_else(
            bbcode_url(r),
            or_else(
                bbcode_quote(r),
                or_else(bbcode_code(r), or_else(bbcode_simple(r), bbcode_img(r))),
            ),
        ),
    )
}

/// Bytes that plain text in a body runs on over.
pub open spec fn body_normal(x: u8) -> bool {
    !(x == 60 || x == 64 || x == 35 || x == 32 || x == 10 || x == 42 || x == 40 || x == 91 || x
        == 93)
}

/// Where a run of plain text that reaches `i` ends: at the end, at a byte
/// that is not plain, or where a link starts at a character boundary.
pub open spec fn text_run(r: Seq<u8>, i: int, title: bool) -> int
    decreases r.len() - i,
{
    if i < 0 || i >= r.len() {
        i
    } else if !(if title {
        crate::title::title_normal(r[i])
    } else {
        body_normal(r[i])
    }) {
        i
    } else if !is_continuation_byte(r[i]) && (protocol_at(r, i) || starts_at(
        r,
        i,
        ascii("www."@),
    )) {
        i
    } else {
        text_run(r, i + 1, title)
    }
}

/// Where the run of spaces that reaches `i` ends. A run of spaces is
/// written as a single space, so that double spaces after a full stop or
/// indented paragraphs look like any other text.
pub open spec fn space_run(r: Seq<u8>, i: int) -> int
    decreases r.len() - i,
{
    if i < 0 || i >= r.len() || r[i] != 32 {
        i
    } else {
        space_run(r, i + 1)
    }
}

/// A run of spaces ends within the text, after spaces only, at the end or
/// at a byte that is not a space.
pub proof fn lemma_space_run(r: Seq<u8>, i: int)
    requires
        0 <= i <= r.len(),
    ensures
        i <= space_run(r, i) <= r.len(),
        forall|j: int| i <= j < space_run(r, i) ==> r[j] == 32,
        space_run(r, i) == r.len() || r[space_run(r, i)] != 32,
    decreases r.len() - i,
{
    if i < r.len() && r[i] == 32 {
        lemma_space_run(r, i + 1);
    }
}

/// A run of plain body text holds no space.
pub proof fn lemma_text_run_no_space(r: Seq<u8>, i: int)
    requires
        0 <= i <= r.len(),
    ensures
        forall|j: int| i <= j < text_run(r, i, false) ==> r[j] != 32,
    decreases r.len() - i,
{
    if i < r.len() && body_normal(r[i]) && !(!is_continuation_byte(r[i]) && (protocol_at(r, i)
        || starts_at(r, i, ascii("www."@)))) {
        lemma_text_run_no_space(r, i + 1);
    }
}

/// One step of the body tokenizer, for the text `r` that is left.
pub open spec fn body_step(r: Seq<u8>) -> Step {
    let c = r[0];
    if c == 60 {
        angle_step(r)
    } else if c == 91 && bracket_step(r) is Some {
        let (ps, k) = bracket_step(r)->0;
        (ps, k)
    } else if c == 64 {
        let l = lex(r.subrange(1, r.len() as int), 0, seq![], false);
        (seq![Piece::Mention(decode_utf8(r.subrange(1, 1 + l)))], 1 + l)
    } else if c == 35 {
        let l = lex(r.subrange(1, r.len() as int), 0, seq![], false);
        (seq![Piece::Hash(decode_utf8(r.subrange(1, 1 + l)))], 1 + l)
    } else if protocol_at(r, 0) {
        let l = lex(r, 0, seq![], true);
        (seq![Piece::Html(link_plain(esc(r.subrange(0, l))))], l)
    } else if c == 119 && starts_at(r, 0, ascii("www."@)) {
        let l = lex(r, 0, seq![], true);
        (seq![Piece::Html(link_www(esc(r.subrange(0, l))))], l)
    } else if c == 32 {
        (seq![Piece::Html(" "@)], space_run(r, 0))
    } else if c == 10 {
        if r.len() > 1 && r[1] == 10 {
            (seq![Piece::Html("\n\n<p>"@)], 2)
        } else {
            (seq![Piece::Html("\n"@)], 1)
        }
    } else {
        let i = text_run(r, 1, false);
        (seq![Piece::Html(esc(r.subrange(0, i)))], i)
    }
}

} // verus!

verus! {

/// Plain text runs on to a position within the text that is its end, an
/// ASCII byte or a byte that starts a character.
pub proof fn lemma_text_run(r: Seq<u8>, i: int, title: bool)
    requires
        0 <= i <= r.len(),
    ensures
        i <= text_run(r, i, title) <= r.len(),
        text_run(r, i, title) == r.len() || r[text_run(r, i, title)] < 0x80
            || !is_continuation_byte(r[text_run(r, i, title)]),
    decreases r.len() - i,
{
    if i < r.len() {
        let normal = if title {
            crate::title::title_normal(r[i])
        } else {
            body_normal(r[i])
        };
        if normal && !(!is_continuation_byte(r[i]) && (protocol_at(r, i) || starts_at(
            r,
            i,
            ascii("www."@),
        ))) {
            lemma_text_run(r, i + 1, title);
        }
    }
}

/// The end of a step: within the text, after its start, and at its end,
/// at an ASCII byte, after an ASCII byte, or at a byte that starts a
/// character.
pub open spec fn step_end_ok(r: Seq<u8>, k: int) -> bool {
    &&& 1 <= k <= r.len()
    &&& (k == r.len() || r[k] < 0x80 || r[k - 1] < 0x80 || !is_continuation_byte(r[k]))
}

/// A link token starting with a letter is not empty.
proof fn lemma_lex_letter(r: Seq<u8>)
    requires
        r.len() > 0,
        97 <= r[0] <= 122,
    ensures
        1 <= lex(r, 0, seq![], true) <= r.len(),
        lex(r, 0, seq![], true) == r.len() || r[lex(r, 0, seq![], true)] < 0x80,
{
    lemma_lex_end(r, 1, seq![], true);
}

proof fn lemma_tag_end(r: Seq<u8>, pat: Seq<char>)
    requires
        r.len() > 0,
        pat.len() > 0,
        pat.last() == ']',
    ensures
        tag_at(r, pat) matches Some(e) ==> 1 <= e <= r.len() && r[e - 1] == 93,
{
    let a = ascii(pat);
    assert(a.last() == 93);
    lemma_ci_match_last(r, 0, a, 0);
    lemma_ci_match_len(r, 0, a, 0);
}

proof fn lemma_find_end(r: Seq<u8>, i: int, pat: Seq<char>)
    requires
        0 <= i,
        pat.len() > 0,
    ensures
        find_from(r, i, ascii(pat)) matches Some(e) ==> i <= e && e + pat.len() <= r.len()
            && r.subrange(e, e + pat.len()) == ascii(pat),
{
    lemma_find_found(r, i, ascii(pat));
}

proof fn lemma_ci_find_end(r: Seq<u8>, pat: Seq<char>)
    requires
        pat.len() > 0,
        pat.last() == ']',
    ensures
        ci_find(r, 0, ascii(pat)) matches Some((s, e)) ==> 0 <= s && s + pat.len() <= e <= r.len()
            && r[e - 1] == 93,
{
    let a = ascii(pat);
    assert(a.last() == 93);
    lemma_ci_find_found(r, 0, a);
    if let Some((s, e)) = ci_find(r, 0, a) {
        lemma_ci_match_last(r, s, a, 0);
    }
}

proof fn lemma_starts_at_last(r: Seq<u8>, p: int, pat: Seq<u8>)
    requires
        pat.len() > 0,
        0 <= p,
    ensures
        starts_at(r, p, pat) ==> r[p + pat.len() - 1] == pat.last(),
{
    if starts_at(r, p, pat) {
        assert(r.subrange(p, p + pat.len())[pat.len() - 1] == r[p + pat.len() - 1]);
    }
}

/// Each BBCode step ends after a `]` or after the `[` itself.
pub proof fn lemma_bracket_step_end(r: Seq<u8>)
    requires
        r.len() > 0,
        r[0] == 91,
    ensures
        bracket_step(r) matches Some((_, k)) ==> 1 <= k <= r.len() && r[k - 1] < 0x80,
{
    reveal_strlit("B]");
    reveal_strlit("b]");
    reveal_strlit("I]");
    reveal_strlit("i]");
    reveal_strlit("U]");
    reveal_strlit("u]");
    reveal_strlit("/B]");
    reveal_strlit("/b]");
    reveal_strlit("/I]");
    reveal_strlit("/i]");
    reveal_strlit("/U]");
    reveal_strlit("/u]");
    reveal_strlit("[url]");
    reveal_strlit("[/url]");
    reveal_strlit("[url=");
    reveal_strlit("]");
    reveal_strlit("[quote]");
    reveal_strlit("[/quote]");
    reveal_strlit("[quote=");
    reveal_strlit("[code]");
    reveal_strlit("[/code]");
    reveal_strlit("[tt]");
    reveal_strlit("[/tt]");
    reveal_strlit("[pre]");
    reveal_strlit("[/pre]");
    reveal_strlit("[char]");
    reveal_strlit("[/char]");
    reveal_strlit("[size=");
    reveal_strlit("[/size]");
    reveal_strlit("[ab]");
    reveal_strlit("[/ab]");
    reveal_strlit("[sb]");
    reveal_strlit("[/sb]");
    reveal_strlit("[cb]");
    reveal_strlit("[/cb]");
    reveal_strlit("[img]");
    reveal_strlit("[/img]");
    lemma_starts_at_last(r, 1, ascii("B]"@));
    lemma_starts_at_last(r, 1, ascii("b]"@));
    lemma_starts_at_last(r, 1, ascii("I]"@));
    lemma_starts_at_last(r, 1, ascii("i]"@));
    lemma_starts_at_last(r, 1, ascii("U]"@));
    lemma_starts_at_last(r, 1, ascii("u]"@));
    lemma_starts_at_last(r, 1, ascii("/B]"@));
    lemma_starts_at_last(r, 1, ascii("/b]"@));
    lemma_starts_at_last(r, 1, ascii("/I]"@));
    lemma_starts_at_last(r, 1, ascii("/i]"@));
    lemma_starts_at_last(r, 1, ascii("/U]"@));
    lemma_starts_at_last(r, 1, ascii("/u]"@));
    if let Some(ep) = find_from(r, 0, ascii("]"@)) {
        lemma_find_end(r, 0, "]"@);
        lemma_starts_at_bytes(r, ep, ascii("]"@));
        assert(r[ep + 0] == 93);
    }
    lemma_ci_find_end(r, "[/url]"@);
    lemma_ci_find_end(r, "[/code]"@);
    lemma_ci_find_end(r, "[/img]"@);
    lemma_find_end(r, 0, "]"@);
    lemma_tag_end(r, "[quote]"@);
    lemma_tag_end(r, "[/quote]"@);
    lemma_tag_end(r, "[tt]"@);
    lemma_tag_end(r, "[/tt]"@);
    lemma_tag_end(r, "[pre]"@);
    lemma_tag_end(r, "[/pre]"@);
    lemma_tag_end(r, "[char]"@);
    lemma_tag_end(r, "[/char]"@);
    lemma_tag_end(r, "[/size]"@);
    lemma_tag_end(r, "[ab]"@);
    lemma_tag_end(r, "[/ab]"@);
    lemma_tag_end(r, "[sb]"@);
    lemma_tag_end(r, "[/sb]"@);
    lemma_tag_end(r, "[cb]"@);
    lemma_tag_end(r, "[/cb]"@);
    if let Some(m) = tag_at(r, "[size="@) {
        lemma_ci_match_len(r, 0, ascii("[size="@), 0);
        lemma_find_end(r, m, "]"@);
        if let Some(j) = find_from(r, m, ascii("]"@)) {
            lemma_starts_at_bytes(r, j, ascii("]"@));
            assert(r[j + 0] == 93);
        }
    }
}

/// The end of a block step.
pub proof fn lemma_block_step_end(r: Seq<u8>, bc: int, is_table: bool)
    requires
        bc >= 1,
        r.len() >= 1,
    ensures
        block_step(r, bc, is_table) matches (_, k) ==> 1 <= k <= r.len() && (k == r.len()
            || r[k - 1] == 62),
{
    reveal_strlit("table");
    reveal_strlit("code");
    let name = block_name(is_table);
    let t = end_tag(block_name(is_table), bc);
    lemma_find_found(r, 0, t);
    if let Some(etp) = find_from(r, 0, t) {
        assert(t.len() == name.len() + 2 * bc + 1);
        assert(r.subrange(etp, etp + t.len())[t.len() - 1] == t[t.len() - 1]);
    }
}

/// Every step of the body tokenizer goes forward, stays within the text,
/// and ends at its end, an ASCII byte, after an ASCII byte, or a byte that
/// starts a character.
pub proof fn lemma_body_step_end(r: Seq<u8>)
    requires
        r.len() > 0,
    ensures
        body_step(r) matches (_, k) ==> step_end_ok(r, k),
{
    reveal_strlit("http:");
    reveal_strlit("https:");
    reveal_strlit("ftp:");
    reveal_strlit("gopher:");
    reveal_strlit("mailto:");
    reveal_strlit("magnet:");
    reveal_strlit("www.");
    let c = r[0];
    if c == 60 {
        lemma_angle_scan_bounds(r);
        let (bc, count) = angle_scan(r);
        if bc < count {
            assert(r[count + (bc - 1)] == 62);
        }
        lemma_block_step_end(r, bc, true);
        lemma_block_step_end(r, bc, false);
    } else if c == 91 && bracket_step(r) is Some {
        lemma_bracket_step_end(r);
    } else if c == 64 || c == 35 {
        let t = r.subrange(1, r.len() as int);
        lemma_lex_end(t, 0, seq![], false);
        let l = lex(t, 0, seq![], false);
        if l < t.len() {
            assert(t[l] == r[1 + l]);
        }
    } else if protocol_at(r, 0) || (c == 119 && starts_at(r, 0, ascii("www."@))) {
        assert(97 <= r[0] <= 122) by {
            if starts_at(r, 0, ascii("http:"@)) {
                assert(r.subrange(0, 5)[0] == r[0]);
            } else if starts_at(r, 0, ascii("https:"@)) {
                assert(r.subrange(0, 6)[0] == r[0]);
            } else if starts_at(r, 0, ascii("ftp:"@)) {
                assert(r.subrange(0, 4)[0] == r[0]);
            } else if starts_at(r, 0, ascii("gopher:"@)) {
                assert(r.subrange(0, 7)[0] == r[0]);
            } else if starts_at(r, 0, ascii("mailto:"@)) {
                assert(r.subrange(0, 7)[0] == r[0]);
            } else if starts_at(r, 0, ascii("magnet:"@)) {
                assert(r.subrange(0, 7)[0] == r[0]);
            }
        }
        lemma_lex_letter(r);
    } else if c == 32 {
        lemma_space_run(r, 0);
        let k = space_run(r, 0);
        assert(r[k - 1] == 32);
    } else if c == 10 {
    } else {
        lemma_text_run(r, 1, false);
    }
}

/// The pieces of the body text `b` from byte `p` on.
pub open spec fn body_pieces(b: Seq<u8>, p: int) -> Seq<Piece>
    decreases b.len() - p,
{
    if p < 0 || p >= b.len() {
        seq![]
    } else {
        let r = b.subrange(p, b.len() as int);
        let (ps, k) = body_step(r);
        proof {
            lemma_body_step_end(r);
        }
        ps + body_pieces(b, p + k)
    }
}

} // verus!

verus! {

/// A block opened with `bc` brackets around `name` ends no earlier than
/// where the opening tag ends.
proof fn lemma_block_end_after_start(r: Seq<u8>, bc: int, name: Seq<u8>)
    requires
        bc >= 1,
        2 * bc + name.len() <= r.len(),
        forall|i: int| 0 <= i < name.len() ==> (#[trigger] name[i]) != 47,
        forall|i: int| 0 <= i < name.len() ==> r[bc + i] == #[trigger] name[i],
        forall|i: int| 0 <= i < bc ==> #[trigger] r[bc + name.len() + i] == 62,
    ensures
        find_from(r, 0, end_tag(name, bc)) matches Some(e) ==> e >= name.len() + 2 * bc,
{
    let t = end_tag(name, bc);
    let stl = name.len() + 2 * bc;
    assert(t[bc] == 47);
    assert(t[0] == 60);
    assert forall|i: int| 0 <= i < stl implies !starts_at(r, i, t) by {
        lemma_starts_at_bytes(r, i, t);
        if starts_at(r, i, t) {
            if i < name.len() + bc {
                assert(r[i + bc] == t[bc]);
                if i + bc < bc + name.len() {
                    assert(r[bc + (i)] == name[i]);
                } else {
                    assert(r[bc + name.len() + (i - name.len())] == 62);
                }
            } else {
                assert(r[i + 0] == t[0]);
                assert(r[bc + name.len() + (i - name.len() - bc)] == 62);
            }
        }
    }
    lemma_find_skip(r, 0, stl, t);
    lemma_find_found(r, stl, t);
}

} // verus!

verus! {

/// Appends `s` written `n` times.
pub fn push_rep(out: &mut String, s: &str, n: usize)
    ensures
        final(out)@ == old(out)@ + rep(s@, n as int),
{
    let mut i: usize = 0;
    while i < n
        invariant
            i <= n,
            out@ == old(out)@ + rep(s@, i as int),
        decreases n - i,
    {
        push_str(out, s);
        i += 1;
        assert(rep(s@, i as int) == rep(s@, i - 1) + s@);
    }
}

/// Appends the escaped text of the bytes `a..c` of `s`.
pub fn esc_sub(s: &str, a: usize, c: usize, out: &mut String)
    requires
        a <= c <= s.spec_bytes().len(),
        is_char_boundary(s.spec_bytes(), a as int),
        is_char_boundary(s.spec_bytes(), c as int),
    ensures
        final(out)@ == old(out)@ + esc(s.spec_bytes().subrange(a as int, c as int)),
{
    escape_into(substr(s, a, c), out);
}

/// Whether the byte `x` occurs in `b`.
pub fn contains_byte(b: &[u8], x: u8) -> (r: bool)
    ensures
        r == exists|k: int| 0 <= k < b@.len() && b@[k] == x,
{
    let mut i: usize = 0;
    while i < b.len()
        invariant
            i <= b.len(),
            forall|k: int| 0 <= k < i ==> b@[k] != x,
        decreases b.len() - i,
    {
        if b[i] == x {
            return true;
        }
        i += 1;
    }
    false
}

/// A token of finished HTML.
pub(crate) fn html(s: String) -> (t: Token)
    ensures
        t@ == Piece::Html(s@),
{
    Token::Html(s)
}

/// A `<table>` or `<code>` block at byte `p` of `s`.
fn block_exec(s: &str, p: usize, bc: usize, is_table: bool) -> (res: (Vec<Token>, usize))
    requires
        p < s.spec_bytes().len(),
        is_char_boundary(s.spec_bytes(), p as int),
        bc >= 1,
        ({
            let r = s.spec_bytes().subrange(p as int, s.spec_bytes().len() as int);
            &&& 2 * bc + block_name(is_table).len() <= r.len()
            &&& forall|i: int| 0 <= i < bc ==> #[trigger] r[i] == 60
            &&& forall|i: int|
                0 <= i < block_name(is_table).len() ==> r[bc + i] == #[trigger] block_name(
                    is_table,
                )[i]
            &&& forall|i: int|
                0 <= i < bc ==> #[trigger] r[bc + block_name(is_table).len() + i] == 62
        }),
    ensures
        match block_step(
            s.spec_bytes().subrange(p as int, s.spec_bytes().len() as int),
            bc as int,
            is_table,
        ) {
            (ps, k) => pieces_of(res.0@) == ps && res.1 == p + k,
        },
{
    proof {
        reveal_strlit("table");
        reveal_strlit("code");
        reveal_strlit("/table");
        reveal_strlit("/code");
    }
    let b = s.as_bytes();
    let ghost bb = b@;
    let ghost r = bb.subrange(p as int, bb.len() as int);
    let rs = vstd::slice::slice_subrange(b, p, b.len());
    let name: &[u8] = if is_table {
        lit("table")
    } else {
        lit("code")
    };
    assert(name@ == block_name(is_table));
    let mut tag: Vec<u8> = Vec::new();
    let mut i: usize = 0;
    while i < bc
        invariant
            i <= bc,
            tag@ == rep_byte(60, i as int),
        decreases bc - i,
    {
        tag.push(60);
        i += 1;
        assert(tag@ =~= rep_byte(60, i as int));
    }
    tag.push(47);
    let mut i: usize = 0;
    while i < name.len()
        invariant
            i <= name.len(),
            tag@ == rep_byte(60, bc as int) + seq![47u8] + name@.subrange(0, i as int),
        decreases name.len() - i,
    {
        tag.push(name[i]);
        i += 1;
        assert(tag@ =~= rep_byte(60, bc as int) + seq![47u8] + name@.subrange(0, i as int));
    }
    let mut i: usize = 0;
    while i < bc
        invariant
            i <= bc,
            tag@ == rep_byte(60, bc as int) + seq![47u8] + name@ + rep_byte(62, i as int),
        decreases bc - i,
    {
        tag.push(62);
        i += 1;
        assert(tag@ =~= rep_byte(60, bc as int) + seq![47u8] + name@ + rep_byte(62, i as int));
    }
    assert(name@.subrange(0, name@.len() as int) =~= name@);
    let stl = name.len() + 2 * bc;
    proof {
        lemma_block_end_after_start(r, bc as int, name@);
        lemma_find_found(r, 0, tag@);
    }
    let found = find_bytes(rs, 0, tag.as_slice());
    let (etp, next) = match found {
        Some(e) => (e, p + e + stl + 1),
        None => (rs.len(), b.len()),
    };
    assert(tag@.len() == stl + 1);
    proof {
        encode_utf8_valid_utf8(s@);
        assert(bb[p + stl - 1] == r[bc + block_name(is_table).len() + (bc - 1)]);
        assert(ascii("table"@).len() == 5 && ascii("code"@).len() == 4);
        lemma_boundary_at(bb, p + stl);
        if found is Some {
            assert(r.subrange(etp as int, etp + tag@.len())[0] == r[etp as int]);
        }
        lemma_boundary_at(bb, p + etp);
    }
    let mut h = String::new();
    push_rep(&mut h, "&lt;", bc);
    if is_table {
        push_str(&mut h, "<a href=assets/how-to-table.html>table</a>");
    } else {
        push_str(&mut h, "<a href=assets/how-to-code.html>code</a>");
    }
    push_rep(&mut h, "&gt;", bc);
    assert(bb.subrange(p + stl, p + etp) =~= r.subrange(stl as int, etp as int));
    if is_table {
        push_str(&mut h, "<table class=good-table>");
        push_str(&mut h, substr(s, p + stl, p + etp));
        push_str(&mut h, "</table><p>");
    } else {
        push_str(&mut h, "<pre class=good-code><code>");
        esc_sub(s, p + stl, p + etp, &mut h);
        push_str(&mut h, "</code></pre><p>");
    }
    assert(tag@ =~= end_tag(block_name(is_table), bc as int));
    assert(h@ =~= rep("&lt;"@, bc as int) + (if is_table {
        "<a href=assets/how-to-table.html>table</a>"@
    } else {
        "<a href=assets/how-to-code.html>code</a>"@
    }) + rep("&gt;"@, bc as int) + (if is_table {
        "<table class=good-table>"@ + decode_utf8(r.subrange(stl as int, etp as int))
            + "</table><p>"@
    } else {
        "<pre class=good-code><code>"@ + esc(r.subrange(stl as int, etp as int))
            + "</code></pre><p>"@
    }));
    let mut ts: Vec<Token> = Vec::new();
    ts.push(html(h));
    assert(pieces_of(ts@) =~= seq![ts@[0]@]);
    (ts, next)
}

} // verus!

verus! {

/// A step's single HTML piece.
pub(crate) fn one_html(h: String) -> (ts: Vec<Token>)
    ensures
        pieces_of(ts@) == seq![Piece::Html(h@)],
{
    let mut ts: Vec<Token> = Vec::new();
    ts.push(html(h));
    assert(pieces_of(ts@) =~= seq![Piece::Html(h@)]);
    ts
}

/// Text in angle brackets at byte `p` of `s`.
fn angle_exec(s: &str, p: usize) -> (res: (Vec<Token>, usize))
    requires
        p < s.spec_bytes().len(),
        is_char_boundary(s.spec_bytes(), p as int),
        s.spec_bytes()[p as int] == 60,
    ensures
        match angle_step(s.spec_bytes().subrange(p as int, s.spec_bytes().len() as int)) {
            (ps, k) => pieces_of(res.0@) == ps && res.1 == p + k,
        },
{
    proof {
        reveal_strlit("www.");
        reveal_strlit("table");
        reveal_strlit("code");
    }
    let b = s.as_bytes();
    let ghost bb = b@;
    let ghost r = bb.subrange(p as int, bb.len() as int);
    let rs = vstd::slice::slice_subrange(b, p, b.len());
    assert(rs@[0] == 60);
    let (bc, count) = angle_brackets(rs);
    proof {
        lemma_angle_scan_bounds(r);
        encode_utf8_valid_utf8(s@);
        assert(bb[p + bc - 1] == r[bc - 1]);
        lemma_boundary_at(bb, p + bc);
        if bc < count {
            assert(r[count + (bc - 1)] == 62);
            assert(r[count + 0] == 62);
            assert(bb[p + count] == r[count as int]);
            lemma_boundary_at(bb, p + count);
        }
    }
    let cont = vstd::slice::slice_subrange(rs, bc, count);
    assert(bb.subrange(p + bc, p + count) =~= cont@);
    let mut h = String::new();
    push_rep(&mut h, "&lt;", bc);
    if cont.len() == 0 {
        return ((one_html(h), p + bc));
    }
    let ghost opens = h@;
    if protocol_at_exec(cont, 0) {
        push_str(&mut h, "<a href=\"");
        esc_sub(s, p + bc, p + count, &mut h);
        push_str(&mut h, "\">");
        esc_sub(s, p + bc, p + count, &mut h);
        push_str(&mut h, "</a>");
        push_rep(&mut h, "&gt;", bc);
        assert(h@ =~= opens + link_plain(esc(cont@)) + rep("&gt;"@, bc as int));
        return ((one_html(h), p + bc + count));
    }
    if starts_with_at(cont, 0, lit("www.")) {
        push_str(&mut h, "<a href=\"https://");
        esc_sub(s, p + bc, p + count, &mut h);
        push_str(&mut h, "\">");
        esc_sub(s, p + bc, p + count, &mut h);
        push_str(&mut h, "</a>");
        push_rep(&mut h, "&gt;", bc);
        assert(h@ =~= opens + link_www(esc(cont@)) + rep("&gt;"@, bc as int));
        return ((one_html(h), p + bc + count));
    }
    if cont[0] == 64 || cont[0] == 35 {
        proof {
            assert(bb[p + bc] == cont@[0]);
            lemma_boundary_at(bb, p + bc + 1);
        }
        let name = substr(s, p + bc + 1, p + count).to_string();
        assert(bb.subrange(p + bc + 1, p + count) =~= cont@.subrange(1, cont@.len() as int));
        let mut ts: Vec<Token> = Vec::new();
        let mut closes = String::new();
        push_rep(&mut closes, "&gt;", bc);
        if cont[0] == 64 {
            ts.push(html(h));
            ts.push(Token::Mention(name));
            ts.push(html(closes));
            return ((ts, p + bc + count));
        }
        if !contains_byte(cont, 64) {
            ts.push(html(h));
            ts.push(Token::Hash(name));
            ts.push(html(closes));
            return ((ts, p + bc + count));
        }
    }
    if contains_byte(cont, 64) {
        push_str(&mut h, "<a href=\"mailto:");
        esc_sub(s, p + bc, p + count, &mut h);
        push_str(&mut h, "\">");
        esc_sub(s, p + bc, p + count, &mut h);
        push_str(&mut h, "</a>");
        push_rep(&mut h, "&gt;", bc);
        assert(h@ =~= opens + link_mail(esc(cont@)) + rep("&gt;"@, bc as int));
        return ((one_html(h), p + bc + count));
    }
    let is_table = cont.len() == 5 && starts_with_at(cont, 0, lit("table"));
    let is_code = cont.len() == 4 && starts_with_at(cont, 0, lit("code"));
    assert(is_table == (cont@ == ascii("table"@))) by {
        if is_table {
            assert(cont@ =~= cont@.subrange(0, 5));
        }
        if cont@ == ascii("table"@) {
            assert(cont@.subrange(0, 5) =~= cont@);
        }
    }
    assert(is_code == (cont@ == ascii("code"@))) by {
        if is_code {
            assert(cont@ =~= cont@.subrange(0, 4));
        }
        if cont@ == ascii("code"@) {
            assert(cont@.subrange(0, 4) =~= cont@);
        }
    }
    if is_table || is_code {
        proof {
            let name = block_name(is_table);
            assert(count == bc + name.len());
            assert forall|i: int| 0 <= i < name.len() implies r[bc + i] == #[trigger] name[i] by {
                assert(cont@[i] == r[bc + i]);
            }
            assert forall|i: int| 0 <= i < bc implies #[trigger] r[bc + name.len() + i] == 62 by {
                assert(r[count + i] == 62);
            }
        }
        return block_exec(s, p, bc, is_table);
    }
    esc_sub(s, p + bc, p + count, &mut h);
    push_rep(&mut h, "&gt;", bc);
    (one_html(h), p + bc + count)
}

} // verus!

verus! {

/// The tokens of a step that writes the literal `h`.
pub(crate) fn simple_exec(h: &str) -> (ts: Vec<Token>)
    ensures
        pieces_of(ts@) == seq![Piece::Html(h@)],
{
    let mut t = String::new();
    push_str(&mut t, h);
    assert(t@ =~= h@);
    one_html(t)
}

/// The tokens of a step that writes nothing.
fn empty_exec() -> (ts: Vec<Token>)
    ensures
        pieces_of(ts@) == seq![Piece::Html(Seq::<char>::empty())],
{
    one_html(String::new())
}

/// `[b]`, `[i]`, `[u]` and their end tags at byte `p` of `s`.
fn bbcode_emphasis_exec(s: &str, p: usize) -> (res: Option<(Vec<Token>, usize)>)
    requires
        p < s.spec_bytes().len(),
        is_char_boundary(s.spec_bytes(), p as int),
        s.spec_bytes()[p as int] == 91,
    ensures
        match bbcode_emphasis(s.spec_bytes().subrange(p as int, s.spec_bytes().len() as int)) {
            None => res is None,
            Some((ps, k)) => res matches Some((ts, q)) && pieces_of(ts@) == ps && q == p + k,
        },
{
    proof {
        reveal_strlit("/B]");
        reveal_strlit("/I]");
        reveal_strlit("/U]");
        reveal_strlit("/b]");
        reveal_strlit("/i]");
        reveal_strlit("/u]");
        reveal_strlit("B]");
        reveal_strlit("I]");
        reveal_strlit("U]");
        reveal_strlit("b]");
        reveal_strlit("i]");
        reveal_strlit("u]");
    }
    let b = s.as_bytes();
    let ghost bb = b@;
    let ghost r = bb.subrange(p as int, bb.len() as int);
    let rs = vstd::slice::slice_subrange(b, p, b.len());
    proof {
        encode_utf8_valid_utf8(s@);
    }
    if starts_with_at(rs, 1, lit("B]")) || starts_with_at(rs, 1, lit("b]")) {
        return Some((simple_exec("<b>"), p + 3));
    }
    if starts_with_at(rs, 1, lit("I]")) || starts_with_at(rs, 1, lit("i]")) {
        return Some((simple_exec("<i>"), p + 3));
    }
    if starts_with_at(rs, 1, lit("U]")) || starts_with_at(rs, 1, lit("u]")) {
        return Some((simple_exec("<i>"), p + 3));
    }
    if starts_with_at(rs, 1, lit("/B]")) || starts_with_at(rs, 1, lit("/b]")) {
        return Some((simple_exec("</b>"), p + 4));
    }
    if starts_with_at(rs, 1, lit("/I]")) || starts_with_at(rs, 1, lit("/i]")) {
        return Some((simple_exec("</i>"), p + 4));
    }
    if starts_with_at(rs, 1, lit("/U]")) || starts_with_at(rs, 1, lit("/u]")) {
        return Some((simple_exec("</i>"), p + 4));
    }
    None
}

/// `[url]` tags at byte `p` of `s`.
fn bbcode_url_exec(s: &str, p: usize) -> (res: Option<(Vec<Token>, usize)>)
    requires
        p < s.spec_bytes().len(),
        is_char_boundary(s.spec_bytes(), p as int),
        s.spec_bytes()[p as int] == 91,
    ensures
        match bbcode_url(s.spec_bytes().subrange(p as int, s.spec_bytes().len() as int)) {
            None => res is None,
            Some((ps, k)) => res matches Some((ts, q)) && pieces_of(ts@) == ps && q == p + k,
        },
{
    proof {
        reveal_strlit("[/url]");
        reveal_strlit("[url=");
        reveal_strlit("[url]");
        reveal_strlit("]");
    }
    let b = s.as_bytes();
    let ghost bb = b@;
    let ghost r = bb.subrange(p as int, bb.len() as int);
    let rs = vstd::slice::slice_subrange(b, p, b.len());
    proof {
        encode_utf8_valid_utf8(s@);
    }
    if ci_match_at(rs, 0, lit("[url]")).is_some() {
        proof {
            lemma_ci_match_bytes(r, 0, ascii("[url]"@), 0);
            lemma_ci_find_after_tag(r, ascii("[url]"@), ascii("[/url]"@));
            lemma_ci_find_end(r, "[/url]"@);
        }
        match ci_find_bytes(rs, lit("[/url]")) {
            Some((st, e)) => {
                proof {
                    assert(fold(r[0int + 4]) == fold(ascii("[url]"@)[4]));
                    lemma_boundary_at(bb, p + 5);
                    lemma_ci_find_found(r, 0, ascii("[/url]"@));
                    lemma_ci_match_head(r, st as int, ascii("[/url]"@), 0);
                    assert(bb[p + st] == r[st as int]);
                    lemma_boundary_at(bb, p + st);
                }
                assert(bb.subrange(p + 5, p + st) =~= r.subrange(5, st as int));
                let mut h = String::new();
                push_str(&mut h, "<a href=\"");
                esc_sub(s, p + 5, p + st, &mut h);
                push_str(&mut h, "\">");
                esc_sub(s, p + 5, p + st, &mut h);
                push_str(&mut h, "</a>");
                assert(h@ =~= link_plain(esc(r.subrange(5, st as int))));
                return Some((one_html(h), p + e));
            },
            None => {
                return Some((simple_exec("["), p + 1));
            },
        }
    }
    if ci_match_at(rs, 0, lit("[url=")).is_some() {
        proof {
            lemma_ci_match_bytes(r, 0, ascii("[url="@), 0);
            lemma_ci_find_after_tag(r, ascii("[url="@), ascii("[/url]"@));
            lemma_ci_find_end(r, "[/url]"@);
            lemma_find_after_tag(r, ascii("[url="@), 93);
            assert(ascii("]"@) =~= seq![93u8]);
            lemma_find_end(r, 0, "]"@);
        }
        match (ci_find_bytes(rs, lit("[/url]")), find_bytes(rs, 0, lit("]"))) {
            (Some((st, e)), Some(ep)) => {
                if ep < st {
                    proof {
                        assert(fold(r[0int + 4]) == fold(ascii("[url="@)[4]));
                        lemma_boundary_at(bb, p + 5);
                        lemma_ci_find_found(r, 0, ascii("[/url]"@));
                        lemma_ci_match_head(r, st as int, ascii("[/url]"@), 0);
                        assert(bb[p + st] == r[st as int]);
                        lemma_boundary_at(bb, p + st);
                        assert(r.subrange(ep as int, ep + 1)[0] == r[ep as int]);
                        lemma_boundary_at(bb, p + ep);
                        lemma_boundary_at(bb, p + ep + 1);
                    }
                    assert(bb.subrange(p + 5, p + ep) =~= r.subrange(5, ep as int));
                    assert(bb.subrange(p + ep + 1, p + st) =~= r.subrange(ep + 1, st as int));
                    let mut h = String::new();
                    push_str(&mut h, "<a href=\"");
                    esc_sub(s, p + 5, p + ep, &mut h);
                    push_str(&mut h, "\">");
                    esc_sub(s, p + ep + 1, p + st, &mut h);
                    push_str(&mut h, "</a>");
                    return Some((one_html(h), p + e));
                } else {
                    return Some((simple_exec("["), p + 1));
                }
            },
            _ => {
                return Some((simple_exec("["), p + 1));
            },
        }
    }
    None
}

/// `[quote]` tags at byte `p` of `s`.
fn bbcode_quote_exec(s: &str, p: usize) -> (res: Option<(Vec<Token>, usize)>)
    requires
        p < s.spec_bytes().len(),
        is_char_boundary(s.spec_bytes(), p as int),
        s.spec_bytes()[p as int] == 91,
    ensures
        match bbcode_quote(s.spec_bytes().subrange(p as int, s.spec_bytes().len() as int)) {
            None => res is None,
            Some((ps, k)) => res matches Some((ts, q)) && pieces_of(ts@) == ps && q == p + k,
        },
{
    proof {
        reveal_strlit("[/quote]");
        reveal_strlit("[quote=");
        reveal_strlit("[quote]");
        reveal_strlit("]");
    }
    let b = s.as_bytes();
    let ghost bb = b@;
    let ghost r = bb.subrange(p as int, bb.len() as int);
    let rs = vstd::slice::slice_subrange(b, p, b.len());
    proof {
        encode_utf8_valid_utf8(s@);
        lemma_ci_match_len(r, 0, ascii("[/quote]"@), 0);
        lemma_ci_match_len(r, 0, ascii("[quote="@), 0);
        lemma_ci_match_len(r, 0, ascii("[quote]"@), 0);
    }
    match ci_match_at(rs, 0, lit("[quote]")) {
        Some(e) => {
            return Some((simple_exec("<blockquote>"), p + e));
        },
        None => {},
    }
    match ci_match_at(rs, 0, lit("[/quote]")) {
        Some(e) => {
            return Some((simple_exec("</blockquote>"), p + e));
        },
        None => {},
    }
    if ci_match_at(rs, 0, lit("[quote=")).is_some() {
        proof {
            lemma_ci_match_bytes(r, 0, ascii("[quote="@), 0);
            lemma_find_after_tag(r, ascii("[quote="@), 93);
            assert(ascii("]"@) =~= seq![93u8]);
            lemma_find_end(r, 0, "]"@);
        }
        match find_bytes(rs, 0, lit("]")) {
            Some(ep) => {
                proof {
                    assert(fold(r[0int + 6]) == fold(ascii("[quote="@)[6]));
                    lemma_boundary_at(bb, p + 7);
                    assert(r.subrange(ep as int, ep + 1)[0] == r[ep as int]);
                    lemma_boundary_at(bb, p + ep);
                }
                assert(bb.subrange(p + 7, p + ep) =~= r.subrange(7, ep as int));
                let mut name = String::new();
                esc_sub(s, p + 7, p + ep, &mut name);
                assert(name@ =~= esc(r.subrange(7, ep as int)));
                let mut ts: Vec<Token> = Vec::new();
                ts.push(Token::Mention(name));
                let mut q = String::new();
                push_str(&mut q, "<blockquote>");
                ts.push(html(q));
                assert(pieces_of(ts@) =~= seq![
                    Piece::Mention(esc(r.subrange(7, ep as int))),
                    Piece::Html("<blockquote>"@),
                ]);
                return Some((ts, p + ep + 1));
            },
            None => {
                return Some((simple_exec("["), p + 1));
            },
        }
    }
    None
}

/// `[code]` tags at byte `p` of `s`.
fn bbcode_code_exec(s: &str, p: usize) -> (res: Option<(Vec<Token>, usize)>)
    requires
        p < s.spec_bytes().len(),
        is_char_boundary(s.spec_bytes(), p as int),
        s.spec_bytes()[p as int] == 91,
    ensures
        match bbcode_code(s.spec_bytes().subrange(p as int, s.spec_bytes().len() as int)) {
            None => res is None,
            Some((ps, k)) => res matches Some((ts, q)) && pieces_of(ts@) == ps && q == p + k,
        },
{
    proof {
        reveal_strlit("[/code]");
        reveal_strlit("[code]");
    }
    let b = s.as_bytes();
    let ghost bb = b@;
    let ghost r = bb.subrange(p as int, bb.len() as int);
    let rs = vstd::slice::slice_subrange(b, p, b.len());
    proof {
        encode_utf8_valid_utf8(s@);
    }
    if ci_match_at(rs, 0, lit("[code]")).is_some() {
        proof {
            lemma_ci_match_bytes(r, 0, ascii("[code]"@), 0);
            lemma_ci_find_after_tag(r, ascii("[code]"@), ascii("[/code]"@));
            lemma_ci_find_end(r, "[/code]"@);
        }
        match ci_find_bytes(rs, lit("[/code]")) {
            Some((st, e)) => {
                proof {
                    assert(fold(r[0int + 5]) == fold(ascii("[code]"@)[5]));
                    lemma_boundary_at(bb, p + 6);
                    lemma_ci_find_found(r, 0, ascii("[/code]"@));
                    lemma_ci_match_head(r, st as int, ascii("[/code]"@), 0);
                    assert(bb[p + st] == r[st as int]);
                    lemma_boundary_at(bb, p + st);
                }
                assert(bb.subrange(p + 6, p + st) =~= r.subrange(6, st as int));
                let mut h = String::new();
                push_str(&mut h, "<code>");
                esc_sub(s, p + 6, p + st, &mut h);
                push_str(&mut h, "</code>");
                return Some((one_html(h), p + e));
            },
            None => {
                return Some((simple_exec("["), p + 1));
            },
        }
    }
    None
}

/// The tags that are only replaced, at byte `p` of `s`.
fn bbcode_simple_exec(s: &str, p: usize) -> (res: Option<(Vec<Token>, usize)>)
    requires
        p < s.spec_bytes().len(),
        is_char_boundary(s.spec_bytes(), p as int),
        s.spec_bytes()[p as int] == 91,
    ensures
        match bbcode_simple(s.spec_bytes().subrange(p as int, s.spec_bytes().len() as int)) {
            None => res is None,
            Some((ps, k)) => res matches Some((ts, q)) && pieces_of(ts@) == ps && q == p + k,
        },
{
    proof {
        reveal_strlit("[/ab]");
        reveal_strlit("[/cb]");
        reveal_strlit("[/char]");
        reveal_strlit("[/pre]");
        reveal_strlit("[/sb]");
        reveal_strlit("[/size]");
        reveal_strlit("[/tt]");
        reveal_strlit("[ab]");
        reveal_strlit("[cb]");
        reveal_strlit("[char]");
        reveal_strlit("[pre]");
        reveal_strlit("[sb]");
        reveal_strlit("[size=");
        reveal_strlit("[tt]");
        reveal_strlit("]");
    }
    let b = s.as_bytes();
    let ghost bb = b@;
    let ghost r = bb.subrange(p as int, bb.len() as int);
    let rs = vstd::slice::slice_subrange(b, p, b.len());
    proof {
        encode_utf8_valid_utf8(s@);
        lemma_ci_match_len(r, 0, ascii("[/ab]"@), 0);
        lemma_ci_match_len(r, 0, ascii("[/cb]"@), 0);
        lemma_ci_match_len(r, 0, ascii("[/char]"@), 0);
        lemma_ci_match_len(r, 0, ascii("[/pre]"@), 0);
        lemma_ci_match_len(r, 0, ascii("[/sb]"@), 0);
        lemma_ci_match_len(r, 0, ascii("[/size]"@), 0);
        lemma_ci_match_len(r, 0, ascii("[/tt]"@), 0);
        lemma_ci_match_len(r, 0, ascii("[ab]"@), 0);
        lemma_ci_match_len(r, 0, ascii("[cb]"@), 0);
        lemma_ci_match_len(r, 0, ascii("[char]"@), 0);
        lemma_ci_match_len(r, 0, ascii("[pre]"@), 0);
        lemma_ci_match_len(r, 0, ascii("[sb]"@), 0);
        lemma_ci_match_len(r, 0, ascii("[size="@), 0);
        lemma_ci_match_len(r, 0, ascii("[tt]"@), 0);
    }
    match ci_match_at(rs, 0, lit("[tt]")) {
        Some(e) => {
            return Some((simple_exec("<tt>"), p + e));
        },
        None => {},
    }
    match ci_match_at(rs, 0, lit("[/tt]")) {
        Some(e) => {
            return Some((simple_exec("</tt>"), p + e));
        },
        None => {},
    }
    match ci_match_at(rs, 0, lit("[pre]")) {
        Some(e) => {
            return Some((simple_exec("<pre>"), p + e));
        },
        None => {},
    }
    match ci_match_at(rs, 0, lit("[/pre]")) {
        Some(e) => {
            return Some((simple_exec("</pre>"), p + e));
        },
        None => {},
    }
    match ci_match_at(rs, 0, lit("[char]")) {
        Some(e) => {
            return Some((simple_exec("&"), p + e));
        },
        None => {},
    }
    match ci_match_at(rs, 0, lit("[/char]")) {
        Some(e) => {
            return Some((simple_exec(";"), p + e));
        },
        None => {},
    }
    match ci_match_at(rs, 0, lit("[size=")) {
        Some(m) => {
            proof {
                lemma_ci_match_len(r, 0, ascii("[size="@), 0);
                lemma_find_end(r, m as int, "]"@);
            }
            match find_bytes(rs, m, lit("]")) {
                Some(j) => {
                    if j > m {
                        return Some((empty_exec(), p + j + 1));
                    }
                },
                None => {},
            }
        },
        None => {},
    }
    match ci_match_at(rs, 0, lit("[/size]")) {
        Some(e) => {
            return Some((empty_exec(), p + e));
        },
        None => {},
    }
    match ci_match_at(rs, 0, lit("[ab]")) {
        Some(e) => {
            return Some((simple_exec("&lt;"), p + e));
        },
        None => {},
    }
    match ci_match_at(rs, 0, lit("[/ab]")) {
        Some(e) => {
            return Some((simple_exec("&gt;"), p + e));
        },
        None => {},
    }
    match ci_match_at(rs, 0, lit("[sb]")) {
        Some(e) => {
            return Some((simple_exec("["), p + e));
        },
        None => {},
    }
    match ci_match_at(rs, 0, lit("[/sb]")) {
        Some(e) => {
            return Some((simple_exec("]"), p + e));
        },
        None => {},
    }
    match ci_match_at(rs, 0, lit("[cb]")) {
        Some(e) => {
            return Some((simple_exec("{"), p + e));
        },
        None => {},
    }
    match ci_match_at(rs, 0, lit("[/cb]")) {
        Some(e) => {
            return Some((simple_exec("}"), p + e));
        },
        None => {},
    }
    None
}

/// `[img]` tags at byte `p` of `s`.
fn bbcode_img_exec(s: &str, p: usize) -> (res: Option<(Vec<Token>, usize)>)
    requires
        p < s.spec_bytes().len(),
        is_char_boundary(s.spec_bytes(), p as int),
        s.spec_bytes()[p as int] == 91,
    ensures
        match bbcode_img(s.spec_bytes().subrange(p as int, s.spec_bytes().len() as int)) {
            None => res is None,
            Some((ps, k)) => res matches Some((ts, q)) && pieces_of(ts@) == ps && q == p + k,
        },
{
    proof {
        reveal_strlit("[/img]");
        reveal_strlit("[img]");
    }
    let b = s.as_bytes();
    let ghost bb = b@;
    let ghost r = bb.subrange(p as int, bb.len() as int);
    let rs = vstd::slice::slice_subrange(b, p, b.len());
    proof {
        encode_utf8_valid_utf8(s@);
    }
    if ci_match_at(rs, 0, lit("[img]")).is_some() {
        proof {
            lemma_ci_match_bytes(r, 0, ascii("[img]"@), 0);
            lemma_ci_find_after_tag(r, ascii("[img]"@), ascii("[/img]"@));
            lemma_ci_find_end(r, "[/img]"@);
        }
        match ci_find_bytes(rs, lit("[/img]")) {
            Some((st, e)) => {
                proof {
                    assert(fold(r[0int + 4]) == fold(ascii("[img]"@)[4]));
                    lemma_boundary_at(bb, p + 5);
                    lemma_ci_find_found(r, 0, ascii("[/img]"@));
                    lemma_ci_match_head(r, st as int, ascii("[/img]"@), 0);
                    assert(bb[p + st] == r[st as int]);
                    lemma_boundary_at(bb, p + st);
                }
                assert(bb.subrange(p + 5, p + st) =~= r.subrange(5, st as int));
                let mut h = String::new();
                push_str(&mut h, "<details><summary>image</summary><img src=\"");
                esc_sub(s, p + 5, p + st, &mut h);
                push_str(&mut h, "\"></details>");
                return Some((one_html(h), p + e));
            },
            None => {
                return Some((simple_exec("["), p + 1));
            },
        }
    }
    None
}

/// A BBCode tag at byte `p` of `s`, if one is there.
fn bracket_exec(s: &str, p: usize) -> (res: Option<(Vec<Token>, usize)>)
    requires
        p < s.spec_bytes().len(),
        is_char_boundary(s.spec_bytes(), p as int),
        s.spec_bytes()[p as int] == 91,
    ensures
        match bracket_step(s.spec_bytes().subrange(p as int, s.spec_bytes().len() as int)) {
            None => res is None,
            Some((ps, k)) => res matches Some((ts, q)) && pieces_of(ts@) == ps && q == p + k,
        },
{
    let r = bbcode_emphasis_exec(s, p);
    if r.is_some() {
        return r;
    }
    let r = bbcode_url_exec(s, p);
    if r.is_some() {
        return r;
    }
    let r = bbcode_quote_exec(s, p);
    if r.is_some() {
        return r;
    }
    let r = bbcode_code_exec(s, p);
    if r.is_some() {
        return r;
    }
    let r = bbcode_simple_exec(s, p);
    if r.is_some() {
        return r;
    }
    bbcode_img_exec(s, p)
}
} // verus!

verus! {

/// Whether a byte is plain text in a body.
pub fn is_body_normal(x: u8) -> (r: bool)
    ensures
        r == body_normal(x),
{
    !(x == 60 || x == 64 || x == 35 || x == 32 || x == 10 || x == 42 || x == 40 || x == 91 || x
        == 93)
}

/// Where a run of plain text that reaches `i` ends (see [`text_run`]).
pub fn text_run_exec(b: &[u8], i: usize, title: bool) -> (r: usize)
    requires
        i <= b@.len(),
    ensures
        r as int == text_run(b@, i as int, title),
{
    proof {
        reveal_strlit("www.");
    }
    let mut j = i;
    while j < b.len()
        invariant
            i <= j <= b@.len(),
            text_run(b@, i as int, title) == text_run(b@, j as int, title),
        decreases b.len() - j,
    {
        proof {
            reveal_strlit("www.");
        }
        let x = b[j];
        let normal = if title {
            crate::title::is_title_normal(x)
        } else {
            is_body_normal(x)
        };
        if !normal {
            return j;
        }
        if !(0x80 <= x && x <= 0xbf) && (protocol_at_exec(b, j) || starts_with_at(
            b,
            j,
            lit("www."),
        )) {
            return j;
        }
        j += 1;
    }
    j
}

/// The end of a step, relative to `p`, is a boundary of the whole text.
pub proof fn lemma_step_boundary(bb: Seq<u8>, p: int, k: int)
    requires
        valid_utf8(bb),
        0 <= p < bb.len(),
        step_end_ok(bb.subrange(p, bb.len() as int), k),
    ensures
        is_char_boundary(bb, p + k),
        p + k <= bb.len(),
{
    let r = bb.subrange(p, bb.len() as int);
    if p + k == bb.len() {
        lemma_boundary_at(bb, p + k);
    } else if r[k] < 0x80 || r[k - 1] < 0x80 {
        assert(r[k] == bb[p + k] && r[k - 1] == bb[p + k - 1]);
        lemma_boundary_at(bb, p + k);
    } else {
        assert(r[k] == bb[p + k]);
        crate::scan::lemma_boundary_iff(bb, p + k);
    }
}

/// One step of the body tokenizer at byte `p` of `s`: the tokens and the
/// position it goes on from.
pub fn body_step_exec(s: &str, p: usize) -> (res: (Vec<Token>, usize))
    requires
        p < s.spec_bytes().len(),
        is_char_boundary(s.spec_bytes(), p as int),
    ensures
        match body_step(s.spec_bytes().subrange(p as int, s.spec_bytes().len() as int)) {
            (ps, k) => pieces_of(res.0@) == ps && res.1 == p + k && is_char_boundary(
                s.spec_bytes(),
                res.1 as int,
            ),
        },
{
    proof {
        reveal_strlit("www.");
    }
    let b = s.as_bytes();
    let ghost bb = b@;
    let ghost r = bb.subrange(p as int, bb.len() as int);
    let rs = vstd::slice::slice_subrange(b, p, b.len());
    proof {
        encode_utf8_valid_utf8(s@);
        lemma_body_step_end(r);
        if let (_, k) = body_step(r) {
            lemma_step_boundary(bb, p as int, k);
        }
    }
    let c = b[p];
    if c == 60 {
        return angle_exec(s, p);
    }
    if c == 91 {
        match bracket_exec(s, p) {
            Some(x) => {
                return x;
            },
            None => {},
        }
    }
    if c == 64 || c == 35 {
        let t = vstd::slice::slice_subrange(rs, 1, rs.len());
        let l = lexical_token_len(t, false);
        proof {
            lemma_boundary_at(bb, p + 1);
        }
        assert(bb.subrange(p + 1, p + 1 + l) =~= r.subrange(1, 1 + l));
        let name = substr(s, p + 1, p + 1 + l).to_string();
        let mut ts: Vec<Token> = Vec::new();
        if c == 64 {
            ts.push(Token::Mention(name));
        } else {
            ts.push(Token::Hash(name));
        }
        assert(pieces_of(ts@) =~= seq![ts@[0]@]);
        return ((ts, p + 1 + l));
    }
    let is_www = c == 119 && starts_with_at(rs, 0, lit("www."));
    if protocol_at_exec(rs, 0) || is_www {
        let l = lexical_token_len(rs, true);
        assert(bb.subrange(p as int, p + l) =~= r.subrange(0, l as int));
        let mut h = String::new();
        if protocol_at_exec(rs, 0) {
            push_str(&mut h, "<a href=\"");
        } else {
            push_str(&mut h, "<a href=\"https://");
        }
        esc_sub(s, p, p + l, &mut h);
        push_str(&mut h, "\">");
        esc_sub(s, p, p + l, &mut h);
        push_str(&mut h, "</a>");
        return ((one_html(h), p + l));
    }
    if c == 32 {
        let mut k: usize = 1;
        proof {
            lemma_space_run(r, 0);
        }
        while k < rs.len() && rs[k] == 32
            invariant
                1 <= k <= rs@.len(),
                rs@ == r,
                r[0] == 32,
                space_run(r, k as int) == space_run(r, 0),
            decreases rs.len() - k,
        {
            k += 1;
        }
        return (simple_exec(" "), p + k);
    }
    if c == 10 {
        if p + 1 < b.len() && b[p + 1] == 10 {
            return ((simple_exec("\n\n<p>"), p + 2));
        }
        return ((simple_exec("\n"), p + 1));
    }
    let i = text_run_exec(rs, 1, false);
    assert(bb.subrange(p as int, p + i) =~= r.subrange(0, i as int));
    let mut h = String::new();
    esc_sub(s, p, p + i, &mut h);
    (one_html(h), p + i)
}

/// The tokens of the body text `s`.
pub fn body_tokens(s: &str) -> (res: Vec<Token>)
    ensures
        pieces_of(res@) == body_pieces(s.spec_bytes(), 0),
{
    let b = s.as_bytes();
    let ghost bb = b@;
    proof {
        encode_utf8_valid_utf8(s@);
        crate::scan::lemma_boundary_iff(bb, 0);
        if bb.len() > 0 {
            is_char_boundary_iff_not_is_continuation_byte(bb, 0);
        }
    }
    let mut ts: Vec<Token> = Vec::new();
    let mut p: usize = 0;
    while p < b.len()
        invariant
            p <= bb.len(),
            b@ == bb,
            bb == s.spec_bytes(),
            is_char_boundary(bb, p as int),
            body_pieces(bb, 0) == pieces_of(ts@) + body_pieces(bb, p as int),
        decreases bb.len() - p,
    {
        let ghost r = bb.subrange(p as int, bb.len() as int);
        proof {
            lemma_body_step_end(r);
        }
        let (step_ts, q) = body_step_exec(s, p);
        let ghost old_ts = ts@;
        let mut st = step_ts;
        ts.append(&mut st);
        proof {
            assert(pieces_of(ts@) =~= pieces_of(old_ts) + pieces_of(step_ts@));
            let ghost ps = pieces_of(step_ts@);
            assert(pieces_of(old_ts) + (ps + body_pieces(bb, q as int)) =~= pieces_of(ts@)
                + body_pieces(bb, q as int));
        }
        p = q;
    }
    assert(pieces_of(ts@) + Seq::<Piece>::empty() =~= pieces_of(ts@));
    ts
}

} // verus!
