//! Text that uses none of the syntax comes out as it was written, with each
//! run of spaces written as one space.
use vstd::prelude::*;
use vstd::utf8::*;
use crate::body::{body_pieces, body_step, esc, lemma_body_step_end, lemma_space_run, lemma_step_boundary, space_run};
use crate::html::{escape_char, escape_spec};
use crate::prettify::{answers_fit, body_text_pieces, render, render_piece, replace_crlf, Answer, Piece};
use crate::scan::{ascii, lemma_boundary_iff, protocol_at, starts_at};

verus! {

/// Bytes that use none of the syntax: no `<`, `@`, `#`, `[` or line break,
/// and no link (a protocol or `www.`) starting anywhere.
pub open spec fn no_syntax(b: Seq<u8>) -> bool {
    forall|i: int|
        0 <= i < b.len() ==> !(b[i] == 60 || b[i] == 64 || b[i] == 35 || b[i] == 91 || b[i] == 10)
            && !#[trigger] protocol_at(b, i) && !starts_at(b, i, ascii("www."@))
}

/// The HTML that pieces of finished HTML hold, in order.
pub open spec fn html_of(ps: Seq<Piece>) -> Seq<char>
    decreases ps.len(),
{
    if ps.len() == 0 {
        seq![]
    } else {
        html_of(ps.drop_last()) + match ps.last() {
            Piece::Html(s) => s,
            _ => Seq::<char>::empty(),
        }
    }
}

/// Whether every piece is finished HTML.
pub open spec fn all_html(ps: Seq<Piece>) -> bool {
    forall|i: int| 0 <= i < ps.len() ==> (#[trigger] ps[i]) is Html
}

proof fn lemma_escape_concat(x: Seq<char>, y: Seq<char>)
    ensures
        escape_spec(x + y) == escape_spec(x) + escape_spec(y),
    decreases y.len(),
{
    if y.len() == 0 {
        assert(x + y =~= x);
        assert(escape_spec(x) + escape_spec(y) =~= escape_spec(x));
    } else {
        lemma_escape_concat(x, y.drop_last());
        assert((x + y).drop_last() =~= x + y.drop_last());
        assert((x + y).last() == y.last());
    }
}

proof fn lemma_html_of_concat(a: Seq<Piece>, b: Seq<Piece>)
    ensures
        html_of(a + b) == html_of(a) + html_of(b),
    decreases b.len(),
{
    if b.len() == 0 {
        assert(a + b =~= a);
        assert(html_of(a) + html_of(b) =~= html_of(a));
    } else {
        lemma_html_of_concat(a, b.drop_last());
        assert((a + b).drop_last() =~= a + b.drop_last());
        assert((a + b).last() == b.last());
    }
}

/// Pieces of finished HTML render as the HTML they hold, whatever the data
/// answered.
proof fn lemma_render_html(ps: Seq<Piece>, answers: Seq<Answer>, e: Option<Seq<char>>)
    requires
        all_html(ps),
        answers.len() == ps.len(),
    ensures
        render(ps, answers, e) == html_of(ps),
    decreases ps.len(),
{
    if ps.len() > 0 {
        assert(ps.last() == ps[ps.len() - 1]);
        lemma_render_html(ps.drop_last(), answers.drop_last(), e);
    }
}

/// Where syntax is absent, a link start found at the start of a suffix is
/// one in the whole text.
proof fn lemma_suffix_starts(b: Seq<u8>, p: int, pat: Seq<u8>)
    requires
        0 <= p <= b.len(),
    ensures
        starts_at(b.subrange(p, b.len() as int), 0, pat) == starts_at(b, p, pat),
{
    let r = b.subrange(p, b.len() as int);
    if p + pat.len() <= b.len() {
        assert(r.subrange(0, pat.len() as int) =~= b.subrange(p, p + pat.len()));
    }
}

/// The text with each run of spaces written as a single space.
pub open spec fn squeeze_spaces(s: Seq<char>) -> Seq<char>
    decreases s.len(),
{
    if s.len() == 0 {
        s
    } else if s.len() >= 2 && s[0] == ' ' && s[1] == ' ' {
        squeeze_spaces(s.drop_first())
    } else {
        seq![s[0]] + squeeze_spaces(s.drop_first())
    }
}

/// Text without spaces comes before the rest unchanged.
proof fn lemma_squeeze_after_word(x: Seq<char>, y: Seq<char>)
    requires
        forall|i: int| 0 <= i < x.len() ==> x[i] != ' ',
    ensures
        squeeze_spaces(x + y) == x + squeeze_spaces(y),
    decreases x.len(),
{
    if x.len() == 0 {
        assert(x + y =~= y);
    } else {
        let t = x.drop_first();
        assert forall|i: int| 0 <= i < t.len() implies t[i] != ' ' by {
            assert(t[i] == x[i + 1]);
        }
        lemma_squeeze_after_word(t, y);
        assert((x + y).drop_first() =~= t + y);
        assert((x + y)[0] == x[0]);
        assert(x + squeeze_spaces(y) =~= seq![x[0]] + (t + squeeze_spaces(y)));
    }
}

/// `n` spaces.
pub open spec fn spaces(n: nat) -> Seq<char> {
    Seq::new(n, |i: int| ' ')
}

/// A run of spaces before text that does not start with one is one space.
proof fn lemma_squeeze_run(n: nat, y: Seq<char>)
    requires
        n >= 1,
        y.len() == 0 || y[0] != ' ',
    ensures
        squeeze_spaces(spaces(n) + y) == seq![' '] + squeeze_spaces(y),
    decreases n,
{
    let s = spaces(n) + y;
    assert(s[0] == ' ');
    if n == 1 {
        assert(s.drop_first() =~= y);
        if s.len() >= 2 {
            assert(s[1] == y[0]);
        }
    } else {
        assert(s[1] == ' ');
        assert(s.drop_first() =~= spaces((n - 1) as nat) + y);
        lemma_squeeze_run((n - 1) as nat, y);
    }
}

/// Text that starts with a space is encoded starting with byte 32.
proof fn lemma_encode_space_first(t: Seq<char>)
    requires
        t.len() > 0,
        t[0] == ' ',
    ensures
        encode_utf8(t)[0] == 32,
{
    let v = t[0] as u32;
    assert(v == 32);
    assert((32u32 & 0x7f) as u8 == 32u8) by (bit_vector);
    assert(encode_scalar(v) =~= seq![32u8]);
}

/// Valid bytes without byte 32 decode to text without spaces.
proof fn lemma_no_space_decoded(x: Seq<u8>)
    requires
        valid_utf8(x),
        forall|i: int| 0 <= i < x.len() ==> x[i] != 32,
    ensures
        forall|j: int| 0 <= j < decode_utf8(x).len() ==> decode_utf8(x)[j] != ' ',
{
    let cx = decode_utf8(x);
    decode_utf8_encode_utf8(x);
    assert forall|j: int| 0 <= j < cx.len() implies cx[j] != ' ' by {
        if cx[j] == ' ' {
            let pre = cx.take(j);
            let post = cx.skip(j);
            assert(cx =~= pre + post);
            lemma_encode_concat(pre, post);
            lemma_encode_space_first(post);
            let m = encode_utf8(pre).len() as int;
            assert(x[m] == encode_utf8(post)[0]);
        }
    }
}

/// Valid bytes that do not start with byte 32 decode to text that does not
/// start with a space.
proof fn lemma_no_space_first(y: Seq<u8>)
    requires
        valid_utf8(y),
        y.len() == 0 || y[0] != 32,
    ensures
        decode_utf8(y).len() == 0 || decode_utf8(y)[0] != ' ',
{
    decode_utf8_encode_utf8(y);
    if decode_utf8(y).len() > 0 && decode_utf8(y)[0] == ' ' {
        lemma_encode_space_first(decode_utf8(y));
    }
}

/// Bytes that are all 32 decode to as many spaces, escaped as they are.
proof fn lemma_space_bytes(x: Seq<u8>)
    requires
        x.len() >= 1,
        forall|i: int| 0 <= i < x.len() ==> x[i] == 32,
    ensures
        decode_utf8(x) == spaces(x.len()),
        esc(x) == escape_spec(spaces(x.len())),
{
    let sp = spaces(x.len());
    assert(is_ascii_chars(sp)) by {
        assert forall|i: int| 0 <= i < sp.len() implies '\0' <= #[trigger] sp[i] <= '\u{7f}' by {}
    }
    is_ascii_chars_encode_utf8(sp);
    encode_utf8_decode_utf8(sp);
    assert(encode_utf8(sp) =~= x);
}

/// A single space is escaped as itself.
proof fn lemma_escape_space()
    ensures
        escape_spec(seq![' ']) == " "@,
{
    reveal_strlit(" ");
    let sp = seq![' '];
    assert(sp.drop_last() =~= Seq::<char>::empty());
    assert(escape_spec(Seq::<char>::empty()) =~= Seq::<char>::empty());
    assert(escape_char(' ') =~= seq![' ']);
    assert(escape_spec(sp) =~= seq![' ']);
}

/// The pieces of text without syntax are finished HTML: the escaped text,
/// each run of spaces written as one space.
proof fn lemma_plain_pieces(b: Seq<u8>, p: int)
    requires
        valid_utf8(b),
        0 <= p <= b.len(),
        is_char_boundary(b, p),
        no_syntax(b),
    ensures
        all_html(body_pieces(b, p)),
        html_of(body_pieces(b, p)) == escape_spec(
            squeeze_spaces(decode_utf8(b.subrange(p, b.len() as int))),
        ),
    decreases b.len() - p,
{
    reveal_strlit("http:");
    reveal_strlit("https:");
    reveal_strlit("ftp:");
    reveal_strlit("gopher:");
    reveal_strlit("mailto:");
    reveal_strlit("magnet:");
    reveal_strlit("www.");
    reveal_strlit(" ");
    if p == b.len() {
        assert(b.subrange(p, b.len() as int) =~= Seq::<u8>::empty());
        assert(decode_utf8(Seq::<u8>::empty()) =~= Seq::<char>::empty()) by {
            encode_utf8_decode_utf8(Seq::<char>::empty());
            assert(encode_utf8(Seq::<char>::empty()) =~= Seq::<u8>::empty());
        }
        assert(squeeze_spaces(Seq::<char>::empty()) =~= Seq::<char>::empty());
        assert(escape_spec(Seq::<char>::empty()) =~= Seq::<char>::empty());
        assert(all_html(Seq::<Piece>::empty()));
    } else {
        let r = b.subrange(p, b.len() as int);
        lemma_body_step_end(r);
        assert(r[0] == b[p]);
        assert(!protocol_at(b, p));
        lemma_suffix_starts(b, p, ascii("http:"@));
        lemma_suffix_starts(b, p, ascii("https:"@));
        lemma_suffix_starts(b, p, ascii("ftp:"@));
        lemma_suffix_starts(b, p, ascii("gopher:"@));
        lemma_suffix_starts(b, p, ascii("mailto:"@));
        lemma_suffix_starts(b, p, ascii("magnet:"@));
        lemma_suffix_starts(b, p, ascii("www."@));
        assert(!protocol_at(r, 0));
        let (ps, k) = body_step(r);
        lemma_step_boundary(b, p, k);
        lemma_plain_pieces(b, p + k);
        let rest = body_pieces(b, p + k);
        // The text splits where the step ends.
        let s = b.subrange(p, b.len() as int);
        valid_utf8_split(b, p);
        lemma_boundary_iff(b, p + k);
        lemma_boundary_iff(s, k);
        if p + k < b.len() {
            assert(s[k] == b[p + k]);
        }
        decode_utf8_split(s, k);
        valid_utf8_split(s, k);
        let x = s.subrange(0, k);
        let y = s.subrange(k, s.len() as int);
        assert(x =~= b.subrange(p, p + k));
        assert(y =~= b.subrange(p + k, b.len() as int));
        let cx = decode_utf8(x);
        let cy = decode_utf8(y);
        assert(decode_utf8(s) == cx + cy);
        if r[0] == 32 {
            lemma_space_run(r, 0);
            assert(k == space_run(r, 0));
            assert(ps == seq![Piece::Html(" "@)]);
            assert forall|i: int| 0 <= i < x.len() implies x[i] == 32 by {
                assert(x[i] == r[i]);
            }
            lemma_space_bytes(x);
            if y.len() > 0 {
                assert(y[0] == r[k]);
            }
            lemma_no_space_first(y);
            lemma_squeeze_run(x.len(), cy);
            lemma_escape_space();
            lemma_escape_concat(seq![' '], squeeze_spaces(cy));
            assert(html_of(ps) =~= " "@) by {
                assert(ps.drop_last() =~= Seq::<Piece>::empty());
                assert(html_of(Seq::<Piece>::empty()) =~= Seq::<char>::empty());
            }
        } else {
            let i = crate::body::text_run(r, 1, false);
            assert(k == i);
            assert(ps == seq![Piece::Html(esc(r.subrange(0, i)))]);
            assert(r.subrange(0, k) =~= x);
            crate::body::lemma_text_run_no_space(r, 1);
            assert forall|j: int| 0 <= j < x.len() implies x[j] != 32 by {
                assert(x[j] == r[j]);
            }
            lemma_no_space_decoded(x);
            lemma_squeeze_after_word(cx, cy);
            lemma_escape_concat(cx, squeeze_spaces(cy));
            assert(html_of(ps) =~= esc(x)) by {
                assert(ps.drop_last() =~= Seq::<Piece>::empty());
                assert(html_of(Seq::<Piece>::empty()) =~= Seq::<char>::empty());
            }
        }
        lemma_html_of_concat(ps, rest);
        assert(body_pieces(b, p) == ps + rest);
        assert forall|i: int| 0 <= i < (ps + rest).len() implies (#[trigger] (ps + rest)[i]) is Html by {
            if i >= 1 {
                assert((ps + rest)[i] == rest[i - 1]);
            }
        }
    }
}

/// Encoding concatenated text concatenates the encodings.
pub(crate) proof fn lemma_encode_concat(a: Seq<char>, c: Seq<char>)
    ensures
        encode_utf8(a + c) == encode_utf8(a) + encode_utf8(c),
    decreases a.len(),
{
    if a.len() == 0 {
        assert(a + c =~= c);
        assert(encode_utf8(a) + encode_utf8(c) =~= encode_utf8(c));
    } else {
        lemma_encode_concat(a.drop_first(), c);
        assert((a + c).drop_first() =~= a.drop_first() + c);
        assert((a + c)[0] == a[0]);
        assert(encode_utf8(a + c) =~= encode_utf8(a) + encode_utf8(c));
    }
}

/// Text without `\n` has no `\r\n` to replace.
pub(crate) proof fn lemma_no_newline_crlf(s: Seq<char>)
    requires
        forall|i: int| 0 <= i < s.len() ==> s[i] != '\n',
    ensures
        replace_crlf(s) == s,
    decreases s.len(),
{
    if s.len() > 0 {
        let t = s.drop_first();
        assert forall|i: int| 0 <= i < t.len() implies t[i] != '\n' by {
            assert(t[i] == s[i + 1]);
        }
        lemma_no_newline_crlf(t);
        if s.len() >= 2 {
            assert(s[1] != '\n');
        }
        assert(seq![s[0]] + t =~= s);
    }
}

/// Text that uses none of the syntax is rendered as the text itself,
/// escaped, with each run of spaces written as one space, whatever the
/// site's data answers.
pub proof fn law_plain_text_is_escaped(text: Seq<char>)
    requires
        no_syntax(encode_utf8(text)),
    ensures
        forall|answers: Seq<Answer>|
            #[trigger] answers_fit(body_text_pieces(text), answers) ==> render(
                body_text_pieces(text),
                answers,
                None,
            ) == escape_spec(squeeze_spaces(text)),
{
    let b = encode_utf8(text);
    encode_utf8_valid_utf8(text);
    assert forall|i: int| 0 <= i < text.len() implies text[i] != '\n' by {
        if text[i] == '\n' {
            let pre = text.take(i);
            let post = text.skip(i);
            assert(text =~= pre + post);
            assert(post[0] == '\n');
            lemma_encode_concat(pre, post);
            let nl = seq!['\n'];
            lemma_encode_concat(nl, post.drop_first());
            assert(nl + post.drop_first() =~= post);
            is_ascii_chars_encode_utf8(nl);
            assert(encode_utf8(nl)[0] == 10);
            let j = encode_utf8(pre).len() as int;
            assert(encode_utf8(post)[0] == 10);
            assert(b[j] == encode_utf8(post)[0]);
            assert(!protocol_at(b, j));
        }
    }
    lemma_no_newline_crlf(text);
    is_char_boundary_start_end_of_seq(b);
    lemma_plain_pieces(b, 0);
    assert(b.subrange(0, b.len() as int) =~= b);
    encode_utf8_decode_utf8(text);
    let ps = body_pieces(b, 0);
    assert forall|answers: Seq<Answer>| #[trigger] answers_fit(ps, answers) implies render(
        ps,
        answers,
        None,
    ) == escape_spec(squeeze_spaces(text)) by {
        lemma_render_html(ps, answers, None);
    }
}

} // verus!
