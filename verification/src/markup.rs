//! What text in angle brackets stands for in bodies and titles: an e-mail
//! address becomes a `mailto:` link, and `<#tag>` in a title is a reference.
use vstd::prelude::*;
use vstd::utf8::*;
use crate::body::{body_pieces, rep};
use crate::html::escape_spec;
use crate::plain::{lemma_encode_concat, lemma_no_newline_crlf};
use crate::prettify::{answers_of, body_text_pieces, is_number_text, linked_tags, parse_i32_spec, Data, Piece};
use crate::scan::{angle_scan, ascii, closes_at, first_close, lead_lt, lemma_starts_at_bytes, starts_at};
use crate::title::title_pieces;

verus! {

/// Bytes with the high bit set keep it whatever else is set.
proof fn lemma_high_bytes(y: u8)
    ensures
        (0x80u8 | y) >= 0x80,
        (0xC0u8 | y) >= 0x80,
        (0xE0u8 | y) >= 0x80,
        (0xF0u8 | y) >= 0x80,
{
    assert((0x80u8 | y) >= 0x80) by (bit_vector);
    assert((0xC0u8 | y) >= 0x80) by (bit_vector);
    assert((0xE0u8 | y) >= 0x80) by (bit_vector);
    assert((0xF0u8 | y) >= 0x80) by (bit_vector);
}

/// Characters with the same code are the same.
proof fn lemma_same_code(c: char, d: char)
    requires
        c as u32 == d as u32,
    ensures
        c == d,
{
    char_u32_cast(c, c as u32);
    char_u32_cast(d, d as u32);
}

/// An ASCII character is encoded as its one byte; any other character only
/// as bytes with the high bit set.
proof fn lemma_scalar_bytes(c: char)
    ensures
        encode_scalar(c as u32).len() >= 1,
        (c as u32) <= 0x7f ==> encode_scalar(c as u32) == seq![(c as u32) as u8],
        (c as u32) > 0x7f ==> forall|i: int|
            0 <= i < encode_scalar(c as u32).len() ==> #[trigger] encode_scalar(c as u32)[i]
                >= 0x80,
{
    let v = c as u32;
    if v <= 0x7f {
        assert((v & 0x7f) as u8 == v as u8) by (bit_vector)
            requires
                v <= 0x7f,
        ;
        assert(encode_scalar(v) =~= seq![v as u8]);
    } else {
        lemma_high_bytes(((v >> 6) & 0x1F) as u8);
        lemma_high_bytes(((v >> 12) & 0x0F) as u8);
        lemma_high_bytes(((v >> 18) & 0x7) as u8);
        lemma_high_bytes((v & 0x3F) as u8);
        lemma_high_bytes(((v >> 6) & 0x3F) as u8);
        lemma_high_bytes(((v >> 12) & 0x3F) as u8);
    }
}

/// The encoding of text that starts with a character starts with its
/// encoding.
proof fn lemma_encode_first(a: Seq<char>)
    requires
        a.len() > 0,
    ensures
        encode_utf8(a) == encode_scalar(a[0] as u32) + encode_utf8(a.drop_first()),
        (a[0] as u32) <= 0x7f ==> encode_utf8(a)[0] as u32 == a[0] as u32,
        (a[0] as u32) > 0x7f ==> encode_utf8(a)[0] >= 0x80,
{
    lemma_scalar_bytes(a[0]);
    let es = encode_scalar(a[0] as u32);
    assert((es + encode_utf8(a.drop_first()))[0] == es[0]);
}

/// An ASCII byte of an encoding is one of the text's characters.
proof fn lemma_ascii_byte_is_char(a: Seq<char>, m: int)
    requires
        0 <= m < encode_utf8(a).len(),
        encode_utf8(a)[m] < 0x80,
    ensures
        exists|j: int| 0 <= j < a.len() && a[j] as u32 == encode_utf8(a)[m] as u32,
    decreases a.len(),
{
    if a.len() == 0 {
    } else {
        lemma_encode_first(a);
        lemma_scalar_bytes(a[0]);
        let es = encode_scalar(a[0] as u32);
        let rest = encode_utf8(a.drop_first());
        if m < es.len() {
            assert(encode_utf8(a)[m] == es[m]);
            if (a[0] as u32) <= 0x7f {
                assert(m == 0);
                assert(a[0] as u32 == encode_utf8(a)[m] as u32);
            }
        } else {
            assert(encode_utf8(a)[m] == rest[m - es.len()]);
            lemma_ascii_byte_is_char(a.drop_first(), m - es.len());
            let j = choose|j: int|
                0 <= j < a.drop_first().len() && a.drop_first()[j] as u32 == rest[m - es.len()] as u32;
            assert(a[j + 1] == a.drop_first()[j]);
        }
    }
}

/// Text that holds a character encodes its first occurrence's byte after
/// the encoding of what comes before it.
proof fn lemma_char_byte_at(a: Seq<char>, j: int)
    requires
        0 <= j < a.len(),
        (a[j] as u32) <= 0x7f,
    ensures
        encode_utf8(a.take(j)).len() < encode_utf8(a).len(),
        encode_utf8(a)[encode_utf8(a.take(j)).len() as int] as u32 == a[j] as u32,
{
    let pre = a.take(j);
    let post = a.skip(j);
    assert(a =~= pre + post);
    lemma_encode_concat(pre, post);
    lemma_encode_first(post);
    lemma_scalar_bytes(post[0]);
    assert(post[0] == a[j]);
}

/// The bytes of `<`, some text, and `>`.
proof fn lemma_bracket_bytes(a: Seq<char>)
    ensures
        encode_utf8(seq!['<'] + a + seq!['>']) == seq![60u8] + encode_utf8(a) + seq![62u8],
{
    lemma_encode_concat(seq!['<'] + a, seq!['>']);
    lemma_encode_concat(seq!['<'], a);
    let lt = seq!['<'];
    let gt = seq!['>'];
    lemma_encode_first(lt);
    lemma_encode_first(gt);
    assert(lt.drop_first() =~= Seq::<char>::empty());
    assert(gt.drop_first() =~= Seq::<char>::empty());
    assert(encode_utf8(Seq::<char>::empty()) =~= Seq::<u8>::empty());
    lemma_scalar_bytes('<');
    lemma_scalar_bytes('>');
    assert(encode_utf8(lt) =~= seq![60u8]);
    assert(encode_utf8(gt) =~= seq![62u8]);
}

/// No byte of the encoding closes the brackets or is blank before the end.
proof fn lemma_first_close_at_end(b: Seq<u8>, a: Seq<char>, j: int)
    requires
        b == seq![60u8] + encode_utf8(a) + seq![62u8],
        forall|i: int| 0 <= i < a.len() ==> a[i] != '>' && a[i] != ' ' && a[i] != '\n',
        1 <= j <= encode_utf8(a).len() + 1,
    ensures
        first_close(b, j, 1) == Some(encode_utf8(a).len() as int + 1),
    decreases b.len() - j,
{
    let n = encode_utf8(a).len() as int;
    if j <= n {
        let x = b[j];
        assert(x == encode_utf8(a)[j - 1]);
        if x < 0x80 {
            lemma_ascii_byte_is_char(a, j - 1);
            let i = choose|i: int| 0 <= i < a.len() && a[i] as u32 == encode_utf8(a)[j - 1] as u32;
            assert(a[i] != '>' && a[i] != ' ' && a[i] != '\n');
            if x == 62 {
                lemma_same_code(a[i], '>');
            }
            if x == 32 {
                lemma_same_code(a[i], ' ');
            }
            if x == 10 {
                lemma_same_code(a[i], '\n');
            }
        }
        assert(x != 62 && x != 32 && x != 10);
        assert(!closes_at(b, j, 1)) by {
            if closes_at(b, j, 1) {
                assert(b[j + 0] == 62);
            }
        }
        lemma_first_close_at_end(b, a, j + 1);
    } else {
        assert(b[j] == 62);
        assert(closes_at(b, j, 1)) by {
            assert forall|i: int| 0 <= i < 1 implies #[trigger] b[j + i] == 62 by {}
        }
    }
}

/// Text in single angle brackets is scanned as one bracketed run: one `<`,
/// and contents that are the text's encoding.
proof fn lemma_bracketed(a: Seq<char>)
    requires
        a.len() > 0,
        a[0] != '<',
        forall|i: int| 0 <= i < a.len() ==> a[i] != '>' && a[i] != ' ' && a[i] != '\n',
    ensures
        ({
            let b = encode_utf8(seq!['<'] + a + seq!['>']);
            &&& b == seq![60u8] + encode_utf8(a) + seq![62u8]
            &&& b.len() == encode_utf8(a).len() + 2
            &&& angle_scan(b) == (1int, b.len() - 1)
            &&& b.subrange(1, b.len() - 1) == encode_utf8(a)
            &&& encode_utf8(a).len() > 0
        }),
{
    lemma_bracket_bytes(a);
    let b = encode_utf8(seq!['<'] + a + seq!['>']);
    let ea = encode_utf8(a);
    lemma_encode_first(a);
    lemma_scalar_bytes(a[0]);
    assert(b[1] == ea[0]);
    if ea[0] == 60 {
        lemma_same_code(a[0], '<');
    }
    assert(b[1] != 60);
    assert(lead_lt(b, 1) == 1);
    lemma_first_close_at_end(b, a, 1);
    assert(b.subrange(1, b.len() - 1) =~= ea);
}

/// One `&lt;` and one `&gt;`.
proof fn lemma_one_bracket()
    ensures
        rep("&lt;"@, 1) == "&lt;"@,
        rep("&gt;"@, 1) == "&gt;"@,
{
    assert(rep("&lt;"@, 0) =~= Seq::<char>::empty());
    assert(rep("&gt;"@, 0) =~= Seq::<char>::empty());
    assert(Seq::<char>::empty() + "&lt;"@ =~= "&lt;"@);
    assert(Seq::<char>::empty() + "&gt;"@ =~= "&gt;"@);
}

/// Text without a `:` does not start with a pattern that holds one.
proof fn lemma_no_scheme(a: Seq<char>, pat: Seq<char>, k: int)
    requires
        0 <= k < pat.len(),
        pat[k] == ':',
        forall|i: int| 0 <= i < a.len() ==> a[i] != ':',
    ensures
        !starts_at(encode_utf8(a), 0, ascii(pat)),
{
    let ea = encode_utf8(a);
    if starts_at(ea, 0, ascii(pat)) {
        lemma_starts_at_bytes(ea, 0, ascii(pat));
        assert(ea[0 + k] == ascii(pat)[k]);
        assert(ascii(pat)[k] == 58);
        lemma_ascii_byte_is_char(a, k);
        let i = choose|i: int| 0 <= i < a.len() && a[i] as u32 == ea[k] as u32;
        lemma_same_code(a[i], ':');
    }
}

/// An e-mail address in angle brackets (text with an `@` that is not its
/// first character, with no `:`, so no URL scheme, and not starting with
/// `www.`) becomes a `mailto:` link to the address, shown with its
/// brackets.
pub proof fn law_bracketed_email(a: Seq<char>)
    requires
        a.len() > 0,
        a[0] != '@',
        a[0] != '<',
        exists|j: int| 0 <= j < a.len() && a[j] == '@',
        forall|i: int|
            0 <= i < a.len() ==> a[i] != '>' && a[i] != ' ' && a[i] != '\n' && a[i] != ':',
        !(a.len() >= 4 && a.take(4) == "www."@),
    ensures
        body_text_pieces(seq!['<'] + a + seq!['>']) == seq![
            Piece::Html(
                "&lt;"@ + "<a href=\"mailto:"@ + escape_spec(a) + "\">"@ + escape_spec(a) + "</a>"@
                    + "&gt;"@,
            ),
        ],
{
    reveal_strlit("http:");
    reveal_strlit("https:");
    reveal_strlit("ftp:");
    reveal_strlit("gopher:");
    reveal_strlit("mailto:");
    reveal_strlit("magnet:");
    reveal_strlit("www.");
    let text = seq!['<'] + a + seq!['>'];
    assert forall|i: int| 0 <= i < text.len() implies text[i] != '\n' by {
        if 1 <= i < text.len() - 1 {
            assert(text[i] == a[i - 1]);
        }
    }
    lemma_no_newline_crlf(text);
    lemma_bracketed(a);
    lemma_one_bracket();
    let b = encode_utf8(text);
    let ea = encode_utf8(a);
    encode_utf8_decode_utf8(a);
    assert(b.subrange(0, b.len() as int) =~= b);
    // Not a URL: each scheme holds a `:`, which the address does not.
    lemma_no_scheme(a, "http:"@, 4);
    lemma_no_scheme(a, "https:"@, 5);
    lemma_no_scheme(a, "ftp:"@, 3);
    lemma_no_scheme(a, "gopher:"@, 6);
    lemma_no_scheme(a, "mailto:"@, 6);
    lemma_no_scheme(a, "magnet:"@, 6);
    assert(!crate::scan::protocol_at(ea, 0));
    // Not a `www.` link.
    assert(!starts_at(ea, 0, ascii("www."@))) by {
        if starts_at(ea, 0, ascii("www."@)) {
            let w = "www."@;
            lemma_starts_at_bytes(ea, 0, ascii(w));
            assert forall|i: int| 0 <= i < 4 implies ea[i] < 0x80 by {
                assert(ea[0 + i] == ascii(w)[i]);
            }
            lemma_ascii_prefix(a, 4);
            assert forall|i: int| 0 <= i < 4 implies a.take(4)[i] == w[i] by {
                assert(ea[0 + i] == ascii(w)[i]);
                lemma_same_code(a[i], w[i]);
            }
            assert(a.take(4) =~= w);
        }
    }
    // Not a mention: the first byte is not `@`.
    lemma_encode_first(a);
    if ea[0] == 64 {
        lemma_same_code(a[0], '@');
    }
    assert(ea[0] != 64);
    // It holds an `@`.
    let j = choose|j: int| 0 <= j < a.len() && a[j] == '@';
    lemma_char_byte_at(a, j);
    let k = encode_utf8(a.take(j)).len() as int;
    assert(ea[k] == 64);
    assert(exists|k: int| 0 <= k < ea.len() && ea[k] == 64);
    assert(b[0] == 60);
    let cont = b.subrange(1, b.len() - 1);
    assert(cont == ea);
    assert(crate::body::esc(cont) == escape_spec(a));
    let piece = Piece::Html(
        "&lt;"@ + crate::body::link_mail(escape_spec(a)) + "&gt;"@,
    );
    assert(crate::body::angle_step(b) == (seq![piece], b.len() as int));
    assert(crate::body::body_step(b) == (seq![piece], b.len() as int));
    assert(body_pieces(b, b.len() as int) =~= Seq::<Piece>::empty());
    assert(body_pieces(b, 0) == seq![piece] + Seq::<Piece>::empty());
    assert("&lt;"@ + crate::body::link_mail(escape_spec(a)) + "&gt;"@ =~= "&lt;"@
        + "<a href=\"mailto:"@ + escape_spec(a) + "\">"@ + escape_spec(a) + "</a>"@ + "&gt;"@);
    assert(seq![piece] + Seq::<Piece>::empty() =~= seq![piece]);
}

/// The first bytes of an encoding, when they are ASCII, are the first
/// characters of the text.
proof fn lemma_ascii_prefix(a: Seq<char>, k: int)
    requires
        0 <= k <= encode_utf8(a).len(),
        forall|i: int| 0 <= i < k ==> encode_utf8(a)[i] < 0x80,
    ensures
        k <= a.len(),
        forall|i: int| 0 <= i < k ==> a[i] as u32 == encode_utf8(a)[i] as u32,
    decreases k,
{
    if k > 0 {
        lemma_encode_first(a);
        lemma_scalar_bytes(a[0]);
        assert(encode_utf8(a)[0] < 0x80);
        let rest = encode_utf8(a.drop_first());
        assert(encode_utf8(a) =~= seq![(a[0] as u32) as u8] + rest);
        assert forall|i: int| 0 <= i < k - 1 implies rest[i] < 0x80 by {
            assert(rest[i] == encode_utf8(a)[i + 1]);
        }
        lemma_ascii_prefix(a.drop_first(), k - 1);
        assert forall|i: int| 0 <= i < k implies a[i] as u32 == encode_utf8(a)[i] as u32 by {
            if i > 0 {
                assert(a[i] == a.drop_first()[i - 1]);
                assert(encode_utf8(a)[i] == rest[i - 1]);
            }
        }
    }
}

/// In a title, `<#tag>` is a reference to the tag, between its brackets
/// (never a mention).
pub proof fn law_bracketed_tag_in_title(n: Seq<char>)
    requires
        forall|i: int| 0 <= i < n.len() ==> n[i] != '>' && n[i] != ' ' && n[i] != '\n',
    ensures
        title_pieces(encode_utf8(seq!['<', '#'] + n + seq!['>']), 0) == seq![
            Piece::Html("&lt;"@),
            Piece::Hash(n),
            Piece::Html("&gt;"@),
        ],
{
    let a = seq!['#'] + n;
    assert(seq!['<', '#'] + n + seq!['>'] =~= seq!['<'] + a + seq!['>']);
    assert forall|i: int| 0 <= i < a.len() implies a[i] != '>' && a[i] != ' ' && a[i] != '\n' by {
        if i > 0 {
            assert(a[i] == n[i - 1]);
        }
    }
    lemma_bracketed(a);
    lemma_one_bracket();
    let b = encode_utf8(seq!['<'] + a + seq!['>']);
    let ea = encode_utf8(a);
    lemma_encode_first(a);
    lemma_scalar_bytes('#');
    assert(a.drop_first() =~= n);
    assert(ea =~= seq![35u8] + encode_utf8(n));
    assert(ea.subrange(1, ea.len() as int) =~= encode_utf8(n));
    encode_utf8_decode_utf8(n);
    assert(b.subrange(0, b.len() as int) =~= b);
    assert(title_pieces(b, b.len() as int) =~= Seq::<Piece>::empty());
}

/// A tag that the site knows, written `<#tag>` in a title (and not made of
/// digits or readable as a number), is linked as that tag: it is the one tag
/// the title lists.
pub proof fn law_bracketed_known_tag_is_linked<D: Data>(n: Seq<char>, d: D)
    requires
        forall|i: int| 0 <= i < n.len() ==> n[i] != '>' && n[i] != ' ' && n[i] != '\n',
        d.knows_tag(n),
        parse_i32_spec(n) is None,
        !is_number_text(n),
    ensures
        ({
            let ps = title_pieces(encode_utf8(seq!['<', '#'] + n + seq!['>']), 0);
            linked_tags(ps, answers_of(ps, d)) == seq![n]
        }),
{
    law_bracketed_tag_in_title(n);
    let ps = title_pieces(encode_utf8(seq!['<', '#'] + n + seq!['>']), 0);
    let ans = answers_of(ps, d);
    assert(ans.len() == 3);
    assert(ans[1] == crate::prettify::Answer::Tag);
    reveal_with_fuel(linked_tags, 4);
    assert(ps.drop_last().drop_last().drop_last() =~= Seq::<Piece>::empty());
    assert(ps.drop_last().drop_last().last() == ps[0]);
    assert(ps.drop_last().last() == ps[1]);
    assert(ans.drop_last().drop_last().last() == ans[0]);
    assert(ans.drop_last().last() == ans[1]);
    assert(linked_tags(ps, ans) =~= seq![n]);
}

} // verus!
