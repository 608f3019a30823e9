//! Filters that the page templates apply to values.
use vstd::prelude::*;
use vstd::string::StringSliceAdditionalSpecFns;
use crate::text::{chars_of, push_char, push_str};

verus! {

/// The number of items.
pub fn count<T>(t: &[T]) -> (n: usize)
    ensures
        n == t@.len(),
{
    t.len()
}

/// The last item, or the empty string when there is none.
pub fn last(t: &[String]) -> (s: String)
    ensures
        s@ == if t@.len() == 0 {
            Seq::<char>::empty()
        } else {
            t@.last()@
        },
{
    if t.len() == 0 {
        String::new()
    } else {
        let mut s = String::new();
        push_str(&mut s, t[t.len() - 1].as_str());
        s
    }
}

/// Whether a byte is an ASCII letter or digit.
pub open spec fn is_ascii_alphanumeric(b: u8) -> bool {
    (48 <= b <= 57) || (65 <= b <= 90) || (97 <= b <= 122)
}

/// An upper-case hexadecimal digit.
pub open spec fn hex_digit(n: int) -> char {
    if n < 10 {
        (48 + n) as char
    } else {
        (55 + n) as char
    }
}

/// A byte, percent-encoded unless it is an ASCII letter or digit.
pub open spec fn percent_encode_byte(b: u8) -> Seq<char> {
    if is_ascii_alphanumeric(b) {
        seq![b as char]
    } else {
        seq!['%', hex_digit((b / 16) as int), hex_digit((b % 16) as int)]
    }
}

/// Bytes percent-encoded, every byte but ASCII letters and digits.
pub open spec fn percent_encode_spec(bytes: Seq<u8>) -> Seq<char>
    decreases bytes.len(),
{
    if bytes.len() == 0 {
        seq![]
    } else {
        percent_encode_spec(bytes.drop_last()) + percent_encode_byte(bytes.last())
    }
}

/// Percent-encodes the UTF-8 bytes of `s` with
/// `percent_encoding::utf8_percent_encode` and the set `NON_ALPHANUMERIC`:
/// every byte but an ASCII letter or digit becomes `%` and two upper-case
/// hexadecimal digits.
#[verifier::external_body]
fn utf8_percent_encode(s: &str) -> (r: String)
    ensures
        r@ == percent_encode_spec(s.spec_bytes()),
{
    percent_encoding::utf8_percent_encode(s, percent_encoding::NON_ALPHANUMERIC).to_string()
}

/// A value made safe to put in a URL's query.
pub fn urlencode(param: &str) -> (r: String)
    ensures
        r@ == percent_encode_spec(param.spec_bytes()),
{
    utf8_percent_encode(param)
}

/// A character that a plain username may hold: an ASCII letter or digit,
/// `-` or `_`.
pub open spec fn username_char(c: char) -> bool {
    ('a' <= c <= 'z') || ('A' <= c <= 'Z') || ('0' <= c <= '9') || c == '-' || c == '_'
}

/// Whether a username can be written as a bare `@` mention.
pub open spec fn is_basic_username(u: Seq<char>) -> bool {
    u.len() > 0 && forall|i: int| 0 <= i < u.len() ==> username_char(#[trigger] u[i])
}

/// A username as a mention: `@name` when the name is plain, `<@name>`
/// otherwise, so that the mention reads back as the same name.
pub fn usernamewrap(username: &str) -> (r: String)
    ensures
        r@ == if is_basic_username(username@) {
            seq!['@'] + username@
        } else {
            seq!['<', '@'] + username@ + seq!['>']
        },
{
    let cs = chars_of(username);
    let mut basic = cs.len() > 0;
    let mut i: usize = 0;
    while i < cs.len()
        invariant
            cs@ == username@,
            i <= cs@.len(),
            basic == (cs@.len() > 0 && forall|j: int| 0 <= j < i ==> username_char(#[trigger] cs@[j])),
        decreases cs.len() - i,
    {
        let c = cs[i];
        let ok = ('a' <= c && c <= 'z') || ('A' <= c && c <= 'Z') || ('0' <= c && c <= '9') || c
            == '-' || c == '_';
        if !ok {
            basic = false;
        }
        i += 1;
    }
    let mut out = String::new();
    if basic {
        push_char(&mut out, '@');
        push_str(&mut out, username);
    } else {
        push_char(&mut out, '<');
        push_char(&mut out, '@');
        push_str(&mut out, username);
        push_char(&mut out, '>');
    }
    out
}

} // verus!

verus! {

/// A byte of a plain username: an ASCII letter or digit, `-` or `_`.
pub open spec fn name_byte(x: u8) -> bool {
    (48 <= x <= 57) || (65 <= x <= 90) || (97 <= x <= 122) || x == 45 || x == 95
}

/// A mention token runs on over the bytes of a plain username to the end.
proof fn lemma_lex_name(b: Seq<u8>, i: int)
    requires
        0 <= i <= b.len(),
        forall|k: int| i <= k < b.len() ==> name_byte(#[trigger] b[k]),
    ensures
        crate::scan::lex(b, i, seq![], false) == b.len(),
    decreases b.len() - i,
{
    if i < b.len() {
        assert(name_byte(b[i]));
        lemma_lex_name(b, i + 1);
    }
}

/// A plain username, written as `usernamewrap` writes it, reads back in a
/// comment as a mention of that user and nothing else.
pub proof fn law_usernamewrap_reads_back(u: Seq<char>)
    requires
        is_basic_username(u),
    ensures
        crate::body::body_pieces(vstd::utf8::encode_utf8(seq!['@'] + u), 0) == seq![
            crate::prettify::Piece::Mention(u),
        ],
{
    let s = seq!['@'] + u;
    assert(vstd::utf8::is_ascii_chars(u)) by {
        assert forall|i: int| 0 <= i < u.len() implies '\0' <= #[trigger] u[i] <= '\u{7f}' by {
            assert(username_char(u[i]));
        }
    }
    assert(vstd::utf8::is_ascii_chars(s)) by {
        assert forall|i: int| 0 <= i < s.len() implies '\0' <= #[trigger] s[i] <= '\u{7f}' by {
            if i > 0 {
                assert(s[i] == u[i - 1]);
            }
        }
    }
    vstd::utf8::is_ascii_chars_encode_utf8(s);
    vstd::utf8::is_ascii_chars_encode_utf8(u);
    vstd::utf8::encode_utf8_decode_utf8(u);
    let r = vstd::utf8::encode_utf8(s);
    let eu = vstd::utf8::encode_utf8(u);
    assert(r[0] == 64) by {
        assert(s[0] == '@');
    }
    let t = r.subrange(1, r.len() as int);
    assert(t =~= eu) by {
        assert forall|k: int| 0 <= k < t.len() implies t[k] == eu[k] by {
            assert(t[k] == r[k + 1]);
            assert(s[k + 1] == u[k]);
        }
    }
    assert forall|k: int| 0 <= k < t.len() implies name_byte(#[trigger] t[k]) by {
        assert(t[k] == eu[k]);
        assert(u[k] as u8 == eu[k]);
        assert(username_char(u[k]));
    }
    lemma_lex_name(t, 0);
    assert(r.subrange(0, r.len() as int) =~= r);
    assert(r.subrange(1, 1 + t.len() as int) =~= t);
    let r0 = r.subrange(0, r.len() as int);
    assert(r0[0] == 64);
    assert(crate::body::body_step(r0) == (seq![crate::prettify::Piece::Mention(u)], r.len() as int));
    assert(crate::body::body_pieces(r, r.len() as int) == Seq::<crate::prettify::Piece>::empty());
    assert(seq![crate::prettify::Piece::Mention(u)] + Seq::<crate::prettify::Piece>::empty()
        =~= seq![crate::prettify::Piece::Mention(u)]);
}

/// The rough English that `chrono_humanize` gives for a time `millis`
/// milliseconds from now (`HumanTime::to_text_en` with `Accuracy::Rough` and
/// `Tense::Present`, such as "2 hours" or "now").
pub uninterp spec fn rough_duration_text(millis: i64) -> Seq<char>;

/// `chrono_humanize::HumanTime::from(chrono::TimeDelta::milliseconds(millis))`
/// written with `to_text_en(Accuracy::Rough, Tense::Present)`. The text is
/// only named: the contract says that it is [`rough_duration_text`] of the
/// offset. `TimeDelta::milliseconds` panics on `i64::MIN` alone, which
/// `requires` leaves out.
#[verifier::external_body]
fn rough_duration(millis: i64) -> (r: String)
    requires
        millis > i64::MIN,
    ensures
        r@ == rough_duration_text(millis),
{
    chrono_humanize::HumanTime::from(chrono::TimeDelta::milliseconds(millis)).to_text_en(
        chrono_humanize::Accuracy::Rough,
        chrono_humanize::Tense::Present,
    )
}

/// A time `offset_millis` milliseconds from now as rough English relative
/// to now, escaped for HTML.
pub fn relative_date_text(offset_millis: i64) -> (r: String)
    requires
        offset_millis > i64::MIN,
    ensures
        r@ == crate::html::escape_spec(rough_duration_text(offset_millis)),
{
    let text = rough_duration(offset_millis);
    let mut out = String::new();
    crate::html::escape_into(text.as_str(), &mut out);
    out
}

} // verus!
