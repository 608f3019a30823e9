//! Prettify: plain text with a few syntactic constructs, turned into HTML
//! with links.
//!
//! Rendering runs in two passes. A tokenizer (see `body` and `title`) cuts
//! the text into [`Piece`]s: finished HTML, `@` mentions and `#` references.
//! Mentions and references are then checked against the site's [`Data`]
//! and written as links when they exist.
use vstd::prelude::*;
use crate::html::{escape_into, escape_spec, sanitize_html, sanitized_html, parse_url_host, url_host};
use crate::text::{push_str, ends_with, ends_with_spec, char_range, chars_of};
use crate::title::{title_pieces, title_tokens};
use crate::body::{body_pieces, body_tokens};
use vstd::utf8::encode_utf8;

verus! {

/// A piece of tokenized text.
pub enum Piece {
    /// HTML that is written as it is.
    Html(Seq<char>),
    /// A mention of a user, without the `@`.
    Mention(Seq<char>),
    /// A reference to a comment or a tag, without the `#`.
    Hash(Seq<char>),
}

/// A piece of tokenized text, as the program holds it.
pub enum Token {
    Html(String),
    Mention(String),
    Hash(String),
}

impl View for Token {
    type V = Piece;

    open spec fn view(&self) -> Piece {
        match self {
            Token::Html(s) => Piece::Html(s@),
            Token::Mention(s) => Piece::Mention(s@),
            Token::Hash(s) => Piece::Hash(s@),
        }
    }
}

/// The pieces held by a token list.
pub open spec fn pieces_of(ts: Seq<Token>) -> Seq<Piece> {
    ts.map_values(|t: Token| t@)
}

/// What the site's data said of a piece.
pub enum Answer {
    /// Nothing was asked, or the user, comment or tag does not exist.
    Missing,
    /// The mentioned user exists.
    User,
    /// The reference is to this comment of the post.
    Comment(i32),
    /// The reference is to an existing tag.
    Tag,
}

/// The result of checking a `#` reference.
pub enum NumberSign<'a> {
    Comment(i32),
    Tag(&'a str),
    NoMatch,
}

/// The value of decimal digits, most significant first.
pub open spec fn decimal(s: Seq<char>) -> int
    decreases s.len(),
{
    if s.len() == 0 {
        0
    } else {
        decimal(s.drop_last()) * 10 + (s.last() as int - '0' as int)
    }
}

pub open spec fn is_digit(c: char) -> bool {
    '0' <= c && c <= '9'
}

/// The text after an optional leading `+` or `-`.
pub open spec fn unsigned_part(s: Seq<char>) -> Seq<char> {
    if s.len() > 0 && (s[0] == '-' || s[0] == '+') {
        s.drop_first()
    } else {
        s
    }
}

pub open spec fn all_digits(d: Seq<char>) -> bool {
    forall|i: int| 0 <= i < d.len() ==> is_digit(#[trigger] d[i])
}

/// What `str::parse::<i32>` gives: an optional `+` or `-` sign followed by
/// at least one decimal digit, with a value that fits in an `i32`.
pub open spec fn parse_i32_spec(s: Seq<char>) -> Option<i32> {
    let neg = s.len() > 0 && s[0] == '-';
    let digits = unsigned_part(s);
    let v = if neg {
        -decimal(digits)
    } else {
        decimal(digits)
    };
    if digits.len() > 0 && all_digits(digits) && i32::MIN <= v <= i32::MAX {
        Some(v as i32)
    } else {
        None
    }
}

proof fn lemma_decimal_bound(s: Seq<char>)
    requires
        forall|i: int| 0 <= i < s.len() ==> is_digit(#[trigger] s[i]),
    ensures
        decimal(s) >= 0,
        s.len() > 0 ==> decimal(s) >= decimal(s.drop_last()),
    decreases s.len(),
{
    if s.len() > 0 {
        assert forall|i: int| 0 <= i < s.drop_last().len() implies is_digit(
            #[trigger] s.drop_last()[i],
        ) by {
            assert(s.drop_last()[i] == s[i]);
        }
        lemma_decimal_bound(s.drop_last());
        assert(is_digit(s[s.len() - 1]));
    }
}

/// Parses a decimal `i32` as `str::parse` does (see [`parse_i32_spec`]).
pub fn parse_i32(s: &str) -> (r: Option<i32>)
    ensures
        r == parse_i32_spec(s@),
{
    let cs = crate::text::chars_of(s);
    let n = cs.len();
    let neg = n > 0 && cs[0] == '-';
    let start: usize = if n > 0 && (cs[0] == '-' || cs[0] == '+') {
        1
    } else {
        0
    };
    let ghost digits = unsigned_part(s@);
    assert(digits =~= cs@.skip(start as int));
    if start == n {
        return None;
    }
    let mut v: i64 = 0;
    let mut i = start;
    while i < n
        invariant
            start <= i <= n,
            n == cs@.len(),
            cs@ == s@,
            digits =~= cs@.skip(start as int),
            digits == unsigned_part(s@),
            neg == (s@.len() > 0 && s@[0] == '-'),
            forall|k: int| start <= k < i ==> is_digit(#[trigger] cs@[k]),
            v == decimal(cs@.subrange(start as int, i as int)),
            0 <= v <= 0x8000_0000,
        decreases n - i,
    {
        let c = cs[i];
        assert(digits[i - start] == cs@[i as int]);
        if !('0' <= c && c <= '9') {
            assert(!is_digit(digits[i - start]));
            assert(!all_digits(digits));
            return None;
        }
        let d = (c as u32 - '0' as u32) as i64;
        assert(cs@.subrange(start as int, i + 1).drop_last() =~= cs@.subrange(
            start as int,
            i as int,
        ));
        let nv = v * 10 + d;
        if nv > 0x8000_0000 {
            proof {
                assert forall|k: int| 0 <= k < i + 1 - start implies is_digit(#[trigger] digits[k]) by {
                    assert(digits[k] == cs@[start + k]);
                }
                lemma_decimal_prefix_grows(digits, i + 1 - start);
                assert(digits.subrange(0, i + 1 - start) =~= cs@.subrange(start as int, i + 1));
                assert(decimal(cs@.subrange(start as int, i + 1)) == nv);
                assert(all_digits(digits) ==> decimal(digits) > 0x8000_0000);
            }
            return None;
        }
        v = nv;
        i += 1;
    }
    assert(cs@.subrange(start as int, n as int) =~= digits);
    if neg {
        Some((-v) as i32)
    } else if v <= 0x7fff_ffff {
        Some(v as i32)
    } else {
        None
    }
}

/// The value of all the digits is at least that of any prefix.
proof fn lemma_decimal_prefix_grows(s: Seq<char>, k: int)
    requires
        0 <= k <= s.len(),
        forall|i: int| 0 <= i < k ==> is_digit(#[trigger] s[i]),
    ensures
        (forall|i: int| 0 <= i < s.len() ==> is_digit(#[trigger] s[i])) ==> decimal(s)
            >= decimal(s.subrange(0, k)),
    decreases s.len() - k,
{
    if (forall|i: int| 0 <= i < s.len() ==> is_digit(#[trigger] s[i])) {
        if k < s.len() {
            lemma_decimal_prefix_grows(s, k + 1);
            let t = s.subrange(0, k + 1);
            assert(t.drop_last() =~= s.subrange(0, k));
            assert forall|i: int| 0 <= i < t.len() implies is_digit(#[trigger] t[i]) by {
                assert(t[i] == s[i]);
            }
            lemma_decimal_bound(t);
        } else {
            assert(s.subrange(0, k) =~= s);
        }
    }
}

/// Two states of the site's data that know the same users, tags and
/// comments, and that both do or both do not describe their answers.
pub open spec fn same_knowledge<D: Data>(a: D, b: D) -> bool {
    &&& a.describes_answers() == b.describes_answers()
    &&& forall|n: Seq<char>| #[trigger] a.knows_user(n) == b.knows_user(n)
    &&& forall|t: Seq<char>| #[trigger] a.knows_tag(t) == b.knows_tag(t)
    &&& forall|id: i32| #[trigger] a.knows_comment(id) == b.knows_comment(id)
}

/// The site's data that a rendering checks mentions and references against.
///
/// An implementation describes its answers by overriding
/// [`Data::describes_answers`] to be `true` and [`Data::knows_user`],
/// [`Data::knows_tag`] and [`Data::knows_comment`] to be what it knows; each
/// check then answers what the data knows, and checking changes nothing that
/// it knows. Without that (the default) nothing is claimed of the answers.
pub trait Data {
    /// Whether the checks answer by [`Data::knows_user`],
    /// [`Data::knows_tag`] and [`Data::knows_comment`].
    open spec fn describes_answers(&self) -> bool {
        false
    }

    /// Whether the site knows a user with this name.
    open spec fn knows_user(&self, name: Seq<char>) -> bool {
        false
    }

    /// Whether the site has a tag with this name.
    open spec fn knows_tag(&self, tag: Seq<char>) -> bool {
        false
    }

    /// Whether the comment with this id may be linked to.
    open spec fn knows_comment(&self, id: i32) -> bool {
        false
    }

    /// Whether a comment with this id may be linked to.
    fn check_comment_ref(&mut self, id: i32) -> (r: bool)
        ensures
            old(self).describes_answers() ==> {
                &&& r == old(self).knows_comment(id)
                &&& final(self).describes_answers()
                &&& forall|n: Seq<char>| #[trigger] final(self).knows_user(n) == old(self).knows_user(n)
                &&& forall|t: Seq<char>| #[trigger] final(self).knows_tag(t) == old(self).knows_tag(t)
                &&& forall|i: i32| #[trigger] final(self).knows_comment(i) == old(self).knows_comment(i)
            },
    ;

    /// Whether a tag with this name exists.
    fn check_hash_tag(&mut self, tag: &str) -> (r: bool)
        ensures
            old(self).describes_answers() ==> {
                &&& r == old(self).knows_tag(tag@)
                &&& final(self).describes_answers()
                &&& forall|n: Seq<char>| #[trigger] final(self).knows_user(n) == old(self).knows_user(n)
                &&& forall|t: Seq<char>| #[trigger] final(self).knows_tag(t) == old(self).knows_tag(t)
                &&& forall|i: i32| #[trigger] final(self).knows_comment(i) == old(self).knows_comment(i)
            },
    ;

    /// Whether a user with this name exists.
    fn check_username(&mut self, username: &str) -> (r: bool)
        ensures
            old(self).describes_answers() ==> {
                &&& r == old(self).knows_user(username@)
                &&& final(self).describes_answers()
                &&& forall|n: Seq<char>| #[trigger] final(self).knows_user(n) == old(self).knows_user(n)
                &&& forall|t: Seq<char>| #[trigger] final(self).knows_tag(t) == old(self).knows_tag(t)
                &&& forall|i: i32| #[trigger] final(self).knows_comment(i) == old(self).knows_comment(i)
            },
    ;

    /// What a `#` reference refers to: a number is a comment reference, if
    /// the comment may be linked; text made only of digits is never a tag;
    /// anything else is a tag, if it exists. Only the one question that
    /// applies is asked.
    fn check_number_sign<'a>(&mut self, number: &'a str) -> (r: NumberSign<'a>)
        ensures
            match r {
                NumberSign::Comment(id) => parse_i32_spec(number@) == Some(id),
                NumberSign::Tag(t) => parse_i32_spec(number@) is None && !is_number_text(number@)
                    && t@ == number@,
                NumberSign::NoMatch => true,
            },
            old(self).describes_answers() ==> {
                &&& r == (match parse_i32_spec(number@) {
                    Some(id) => if old(self).knows_comment(id) {
                        NumberSign::Comment(id)
                    } else {
                        NumberSign::NoMatch
                    },
                    None => if !is_number_text(number@) && old(self).knows_tag(number@) {
                        NumberSign::Tag(number)
                    } else {
                        NumberSign::NoMatch
                    },
                })
                &&& final(self).describes_answers()
                &&& forall|n: Seq<char>| #[trigger] final(self).knows_user(n) == old(self).knows_user(n)
                &&& forall|t: Seq<char>| #[trigger] final(self).knows_tag(t) == old(self).knows_tag(t)
                &&& forall|i: i32| #[trigger] final(self).knows_comment(i) == old(self).knows_comment(i)
            },
    {
        let parsed = parse_i32(number);
        let found = match parsed {
            Some(id) => self.check_comment_ref(id),
            None => !is_decimal_number(number) && self.check_hash_tag(number),
        };
        number_sign_answer(number, parsed, found)
    }
}

/// Text made only of decimal digits, and at least one.
pub open spec fn is_number_text(n: Seq<char>) -> bool {
    n.len() > 0 && all_digits(n)
}

/// Whether `s` is made only of decimal digits, and at least one.
pub fn is_decimal_number(s: &str) -> (r: bool)
    ensures
        r == is_number_text(s@),
{
    let cs = chars_of(s);
    let mut i: usize = 0;
    while i < cs.len()
        invariant
            i <= cs@.len(),
            cs@ == s@,
            forall|k: int| 0 <= k < i ==> is_digit(#[trigger] cs@[k]),
        decreases cs.len() - i,
    {
        if !(cs[i] >= '0' && cs[i] <= '9') {
            return false;
        }
        i += 1;
    }
    cs.len() > 0
}

/// What a `#` reference refers to, given how its text parses as an `i32`
/// and whether the site knows it: a number is a comment reference when the
/// comment may be linked; text made only of digits is nothing else; any
/// other text is a tag when the tag exists; and nothing otherwise.
pub fn number_sign_answer<'a>(number: &'a str, parsed: Option<i32>, found: bool) -> (r: NumberSign<
    'a,
>)
    ensures
        r == (match parsed {
            Some(id) => if found {
                NumberSign::Comment(id)
            } else {
                NumberSign::NoMatch
            },
            None => if found && !is_number_text(number@) {
                NumberSign::Tag(number)
            } else {
                NumberSign::NoMatch
            },
        }),
{
    match parsed {
        Some(id) => {
            if found {
                NumberSign::Comment(id)
            } else {
                NumberSign::NoMatch
            }
        },
        None => {
            if found && !is_decimal_number(number) {
                NumberSign::Tag(number)
            } else {
                NumberSign::NoMatch
            }
        },
    }
}

/// Rendered HTML together with what it mentions.
#[derive(Clone, Debug)]
pub struct Output {
    pub string: String,
    pub usernames: Vec<String>,
    pub hash_tags: Vec<String>,
    pub comment_refs: Vec<i32>,
}

impl Output {
    pub fn with_capacity(cap: usize) -> (r: Output)
        ensures
            r.string@ == Seq::<char>::empty(),
            r.usernames@.len() == 0,
            r.hash_tags@.len() == 0,
            r.comment_refs@.len() == 0,
    {
        Output {
            string: String::new(),
            usernames: Vec::new(),
            hash_tags: Vec::new(),
            comment_refs: Vec::new(),
        }
    }

    pub fn push_str(&mut self, s: &str)
        ensures
            final(self).string@ == old(self).string@ + s@,
            final(self).usernames == old(self).usernames,
            final(self).hash_tags == old(self).hash_tags,
            final(self).comment_refs == old(self).comment_refs,
    {
        push_str(&mut self.string, s);
    }

    /// The rendered HTML.
    pub fn to_string(&self) -> (s: String)
        ensures
            s@ == self.string@,
    {
        self.string.clone()
    }
}

/// A rendered mention of `name`: a link when the user exists, or the text.
/// In a title (`embedded` is the title's link), the mention leaves the
/// title's link and opens it again after itself.
pub open spec fn render_mention(name: Seq<char>, found: bool, embedded: Option<Seq<char>>) -> Seq<
    char,
> {
    let h = escape_spec(name);
    if found {
        (if embedded is Some {
            "</a></span><span class=article-header-inner><a class=\"inner-link article-header-inner\" href=\"@"@
        } else {
            "<a href=\"@"@
        }) + h + "\">@"@ + h + "</a>"@ + match embedded {
            Some(e) => e,
            None => Seq::<char>::empty(),
        }
    } else {
        "@"@ + h
    }
}

/// A rendered `#` reference: a tag link, a comment link, or the text.
pub open spec fn render_hash(number: Seq<char>, answer: Answer, embedded: Option<Seq<char>>) -> Seq<
    char,
> {
    let h = escape_spec(number);
    let tail = match embedded {
        Some(e) => e,
        None => Seq::<char>::empty(),
    };
    match answer {
        Answer::Tag => (if embedded is Some {
            "</a></span><span class=article-header-inner><a class=inner-link href=\"./?tag="@
        } else {
            "<a href=\"./?tag="@
        }) + h + "\">#"@ + h + "</a>"@ + tail,
        Answer::Comment(_) => (if embedded is Some {
            "</a></span><span class=article-header-inner><a class=inner-link href=\"#"@
        } else {
            "<a href=\"#"@
        }) + h + "\">#"@ + h + "</a>"@ + tail,
        _ => "#"@ + h,
    }
}

/// A rendered piece.
pub open spec fn render_piece(p: Piece, a: Answer, embedded: Option<Seq<char>>) -> Seq<char> {
    match p {
        Piece::Html(s) => s,
        Piece::Mention(name) => render_mention(name, a is User, embedded),
        Piece::Hash(n) => render_hash(n, a, embedded),
    }
}

/// Rendered pieces.
pub open spec fn render(ps: Seq<Piece>, answers: Seq<Answer>, embedded: Option<Seq<char>>) -> Seq<
    char,
>
    decreases ps.len(),
{
    if ps.len() == 0 {
        Seq::empty()
    } else {
        render(ps.drop_last(), answers.drop_last(), embedded) + render_piece(
            ps.last(),
            answers.last(),
            embedded,
        )
    }
}

/// An answer that the data can give for a piece: mentions are found or not;
/// a reference is a comment only if it parses as that number, and a tag
/// only if it does not parse as a number and is not made of digits; HTML
/// asks nothing.
pub open spec fn answer_fits(p: Piece, a: Answer) -> bool {
    match p {
        Piece::Html(_) => a is Missing,
        Piece::Mention(_) => a is Missing || a is User,
        Piece::Hash(n) => match a {
            Answer::Comment(id) => parse_i32_spec(n) == Some(id),
            Answer::Tag => parse_i32_spec(n) is None && !is_number_text(n),
            Answer::User => false,
            Answer::Missing => true,
        },
    }
}

pub open spec fn answers_fit(ps: Seq<Piece>, answers: Seq<Answer>) -> bool {
    &&& ps.len() == answers.len()
    &&& forall|i: int| 0 <= i < ps.len() ==> answer_fits(#[trigger] ps[i], answers[i])
}

/// The users that the rendered pieces link to, in order.
pub open spec fn mentioned_users(ps: Seq<Piece>, answers: Seq<Answer>) -> Seq<Seq<char>>
    decreases ps.len(),
{
    if ps.len() == 0 {
        seq![]
    } else {
        mentioned_users(ps.drop_last(), answers.drop_last()) + match (ps.last(), answers.last()) {
            (Piece::Mention(name), Answer::User) => seq![name],
            _ => seq![],
        }
    }
}

/// The tags that the rendered pieces link to, in order.
pub open spec fn linked_tags(ps: Seq<Piece>, answers: Seq<Answer>) -> Seq<Seq<char>>
    decreases ps.len(),
{
    if ps.len() == 0 {
        seq![]
    } else {
        linked_tags(ps.drop_last(), answers.drop_last()) + match (ps.last(), answers.last()) {
            (Piece::Hash(n), Answer::Tag) => seq![n],
            _ => seq![],
        }
    }
}

/// The comments that the rendered pieces link to, in order.
pub open spec fn linked_comments(ps: Seq<Piece>, answers: Seq<Answer>) -> Seq<i32>
    decreases ps.len(),
{
    if ps.len() == 0 {
        seq![]
    } else {
        linked_comments(ps.drop_last(), answers.drop_last()) + match (ps.last(), answers.last()) {
            (Piece::Hash(_), Answer::Comment(id)) => seq![id],
            _ => seq![],
        }
    }
}

/// What data that describes its answers says of a `#` reference.
pub open spec fn hash_answer<D: Data>(n: Seq<char>, d: D) -> Answer {
    match parse_i32_spec(n) {
        Some(id) => if d.knows_comment(id) {
            Answer::Comment(id)
        } else {
            Answer::Missing
        },
        None => if !is_number_text(n) && d.knows_tag(n) {
            Answer::Tag
        } else {
            Answer::Missing
        },
    }
}

/// What data that describes its answers says of a piece.
pub open spec fn answer_of<D: Data>(p: Piece, d: D) -> Answer {
    match p {
        Piece::Html(_) => Answer::Missing,
        Piece::Mention(n) => if d.knows_user(n) {
            Answer::User
        } else {
            Answer::Missing
        },
        Piece::Hash(n) => hash_answer(n, d),
    }
}

/// What data that describes its answers says of each piece, in order.
pub open spec fn answers_of<D: Data>(ps: Seq<Piece>, d: D) -> Seq<Answer> {
    ps.map_values(|p: Piece| answer_of(p, d))
}

/// Writes a mention of `username_without_at`: a link when the data knows
/// the user (who is then recorded), the text otherwise. Returns whether the
/// user was found.
pub fn maybe_write_username<D: Data>(
    username_without_at: &str,
    data: &mut D,
    out: &mut Output,
    embedded: Option<&str>,
) -> (found: bool)
    ensures
        final(out).string@ == old(out).string@ + render_mention(
            username_without_at@,
            found,
            match embedded {
                Some(e) => Some(e@),
                None => None,
            },
        ),
        final(out).usernames@ == old(out).usernames@ + (if found {
            seq![final(out).usernames@.last()]
        } else {
            Seq::<String>::empty()
        }),
        found ==> final(out).usernames@.last()@ == username_without_at@,
        final(out).hash_tags == old(out).hash_tags,
        final(out).comment_refs == old(out).comment_refs,
        old(data).describes_answers() ==> found == old(data).knows_user(username_without_at@)
            && same_knowledge(*final(data), *old(data)),
{
    let mut html = String::new();
    escape_into(username_without_at, &mut html);
    if data.check_username(username_without_at) {
        out.usernames.push(username_without_at.to_string());
        match embedded {
            Some(_) => out.push_str(
                "</a></span><span class=article-header-inner><a class=\"inner-link article-header-inner\" href=\"@",
            ),
            None => out.push_str("<a href=\"@"),
        }
        out.push_str(html.as_str());
        out.push_str("\">@");
        out.push_str(html.as_str());
        out.push_str("</a>");
        match embedded {
            Some(e) => out.push_str(e),
            None => {},
        }
        true
    } else {
        out.push_str("@");
        out.push_str(html.as_str());
        false
    }
}

/// Writes a `#` reference: a tag or comment link when the data knows it (it
/// is then recorded), the text otherwise. Returns what the data answered.
pub fn maybe_write_number_sign<D: Data>(
    number_without_sign: &str,
    data: &mut D,
    out: &mut Output,
    embedded: Option<&str>,
) -> (a: Answer)
    ensures
        answer_fits(Piece::Hash(number_without_sign@), a),
        old(data).describes_answers() ==> a == hash_answer(number_without_sign@, *old(data))
            && same_knowledge(*final(data), *old(data)),
        final(out).string@ == old(out).string@ + render_hash(
            number_without_sign@,
            a,
            match embedded {
                Some(e) => Some(e@),
                None => None,
            },
        ),
        final(out).usernames == old(out).usernames,
        final(out).hash_tags@ == old(out).hash_tags@ + (if a is Tag {
            seq![final(out).hash_tags@.last()]
        } else {
            Seq::<String>::empty()
        }),
        a is Tag ==> final(out).hash_tags@.last()@ == number_without_sign@,
        final(out).comment_refs@ == old(out).comment_refs@ + match a {
            Answer::Comment(id) => seq![id],
            _ => Seq::<i32>::empty(),
        },
{
    let mut html = String::new();
    escape_into(number_without_sign, &mut html);
    match data.check_number_sign(number_without_sign) {
        NumberSign::Tag(tag) => {
            out.hash_tags.push(tag.to_string());
            match embedded {
                Some(_) => out.push_str(
                    "</a></span><span class=article-header-inner><a class=inner-link href=\"./?tag=",
                ),
                None => out.push_str("<a href=\"./?tag="),
            }
            out.push_str(html.as_str());
            out.push_str("\">#");
            out.push_str(html.as_str());
            out.push_str("</a>");
            match embedded {
                Some(e) => out.push_str(e),
                None => {},
            }
            Answer::Tag
        },
        NumberSign::Comment(id) => {
            out.comment_refs.push(id);
            match embedded {
                Some(_) => out.push_str(
                    "</a></span><span class=article-header-inner><a class=inner-link href=\"#",
                ),
                None => out.push_str("<a href=\"#"),
            }
            out.push_str(html.as_str());
            out.push_str("\">#");
            out.push_str(html.as_str());
            out.push_str("</a>");
            match embedded {
                Some(e) => out.push_str(e),
                None => {},
            }
            Answer::Comment(id)
        },
        NumberSign::NoMatch => {
            out.push_str("#");
            out.push_str(html.as_str());
            Answer::Missing
        },
    }
}

} // verus!

verus! {

/// The text with each `\r\n` replaced by `\n`, left to right.
pub open spec fn replace_crlf(s: Seq<char>) -> Seq<char>
    decreases s.len(),
{
    if s.len() == 0 {
        s
    } else if s.len() >= 2 && s[0] == '\r' && s[1] == '\n' {
        seq!['\n'] + replace_crlf(s.skip(2))
    } else {
        seq![s[0]] + replace_crlf(s.drop_first())
    }
}

/// Replaces each `\r\n` by `\n` (`str::replace("\r\n", "\n")`).
pub fn crlf_to_lf(text: &str) -> (r: String)
    ensures
        r@ == replace_crlf(text@),
{
    let cs = crate::text::chars_of(text);
    let mut out: Vec<char> = Vec::new();
    let mut i: usize = 0;
    assert(cs@.skip(0) =~= cs@);
    assert(out@ + replace_crlf(cs@) =~= replace_crlf(cs@));
    while i < cs.len()
        invariant
            i <= cs@.len(),
            replace_crlf(cs@) == out@ + replace_crlf(cs@.skip(i as int)),
        decreases cs.len() - i,
    {
        let ghost rest = cs@.skip(i as int);
        let ghost prev = out@;
        if i + 1 < cs.len() && cs[i] == '\r' && cs[i + 1] == '\n' {
            assert(rest.skip(2) =~= cs@.skip(i + 2));
            assert(rest[0] == '\r' && rest[1] == '\n');
            out.push('\n');
            i += 2;
            assert(prev + replace_crlf(rest) =~= out@ + replace_crlf(cs@.skip(i as int)));
        } else {
            assert(rest.drop_first() =~= cs@.skip(i + 1));
            assert(rest[0] == cs@[i as int]);
            out.push(cs[i]);
            i += 1;
            assert(prev + replace_crlf(rest) =~= out@ + replace_crlf(cs@.skip(i as int)));
        }
    }
    assert(cs@.skip(0) =~= cs@);
    assert(replace_crlf(cs@.skip(cs@.len() as int)) =~= Seq::<char>::empty());
    assert(out@ + Seq::<char>::empty() =~= out@);
    crate::text::string_of(&out)
}

} // verus!

verus! {

/// The view of an optional string.
pub open spec fn opt_view(e: Option<&str>) -> Option<Seq<char>> {
    match e {
        Some(s) => Some(s@),
        None => None,
    }
}

/// Writes the tokens `ts` to `out`, asking `data` about each mention and
/// reference. Returns, as a ghost value, what the data answered.
fn render_tokens<D: Data>(
    ts: &Vec<Token>,
    data: &mut D,
    out: &mut Output,
    embedded: Option<&str>,
) -> (answers: Ghost<Seq<Answer>>)
    ensures
        answers_fit(pieces_of(ts@), answers@),
        final(out).string@ == old(out).string@ + render(
            pieces_of(ts@),
            answers@,
            opt_view(embedded),
        ),
        final(out).usernames.deep_view() == old(out).usernames.deep_view() + mentioned_users(
            pieces_of(ts@),
            answers@,
        ),
        final(out).hash_tags.deep_view() == old(out).hash_tags.deep_view() + linked_tags(
            pieces_of(ts@),
            answers@,
        ),
        final(out).comment_refs@ == old(out).comment_refs@ + linked_comments(
            pieces_of(ts@),
            answers@,
        ),
        old(data).describes_answers() ==> answers@ == answers_of(pieces_of(ts@), *old(data))
            && same_knowledge(*final(data), *old(data)),
{
    let ghost mut answers: Seq<Answer> = seq![];
    let ghost e = opt_view(embedded);
    let mut i: usize = 0;
    assert(pieces_of(ts@.take(0)) =~= Seq::<Piece>::empty());
    assert(old(out).string@ + Seq::<char>::empty() =~= old(out).string@);
    assert(old(out).usernames.deep_view() + Seq::<Seq<char>>::empty() =~= old(out).usernames.deep_view());
    assert(old(out).hash_tags.deep_view() + Seq::<Seq<char>>::empty() =~= old(out).hash_tags.deep_view());
    assert(old(out).comment_refs@ + Seq::<i32>::empty() =~= old(out).comment_refs@);
    while i < ts.len()
        invariant
            i <= ts.len(),
            e == opt_view(embedded),
            answers_fit(pieces_of(ts@.take(i as int)), answers),
            out.string@ == old(out).string@ + render(pieces_of(ts@.take(i as int)), answers, e),
            out.usernames.deep_view() == old(out).usernames.deep_view() + mentioned_users(
                pieces_of(ts@.take(i as int)),
                answers,
            ),
            out.hash_tags.deep_view() == old(out).hash_tags.deep_view() + linked_tags(
                pieces_of(ts@.take(i as int)),
                answers,
            ),
            out.comment_refs@ == old(out).comment_refs@ + linked_comments(
                pieces_of(ts@.take(i as int)),
                answers,
            ),
            old(data).describes_answers() ==> answers == answers_of(
                pieces_of(ts@.take(i as int)),
                *old(data),
            ) && same_knowledge(*data, *old(data)),
        decreases ts.len() - i,
    {
        let ghost prev = pieces_of(ts@.take(i as int));
        let ghost s0 = out.string@;
        let ghost u0 = out.usernames.deep_view();
        let ghost h0 = out.hash_tags.deep_view();
        let ghost c0 = out.comment_refs@;
        let ghost a: Answer;
        match &ts[i] {
            Token::Html(h) => {
                out.push_str(h.as_str());
                proof {
                    a = Answer::Missing;
                }
            },
            Token::Mention(n) => {
                let found = maybe_write_username(n.as_str(), data, out, embedded);
                proof {
                    a = if found {
                        Answer::User
                    } else {
                        Answer::Missing
                    };
                }
            },
            Token::Hash(n) => {
                let got = maybe_write_number_sign(n.as_str(), data, out, embedded);
                proof {
                    a = got;
                }
            },
        }
        proof {
            let next = pieces_of(ts@.take(i + 1));
            assert(next =~= prev.push(ts@[i as int]@));
            let answers2 = answers.push(a);
            assert(next.drop_last() =~= prev);
            assert(answers2.drop_last() =~= answers);
            assert(out.string@ =~= s0 + render_piece(ts@[i as int]@, a, e));
            assert(out.usernames.deep_view() =~= u0 + match (ts@[i as int]@, a) {
                (Piece::Mention(name), Answer::User) => seq![name],
                _ => Seq::<Seq<char>>::empty(),
            });
            assert(out.hash_tags.deep_view() =~= h0 + match (ts@[i as int]@, a) {
                (Piece::Hash(n), Answer::Tag) => seq![n],
                _ => Seq::<Seq<char>>::empty(),
            });
            assert(out.comment_refs@ =~= c0 + match (ts@[i as int]@, a) {
                (Piece::Hash(_), Answer::Comment(id)) => seq![id],
                _ => Seq::<i32>::empty(),
            });
            if old(data).describes_answers() {
                assert(answers_of(next, *old(data)) =~= answers_of(prev, *old(data)).push(
                    answer_of(ts@[i as int]@, *old(data)),
                ));
            }
            assert forall|j: int| 0 <= j < next.len() implies answer_fits(
                #[trigger] next[j],
                answers2[j],
            ) by {
                if j < prev.len() {
                    assert(next[j] == prev[j]);
                }
            }
            answers = answers2;
        }
        i += 1;
    }
    assert(ts@.take(ts@.len() as int) =~= ts@);
    Ghost(answers)
}

} // verus!

verus! {

/// The tags that rendered HTML keeps.
pub open spec fn allowed_tags() -> Seq<Seq<char>> {
    seq![
        "a"@, "p"@, "b"@, "i"@, "blockquote"@, "code"@, "pre"@, "table"@, "thead"@, "tbody"@,
        "tr"@, "th"@, "td"@, "caption"@, "span"@, "img"@, "details"@, "summary"@,
    ]
}

/// The classes that rendered HTML keeps, per tag.
pub open spec fn allowed_classes() -> Seq<(Seq<char>, Seq<Seq<char>>)> {
    seq![
        ("a"@, seq!["inner-link"@, "domain-link"@]),
        ("pre"@, seq!["good-code"@]),
        ("table"@, seq!["good-table"@]),
        ("span"@, seq!["article-header-inner"@]),
    ]
}

fn allowed_tag_list() -> (v: Vec<String>)
    ensures
        v.deep_view() == allowed_tags(),
{
    let mut v: Vec<String> = Vec::new();
    v.push("a".to_string());
    v.push("p".to_string());
    v.push("b".to_string());
    v.push("i".to_string());
    v.push("blockquote".to_string());
    v.push("code".to_string());
    v.push("pre".to_string());
    v.push("table".to_string());
    v.push("thead".to_string());
    v.push("tbody".to_string());
    v.push("tr".to_string());
    v.push("th".to_string());
    v.push("td".to_string());
    v.push("caption".to_string());
    v.push("span".to_string());
    v.push("img".to_string());
    v.push("details".to_string());
    v.push("summary".to_string());
    assert(v.deep_view() =~= allowed_tags());
    v
}

fn allowed_class_list() -> (v: Vec<(String, Vec<String>)>)
    ensures
        v.deep_view() == allowed_classes(),
{
    let mut a: Vec<String> = Vec::new();
    a.push("inner-link".to_string());
    a.push("domain-link".to_string());
    let mut pre: Vec<String> = Vec::new();
    pre.push("good-code".to_string());
    let mut table: Vec<String> = Vec::new();
    table.push("good-table".to_string());
    let mut span: Vec<String> = Vec::new();
    span.push("article-header-inner".to_string());
    let ghost (ga, gpre, gtable, gspan) = (a.deep_view(), pre.deep_view(), table.deep_view(), span.deep_view());
    assert(ga =~= seq!["inner-link"@, "domain-link"@]);
    assert(gpre =~= seq!["good-code"@]);
    assert(gtable =~= seq!["good-table"@]);
    assert(gspan =~= seq!["article-header-inner"@]);
    let mut v: Vec<(String, Vec<String>)> = Vec::new();
    v.push(("a".to_string(), a));
    v.push(("pre".to_string(), pre));
    v.push(("table".to_string(), table));
    v.push(("span".to_string(), span));
    assert(v.deep_view() =~= allowed_classes());
    v
}

/// None of the allowed tags is one whose content the cleaner removes.
proof fn lemma_allowed_tags_keep_content()
    ensures
        !allowed_tags().contains("script"@),
        !allowed_tags().contains("style"@),
{
    reveal_strlit("script");
    reveal_strlit("style");
    reveal_strlit("a");
    reveal_strlit("p");
    reveal_strlit("b");
    reveal_strlit("i");
    reveal_strlit("blockquote");
    reveal_strlit("code");
    reveal_strlit("pre");
    reveal_strlit("table");
    reveal_strlit("thead");
    reveal_strlit("tbody");
    reveal_strlit("tr");
    reveal_strlit("th");
    reveal_strlit("td");
    reveal_strlit("caption");
    reveal_strlit("span");
    reveal_strlit("img");
    reveal_strlit("details");
    reveal_strlit("summary");
    let t = allowed_tags();
    assert forall|i: int| 0 <= i < t.len() implies t[i] != "script"@ && t[i] != "style"@ by {
        assert("style"@[1] == 't');
        if t[i].len() == 5 {
            assert(t[i][1] != 't');
        }
    }
}

/// Cleans rendered HTML down to the tags and classes that the site allows.
pub fn clean_html(html: &str) -> (r: String)
    ensures
        r@ == sanitized_html(html@, allowed_tags(), allowed_classes()),
{
    let tags = allowed_tag_list();
    let classes = allowed_class_list();
    proof {
        lemma_allowed_tags_keep_content();
    }
    sanitize_html(html, &tags, &classes)
}

} // verus!

verus! {

/// The pieces of a body text: `\r\n` line ends become `\n`, then the text is
/// tokenized.
pub open spec fn body_text_pieces(text: Seq<char>) -> Seq<Piece> {
    body_pieces(encode_utf8(replace_crlf(text)), 0)
}

/// What a rendered body is made of: the pieces `ps`, rendered with the
/// data's answers `answers`, after an opening paragraph.
pub open spec fn body_output(ps: Seq<Piece>, answers: Seq<Answer>, r: Output) -> bool {
    &&& answers_fit(ps, answers)
    &&& r.string@ == sanitized_html(
        "<p>"@ + render(ps, answers, None),
        allowed_tags(),
        allowed_classes(),
    )
    &&& r.usernames.deep_view() == mentioned_users(ps, answers)
    &&& r.hash_tags.deep_view() == linked_tags(ps, answers)
    &&& r.comment_refs@ == linked_comments(ps, answers)
}

/// Renders a comment or post body as HTML: links, mentions of users that
/// `data` knows, references to comments and tags that `data` knows, tables
/// and code blocks (which run to the end of the text when they are not
/// closed), BBCode, a single space for each run of spaces, and a paragraph
/// at each blank line. The result is cleaned down to the allowed tags and
/// classes.
pub fn prettify_body<D: Data>(text: &str, data: &mut D) -> (r: Output)
    ensures
        exists|answers: Seq<Answer>| body_output(body_text_pieces(text@), answers, r),
        old(data).describes_answers() ==> body_output(
            body_text_pieces(text@),
            answers_of(body_text_pieces(text@), *old(data)),
            r,
        ) && same_knowledge(*final(data), *old(data)),
{
    let t = crlf_to_lf(text);
    let mut out = Output::with_capacity(t.as_str().len());
    out.push_str("<p>");
    let ts = body_tokens(t.as_str());
    let answers = render_tokens(&ts, data, &mut out, None);
    let string = clean_html(out.string.as_str());
    let r = Output { string, ..out };
    assert(body_output(body_text_pieces(text@), answers@, r));
    r
}

} // verus!

verus! {

/// The link that a title is written in: it leaves the span before it and
/// opens the article's link.
pub open spec fn title_link(url: Seq<char>) -> Seq<char> {
    "</span><span class=article-header-inner><a href=\""@ + url + "\">"@
}

/// A host without a leading `www.`.
pub open spec fn strip_www(h: Seq<char>) -> Seq<char> {
    if h.len() >= 4 && h.take(4) == "www."@ {
        h.skip(4)
    } else {
        h
    }
}

/// The link to the other posts of the URL's domain, when the URL has a host.
pub open spec fn domain_link(host: Option<Seq<char>>) -> Seq<char> {
    match host {
        Some(h) => {
            let d = strip_www(h);
            "</span><span class=article-header-inner><a class=domain-link href=\"./?domain="@ + d
                + "\">"@ + d + "</a></span>"@
        },
        None => seq![],
    }
}

/// Closing a rendered title: a title link that is still empty at the end is
/// dropped; otherwise the link and its span are closed.
pub open spec fn close_title(s: Seq<char>, link: Seq<char>) -> Seq<char> {
    if ends_with_spec(s, link) {
        s.take(s.len() - link.len())
    } else {
        s + "</a></span>"@
    }
}

/// What a rendered title is made of: the pieces `ps` rendered inside the
/// link to `url` with the data's answers `answers`, closed, and followed by
/// the domain link.
pub open spec fn title_output(ps: Seq<Piece>, url: Seq<char>, answers: Seq<Answer>, r: Output) -> bool {
    let link = title_link(url);
    &&& answers_fit(ps, answers)
    &&& r.string@ == sanitized_html(
        close_title(link + render(ps, answers, Some(link)), link) + domain_link(url_host(url)),
        allowed_tags(),
        allowed_classes(),
    )
    &&& r.usernames.deep_view() == mentioned_users(ps, answers)
    &&& r.hash_tags.deep_view() == linked_tags(ps, answers)
    &&& r.comment_refs@ == linked_comments(ps, answers)
}

/// Renders a post title that links to `url`: like [`prettify_body`], but
/// only mentions and references are recognized, each of which interrupts
/// the title's link, and the domain of the URL is linked after the title.
pub fn prettify_title<D: Data>(text: &str, url: &str, data: &mut D) -> (r: Output)
    ensures
        exists|answers: Seq<Answer>|
            title_output(title_pieces(encode_utf8(text@), 0), url@, answers, r),
        old(data).describes_answers() ==> title_output(
            title_pieces(encode_utf8(text@), 0),
            url@,
            answers_of(title_pieces(encode_utf8(text@), 0), *old(data)),
            r,
        ) && same_knowledge(*final(data), *old(data)),
{
    let mut out = Output::with_capacity(text.len());
    let mut link = String::new();
    push_str(&mut link, "</span><span class=article-header-inner><a href=\"");
    push_str(&mut link, url);
    push_str(&mut link, "\">");
    out.push_str(link.as_str());
    let ts = title_tokens(text);
    let answers = render_tokens(&ts, data, &mut out, Some(link.as_str()));
    let mut s: String;
    if ends_with(out.string.as_str(), link.as_str()) {
        let n = out.string.as_str().unicode_len() - link.as_str().unicode_len();
        s = char_range(out.string.as_str(), 0, n);
    } else {
        s = out.string.clone();
        push_str(&mut s, "</a></span>");
    }
    match parse_url_host(url) {
        Some(host) => {
            let h = host.as_str();
            let hs = chars_of(h);
            let d = if hs.len() >= 4 && hs[0] == 'w' && hs[1] == 'w' && hs[2] == 'w' && hs[3] == '.' {
                char_range(h, 4, hs.len())
            } else {
                h.to_string()
            };
            proof {
                reveal_strlit("www.");
                assert(strip_www(host@) == d@) by {
                    if host@.len() >= 4 && host@.take(4) == "www."@ {
                        assert(host@.take(4)[0] == 'w');
                        assert(host@.take(4)[1] == 'w');
                        assert(host@.take(4)[2] == 'w');
                        assert(host@.take(4)[3] == '.');
                    }
                    if hs.len() >= 4 && hs[0] == 'w' && hs[1] == 'w' && hs[2] == 'w' && hs[3] == '.' {
                        assert(host@.take(4) =~= "www."@);
                        assert(host@.skip(4) =~= host@.subrange(4, host@.len() as int));
                    }
                }
            }
            push_str(
                &mut s,
                "</span><span class=article-header-inner><a class=domain-link href=\"./?domain=",
            );
            push_str(&mut s, d.as_str());
            push_str(&mut s, "\">");
            push_str(&mut s, d.as_str());
            push_str(&mut s, "</a></span>");
        },
        None => {},
    }
    let string = clean_html(s.as_str());
    let r = Output { string, ..out };
    proof {
        let ps = title_pieces(encode_utf8(text@), 0);
        let link_s = title_link(url@);
        assert(link@ == link_s);
        assert(out.string@ =~= link_s + render(ps, answers@, Some(link_s)));
        assert(s@ =~= close_title(out.string@, link_s) + domain_link(url_host(url@)));
        assert(title_output(ps, url@, answers@, r));
    }
    r
}

} // verus!

verus! {

/// A reference that reads as a number is never linked as a tag: the tags
/// that rendered pieces link to do not parse as `i32` numbers and are not
/// made only of digits.
pub proof fn law_numbers_are_not_tags(ps: Seq<Piece>, answers: Seq<Answer>)
    requires
        answers_fit(ps, answers),
    ensures
        forall|i: int|
            0 <= i < linked_tags(ps, answers).len() ==> parse_i32_spec(
                #[trigger] linked_tags(ps, answers)[i],
            ) is None && !is_number_text(linked_tags(ps, answers)[i]),
    decreases ps.len(),
{
    if ps.len() > 0 {
        let (p0, a0) = (ps.drop_last(), answers.drop_last());
        assert forall|j: int| 0 <= j < p0.len() implies answer_fits(#[trigger] p0[j], a0[j]) by {
            assert(p0[j] == ps[j] && a0[j] == answers[j]);
        }
        law_numbers_are_not_tags(p0, a0);
        assert(answer_fits(ps[ps.len() - 1], answers[answers.len() - 1]));
        let prev = linked_tags(p0, a0);
        let all = linked_tags(ps, answers);
        assert forall|i: int| 0 <= i < all.len() implies parse_i32_spec(#[trigger] all[i]) is None
            && !is_number_text(all[i]) by {
            if i < prev.len() {
                assert(all[i] == prev[i]);
            }
        }
    }
}

/// Whether a piece is a reference that reads as the number `id`.
pub open spec fn reads_as(p: Piece, id: i32) -> bool {
    match p {
        Piece::Hash(n) => parse_i32_spec(n) == Some(id),
        _ => false,
    }
}

/// Whether some piece is a reference that reads as the number `id`.
pub open spec fn read_by_some_piece(ps: Seq<Piece>, id: i32) -> bool {
    exists|j: int| 0 <= j < ps.len() && #[trigger] reads_as(ps[j], id)
}

/// A comment is linked only by a reference that reads as its number.
pub proof fn law_comment_links_read_as_numbers(ps: Seq<Piece>, answers: Seq<Answer>)
    requires
        answers_fit(ps, answers),
    ensures
        forall|i: int|
            0 <= i < linked_comments(ps, answers).len() ==> read_by_some_piece(
                ps,
                #[trigger] linked_comments(ps, answers)[i],
            ),
    decreases ps.len(),
{
    if ps.len() > 0 {
        let (p0, a0) = (ps.drop_last(), answers.drop_last());
        assert forall|j: int| 0 <= j < p0.len() implies answer_fits(#[trigger] p0[j], a0[j]) by {
            assert(p0[j] == ps[j] && a0[j] == answers[j]);
        }
        law_comment_links_read_as_numbers(p0, a0);
        let last = ps.len() - 1;
        assert(answer_fits(ps[last], answers[last]));
        let prev = linked_comments(p0, a0);
        let all = linked_comments(ps, answers);
        assert forall|i: int| 0 <= i < all.len() implies read_by_some_piece(ps, #[trigger] all[i]) by {
            if i < prev.len() {
                assert(all[i] == prev[i]);
                assert(read_by_some_piece(p0, prev[i]));
                let j = choose|j: int| 0 <= j < p0.len() && #[trigger] reads_as(p0[j], prev[i]);
                assert(ps[j] == p0[j]);
                assert(reads_as(ps[j], all[i]));
            } else {
                assert(reads_as(ps[last], all[i]));
            }
        }
    }
}

} // verus!
