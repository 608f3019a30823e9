//! Reading the parameters of a post search: tag, domain and text filters.
use vstd::prelude::*;
use crate::text::{chars_of, char_range, push_char};

verus! {

/// The separators that a list of names is split at.
#[derive(Clone, Copy, Debug, PartialEq, Eq, Structural)]
pub enum Separator {
    Bar,
    Space,
    BarOrSpace,
    /// `#`, `,`, space and tab: the separators of a post's tag field.
    TagList,
    Hash,
    Newline,
    /// `,` or space: the separators of a list of recipients.
    CommaOrSpace,
}

pub open spec fn is_separator(k: Separator, c: char) -> bool {
    match k {
        Separator::Bar => c == '|',
        Separator::Space => c == ' ',
        Separator::BarOrSpace => c == '|' || c == ' ',
        Separator::TagList => c == '#' || c == ',' || c == ' ' || c == '\t',
        Separator::Hash => c == '#',
        Separator::Newline => c == '\n',
        Separator::CommaOrSpace => c == ',' || c == ' ',
    }
}

/// The pieces of `s` between separators, empty pieces included (as
/// `str::split` gives them).
pub open spec fn split_spec(s: Seq<char>, k: Separator) -> Seq<Seq<char>>
    decreases s.len(),
{
    if s.len() == 0 {
        seq![seq![]]
    } else {
        let r = split_spec(s.drop_last(), k);
        if is_separator(k, s.last()) {
            r.push(seq![])
        } else {
            r.update(r.len() - 1, r.last().push(s.last()))
        }
    }
}

pub proof fn lemma_split_nonempty(s: Seq<char>, k: Separator)
    ensures
        split_spec(s, k).len() >= 1,
    decreases s.len(),
{
    if s.len() > 0 {
        lemma_split_nonempty(s.drop_last(), k);
    }
}

/// Splits `s` at the separators.
pub fn split_text(s: &str, k: Separator) -> (r: Vec<String>)
    ensures
        r.deep_view() == split_spec(s@, k),
{
    let cs = chars_of(s);
    let mut done: Vec<String> = Vec::new();
    let mut cur = String::new();
    let mut i: usize = 0;
    while i < cs.len()
        invariant
            cs@ == s@,
            i <= cs@.len(),
            split_spec(cs@.take(i as int), k) == done.deep_view().push(cur@),
        decreases cs.len() - i,
    {
        proof {
            lemma_split_nonempty(cs@.take(i as int), k);
        }
        assert(cs@.take(i + 1).drop_last() =~= cs@.take(i as int));
        let c = cs[i];
        let sep = match k {
            Separator::Bar => c == '|',
            Separator::Space => c == ' ',
            Separator::BarOrSpace => c == '|' || c == ' ',
            Separator::TagList => c == '#' || c == ',' || c == ' ' || c == '\t',
            Separator::Hash => c == '#',
            Separator::Newline => c == '\n',
            Separator::CommaOrSpace => c == ',' || c == ' ',
        };
        if sep {
            let ghost before = done.deep_view();
            let ghost old_cur = cur@;
            done.push(cur);
            cur = String::new();
            assert(done.deep_view() =~= before.push(old_cur));
        } else {
            push_char(&mut cur, c);
        }
        i += 1;
    }
    assert(cs@.take(cs@.len() as int) =~= cs@);
    done.push(cur);
    done
}

} // verus!

verus! {

/// A character with the Unicode `White_Space` property, as
/// `char::is_whitespace` documents it.
pub open spec fn is_whitespace(c: char) -> bool {
    ('\t' <= c <= '\r') || c == ' ' || c == '\u{85}' || c == '\u{a0}' || c == '\u{1680}' || (
    '\u{2000}' <= c <= '\u{200a}') || c == '\u{2028}' || c == '\u{2029}' || c == '\u{202f}' || c
        == '\u{205f}' || c == '\u{3000}'
}

/// Whether a character is white space (see [`is_whitespace`]).
pub fn is_whitespace_char(c: char) -> (r: bool)
    ensures
        r == is_whitespace(c),
{
    ('\t' <= c && c <= '\r') || c == ' ' || c == '\u{85}' || c == '\u{a0}' || c == '\u{1680}' || (
    '\u{2000}' <= c && c <= '\u{200a}') || c == '\u{2028}' || c == '\u{2029}' || c == '\u{202f}'
        || c == '\u{205f}' || c == '\u{3000}'
}

/// `s` without its leading white space.
pub open spec fn trim_start(s: Seq<char>) -> Seq<char>
    decreases s.len(),
{
    if s.len() > 0 && is_whitespace(s[0]) {
        trim_start(s.drop_first())
    } else {
        s
    }
}

/// `s` without its trailing white space.
pub open spec fn trim_end(s: Seq<char>) -> Seq<char>
    decreases s.len(),
{
    if s.len() > 0 && is_whitespace(s.last()) {
        trim_end(s.drop_last())
    } else {
        s
    }
}

/// `s` without its leading and trailing white space (`str::trim`).
pub open spec fn trim_spec(s: Seq<char>) -> Seq<char> {
    trim_end(trim_start(s))
}

/// `s` without its leading and trailing white space.
pub fn trim(s: &str) -> (r: String)
    ensures
        r@ == trim_spec(s@),
{
    let cs = chars_of(s);
    let mut a: usize = 0;
    assert(s@.skip(0) =~= s@);
    while a < cs.len() && is_whitespace_char(cs[a])
        invariant
            cs@ == s@,
            a <= cs@.len(),
            trim_start(s@) == trim_start(s@.skip(a as int)),
        decreases cs.len() - a,
    {
        assert(s@.skip(a as int).drop_first() =~= s@.skip(a + 1));
        a += 1;
    }
    assert(trim_start(s@) == s@.subrange(a as int, s@.len() as int)) by {
        assert(s@.skip(a as int) =~= s@.subrange(a as int, s@.len() as int));
    }
    let mut b: usize = cs.len();
    while b > a && is_whitespace_char(cs[b - 1])
        invariant
            cs@ == s@,
            a <= b <= cs@.len(),
            trim_end(s@.subrange(a as int, s@.len() as int)) == trim_end(
                s@.subrange(a as int, b as int),
            ),
        decreases b - a,
    {
        assert(s@.subrange(a as int, b as int).drop_last() =~= s@.subrange(a as int, b - 1));
        b -= 1;
    }
    char_range(s, a, b)
}

/// The role of a tag in a search.
#[derive(Clone, Copy, Debug, PartialEq, Eq, Structural)]
pub enum TagRole {
    /// Posts with any of these tags.
    Any,
    /// Posts with all of these tags.
    All,
    /// Posts without this tag.
    Hidden,
}

/// A tag name of a search, with its role.
pub struct TagName {
    pub role: TagRole,
    pub name: String,
}

impl View for TagName {
    type V = (TagRole, Seq<char>);

    open spec fn view(&self) -> (TagRole, Seq<char>) {
        (self.role, self.name@)
    }
}

/// The tag a piece of the `|` form names: the piece, trimmed; empty pieces
/// name none.
pub open spec fn any_tag(piece: Seq<char>) -> Seq<(TagRole, Seq<char>)> {
    if piece.len() == 0 {
        seq![]
    } else {
        seq![(TagRole::Any, trim_spec(piece))]
    }
}

/// The tag a piece of the space form names: a leading `-` hides the tag;
/// empty pieces name none.
pub open spec fn all_tag(piece: Seq<char>) -> Seq<(TagRole, Seq<char>)> {
    if piece.len() == 0 {
        seq![]
    } else if piece[0] == '-' {
        seq![(TagRole::Hidden, piece.drop_first())]
    } else {
        seq![(TagRole::All, piece)]
    }
}

/// The tags that the pieces name, in order.
pub open spec fn tags_of(pieces: Seq<Seq<char>>, any: bool) -> Seq<(TagRole, Seq<char>)>
    decreases pieces.len(),
{
    if pieces.len() == 0 {
        seq![]
    } else {
        tags_of(pieces.drop_last(), any) + if any {
            any_tag(pieces.last())
        } else {
            all_tag(pieces.last())
        }
    }
}

/// The tags of the `tag` parameter: with a `|`, a list of tags any of which
/// a post may have; otherwise a space-separated list of tags that a post
/// must all have, where `-name` hides the tag instead.
pub open spec fn tag_query(s: Seq<char>) -> Seq<(TagRole, Seq<char>)> {
    if s.contains('|') {
        tags_of(split_spec(s, Separator::Bar), true)
    } else {
        tags_of(split_spec(s, Separator::Space), false)
    }
}

/// Reads the `tag` parameter of a search (see [`tag_query`]).
pub fn parse_tag_names(tag_names: &str) -> (r: Vec<TagName>)
    ensures
        r@.map_values(|t: TagName| t@) == tag_query(tag_names@),
{
    let cs = chars_of(tag_names);
    let mut any = false;
    let mut i: usize = 0;
    while i < cs.len()
        invariant
            cs@ == tag_names@,
            i <= cs@.len(),
            any == (exists|j: int| 0 <= j < i && cs@[j] == '|'),
        decreases cs.len() - i,
    {
        if cs[i] == '|' {
            any = true;
        }
        i += 1;
    }
    assert(any == tag_names@.contains('|'));
    let pieces = split_text(tag_names, if any {
        Separator::Bar
    } else {
        Separator::Space
    });
    let ghost ps = pieces.deep_view();
    let mut out: Vec<TagName> = Vec::new();
    let mut k: usize = 0;
    while k < pieces.len()
        invariant
            ps == pieces.deep_view(),
            k <= pieces@.len(),
            out@.map_values(|t: TagName| t@) == tags_of(ps.take(k as int), any),
        decreases pieces.len() - k,
    {
        let piece = pieces[k].as_str();
        let ghost before = out@.map_values(|t: TagName| t@);
        assert(ps[k as int] == piece@);
        if piece.unicode_len() > 0 {
            if any {
                out.push(TagName { role: TagRole::Any, name: trim(piece) });
            } else {
                let pcs = chars_of(piece);
                if pcs[0] == '-' {
                    out.push(TagName { role: TagRole::Hidden, name: char_range(piece, 1, pcs.len()) });
                    assert(piece@.subrange(1, piece@.len() as int) =~= piece@.drop_first());
                } else {
                    out.push(TagName { role: TagRole::All, name: char_range(piece, 0, pcs.len()) });
                    assert(piece@.subrange(0, piece@.len() as int) =~= piece@);
                }
            }
        }
        assert(ps.take(k + 1).drop_last() =~= ps.take(k as int));
        assert(out@.map_values(|t: TagName| t@) =~= before + if any {
            any_tag(piece@)
        } else {
            all_tag(piece@)
        });
        k += 1;
    }
    assert(ps.take(ps.len() as int) =~= ps);
    out
}

/// The pieces, trimmed, without those that are then empty.
pub open spec fn trimmed_nonempty(pieces: Seq<Seq<char>>) -> Seq<Seq<char>>
    decreases pieces.len(),
{
    if pieces.len() == 0 {
        seq![]
    } else {
        trimmed_nonempty(pieces.drop_last()) + if trim_spec(pieces.last()).len() == 0 {
            Seq::<Seq<char>>::empty()
        } else {
            seq![trim_spec(pieces.last())]
        }
    }
}

/// The pieces of `s` between separators, trimmed, without empty ones.
pub fn split_trimmed(s: &str, k: Separator) -> (r: Vec<String>)
    ensures
        r.deep_view() == trimmed_nonempty(split_spec(s@, k)),
{
    let pieces = split_text(s, k);
    let ghost ps = pieces.deep_view();
    let mut out: Vec<String> = Vec::new();
    let mut i: usize = 0;
    while i < pieces.len()
        invariant
            ps == pieces.deep_view(),
            i <= pieces@.len(),
            out.deep_view() == trimmed_nonempty(ps.take(i as int)),
        decreases pieces.len() - i,
    {
        let t = trim(pieces[i].as_str());
        assert(ps[i as int] == pieces@[i as int]@);
        if t.as_str().unicode_len() > 0 {
            out.push(t);
        }
        assert(ps.take(i + 1).drop_last() =~= ps.take(i as int));
        assert(out.deep_view() =~= trimmed_nonempty(ps.take(i + 1)));
        i += 1;
    }
    assert(ps.take(ps.len() as int) =~= ps);
    out
}

/// The domain names of the `domain` parameter: split at `|` and at spaces,
/// trimmed, without empty names.
pub fn parse_domain_names(domain_names: &str) -> (r: Vec<String>)
    ensures
        r.deep_view() == trimmed_nonempty(split_spec(domain_names@, Separator::BarOrSpace)),
{
    split_trimmed(domain_names, Separator::BarOrSpace)
}

/// The keywords and the title of a search: the title, when given, also
/// serves as the keywords if there are none.
pub open spec fn search_text_spec(q: Option<Seq<char>>, title: Option<Seq<char>>) -> (
    Seq<char>,
    Seq<char>,
) {
    let keywords = match q {
        Some(k) => k,
        None => seq![],
    };
    match title {
        Some(t) => (
            if keywords.len() == 0 {
                t
            } else {
                keywords
            },
            t,
        ),
        None => (keywords, seq![]),
    }
}

/// The keywords and the title of a search, from its `q` and `title`
/// parameters.
pub fn search_text(q: Option<&str>, title: Option<&str>) -> (r: (String, String))
    ensures
        (r.0@, r.1@) == search_text_spec(
            match q {
                Some(s) => Some(s@),
                None => None,
            },
            match title {
                Some(s) => Some(s@),
                None => None,
            },
        ),
{
    let mut keywords = String::new();
    let mut t = String::new();
    match q {
        Some(s) => {
            crate::text::push_str(&mut keywords, s);
        },
        None => {},
    }
    match title {
        Some(s) => {
            crate::text::push_str(&mut t, s);
            if keywords.as_str().unicode_len() == 0 {
                crate::text::push_str(&mut keywords, s);
            }
        },
        None => {},
    }
    (keywords, t)
}

} // verus!

verus! {

/// A character escaped for an SQL `LIKE` pattern: `\`, `%` and `_` get a
/// `\` in front.
pub open spec fn like_escape_char(c: char) -> Seq<char> {
    if c == '\\' || c == '%' || c == '_' {
        seq!['\\', c]
    } else {
        seq![c]
    }
}

/// A text escaped for an SQL `LIKE` pattern, so that it matches itself.
pub open spec fn escape_like_spec(s: Seq<char>) -> Seq<char>
    decreases s.len(),
{
    if s.len() == 0 {
        seq![]
    } else {
        escape_like_spec(s.drop_last()) + like_escape_char(s.last())
    }
}

/// A text escaped for an SQL `LIKE` pattern (see [`escape_like_spec`]).
pub fn escape_like_query(query: &str) -> (r: String)
    ensures
        r@ == escape_like_spec(query@),
{
    let cs = chars_of(query);
    let mut out = String::new();
    let mut i: usize = 0;
    while i < cs.len()
        invariant
            cs@ == query@,
            i <= cs@.len(),
            out@ == escape_like_spec(cs@.take(i as int)),
        decreases cs.len() - i,
    {
        let c = cs[i];
        if c == '\\' || c == '%' || c == '_' {
            push_char(&mut out, '\\');
        }
        push_char(&mut out, c);
        assert(cs@.take(i + 1).drop_last() =~= cs@.take(i as int));
        i += 1;
    }
    assert(cs@.take(cs@.len() as int) =~= cs@);
    out
}

} // verus!

verus! {

/// A calendar date of `chrono`, carried through searches as it is.
#[verifier::external_type_specification]
#[verifier::external_body]
pub struct ExNaiveDate(chrono::NaiveDate);

/// The order of a list of posts.
#[derive(Clone, Copy, Debug, PartialEq, Eq, Structural)]
pub enum PostSearchOrderBy {
    Hottest,
    Newest,
    Latest,
    Top,
    Random,
}

/// The markup that post and comment bodies are written in.
#[derive(Clone, Copy, Debug, PartialEq, Eq, Structural)]
pub enum BodyFormat {
    Plain,
    BBCode,
}

impl Default for BodyFormat {
    fn default() -> (r: BodyFormat)
        ensures
            r == BodyFormat::Plain,
    {
        BodyFormat::Plain
    }
}

/// A search for posts.
pub struct PostSearch {
    pub my_user_id: i32,
    pub for_user_id: i32,
    pub order_by: PostSearchOrderBy,
    pub keywords: String,
    pub title: String,
    pub or_tags: Vec<i32>,
    pub and_tags: Vec<i32>,
    pub hide_tags: Vec<i32>,
    pub or_domains: Vec<i32>,
    pub after_post_id: i32,
    pub search_page: i32,
    pub subscriptions: bool,
    pub blog_post: Option<bool>,
    pub before_date: Option<chrono::NaiveDate>,
    pub after_date: Option<chrono::NaiveDate>,
    pub limit: i32,
}

impl PostSearch {
    /// The search of the front page for a user: the hottest 50 posts, with
    /// no filter.
    pub fn with_my_user_id(my_user_id: i32) -> (r: PostSearch)
        ensures
            r.my_user_id == my_user_id,
            r.for_user_id == 0,
            r.order_by == PostSearchOrderBy::Hottest,
            r.keywords@.len() == 0,
            r.title@.len() == 0,
            r.or_tags@.len() == 0,
            r.and_tags@.len() == 0,
            r.hide_tags@.len() == 0,
            r.or_domains@.len() == 0,
            r.after_post_id == 0,
            r.search_page == 0,
            !r.subscriptions,
            r.blog_post is None,
            r.before_date is None,
            r.after_date is None,
            r.limit == 50,
    {
        PostSearch {
            my_user_id,
            for_user_id: 0,
            order_by: PostSearchOrderBy::Hottest,
            keywords: String::new(),
            title: String::new(),
            or_tags: Vec::new(),
            and_tags: Vec::new(),
            hide_tags: Vec::new(),
            or_domains: Vec::new(),
            after_post_id: 0,
            search_page: 0,
            subscriptions: false,
            blog_post: None,
            before_date: None,
            after_date: None,
            limit: 50,
        }
    }
}

/// How many posts a search keeps once they are sorted hottest first: only a
/// front-page search (hottest, no keywords) with a limit that is not
/// negative is cut, to ten fewer than the limit when it asks for more than
/// twenty and to the limit otherwise.
pub open spec fn hottest_cut(order_by: PostSearchOrderBy, keywords: Seq<char>, limit: i32) -> Option<
    nat,
> {
    if order_by == PostSearchOrderBy::Hottest && keywords.len() == 0 && limit >= 0 {
        Some(
            if limit > 20 {
                (limit - 10) as nat
            } else {
                limit as nat
            },
        )
    } else {
        None
    }
}

/// Cuts the posts that `search` found, already sorted hottest first, to
/// what [`hottest_cut`] keeps; other searches keep them all.
pub fn keep_hottest<T>(search: &PostSearch, all: &mut Vec<T>)
    ensures
        match hottest_cut(search.order_by, search.keywords@, search.limit) {
            Some(n) => final(all)@ == if n < old(all)@.len() {
                old(all)@.take(n as int)
            } else {
                old(all)@
            },
            None => final(all)@ == old(all)@,
        },
{
    if search.order_by == PostSearchOrderBy::Hottest && search.keywords.as_str().unicode_len() == 0
        && search.limit >= 0 {
        let limit = search.limit;
        let n: i32 = if limit > 20 {
            limit - 10
        } else {
            limit
        };
        let keep = n as usize;
        if keep < all.len() {
            all.truncate(keep);
        }
    }
}

/// The calendar date that `chrono` reads from `s` (`NaiveDate`'s `FromStr`:
/// a year, a month and a day joined by `-`), if it reads one.
pub uninterp spec fn naive_date_of(s: Seq<char>) -> Option<chrono::NaiveDate>;

/// Reads a date with `str::parse::<chrono::NaiveDate>`.
///
/// chrono's date parser is only named: the contract says that the result is
/// [`naive_date_of`] of the text, a function of it alone.
#[verifier::external_body]
fn parse_naive_date(s: &str) -> (r: Option<chrono::NaiveDate>)
    ensures
        r == naive_date_of(s@),
{
    s.parse::<chrono::NaiveDate>().ok()
}

/// The date that a `before_date` or `after_date` parameter of a search
/// gives: none when the parameter is absent or is not a date.
pub fn date_param(param: Option<&str>) -> (r: Option<chrono::NaiveDate>)
    ensures
        r == match param {
            Some(s) => naive_date_of(s@),
            None => None,
        },
{
    match param {
        Some(s) => parse_naive_date(s),
        None => None,
    }
}

/// Whether the date `a` comes before the date `b` in `chrono`'s order of
/// `NaiveDate`s.
pub uninterp spec fn naive_date_precedes(a: chrono::NaiveDate, b: chrono::NaiveDate) -> bool;

/// `a < b` on `chrono::NaiveDate` (its derived order). The order is only
/// named: the contract says that the result is [`naive_date_precedes`] of
/// the two dates.
#[verifier::external_body]
fn date_precedes(a: &chrono::NaiveDate, b: &chrono::NaiveDate) -> (r: bool)
    ensures
        r == naive_date_precedes(*a, *b),
{
    *a < *b
}

/// The date bounds of a search, as `(before, after)`: when both are given
/// and `before` comes before `after`, they are swapped, so that the range
/// is never empty by mistake.
pub fn date_range(before: Option<chrono::NaiveDate>, after: Option<chrono::NaiveDate>) -> (r: (
    Option<chrono::NaiveDate>,
    Option<chrono::NaiveDate>,
))
    ensures
        r == match (before, after) {
            (Some(b), Some(a)) => if naive_date_precedes(b, a) {
                (after, before)
            } else {
                (before, after)
            },
            _ => (before, after),
        },
{
    match (before, after) {
        (Some(b), Some(a)) => {
            if date_precedes(&b, &a) {
                (after, before)
            } else {
                (before, after)
            }
        },
        _ => (before, after),
    }
}

/// Shuffles `v` with `rand::seq::SliceRandom::shuffle` and
/// `rand::thread_rng()`. The order is random: the contract says only that
/// the same items stay.
#[verifier::external_body]
fn shuffle_randomly<T>(v: &mut Vec<T>)
    ensures
        final(v)@.len() == old(v)@.len(),
        final(v)@.to_multiset() == old(v)@.to_multiset(),
{
    rand::seq::SliceRandom::shuffle(v.as_mut_slice(), &mut rand::thread_rng());
}

/// Puts the posts that a search in random order found into a random order;
/// other searches keep their order.
pub fn shuffle_if_random<T>(search: &PostSearch, all: &mut Vec<T>)
    ensures
        search.order_by == PostSearchOrderBy::Random ==> final(all)@.len() == old(all)@.len()
            && final(all)@.to_multiset() == old(all)@.to_multiset(),
        search.order_by != PostSearchOrderBy::Random ==> final(all)@ == old(all)@,
{
    if search.order_by == PostSearchOrderBy::Random {
        shuffle_randomly(all);
    }
}

} // verus!
