//! The rules for new posts: which domain a link belongs to, how its URL is
//! normalized, and what a post must satisfy to be created.
use vstd::prelude::*;
use crate::text::{chars_of, char_range};

verus! {

/// Whether `s` starts with `p`.
pub open spec fn starts_with(s: Seq<char>, p: Seq<char>) -> bool {
    p.len() <= s.len() && s.take(p.len() as int) == p
}

fn starts_with_exec(s: &Vec<char>, p: &str) -> (r: bool)
    ensures
        r == starts_with(s@, p@),
{
    let pc = chars_of(p);
    if pc.len() > s.len() {
        return false;
    }
    let mut i: usize = 0;
    while i < pc.len()
        invariant
            pc@ == p@,
            pc@.len() <= s@.len(),
            i <= pc@.len(),
            forall|j: int| 0 <= j < i ==> s@[j] == pc@[j],
        decreases pc.len() - i,
    {
        if s[i] != pc[i] {
            assert(s@.take(p@.len() as int)[i as int] != p@[i as int]);
            return false;
        }
        i += 1;
    }
    assert(s@.take(p@.len() as int) =~= p@);
    true
}

/// Drops the prefix `p` (of `n` characters kept out) when `h` starts with
/// `p`.
pub open spec fn strip_if(h: Seq<char>, p: Seq<char>, n: int) -> Seq<char> {
    if starts_with(h, p) {
        h.skip(n)
    } else {
        h
    }
}

/// The host that a link's domain is known by, and whether the link had a
/// `www.` in front: `www.` is dropped, and so are the subdomains of reddit
/// and twitter that always point at the same pages (`np.`, `old.`, `new.`,
/// `i.` and `m.` of `reddit.com`, `mobile.` of `twitter.com`).
pub open spec fn canonical_host_spec(host: Seq<char>) -> (Seq<char>, bool) {
    let is_www = starts_with(host, "www."@);
    let h0 = if is_www {
        host.skip(4)
    } else {
        host
    };
    let h1 = strip_if(h0, "np.reddit.com"@, 3);
    let h2 = strip_if(h1, "old.reddit.com"@, 4);
    let h3 = strip_if(h2, "new.reddit.com"@, 4);
    let h4 = strip_if(h3, "i.reddit.com"@, 2);
    let h5 = strip_if(h4, "m.reddit.com"@, 2);
    let h6 = strip_if(h5, "mobile.twitter.com"@, 7);
    (h6, is_www)
}

fn strip_if_exec(h: Vec<char>, p: &str, n: usize) -> (r: Vec<char>)
    requires
        n <= p@.len(),
    ensures
        r@ == strip_if(h@, p@, n as int),
{
    if starts_with_exec(&h, p) {
        let mut out: Vec<char> = Vec::new();
        let mut i: usize = n;
        while i < h.len()
            invariant
                n <= i <= h@.len(),
                out@ == h@.subrange(n as int, i as int),
            decreases h.len() - i,
        {
            out.push(h[i]);
            assert(h@.subrange(n as int, i + 1) =~= out@);
            i += 1;
        }
        assert(h@.skip(n as int) =~= out@);
        out
    } else {
        h
    }
}

/// The host that a link's domain is known by, and whether the link had a
/// `www.` in front (see [`canonical_host_spec`]).
pub fn canonical_host(host: &str) -> (r: (String, bool))
    ensures
        (r.0@, r.1) == canonical_host_spec(host@),
{
    proof {
        reveal_strlit("www.");
        reveal_strlit("np.reddit.com");
        reveal_strlit("old.reddit.com");
        reveal_strlit("new.reddit.com");
        reveal_strlit("i.reddit.com");
        reveal_strlit("m.reddit.com");
        reveal_strlit("mobile.twitter.com");
    }
    let h = chars_of(host);
    let is_www = starts_with_exec(&h, "www.");
    let h = strip_if_exec(h, "www.", 4);
    let h = strip_if_exec(h, "np.reddit.com", 3);
    let h = strip_if_exec(h, "old.reddit.com", 4);
    let h = strip_if_exec(h, "new.reddit.com", 4);
    let h = strip_if_exec(h, "i.reddit.com", 2);
    let h = strip_if_exec(h, "m.reddit.com", 2);
    let h = strip_if_exec(h, "mobile.twitter.com", 7);
    (crate::text::string_of(&h), is_www)
}

/// How a link's host is changed to the form its domain was first seen in.
#[derive(Clone, Copy, Debug, PartialEq, Eq, Structural)]
pub enum HostFix {
    Keep,
    /// Put `www.` in front of the host.
    AddWww,
    /// Use the host without `www.`.
    DropWww,
}

/// How a link's host is changed: a link without `www.` to a domain first
/// seen with it gets it, and the other way round.
pub fn host_fix(is_www: bool, domain_is_www: bool) -> (r: HostFix)
    ensures
        r == (if !is_www && domain_is_www {
            HostFix::AddWww
        } else if is_www && !domain_is_www {
            HostFix::DropWww
        } else {
            HostFix::Keep
        }),
{
    if !is_www && domain_is_www {
        HostFix::AddWww
    } else if is_www && !domain_is_www {
        HostFix::DropWww
    } else {
        HostFix::Keep
    }
}

/// Whether a link is moved to `https`: a plain `http` link to a domain
/// first seen with `https`.
pub fn upgrades_to_https(is_https: bool, domain_is_https: bool, scheme_is_http: bool) -> (r: bool)
    ensures
        r == (!is_https && domain_is_https && scheme_is_http),
{
    !is_https && domain_is_https && scheme_is_http
}

/// Why a post cannot be created.
#[derive(Clone, Copy, Debug, PartialEq, Eq, Structural)]
pub enum CreatePostError {
    /// A public post must have a tag.
    RequireTag,
    /// The user posted too much today.
    TooManyPosts,
    /// The link's domain got too many posts today, or is blocked.
    TooManyPostsDomain,
    /// The user posted too many links to this domain today.
    TooManyPostsDomainUser,
    /// The title or the excerpt is too long.
    TooLong,
}

/// The number of characters of `s` that are neither spaces nor line feeds.
pub open spec fn visible_len(s: Seq<char>) -> int
    decreases s.len(),
{
    if s.len() == 0 {
        0
    } else {
        visible_len(s.drop_last()) + if s.last() == ' ' || s.last() == '\n' {
            0int
        } else {
            1int
        }
    }
}

/// The number of characters of `s` that are neither spaces nor line feeds.
pub fn count_visible(s: &str) -> (n: usize)
    ensures
        n == visible_len(s@),
{
    let cs = chars_of(s);
    let mut n: usize = 0;
    let mut i: usize = 0;
    while i < cs.len()
        invariant
            cs@ == s@,
            i <= cs@.len(),
            n == visible_len(cs@.take(i as int)),
            n <= i,
        decreases cs.len() - i,
    {
        assert(cs@.take(i + 1).drop_last() =~= cs@.take(i as int));
        if cs[i] != ' ' && cs[i] != '\n' {
            n += 1;
        }
        i += 1;
    }
    assert(cs@.take(cs@.len() as int) =~= cs@);
    n
}

/// What is known of a link's domain when a post is created: its posts
/// today, the user's posts to it today, and its restriction level if it has
/// one.
#[derive(Clone, Copy, Debug)]
pub struct DomainCounts {
    pub posts_today: i32,
    pub user_posts_today: i32,
    pub restriction_level: Option<i32>,
}

/// A new post that is checked.
pub struct NewPostCheck<'a> {
    pub title: &'a str,
    pub excerpt: Option<&'a str>,
    pub private: bool,
    pub blog_post: bool,
    pub visible: bool,
    /// Whether the rendered title links to no tag.
    pub title_has_no_tags: bool,
    pub user_posts_today: i32,
    pub enforce_rate_limit: bool,
    pub domain: Option<DomainCounts>,
}

/// The outcome of checking a new post: whether it is visible, or why it
/// cannot be created. Checks run in this order: a public post needs a tag;
/// at most 5 posts a day per user; titles up to 500 visible characters;
/// excerpts of public posts up to 2000; per domain, at most 4 posts a day
/// and 2 per user; a domain restricted above level 2 takes no posts, and
/// one restricted at all hides them.
pub open spec fn check_new_post_spec(p: NewPostCheck) -> Result<bool, CreatePostError> {
    let excerpt = match p.excerpt {
        Some(e) => e@,
        None => seq![],
    };
    if p.title_has_no_tags && !p.private && !p.blog_post {
        Err(CreatePostError::RequireTag)
    } else if p.user_posts_today >= 5 && p.enforce_rate_limit {
        Err(CreatePostError::TooManyPosts)
    } else if visible_len(p.title@) > 500 {
        Err(CreatePostError::TooLong)
    } else if visible_len(excerpt) > 2000 && !p.private && !p.blog_post {
        Err(CreatePostError::TooLong)
    } else {
        match p.domain {
            None => Ok(p.visible),
            Some(d) => if d.posts_today >= 4 && p.enforce_rate_limit {
                Err(CreatePostError::TooManyPostsDomain)
            } else if d.user_posts_today >= 2 && p.enforce_rate_limit {
                Err(CreatePostError::TooManyPostsDomainUser)
            } else {
                match d.restriction_level {
                    Some(l) => if l > 2 {
                        Err(CreatePostError::TooManyPostsDomain)
                    } else if l > 0 {
                        Ok(false)
                    } else {
                        Ok(p.visible)
                    },
                    None => Ok(p.visible),
                }
            },
        }
    }
}

/// The characters of a text that count toward its length limit: all but
/// spaces and line feeds.
pub open spec fn counted_chars(s: Seq<char>) -> Seq<char> {
    s.filter(|c: char| c != ' ' && c != '\n')
}

proof fn lemma_visible_len_counts(s: Seq<char>)
    ensures
        visible_len(s) == counted_chars(s).len(),
    decreases s.len(),
{
    reveal(Seq::filter);
    if s.len() > 0 {
        lemma_visible_len_counts(s.drop_last());
    }
}

/// A public post (neither private nor a blog post) whose excerpt has more
/// than 2000 counted characters is never created; when it has its tag and
/// its author is within the daily limit, it is refused as too long.
pub proof fn law_long_public_excerpt_refused(p: NewPostCheck)
    requires
        !p.private,
        !p.blog_post,
        p.excerpt matches Some(e) && counted_chars(e@).len() > 2000,
    ensures
        check_new_post_spec(p) is Err,
        !p.title_has_no_tags && !(p.user_posts_today >= 5 && p.enforce_rate_limit)
            ==> check_new_post_spec(p) == Err::<bool, CreatePostError>(CreatePostError::TooLong),
{
    lemma_visible_len_counts(p.excerpt->0@);
}

/// Checks a new post (see [`check_new_post_spec`]).
pub fn check_new_post(p: &NewPostCheck) -> (r: Result<bool, CreatePostError>)
    ensures
        r == check_new_post_spec(*p),
{
    if p.title_has_no_tags && !p.private && !p.blog_post {
        return Err(CreatePostError::RequireTag);
    }
    if p.user_posts_today >= 5 && p.enforce_rate_limit {
        return Err(CreatePostError::TooManyPosts);
    }
    if count_visible(p.title) > 500 {
        return Err(CreatePostError::TooLong);
    }
    let excerpt_len = match p.excerpt {
        Some(e) => count_visible(e),
        None => 0,
    };
    if excerpt_len > 2000 && !p.private && !p.blog_post {
        return Err(CreatePostError::TooLong);
    }
    let mut visible = p.visible;
    match p.domain {
        Some(d) => {
            if d.posts_today >= 4 && p.enforce_rate_limit {
                return Err(CreatePostError::TooManyPostsDomain);
            }
            if d.user_posts_today >= 2 && p.enforce_rate_limit {
                return Err(CreatePostError::TooManyPostsDomainUser);
            }
            match d.restriction_level {
                Some(l) => {
                    if l > 2 {
                        return Err(CreatePostError::TooManyPostsDomain);
                    } else if l > 0 {
                        visible = false;
                    }
                },
                None => {},
            }
        },
        None => {},
    }
    Ok(visible)
}

} // verus!
