//! The site's `robots.txt`.
use vstd::prelude::*;
use crate::text::{push_char, push_str};

verus! {

/// The crawl delay for a random byte. The delays are distinct primes, so
/// two bots that got different delays do not fall into step.
pub open spec fn crawl_delay_spec(r: u8) -> u32 {
    if r <= 31 {
        23
    } else if r <= 63 {
        29
    } else if r <= 95 {
        31
    } else if r <= 127 {
        37
    } else if r <= 159 {
        41
    } else if r <= 191 {
        43
    } else if r <= 223 {
        47
    } else {
        53
    }
}

/// The crawl delay for a random byte (see [`crawl_delay_spec`]).
pub fn crawl_delay(r: u8) -> (d: u32)
    ensures
        d == crawl_delay_spec(r),
{
    if r <= 31 {
        23
    } else if r <= 63 {
        29
    } else if r <= 95 {
        31
    } else if r <= 127 {
        37
    } else if r <= 159 {
        41
    } else if r <= 191 {
        43
    } else if r <= 223 {
        47
    } else {
        53
    }
}

/// The decimal digits of `n`, without leading zeros (`0` for zero).
pub open spec fn decimal_text(n: nat) -> Seq<char>
    decreases n,
{
    if n < 10 {
        seq![(48 + n) as char]
    } else {
        decimal_text(n / 10).push((48 + n % 10) as char)
    }
}

/// The decimal text of `n`.
pub fn decimal_string(n: u32) -> (s: String)
    ensures
        s@ == decimal_text(n as nat),
    decreases n,
{
    if n < 10 {
        let mut s = String::new();
        push_char(&mut s, ((48 + n) as u8) as char);
        s
    } else {
        let mut s = decimal_string(n / 10);
        push_char(&mut s, ((48 + n % 10) as u8) as char);
        s
    }
}

/// The part of `robots.txt` before the crawl delay.
pub open spec fn robots_head() -> Seq<char> {
    "User-agent: *\nDisallow: /mod-log\nDisallow: /login\nDisallow: /signup\nDisallow: /vote\nDisallow: /vote-comment\nDisallow: /submit\nDisallow: /identicon\nDisallow: /random\nCrawl-delay: "@
}

/// The part of `robots.txt` after the crawl delay: the bots that may not
/// crawl at all.
pub open spec fn robots_tail() -> Seq<char> {
    "\n\nUser-agent: seo spider\nDisallow: /\n\nUser-agent: Seekport\nDisallow: /\n\nUser-agent: AhrefsBot\nDisallow: /\n\nUser-agent: SemrushBot-BA\nDisallow: /\n\nUser-agent: SemrushBot-SA\nDisallow: /\n\nUser-agent: SemrushBot\nDisallow: /\n\nUser-agent: MJ12bot\nDisallow: /\n\nUser-agent: BLEXBot\nDisallow: /\n\nUser-agent: MauiBot\nDisallow: /\n    \nUser-agent: MegaIndex\nDisallow: /\n\nUser-agent: serpstatbot\nDisallow: /\n\nUser-agent: DotBot\nDisallow: /\n\nUser-agent: omgili\nDisallow: /\n\nUser-agent: moreover\nDisallow: /\n"@
}

/// `robots.txt` with a crawl delay of `delay` seconds.
pub fn robots_txt_with(delay: u32) -> (s: String)
    ensures
        s@ == robots_head() + decimal_text(delay as nat) + robots_tail(),
{
    let mut s = String::new();
    push_str(
        &mut s,
        "User-agent: *\nDisallow: /mod-log\nDisallow: /login\nDisallow: /signup\nDisallow: /vote\nDisallow: /vote-comment\nDisallow: /submit\nDisallow: /identicon\nDisallow: /random\nCrawl-delay: ",
    );
    let d = decimal_string(delay);
    push_str(&mut s, d.as_str());
    push_str(
        &mut s,
        "\n\nUser-agent: seo spider\nDisallow: /\n\nUser-agent: Seekport\nDisallow: /\n\nUser-agent: AhrefsBot\nDisallow: /\n\nUser-agent: SemrushBot-BA\nDisallow: /\n\nUser-agent: SemrushBot-SA\nDisallow: /\n\nUser-agent: SemrushBot\nDisallow: /\n\nUser-agent: MJ12bot\nDisallow: /\n\nUser-agent: BLEXBot\nDisallow: /\n\nUser-agent: MauiBot\nDisallow: /\n    \nUser-agent: MegaIndex\nDisallow: /\n\nUser-agent: serpstatbot\nDisallow: /\n\nUser-agent: DotBot\nDisallow: /\n\nUser-agent: omgili\nDisallow: /\n\nUser-agent: moreover\nDisallow: /\n",
    );
    s
}

/// A random byte, from `rand::random`. Any byte may come back.
#[verifier::external_body]
fn random_byte() -> (r: u8) {
    rand::random::<u8>()
}

/// `robots.txt` with a crawl delay picked at random.
pub fn robots_txt() -> (s: String)
    ensures
        exists|r: u8| s@ == robots_head() + decimal_text(crawl_delay_spec(r) as nat) + robots_tail(),
{
    let r = random_byte();
    robots_txt_with(crawl_delay(r))
}

} // verus!
