use more_interesting::robots::{crawl_delay, decimal_string, robots_txt, robots_txt_with};
use more_interesting::search::escape_like_query;

#[test]
fn robots_file() {
    let expected = "User-agent: *\nDisallow: /mod-log\nDisallow: /login\nDisallow: /signup\nDisallow: /vote\nDisallow: /vote-comment\nDisallow: /submit\nDisallow: /identicon\nDisallow: /random\nCrawl-delay: 23\n\nUser-agent: seo spider\nDisallow: /\n\nUser-agent: Seekport\nDisallow: /\n\nUser-agent: AhrefsBot\nDisallow: /\n\nUser-agent: SemrushBot-BA\nDisallow: /\n\nUser-agent: SemrushBot-SA\nDisallow: /\n\nUser-agent: SemrushBot\nDisallow: /\n\nUser-agent: MJ12bot\nDisallow: /\n\nUser-agent: BLEXBot\nDisallow: /\n\nUser-agent: MauiBot\nDisallow: /\n    \nUser-agent: MegaIndex\nDisallow: /\n\nUser-agent: serpstatbot\nDisallow: /\n\nUser-agent: DotBot\nDisallow: /\n\nUser-agent: omgili\nDisallow: /\n\nUser-agent: moreover\nDisallow: /\n";
    assert_eq!(robots_txt_with(23), expected);
    let any = robots_txt();
    assert!(any.starts_with("User-agent: *\n"));
    assert!([23, 29, 31, 37, 41, 43, 47, 53].iter().any(|d| any == robots_txt_with(*d)));
}

#[test]
fn crawl_delays() {
    assert_eq!(crawl_delay(0), 23);
    assert_eq!(crawl_delay(31), 23);
    assert_eq!(crawl_delay(32), 29);
    assert_eq!(crawl_delay(127), 37);
    assert_eq!(crawl_delay(200), 47);
    assert_eq!(crawl_delay(255), 53);
    assert_eq!(decimal_string(0), "0");
    assert_eq!(decimal_string(4096), "4096");
    assert_eq!(decimal_string(u32::MAX), "4294967295");
}

#[test]
fn like_queries() {
    assert_eq!(escape_like_query("50% off_now\\"), "50\\% off\\_now\\\\");
    assert_eq!(escape_like_query("plain"), "plain");
}
