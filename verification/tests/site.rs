use more_interesting::base32::Base32;
use more_interesting::customization::Customization;
use more_interesting::filters::{count, last, relative_date_text, urlencode, usernamewrap};
use more_interesting::forever::cache_control;
use more_interesting::pid_file_fairing::writes_pid_file;
use more_interesting::posts::{
    canonical_host, check_new_post, count_visible, host_fix, upgrades_to_https, CreatePostError,
    DomainCounts, HostFix, NewPostCheck,
};
use more_interesting::search::{date_param, date_range, keep_hottest, shuffle_if_random, parse_domain_names, parse_tag_names, search_text, split_text, trim, PostSearch, PostSearchOrderBy, Separator, TagRole};
use more_interesting::session::{ban_marker, csrf_ok, is_moderator, BanMarker, ReferrerString, UserAgentString};
use more_interesting::site::{
    flag_hides, promotes_user, CommentVote, MaybeRedirect, PostVote, VoteCommentForm, VoteForm,
};
use more_interesting::template::{replace, AdminPageId, NavPageId};

#[test]
fn replace_braces() {
    assert_eq!(replace("{} stars", "5"), "5 stars");
    assert_eq!(replace("a{}b{}c", "X"), "aXbXc");
    assert_eq!(replace("no braces", "X"), "no braces");
    assert_eq!(replace("{{}}", "X"), "{X}");
    assert_eq!(replace("{}", "{}"), "{}");
}

#[test]
fn nav_and_admin_pages() {
    assert_eq!(NavPageId::Home.to_string(), ".");
    assert_eq!(NavPageId::Latest.to_string(), "latest");
    assert_eq!(NavPageId::Random.to_string(), "random");
    assert_eq!(NavPageId::default(), NavPageId::Home);
    assert_eq!(NavPageId::Top.number(), 3);
    assert_eq!(AdminPageId::default(), AdminPageId::Tags);
    assert_eq!(AdminPageId::BlockedRegexes.number(), 7);
}

#[test]
fn template_filters() {
    assert_eq!(count(&[1, 2, 3][..]), 3);
    assert_eq!(last(&["a".to_string(), "b".to_string()][..]), "b");
    assert_eq!(last(&[][..]), "");
    assert_eq!(urlencode("foo bar?"), "foo%20bar%3F");
    assert_eq!(urlencode("a-b_c.d~é"), "a%2Db%5Fc%2Ed%7E%C3%A9");
    assert_eq!(usernamewrap("notriddle"), "@notriddle");
    assert_eq!(usernamewrap("a-b_c9"), "@a-b_c9");
    assert_eq!(usernamewrap("with space"), "<@with space>");
    assert_eq!(usernamewrap(""), "<@>");
}

#[test]
fn customization_variables() {
    let c = Customization::from_variables(vec![
        ("title".to_string(), "My Site".to_string()),
        ("css".to_string(), "body{}".to_string()),
        ("unknown".to_string(), "ignored".to_string()),
        ("title".to_string(), "Other".to_string()),
        ("message_send_notice_html".to_string(), "<b>hi</b>".to_string()),
    ]);
    assert_eq!(c.title, "Other");
    assert_eq!(c.css, "body{}");
    assert_eq!(c.message_send_notice_html, "<b>hi</b>");
    assert_eq!(c.custom_footer_html, "");
    assert_eq!(Customization::default().post_score_text, "");
}

#[test]
fn redirects() {
    let none = MaybeRedirect { redirect: None };
    assert_eq!(none.maybe_redirect(), None);
    assert_eq!(none.maybe_redirect_vote("x"), None);
    let front = MaybeRedirect { redirect: Some(Base32::zero()) };
    assert_eq!(front.maybe_redirect(), Some(".".to_string()));
    let post = MaybeRedirect { redirect: Some(Base32::from_u64(1)) };
    assert_eq!(post.maybe_redirect(), Some("3".to_string()));
    assert_eq!(
        front.maybe_redirect_vote("12"),
        Some("<!DOCTYPE html><meta name=viewport content=width=device-width><h1><a href=.#12>Redirect OK</a></h1><script>window.location = document.getElementsByTagName('a')[0].href</script>".to_string())
    );
    let page = post.maybe_redirect_vote("<a>").unwrap();
    assert!(page.contains("href=3#&lt;a&gt;>"));
}

#[test]
fn vote_forms() {
    let u = Base32::from_u64(9);
    let empty = VoteForm { rm_star: None, add_star: None, rm_flag: None, add_flag: None, rm_hide: None, add_hide: None };
    assert_eq!(empty.action(), None);
    let star = VoteForm { add_star: Some(u), ..empty };
    assert_eq!(star.action(), Some((PostVote::AddStar, u)));
    let two = VoteForm { add_star: Some(u), rm_hide: Some(u), ..empty };
    assert_eq!(two.action(), None);
    let hide = VoteForm { rm_hide: Some(u), ..empty };
    assert_eq!(hide.action(), Some((PostVote::RmHide, u)));

    let none = VoteCommentForm {
        add_star_comment: None,
        rm_star_comment: None,
        add_flag_comment: None,
        rm_flag_comment: None,
        add_hide_comment: None,
        rm_hide_comment: None,
    };
    let flag = VoteCommentForm { add_flag_comment: Some(5), ..none };
    assert_eq!(flag.action(0), None);
    assert_eq!(flag.action(1), Some((CommentVote::AddFlag, 5)));
    let unflag = VoteCommentForm { rm_flag_comment: Some(5), ..none };
    assert_eq!(unflag.action(0), Some((CommentVote::RmFlag, 5)));
    assert_eq!(none.action(3), None);
}

#[test]
fn trust_and_flags() {
    assert!(promotes_user(0, 86401, true));
    assert!(!promotes_user(0, 86400, true));
    assert!(!promotes_user(1, 100000, true));
    assert!(!promotes_user(0, 100000, false));
    assert!(flag_hides(3));
    assert!(!flag_hides(2));
    assert!(!flag_hides(4));
    assert!(is_moderator(3));
    assert!(!is_moderator(2));
}

#[test]
fn search_parameters() {
    let names: Vec<String> = split_text("a||b", Separator::Bar);
    assert_eq!(names, vec!["a", "", "b"]);
    assert_eq!(trim("  x y \n"), "x y");
    let tags = parse_tag_names("rust -politics  news");
    let got: Vec<(TagRole, String)> = tags.into_iter().map(|t| (t.role, t.name)).collect();
    assert_eq!(
        got,
        vec![
            (TagRole::All, "rust".to_string()),
            (TagRole::Hidden, "politics".to_string()),
            (TagRole::All, "news".to_string()),
        ]
    );
    let any = parse_tag_names("rust| go ||");
    let got: Vec<(TagRole, String)> = any.into_iter().map(|t| (t.role, t.name)).collect();
    assert_eq!(got, vec![(TagRole::Any, "rust".to_string()), (TagRole::Any, "go".to_string())]);
    assert_eq!(parse_domain_names("a.com|b.org c.net  "), vec!["a.com", "b.org", "c.net"]);
    assert_eq!(search_text(Some("q"), Some("t")), ("q".to_string(), "t".to_string()));
    assert_eq!(search_text(None, Some("t")), ("t".to_string(), "t".to_string()));
    assert_eq!(search_text(Some(""), Some("t")), ("t".to_string(), "t".to_string()));
    assert_eq!(search_text(Some("q"), None), ("q".to_string(), "".to_string()));
}

#[test]
fn domains_of_links() {
    assert_eq!(canonical_host("www.example.com"), ("example.com".to_string(), true));
    assert_eq!(canonical_host("old.reddit.com"), ("reddit.com".to_string(), false));
    assert_eq!(canonical_host("www.np.reddit.com"), ("reddit.com".to_string(), true));
    assert_eq!(canonical_host("mobile.twitter.com"), ("twitter.com".to_string(), false));
    assert_eq!(canonical_host("example.org"), ("example.org".to_string(), false));
    assert_eq!(host_fix(false, true), HostFix::AddWww);
    assert_eq!(host_fix(true, false), HostFix::DropWww);
    assert_eq!(host_fix(true, true), HostFix::Keep);
    assert!(upgrades_to_https(false, true, true));
    assert!(!upgrades_to_https(true, true, true));
}

fn post<'a>(title: &'a str) -> NewPostCheck<'a> {
    NewPostCheck {
        title,
        excerpt: None,
        private: false,
        blog_post: false,
        visible: true,
        title_has_no_tags: false,
        user_posts_today: 0,
        enforce_rate_limit: true,
        domain: None,
    }
}

#[test]
fn new_post_rules() {
    assert_eq!(check_new_post(&post("hi")), Ok(true));
    assert_eq!(check_new_post(&NewPostCheck { title_has_no_tags: true, ..post("hi") }), Err(CreatePostError::RequireTag));
    assert_eq!(check_new_post(&NewPostCheck { title_has_no_tags: true, private: true, ..post("hi") }), Ok(true));
    assert_eq!(check_new_post(&NewPostCheck { user_posts_today: 5, ..post("hi") }), Err(CreatePostError::TooManyPosts));
    assert_eq!(check_new_post(&NewPostCheck { user_posts_today: 5, enforce_rate_limit: false, ..post("hi") }), Ok(true));
    let long: String = "x".repeat(501);
    assert_eq!(check_new_post(&post(&long)), Err(CreatePostError::TooLong));
    let spaced: String = "x ".repeat(500);
    assert_eq!(check_new_post(&post(&spaced)), Ok(true));
    let d = DomainCounts { posts_today: 0, user_posts_today: 0, restriction_level: Some(1) };
    assert_eq!(check_new_post(&NewPostCheck { domain: Some(d), ..post("hi") }), Ok(false));
    let blocked = DomainCounts { restriction_level: Some(3), ..d };
    assert_eq!(check_new_post(&NewPostCheck { domain: Some(blocked), ..post("hi") }), Err(CreatePostError::TooManyPostsDomain));
    let busy = DomainCounts { posts_today: 4, ..d };
    assert_eq!(check_new_post(&NewPostCheck { domain: Some(busy), ..post("hi") }), Err(CreatePostError::TooManyPostsDomain));
    let mine = DomainCounts { user_posts_today: 2, ..d };
    assert_eq!(check_new_post(&NewPostCheck { domain: Some(mine), ..post("hi") }), Err(CreatePostError::TooManyPostsDomainUser));
    assert_eq!(count_visible("a b\nc"), 3);
}

#[test]
fn request_values() {
    assert!(UserAgentString::from_header(None).is_none());
    assert_eq!(UserAgentString::from_header(Some("curl")).unwrap().user_agent, "curl");
    assert_eq!(ReferrerString::from_header(None).referrer, "");
    assert_eq!(ReferrerString::from_header(Some("http://x")).referrer, "http://x");
    let a = Base32::from_u64(1);
    let b = Base32::from_u64(2);
    assert!(csrf_ok(true, Some(a), None));
    assert!(csrf_ok(false, Some(a), Some(a)));
    assert!(!csrf_ok(false, Some(a), Some(b)));
    assert!(!csrf_ok(false, Some(a), None));
    assert!(csrf_ok(false, None, None));
    assert_eq!(ban_marker(-2, false), BanMarker::SetCookie);
    assert_eq!(ban_marker(1, true), BanMarker::SetTrustLevel);
    assert_eq!(ban_marker(1, false), BanMarker::Nothing);
    assert_eq!(cache_control(), "public, max-age=30000000");
    assert!(writes_pid_file("/run/mi.pid"));
    assert!(!writes_pid_file(""));
}

#[test]
fn search_defaults() {
    use_search_defaults();
}

fn use_search_defaults() {
    let s = more_interesting::search::PostSearch::with_my_user_id(7);
    assert_eq!(s.my_user_id, 7);
    assert_eq!(s.limit, 50);
    assert_eq!(s.order_by, more_interesting::search::PostSearchOrderBy::Hottest);
    assert!(s.keywords.is_empty() && s.or_tags.is_empty() && s.before_date.is_none());
    assert_eq!(more_interesting::search::BodyFormat::default(), more_interesting::search::BodyFormat::Plain);
}

#[test]
fn hottest_front_page_is_cut() {
    let mut search = PostSearch::with_my_user_id(1);
    let mut all: Vec<i32> = (0..60).collect();
    keep_hottest(&search, &mut all);
    assert_eq!(all, (0..40).collect::<Vec<i32>>());
    search.limit = 15;
    let mut all: Vec<i32> = (0..60).collect();
    keep_hottest(&search, &mut all);
    assert_eq!(all.len(), 15);
    let mut few: Vec<i32> = vec![3, 2, 1];
    keep_hottest(&search, &mut few);
    assert_eq!(few, vec![3, 2, 1]);
    search.limit = -1;
    let mut all: Vec<i32> = (0..60).collect();
    keep_hottest(&search, &mut all);
    assert_eq!(all.len(), 60);
    search.limit = 50;
    search.keywords = "rust".to_string();
    let mut all: Vec<i32> = (0..60).collect();
    keep_hottest(&search, &mut all);
    assert_eq!(all.len(), 60);
    search.keywords = String::new();
    search.order_by = PostSearchOrderBy::Newest;
    let mut all: Vec<i32> = (0..60).collect();
    keep_hottest(&search, &mut all);
    assert_eq!(all.len(), 60);
}

#[test]
fn date_params_read_as_dates() {
    assert_eq!(date_param(Some("2020-01-31")), chrono::NaiveDate::from_ymd_opt(2020, 1, 31));
    assert_eq!(date_param(Some("2020-02-30")), None);
    assert_eq!(date_param(Some("31/01/2020")), None);
    assert_eq!(date_param(None), None);
}

#[test]
fn date_bounds_are_put_in_order() {
    let early = chrono::NaiveDate::from_ymd_opt(2020, 1, 1).unwrap();
    let late = chrono::NaiveDate::from_ymd_opt(2021, 6, 30).unwrap();
    assert_eq!(date_range(Some(early), Some(late)), (Some(late), Some(early)));
    assert_eq!(date_range(Some(late), Some(early)), (Some(late), Some(early)));
    assert_eq!(date_range(Some(early), None), (Some(early), None));
    assert_eq!(date_range(None, Some(late)), (None, Some(late)));
}

#[test]
fn random_search_keeps_its_posts() {
    let mut search = PostSearch::with_my_user_id(1);
    search.order_by = PostSearchOrderBy::Random;
    let mut all: Vec<i32> = (0..30).collect();
    shuffle_if_random(&search, &mut all);
    let mut sorted = all.clone();
    sorted.sort();
    assert_eq!(sorted, (0..30).collect::<Vec<i32>>());
    search.order_by = PostSearchOrderBy::Newest;
    let mut kept: Vec<i32> = (0..30).collect();
    shuffle_if_random(&search, &mut kept);
    assert_eq!(kept, (0..30).collect::<Vec<i32>>());
}

#[test]
fn relative_dates_in_rough_english() {
    assert_eq!(relative_date_text(0), "now");
    assert_eq!(relative_date_text(-2 * 3600 * 1000), "2 hours");
    assert_eq!(relative_date_text(-60 * 1000), "a minute");
    assert_eq!(relative_date_text(-3 * 24 * 3600 * 1000), "3 days");
}
