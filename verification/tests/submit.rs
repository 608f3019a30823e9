use more_interesting::base32::Base32;
use more_interesting::posts::CreatePostError;
use more_interesting::site::{comment_visible, post_page_privacy, route_path, PathRoute};
use more_interesting::submit::{
    check_comment_rate, poll_choices, CreateCommentError, create_post_error_message, initial_visibility, normalize_url, promotes_to_level_two,
    split_tag_field, split_title, title_with_tags,
};

#[test]
fn tag_field() {
    assert_eq!(split_tag_field("#rust, go\t#  web"), vec!["rust", "go", "web"]);
    assert_eq!(split_tag_field(""), Vec::<String>::new());
    assert_eq!(split_tag_field(",,,"), Vec::<String>::new());
    let tags = vec!["rust".to_string(), "go".to_string()];
    assert_eq!(title_with_tags("Hello", &tags), "Hello #rust #go");
    assert_eq!(title_with_tags("Hello", &vec![]), "Hello");
}

#[test]
fn submitted_urls() {
    assert_eq!(normalize_url(""), None);
    assert_eq!(normalize_url("example.com"), Some("https://example.com".to_string()));
    assert_eq!(normalize_url("//example.com"), Some("//example.com".to_string()));
    assert_eq!(normalize_url("http://example.com"), Some("http://example.com".to_string()));
    assert_eq!(normalize_url("mailto:me@x"), Some("mailto:me@x".to_string()));
}

#[test]
fn who_may_post() {
    assert_eq!(initial_visibility(true, 1), Some(true));
    assert_eq!(initial_visibility(true, 0), Some(false));
    assert_eq!(initial_visibility(false, 0), None);
    assert_eq!(initial_visibility(false, 2), Some(false));
    assert!(promotes_to_level_two(1, 604801));
    assert!(!promotes_to_level_two(1, 604800));
    assert!(!promotes_to_level_two(2, 10_000_000));
    assert_eq!(create_post_error_message(CreatePostError::RequireTag), "Please specify at least one tag");
    assert_eq!(
        create_post_error_message(CreatePostError::TooLong),
        "Too long; please find a shorter excerpt"
    );
}

#[test]
fn title_and_tags_apart() {
    assert_eq!(split_title("Hello #rust #go"), ("Hello ".to_string(), "rust go".to_string()));
    assert_eq!(split_title("no tags"), ("no tags".to_string(), "".to_string()));
}

#[test]
fn top_level_paths() {
    match route_path("@ann", false) {
        PathRoute::Profile(n) => assert_eq!(n, "ann"),
        _ => panic!("expected a profile"),
    }
    match route_path("+3", true) {
        PathRoute::Similar(b) => assert_eq!(b, Base32::from_u64(1)),
        _ => panic!("expected similar posts"),
    }
    assert!(matches!(route_path("+3", false), PathRoute::NotFound));
    match route_path("3", false) {
        PathRoute::Post(b) => assert_eq!(b.into_u64(), 1),
        _ => panic!("expected a post"),
    }
    assert!(matches!(route_path("!!", true), PathRoute::NotFound));
    assert!(comment_visible(1, false));
    assert!(comment_visible(0, true));
    assert!(!comment_visible(0, false));
    assert_eq!(post_page_privacy(false, false, false), (true, true));
    assert_eq!(post_page_privacy(false, true, true), (false, true));
    assert_eq!(post_page_privacy(false, true, false), (false, false));
}

#[test]
fn poll_choices_and_comment_rate() {
    assert_eq!(poll_choices("yes\r\n  no \n\n maybe\n"), vec!["yes", "no", "maybe"]);
    assert_eq!(poll_choices(""), Vec::<String>::new());
    assert_eq!(check_comment_rate(100_000), Ok(()));
    assert_eq!(check_comment_rate(100_001), Err(CreateCommentError::TooManyComments));
}
