use more_interesting::names::KnownNames;
use more_interesting::prettify::{clean_html, crlf_to_lf, is_decimal_number, number_sign_answer, parse_i32, prettify_body, prettify_title, Data, NumberSign, Output};

struct Knows {
    users: Vec<&'static str>,
    tags: Vec<&'static str>,
    comments: Vec<i32>,
}

impl Data for Knows {
    fn check_comment_ref(&mut self, id: i32) -> bool {
        self.comments.contains(&id)
    }
    fn check_hash_tag(&mut self, tag: &str) -> bool {
        self.tags.contains(&tag)
    }
    fn check_username(&mut self, username: &str) -> bool {
        self.users.contains(&username)
    }
}

#[test]
fn body_lists_what_it_links() {
    let mut d = Knows { users: vec!["ann", "bob"], tags: vec!["rust", "123456789012"], comments: vec![7] };
    let text = "@ann @carl #rust #7 #8 @bob #123456789012";
    let out: Output = prettify_body(text, &mut d);
    assert_eq!(out.usernames, vec!["ann", "bob"]);
    assert_eq!(out.hash_tags, vec!["rust"]);
    assert_eq!(out.comment_refs, vec![7]);
    assert!(!out.string.contains("./?tag=123456789012"));
    assert!(out.string.contains("href=\"@ann\""));
    assert!(out.string.contains(">@ann</a>"));
    assert!(out.string.contains("@carl"));
    assert!(!out.string.contains("href=\"@carl\""));
}

#[test]
fn numbers_are_not_tags() {
    let mut d = Knows { users: vec![], tags: vec!["42"], comments: vec![] };
    let out = prettify_body("#42", &mut d);
    assert!(out.hash_tags.is_empty());
    assert_eq!(clean_html(&out.string), out.string);
    assert_eq!(parse_i32("42"), Some(42));
    assert_eq!(parse_i32("-7"), Some(-7));
    assert_eq!(parse_i32("99999999999"), None);
    assert_eq!(parse_i32("4x"), None);
}

#[test]
fn escaping_of_plain_text() {
    let mut d = Knows { users: vec![], tags: vec![], comments: vec![] };
    let out = prettify_body("a&b \"q\" 'x'", &mut d);
    assert_eq!(out.string, clean_html("<p>a&amp;b &quot;q&quot; &#x27;x&#x27;"));
    assert!(!out.string.contains("&b"));
}

#[test]
fn unclosed_blocks_run_to_the_end() {
    let mut d = Knows { users: vec![], tags: vec![], comments: vec![] };
    let out = prettify_body("<table><tr><td>x", &mut d);
    assert!(out.string.contains("good-table"));
    assert!(out.string.contains(">x<"));
    let code = prettify_body("see <code>a < b", &mut d);
    assert!(code.string.contains("good-code"));
    assert!(code.string.contains("a &lt; b"));
    let empty = prettify_body("<code>", &mut d);
    assert!(empty.string.contains("good-code"));
    assert_eq!(crlf_to_lf("a\r\nb\r\r\nc\n"), "a\nb\r\nc\n");
}

#[test]
fn runs_of_spaces_are_one_space() {
    let mut d = Knows { users: vec![], tags: vec![], comments: vec![] };
    let out = prettify_body("       Multiple spaces in a row are stripped.  That way,   fine", &mut d);
    assert_eq!(out.string, clean_html("<p> Multiple spaces in a row are stripped. That way, fine"));
    assert!(!out.string.contains("  "));
    let code = prettify_body("<code>a  b</code>", &mut d);
    assert!(code.string.contains("a  b"));
}

#[test]
fn title_with_domain_link() {
    let mut d = Knows { users: vec!["ann"], tags: vec![], comments: vec![] };
    let out = prettify_title("hello @ann", "https://www.example.com/x", &mut d);
    assert_eq!(out.usernames, vec!["ann"]);
    assert!(out.string.contains("./?domain=example.com"));
    let plain = prettify_title("x", "not a url", &mut d);
    assert!(!plain.string.contains("domain-link"));
}

#[test]
fn cleaning_drops_what_is_not_allowed() {
    assert_eq!(clean_html("<script>x</script><b>y</b>"), "<b>y</b>");
    assert_eq!(clean_html("<a class=\"inner-link evil\">t</a>"), "<a class=\"inner-link\" rel=\"noopener noreferrer\">t</a>");
}

#[test]
fn number_sign_answer_per_reply() {
    assert!(matches!(number_sign_answer("7", Some(7), true), NumberSign::Comment(7)));
    assert!(matches!(number_sign_answer("7", Some(7), false), NumberSign::NoMatch));
    assert!(matches!(number_sign_answer("rust", None, true), NumberSign::Tag("rust")));
    assert!(matches!(number_sign_answer("rust", None, false), NumberSign::NoMatch));
}

#[test]
fn number_sign_asks_the_right_question() {
    let mut d = Knows { users: vec![], tags: vec!["rust", "42"], comments: vec![7] };
    assert!(matches!(d.check_number_sign("7"), NumberSign::Comment(7)));
    assert!(matches!(d.check_number_sign("8"), NumberSign::NoMatch));
    assert!(matches!(d.check_number_sign("rust"), NumberSign::Tag("rust")));
    assert!(matches!(d.check_number_sign("42"), NumberSign::NoMatch));
    assert!(matches!(d.check_number_sign("go"), NumberSign::NoMatch));
}

#[test]
fn all_digit_references_are_never_tags() {
    assert!(is_decimal_number("123456789012"));
    assert!(is_decimal_number("0"));
    assert!(!is_decimal_number(""));
    assert!(!is_decimal_number("-5"));
    assert!(!is_decimal_number("12a"));
    assert!(matches!(number_sign_answer("123456789012", None, true), NumberSign::NoMatch));
    let mut d = Knows { users: vec![], tags: vec!["123456789012", "+99999999999"], comments: vec![] };
    assert!(matches!(d.check_number_sign("123456789012"), NumberSign::NoMatch));
    assert!(matches!(d.check_number_sign("+99999999999"), NumberSign::Tag("+99999999999")));
}

#[test]
fn known_names_answer_what_they_hold() {
    let mut d = KnownNames::new();
    d.users.push("ann".to_string());
    d.tags.push("rust".to_string());
    d.comments.push(7);
    assert!(d.check_username("ann"));
    assert!(!d.check_username("bob"));
    assert!(d.check_hash_tag("rust"));
    assert!(!d.check_hash_tag("go"));
    assert!(d.check_comment_ref(7));
    assert!(!d.check_comment_ref(8));
    let out = prettify_body("@ann @bob #rust #go #7 #8", &mut d);
    assert_eq!(out.usernames, vec!["ann"]);
    assert_eq!(out.hash_tags, vec!["rust"]);
    assert_eq!(out.comment_refs, vec![7]);
    assert!(out.string.contains("href=\"@ann\""));
    assert!(out.string.contains(">@ann</a>"));
    assert!(out.string.contains("href=\"./?tag=rust\""));
    assert!(out.string.contains(">#rust</a>"));
    assert!(out.string.contains("href=\"#7\""));
    assert!(!out.string.contains("href=\"#8\""));
    assert!(!out.string.contains("./?tag=go"));
    assert!(!out.string.contains("href=\"@bob\""));
}

#[test]
fn known_names_in_a_title() {
    let mut d = KnownNames::new();
    d.tags.push("words".to_string());
    let out = prettify_title("this is a #test for #words here", "url", &mut d);
    assert_eq!(out.hash_tags, vec!["words"]);
    assert!(out.string.contains("href=\"./?tag=words\""));
    assert!(!out.string.contains("./?tag=test"));
}

#[test]
fn trailing_punctuation_is_not_in_the_token() {
    for s in ["www.com", "www.com/help", "(a.b)", "x", "", "a.b", "[b]c"] {
        for p in ['.', ',', '?', '\'', '"', '!', ':', '*'] {
            let longer = format!("{s}{p}");
            assert_eq!(more_interesting::scan::scan_lexical_token(&longer, true), more_interesting::scan::scan_lexical_token(s, true));
            assert_eq!(more_interesting::scan::scan_lexical_token(&longer, false), more_interesting::scan::scan_lexical_token(s, false));
        }
    }
}
