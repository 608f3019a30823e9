use more_interesting::prettify::{clean_html, prettify_body, prettify_title, Data};
use more_interesting::scan::{scan_angle_brackets, scan_lexical_token};


struct MyData;

impl Data for MyData {
    fn check_comment_ref(&mut self, id: i32) -> bool {
        id == 12345
    }
    fn check_hash_tag(&mut self, tag: &str) -> bool {
        tag == "words"
    }
    fn check_username(&mut self, username: &str) -> bool {
        username == "mentioning"
    }
}

#[test]
fn test_scan_angle_brackets() {
    let checks = &[
        ("<chk", ("", 1, 1)),
        ("<chk>", ("chk", 1, 4)),
        ("<chk>>", ("chk", 1, 4)),
        ("<<chk>>", ("chk", 2, 5)),
        ("<<ch>k>>", ("ch>k", 2, 6)),
        ("<>", ("", 1, 1)),
        ("<www.com>", ("www.com", 1, 8)),
        ("<test mess>", ("", 1, 1)),
        ("<<test mess>", ("", 2, 2)),
    ][..];
    for &(input, expected) in checks {
        assert_eq!(scan_angle_brackets(input), expected)
    }
}
#[test]
fn test_scan_lexical_token_url() {
    let checks = &[
        ("www.com", "www.com"),
        ("www.com.", "www.com"),
        ("www.com/help", "www.com/help"),
        ("www.com/help.html.", "www.com/help.html"),
        ("www.com/Ace_(hardware)", "www.com/Ace_(hardware)"),
        ("www.com/Ace)", "www.com/Ace"),
        ("www.com/Ace_hardware", "www.com/Ace_hardware"),
        ("www.com/Ace_[hardware]", "www.com/Ace_[hardware]"),
        ("www.com/Ace]", "www.com/Ace"),
        ("www.com/Ace\"]", "www.com/Ace"),
        ("www.com/Ace\">", "www.com/Ace"),
        ("www.com/Ace[/url]", "www.com/Ace"),
        ("www.com/Ace</a>", "www.com/Ace"),
        ("ace hardware", "ace"),
        ("ace<http://www.com>", "ace"),
    ][..];
    for &(input, expected) in checks {
        assert_eq!(scan_lexical_token(input, true), expected);
    }
}
#[test]
fn test_example_title() {
    let title = "this is a #test for #words here";

    let html = "<span class=article-header-inner><a href=\"url\">this is a #test for </a></span><span class=article-header-inner><a class=inner-link href=\"./?tag=words\">#words</a></span><span class=article-header-inner><a href=\"url\"> here</a></span>";

    assert_eq!(prettify_title(title, "url", &mut MyData).string, clean_html(html));
}
#[test]
fn test_windows_newlines() {
    let comment = "test\r\n\r\npost";
    let html = "<p>test\n\n<p>post";
    assert_eq!(prettify_body(comment, &mut MyData).string, clean_html(html));
}
#[test]
fn test_multiple_brackets() {
    let comment = "<<<http://example.com>>>";
    let html = "<p>&lt;&lt;&lt;<a href=\"http://example.com\">http://example.com</a>&gt;&gt;&gt;";
    assert_eq!(prettify_body(comment, &mut MyData).string, clean_html(html));
}
#[test]
fn test_unicode() {
    let comment = "finger— inciting the two officers to fire";
    let html = "<p>finger— inciting the two officers to fire";
    assert_eq!(prettify_body(comment, &mut MyData).string, clean_html(html));
}
#[test]
fn test_unicode_title() {
    let comment = "finger— inciting the two officers to fire";
    let html = "<span class=article-header-inner><a href=\"url\">finger— inciting the two officers to fire</a></span>";
    assert_eq!(prettify_title(comment, "url", &mut MyData).string, clean_html(html));
}
#[test]
fn test_ends_with_hash_title() {
    let comment = "finger— inciting the two officers to fire #words";
    let html = "<span class=article-header-inner><a href=\"url\">finger— inciting the two officers to fire </a></span><span class=article-header-inner><a class=inner-link href=\"./?tag=words\">#words</a></span>";
    assert_eq!(prettify_title(comment, "url", &mut MyData).string, clean_html(html));
}
#[test]
fn test_bbcode() {
    let comment = "[url]ok[/url] [url=u]ok[/url] [url=u[/url]]";
    let html = "<p><a href=\"ok\">ok</a> <a href=\"u\">ok</a> [url=u[/url]]";
    assert_eq!(prettify_body(comment, &mut MyData).string, clean_html(html));
}
#[test]
fn test_bbcode_img() {
    let comment = "[img]ok[/img]";
    let html = "<p><details><summary>image</summary><img src=\"ok\"></details>";
    assert_eq!(prettify_body(comment, &mut MyData).string, clean_html(html));
}
#[test]
fn test_bbcode_quote() {
    let comment = "[quote=pyro]this [i]thing[/i] sucks[/quote]\n\n[quote]okay?[/quote]";
    let html = "<p>@pyro<blockquote>this <i>thing</i> sucks</blockquote>\n\n<p><blockquote>okay?</blockquote>";
    assert_eq!(prettify_body(comment, &mut MyData).string, clean_html(html));
}
#[test]
fn test_bbcode_code() {
    let comment = "[code]this [i]thing[/i] sucks[/code]";
    let html = "<p><code>this [i]thing[/i] sucks</code>";
    assert_eq!(prettify_body(comment, &mut MyData).string, clean_html(html));
}
#[test]
fn test_example() {
let comment = r####"Write my comment here.

@mentioning someone will ping them, just like on Twitter.

#12345 numbers will link to another comment on the same post.

#words are hash tags, just like on Twitter.

Consecutive line breaks are paragraph breaks, like in Markdown.

As special allowances, you can write tables in HTML, like this:

<table>
<tr>
<td>Hi
<td>There
</table>

You can also write code tags. The contents of code tags are automatically escaped.

<code>
<table>
<tr>
<td>Hi
<td>There
</table>
</code>

URL's are automatically linked, following similar rules to GitHub-flavored MD.
<URL> also works if your URL is too complex, but note that the angle brackets
will still be shown! It also includes GitHub's WWW special case, like
www.example.com, <www.example.com>, http://example.com, and <http://example.com>
will all get turned into links, but plain example.com will not."####;

let html = r####"<p>Write my comment here.

<p><a href="@mentioning">@mentioning</a> someone will ping them, just like on Twitter.

<p><a href="#12345">#12345</a> numbers will link to another comment on the same post.

<p><a href="./?tag=words">#words</a> are hash tags, just like on Twitter.

<p>Consecutive line breaks are paragraph breaks, like in Markdown.

<p>As special allowances, you can write tables in HTML, like this:

</p><p>&lt;<a href="assets/how-to-table.html">table</a>&gt;</p><table class=good-table>
<tr>
<td>Hi
<td>There
</table><p>

</p><p>You can also write code tags. The contents of code tags are automatically escaped.

</p><p>&lt;<a href="assets/how-to-code.html">code</a>&gt;</p><pre class=good-code><code>
&lt;table&gt;
&lt;tr&gt;
&lt;td&gt;Hi
&lt;td&gt;There
&lt;/table&gt;
</code></pre><p>

</p><p>URL's are automatically linked, following similar rules to GitHub-flavored MD.
&lt;URL&gt; also works if your URL is too complex, but note that the angle brackets
will still be shown! It also includes GitHub's WWW special case, like
<a href="https://www.example.com">www.example.com</a>, &lt;<a href="https://www.example.com">www.example.com</a>&gt;, <a href="http://example.com">http://example.com</a>, and &lt;<a href="http://example.com">http://example.com</a>&gt;
will all get turned into links, but plain example.com will not."####;

assert_eq!(prettify_body(comment, &mut MyData).string, clean_html(html));
}
