//! The site's customizable texts.
use vstd::prelude::*;
use crate::text::same_text;

verus! {

/// The texts that an administrator can set for the site.
#[derive(Clone)]
pub struct Customization {
    pub title: String,
    pub css: String,
    pub custom_footer_html: String,
    pub front_notice_html: String,
    pub comments_placeholder_html: String,
    pub link_submit_notice_html: String,
    pub blog_post_notice_html: String,
    pub message_send_notice_html: String,
    pub post_score_text: String,
    pub comment_score_text: String,
}

/// The texts of a customization, in field order.
pub open spec fn texts(c: Customization) -> Seq<Seq<char>> {
    seq![
        c.title@,
        c.css@,
        c.custom_footer_html@,
        c.front_notice_html@,
        c.comments_placeholder_html@,
        c.link_submit_notice_html@,
        c.blog_post_notice_html@,
        c.message_send_notice_html@,
        c.post_score_text@,
        c.comment_score_text@,
    ]
}

/// The names of the customization variables, in field order.
pub open spec fn variable_names() -> Seq<Seq<char>> {
    seq![
        "title"@,
        "css"@,
        "custom_footer_html"@,
        "front_notice_html"@,
        "comments_placeholder_html"@,
        "link_submit_notice_html"@,
        "blog_post_notice_html"@,
        "message_send_notice_html"@,
        "post_score_text"@,
        "comment_score_text"@,
    ]
}

/// The texts after setting the variable `name` to `value`: the field of
/// that name changes; an unknown name changes nothing.
pub open spec fn set_text(t: Seq<Seq<char>>, name: Seq<char>, value: Seq<char>) -> Seq<Seq<char>> {
    Seq::new(t.len(), |i: int| if variable_names()[i] == name { value } else { t[i] })
}

/// The texts after setting each variable in turn.
pub open spec fn apply_variables(t: Seq<Seq<char>>, vars: Seq<(Seq<char>, Seq<char>)>) -> Seq<
    Seq<char>,
>
    decreases vars.len(),
{
    if vars.len() == 0 {
        t
    } else {
        set_text(apply_variables(t, vars.drop_last()), vars.last().0, vars.last().1)
    }
}

impl Default for Customization {
    fn default() -> (r: Customization)
        ensures
            texts(r) == Seq::new(10, |i: int| Seq::<char>::empty()),
    {
        let r = Customization {
            title: String::new(),
            css: String::new(),
            custom_footer_html: String::new(),
            front_notice_html: String::new(),
            comments_placeholder_html: String::new(),
            link_submit_notice_html: String::new(),
            blog_post_notice_html: String::new(),
            message_send_notice_html: String::new(),
            post_score_text: String::new(),
            comment_score_text: String::new(),
        };
        assert(texts(r) =~= Seq::new(10, |i: int| Seq::<char>::empty()));
        r
    }
}

impl Customization {
    /// Sets the variable `name` to `value`; an unknown name is ignored.
    pub fn set_variable(&mut self, name: &str, value: String)
        ensures
            texts(*final(self)) == set_text(texts(*old(self)), name@, value@),
    {
        proof {
            reveal_strlit("title");
            reveal_strlit("css");
            reveal_strlit("custom_footer_html");
            reveal_strlit("front_notice_html");
            reveal_strlit("comments_placeholder_html");
            reveal_strlit("link_submit_notice_html");
            reveal_strlit("blog_post_notice_html");
            reveal_strlit("message_send_notice_html");
            reveal_strlit("post_score_text");
            reveal_strlit("comment_score_text");
        }
        let ghost before = texts(*self);
        let ghost names = variable_names();
        assert(forall|i: int, j: int| 0 <= i < j < 10 ==> names[i] != names[j]) by {
            assert forall|i: int, j: int| 0 <= i < j < 10 implies names[i] != names[j] by {
                if names[i].len() == names[j].len() {
                    assert(names[i][0] != names[j][0] || names[i][names[i].len() - 6] != names[j][names[j].len() - 6]);
                }
            }
        }
        if same_text(name, "title") {
            self.title = value;
        } else if same_text(name, "css") {
            self.css = value;
        } else if same_text(name, "custom_footer_html") {
            self.custom_footer_html = value;
        } else if same_text(name, "front_notice_html") {
            self.front_notice_html = value;
        } else if same_text(name, "comments_placeholder_html") {
            self.comments_placeholder_html = value;
        } else if same_text(name, "link_submit_notice_html") {
            self.link_submit_notice_html = value;
        } else if same_text(name, "blog_post_notice_html") {
            self.blog_post_notice_html = value;
        } else if same_text(name, "post_score_text") {
            self.post_score_text = value;
        } else if same_text(name, "comment_score_text") {
            self.comment_score_text = value;
        } else if same_text(name, "message_send_notice_html") {
            self.message_send_notice_html = value;
        }
        assert(texts(*self) =~= set_text(before, name@, value@));
    }

    /// The customization that the variables `(name, value)` make, each set
    /// in turn over the empty texts.
    pub fn from_variables(vars: Vec<(String, String)>) -> (c: Customization)
        ensures
            texts(c) == apply_variables(
                Seq::new(10, |i: int| Seq::<char>::empty()),
                vars.deep_view(),
            ),
    {
        let mut c = Customization::default();
        let mut i: usize = 0;
        let ghost dv = vars.deep_view();
        while i < vars.len()
            invariant
                i <= vars@.len(),
                dv == vars.deep_view(),
                texts(c) == apply_variables(
                    Seq::new(10, |k: int| Seq::<char>::empty()),
                    dv.take(i as int),
                ),
            decreases vars.len() - i,
        {
            let (name, value) = &vars[i];
            c.set_variable(name.as_str(), value.clone());
            assert(dv.take(i + 1).drop_last() =~= dv.take(i as int));
            i += 1;
        }
        assert(dv.take(vars@.len() as int) =~= dv);
        c
    }
}

} // verus!
