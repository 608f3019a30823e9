//! Site data held in memory: the users, tags and comments that a rendering
//! may link to.
use vstd::prelude::*;
use crate::prettify::Data;
use crate::text::same_text;

verus! {

/// The users, tags and linkable comments that a site knows, held in lists.
pub struct KnownNames {
    pub users: Vec<String>,
    pub tags: Vec<String>,
    pub comments: Vec<i32>,
}

impl KnownNames {
    /// Data that knows nothing.
    pub fn new() -> (r: KnownNames)
        ensures
            r.users@.len() == 0,
            r.tags@.len() == 0,
            r.comments@.len() == 0,
    {
        KnownNames { users: Vec::new(), tags: Vec::new(), comments: Vec::new() }
    }
}

/// Whether one of the strings of `v` is `s`.
fn holds_text(v: &Vec<String>, s: &str) -> (r: bool)
    ensures
        r == v.deep_view().contains(s@),
{
    let mut i: usize = 0;
    while i < v.len()
        invariant
            i <= v@.len(),
            forall|j: int| 0 <= j < i ==> v.deep_view()[j] != s@,
        decreases v.len() - i,
    {
        if same_text(v[i].as_str(), s) {
            assert(v.deep_view()[i as int] == s@);
            return true;
        }
        i += 1;
    }
    false
}

/// Whether `id` is one of the numbers of `v`.
fn holds_number(v: &Vec<i32>, id: i32) -> (r: bool)
    ensures
        r == v@.contains(id),
{
    let mut i: usize = 0;
    while i < v.len()
        invariant
            i <= v@.len(),
            forall|j: int| 0 <= j < i ==> v@[j] != id,
        decreases v.len() - i,
    {
        if v[i] == id {
            assert(v@[i as int] == id);
            return true;
        }
        i += 1;
    }
    false
}

impl Data for KnownNames {
    open spec fn describes_answers(&self) -> bool {
        true
    }

    open spec fn knows_user(&self, name: Seq<char>) -> bool {
        self.users.deep_view().contains(name)
    }

    open spec fn knows_tag(&self, tag: Seq<char>) -> bool {
        self.tags.deep_view().contains(tag)
    }

    open spec fn knows_comment(&self, id: i32) -> bool {
        self.comments@.contains(id)
    }

    fn check_comment_ref(&mut self, id: i32) -> (r: bool) {
        holds_number(&self.comments, id)
    }

    fn check_hash_tag(&mut self, tag: &str) -> (r: bool) {
        holds_text(&self.tags, tag)
    }

    fn check_username(&mut self, username: &str) -> (r: bool) {
        holds_text(&self.users, username)
    }
}

} // verus!
