//! The tree of who invited whom, as nested HTML lists.
use vstd::prelude::*;
use crate::html::{escape_into, escape_spec};
use crate::text::push_str;

verus! {

/// A user as the invite tree shows them.
pub struct Invitee {
    pub id: i32,
    pub username: String,
}

/// The users that one user invited, in order.
pub struct InviteEntry {
    pub invited_by: i32,
    pub users: Vec<Invitee>,
}

impl View for Invitee {
    type V = (i32, Seq<char>);

    open spec fn view(&self) -> (i32, Seq<char>) {
        (self.id, self.username@)
    }
}

impl View for InviteEntry {
    type V = (i32, Seq<(i32, Seq<char>)>);

    open spec fn view(&self) -> (i32, Seq<(i32, Seq<char>)>) {
        (self.invited_by, self.users@.map_values(|u: Invitee| u@))
    }
}

/// The users invited by `id`: those of the first entry for `id`.
pub open spec fn invited_by(tree: Seq<(i32, Seq<(i32, Seq<char>)>)>, id: i32) -> Option<
    Seq<(i32, Seq<char>)>,
>
    decreases tree.len(),
{
    if tree.len() == 0 {
        None
    } else if tree[0].0 == id {
        Some(tree[0].1)
    } else {
        invited_by(tree.drop_first(), id)
    }
}

/// The list items of the users invited by `id`, each followed by the list
/// of those they invited, down to `depth` levels.
pub open spec fn subtree_html(tree: Seq<(i32, Seq<(i32, Seq<char>)>)>, id: i32, depth: nat) -> Seq<
    char,
>
    decreases depth, 0nat,
{
    if depth == 0 {
        seq![]
    } else {
        match invited_by(tree, id) {
            None => seq![],
            Some(users) => users_html(tree, users, (depth - 1) as nat),
        }
    }
}

/// The list items of `users`, each with the list of those they invited.
pub open spec fn users_html(
    tree: Seq<(i32, Seq<(i32, Seq<char>)>)>,
    users: Seq<(i32, Seq<char>)>,
    depth: nat,
) -> Seq<char>
    decreases depth, users.len() + 1,
{
    if users.len() == 0 {
        seq![]
    } else {
        users_html(tree, users.drop_last(), depth) + "<li>"@ + escape_spec(users.last().1)
            + "<ul class=subtree>"@ + subtree_html(tree, users.last().0, depth) + "</ul></li>"@
    }
}

fn lookup(tree: &Vec<InviteEntry>, id: i32) -> (r: Option<&Vec<Invitee>>)
    ensures
        match invited_by(tree@.map_values(|e: InviteEntry| e@), id) {
            None => r is None,
            Some(us) => r matches Some(v) && v@.map_values(|u: Invitee| u@) == us,
        },
{
    let ghost t = tree@.map_values(|e: InviteEntry| e@);
    let mut i: usize = 0;
    assert(t.skip(0) =~= t);
    while i < tree.len()
        invariant
            t == tree@.map_values(|e: InviteEntry| e@),
            i <= tree@.len(),
            invited_by(t, id) == invited_by(t.skip(i as int), id),
        decreases tree.len() - i,
    {
        assert(t.skip(i as int).drop_first() =~= t.skip(i + 1));
        assert(t.skip(i as int)[0] == t[i as int]);
        if tree[i].invited_by == id {
            return Some(&tree[i].users);
        }
        i += 1;
    }
    assert(t.skip(i as int) =~= Seq::<(i32, Seq<(i32, Seq<char>)>)>::empty());
    None
}

fn write_subtree(out: &mut String, tree: &Vec<InviteEntry>, id: i32, depth: usize)
    ensures
        final(out)@ == old(out)@ + subtree_html(
            tree@.map_values(|e: InviteEntry| e@),
            id,
            depth as nat,
        ),
    decreases depth, 0nat,
{
    if depth == 0 {
        return;
    }
    match lookup(tree, id) {
        None => {},
        Some(users) => {
            write_users(out, tree, users, users.len(), depth - 1);
            assert(users@.map_values(|u: Invitee| u@).take(users@.len() as int) =~= users@.map_values(
                |u: Invitee| u@,
            ));
        },
    }
}

fn write_users(out: &mut String, tree: &Vec<InviteEntry>, users: &Vec<Invitee>, n: usize, depth: usize)
    requires
        n <= users@.len(),
    ensures
        final(out)@ == old(out)@ + users_html(
            tree@.map_values(|e: InviteEntry| e@),
            users@.map_values(|u: Invitee| u@).take(n as int),
            depth as nat,
        ),
    decreases depth, n + 1,
{
    if n == 0 {
        return;
    }
    let ghost us = users@.map_values(|u: Invitee| u@);
    write_users(out, tree, users, n - 1, depth);
    assert(us.take(n as int).drop_last() =~= us.take(n - 1));
    let u = &users[n - 1];
    push_str(out, "<li>");
    escape_into(u.username.as_str(), out);
    push_str(out, "<ul class=subtree>");
    write_subtree(out, tree, u.id, depth);
    push_str(out, "</ul></li>");
}

/// The invite tree page's list: the users invited by nobody (id 0) and,
/// below each, those they invited, down to `depth` levels; empty when the
/// user directory is turned off.
pub fn invite_tree_html(tree: &Vec<InviteEntry>, enabled: bool, depth: usize) -> (r: String)
    ensures
        r@ == "<ul class=tree>"@ + (if enabled {
            subtree_html(tree@.map_values(|e: InviteEntry| e@), 0, depth as nat)
        } else {
            Seq::<char>::empty()
        }) + "</ul>"@,
{
    let mut out = String::new();
    push_str(&mut out, "<ul class=tree>");
    if enabled {
        write_subtree(&mut out, tree, 0, depth);
    }
    push_str(&mut out, "</ul>");
    out
}

} // verus!
