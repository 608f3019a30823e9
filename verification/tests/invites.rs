use more_interesting::invites::{invite_tree_html, InviteEntry, Invitee};

fn tree() -> Vec<InviteEntry> {
    vec![
        InviteEntry {
            invited_by: 1,
            users: vec![Invitee { id: 3, username: "cy".to_string() }],
        },
        InviteEntry {
            invited_by: 0,
            users: vec![
                Invitee { id: 1, username: "ann".to_string() },
                Invitee { id: 2, username: "b<b".to_string() },
            ],
        },
    ]
}

#[test]
fn invite_tree_nested() {
    assert_eq!(
        invite_tree_html(&tree(), true, 10),
        "<ul class=tree><li>ann<ul class=subtree><li>cy<ul class=subtree></ul></li></ul></li><li>b&lt;b<ul class=subtree></ul></li></ul>"
    );
}

#[test]
fn invite_tree_depth_and_switch() {
    assert_eq!(
        invite_tree_html(&tree(), true, 1),
        "<ul class=tree><li>ann<ul class=subtree></ul></li><li>b&lt;b<ul class=subtree></ul></li></ul>"
    );
    assert_eq!(invite_tree_html(&tree(), false, 10), "<ul class=tree></ul>");
    assert_eq!(invite_tree_html(&vec![], true, 10), "<ul class=tree></ul>");
}
