use more_interesting::accounts::{
    comment_posted_message, login_outcome, may_send_message, message_recipients,
    new_account_trust, new_password_allowed, notification_recipients, signup_gate,
    username_allowed, MessageRefusal, SignupGate,
};

#[test]
fn signup_rules() {
    assert!(username_allowed("ann"));
    assert!(!username_allowed(""));
    assert!(!username_allowed("anonymous"));
    assert!(username_allowed("anonymous2"));
    assert_eq!(signup_gate(true, false), SignupGate::UseInvite);
    assert_eq!(signup_gate(false, true), SignupGate::Public);
    assert_eq!(signup_gate(false, false), SignupGate::Refused);
    assert_eq!(new_account_trust(true, true, Some((false, 3)), Some(3)), Some(-2));
    assert_eq!(new_account_trust(false, true, Some((true, 0)), Some(3)), Some(-2));
    assert_eq!(new_account_trust(false, true, Some((false, -2)), None), Some(-2));
    assert_eq!(new_account_trust(false, true, Some((false, 1)), Some(3)), None);
    assert_eq!(new_account_trust(false, true, None, Some(3)), None);
    assert_eq!(new_account_trust(false, false, None, Some(2)), Some(1));
    assert_eq!(new_account_trust(false, false, None, Some(1)), None);
    assert_eq!(new_account_trust(false, false, None, None), None);
}

#[test]
fn login_and_messages() {
    assert_eq!(login_outcome(1, false), (false, true));
    assert_eq!(login_outcome(-2, false), (true, true));
    assert_eq!(login_outcome(3, true), (true, false));
    assert_eq!(may_send_message(1, false), Err(MessageRefusal::NotTrusted));
    assert_eq!(may_send_message(2, true), Err(MessageRefusal::Banned));
    assert_eq!(may_send_message(2, false), Ok(()));
    assert_eq!(message_recipients("ann, bob,,cy "), vec!["ann", "bob", "cy"]);
    assert!(new_password_allowed("x"));
    assert!(!new_password_allowed(""));
}

#[test]
fn comment_notifications() {
    assert_eq!(notification_recipients(&vec![1, 2, 3, 2], 2), vec![1, 3]);
    assert_eq!(notification_recipients(&vec![], 2), Vec::<i32>::new());
    assert_eq!(comment_posted_message(true), "Your comment has been posted");
    assert_eq!(
        comment_posted_message(false),
        "Your comment will be posted after a mod gets a chance to look at it"
    );
}
