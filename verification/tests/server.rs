use concord::protocol::{ClientCommand, ServerCommand};
use concord::server::{ClientAction, Server};

fn sorted(mut v: Vec<usize>) -> Vec<usize> {
    v.sort();
    v
}

#[test]
fn first_login_tells_nobody() {
    let mut s = Server::new();
    let b = s.login(0, "alice".to_string());
    assert!(b.recipients.is_empty());
    assert_eq!(b.command, ServerCommand::UserConnected("alice".to_string()));
    assert!(s.is_connected(0));
}

#[test]
fn login_is_announced_to_the_others() {
    let mut s = Server::new();
    s.login(0, "alice".to_string());
    s.login(1, "bob".to_string());
    let b = s.login(2, "carol".to_string());
    assert_eq!(sorted(b.recipients), vec![0, 1]);
    assert_eq!(b.command, ServerCommand::UserConnected("carol".to_string()));
}

#[test]
fn relogin_does_not_duplicate() {
    let mut s = Server::new();
    s.login(0, "alice".to_string());
    s.login(1, "bob".to_string());
    let b = s.login(0, "alice".to_string());
    assert_eq!(b.recipients, vec![1]);
    assert_eq!(s.recipients_except(7).len(), 2);
}

#[test]
fn message_goes_to_everyone_else_with_name_and_time() {
    let mut s = Server::new();
    s.login(0, "alice".to_string());
    s.login(1, "bob".to_string());
    s.login(2, "carol".to_string());
    let b = s
        .handle_send_message(1, "hi".to_string(), Some("bob".to_string()), 1_700_000_000)
        .unwrap();
    assert_eq!(sorted(b.recipients), vec![0, 2]);
    assert_eq!(
        b.command,
        ServerCommand::SendMessage(1_700_000_000, "bob".to_string(), "hi".to_string())
    );
}

#[test]
fn message_from_unknown_sender_is_dropped() {
    let mut s = Server::new();
    s.login(0, "alice".to_string());
    assert_eq!(s.handle_send_message(0, "hi".to_string(), None, 5), None);
}

#[test]
fn logout_disconnects_and_tells_the_rest() {
    let mut s = Server::new();
    s.login(0, "alice".to_string());
    s.login(1, "bob".to_string());
    s.login(2, "carol".to_string());
    let b = s.logout(1, Some("bob".to_string())).unwrap();
    assert_eq!(sorted(b.recipients), vec![0, 2]);
    assert_eq!(b.command, ServerCommand::UserDisconnected("bob".to_string()));
    assert!(!s.is_connected(1));
    let later = s.handle_send_message(0, "x".to_string(), Some("alice".to_string()), 1).unwrap();
    assert_eq!(later.recipients, vec![2]);
}

#[test]
fn logout_of_unknown_name_is_silent() {
    let mut s = Server::new();
    s.login(0, "alice".to_string());
    s.login(1, "bob".to_string());
    assert_eq!(s.logout(1, None), None);
    assert!(!s.is_connected(1));
    assert!(s.is_connected(0));
}

#[test]
fn commands_map_to_actions() {
    assert_eq!(Server::handle_client_command(ClientCommand::Logout()), ClientAction::Logout);
    assert_eq!(
        Server::handle_client_command(ClientCommand::SendMessage("yo".to_string())),
        ClientAction::SendMessage("yo".to_string())
    );
}
