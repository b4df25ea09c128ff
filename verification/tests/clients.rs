use concord::protocol::LoginCommand;
use concord::server::clients::{Client, Clients, ClientsMessage, ClientsResponse};

fn login(name: &str, key: &str) -> LoginCommand {
    LoginCommand { user_name: name.to_string(), public_key: key.to_string() }
}

fn client(name: &str, key: &str) -> Client {
    Client { user_name: name.to_string(), public_key: key.to_string() }
}

#[test]
fn new_registry_is_empty() {
    let c = Clients::new();
    assert_eq!(c.next_id(), 0);
    let d = Clients::default();
    assert_eq!(d.next_id(), 0);
}

#[test]
fn new_keys_get_consecutive_ids() {
    let mut c = Clients::new();
    assert_eq!(c.register_or_update(login("alice", "ka")), 0);
    assert_eq!(c.register_or_update(login("bob", "kb")), 1);
    assert_eq!(c.next_id(), 2);
    assert_eq!(c.get_client(0), Some(client("alice", "ka")));
    assert_eq!(c.get_client(1), Some(client("bob", "kb")));
}

#[test]
fn known_key_keeps_id_and_takes_new_name() {
    let mut c = Clients::new();
    let a = c.register_or_update(login("alice", "ka"));
    c.register_or_update(login("bob", "kb"));
    let again = c.register_or_update(login("alicia", "ka"));
    assert_eq!(a, again);
    assert_eq!(c.next_id(), 2);
    assert_eq!(c.get_client(a), Some(client("alicia", "ka")));
    assert_eq!(c.get_client(1), Some(client("bob", "kb")));
}

#[test]
fn removed_client_is_gone_and_key_gets_fresh_id() {
    let mut c = Clients::new();
    let a = c.register_or_update(login("alice", "ka"));
    let b = c.register_or_update(login("bob", "kb"));
    c.remove(a);
    assert_eq!(c.get_client(a), None);
    assert_eq!(c.get_client(b), Some(client("bob", "kb")));
    let a2 = c.register_or_update(login("alice", "ka"));
    assert_eq!(a2, 2);
    assert_eq!(c.get_client(a2), Some(client("alice", "ka")));
    assert_eq!(c.get_client(a), None);
}

#[test]
fn removing_twice_is_harmless() {
    let mut c = Clients::new();
    let a = c.register_or_update(login("alice", "ka"));
    c.remove(a);
    c.remove(a);
    assert_eq!(c.get_client(a), None);
    assert_eq!(c.next_id(), 1);
}

#[test]
fn same_name_different_keys_are_different_clients() {
    let mut c = Clients::new();
    let a = c.register_or_update(login("sam", "k1"));
    let b = c.register_or_update(login("sam", "k2"));
    assert_ne!(a, b);
}

#[test]
fn messages_are_served() {
    let mut c = Clients::new();
    assert_eq!(c.handle_message(ClientsMessage::AddOrUpdate(login("alice", "ka"))), ClientsResponse::Registered(0));
    assert_eq!(c.handle_message(ClientsMessage::AddOrUpdate(login("bob", "kb"))), ClientsResponse::Registered(1));
    assert_eq!(c.handle_message(ClientsMessage::GetClient(1)), ClientsResponse::Found(Some(client("bob", "kb"))));
    assert_eq!(c.handle_message(ClientsMessage::Remove(1)), ClientsResponse::Removed);
    assert_eq!(c.handle_message(ClientsMessage::GetClient(1)), ClientsResponse::Found(None));
    assert_eq!(c.handle_message(ClientsMessage::AddOrUpdate(login("al", "ka"))), ClientsResponse::Registered(0));
    assert_eq!(c.handle_message(ClientsMessage::GetClient(0)), ClientsResponse::Found(Some(client("al", "ka"))));
}

#[test]
fn login_survives_unrelated_operations() {
    let mut c = Clients::new();
    let a = c.register_or_update(login("alice", "ka"));
    let b = c.register_or_update(login("bob", "kb"));
    c.register_or_update(login("bobby", "kb"));
    c.remove(b);
    assert_eq!(c.register_or_update(login("carol", "kc")), 2);
    assert_eq!(c.get_client(a), Some(client("alice", "ka")));
}

#[test]
fn removed_id_stays_empty_across_many_logins() {
    let mut c = Clients::new();
    let a = c.register_or_update(login("alice", "ka"));
    c.remove(a);
    for (i, key) in ["k1", "k2", "ka", "k1", "ka"].iter().enumerate() {
        let id = c.register_or_update(login("x", key));
        assert_ne!(id, a, "login {} reused a removed id", i);
        assert_eq!(c.get_client(a), None);
    }
    assert_eq!(c.next_id(), 4);
}
