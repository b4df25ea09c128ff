use concord::client::client_lib::{log_in, sendMessage, startVideoCall, startVoiceCall, Client};
use concord::protocol::{ClientCommand, LoginCommand};

#[test]
fn login_carries_name_and_key() {
    let c = Client::create_client("Sascha".to_string(), "ssh-ed25519 AAAA".to_string());
    assert_eq!(
        log_in(&c),
        LoginCommand { user_name: "Sascha".to_string(), public_key: "ssh-ed25519 AAAA".to_string() }
    );
}

#[test]
fn commands_for_the_server() {
    assert_eq!(sendMessage("hello".to_string()), ClientCommand::SendMessage("hello".to_string()));
    assert_eq!(startVoiceCall("x".to_string()), ClientCommand::StartVoiceCall());
    assert_eq!(startVideoCall("y".to_string()), ClientCommand::StartVideoCall());
}
