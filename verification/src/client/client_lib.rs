//! What a client says to the server. Putting the words on the connection is
//! left to the caller.

use vstd::prelude::*;

use crate::protocol::{ClientCommand, LoginCommand};

verus! {

/// A user of the chat: a name and a public key.
#[derive(Debug, Clone, PartialEq, Eq)]
pub struct Client {
    uname: String,
    pub_key: String,
}

impl Client {
    /// The client's user name.
    pub closed spec fn spec_uname(&self) -> Seq<char> {
        self.uname@
    }

    /// The client's public key.
    pub closed spec fn spec_pub_key(&self) -> Seq<char> {
        self.pub_key@
    }

    /// A client named `uname` holding public key `pub_key`.
    pub fn create_client(uname: String, pub_key: String) -> (c: Client)
        ensures
            c.spec_uname() == uname@,
            c.spec_pub_key() == pub_key@,
    {
        Client { uname, pub_key }
    }
}

/// The login `client` sends first: its name and public key.
pub fn log_in(client: &Client) -> (cmd: LoginCommand)
    ensures
        cmd.user_name@ == client.spec_uname(),
        cmd.public_key@ == client.spec_pub_key(),
{
    LoginCommand { user_name: client.uname.clone(), public_key: client.pub_key.clone() }
}

/// The command that sends `message` to everyone else.
#[allow(non_snake_case)]
pub fn sendMessage(message: String) -> (cmd: ClientCommand)
    ensures
        cmd == ClientCommand::SendMessage(message),
{
    ClientCommand::SendMessage(message)
}

/// The command that asks for a voice call; `message` is not sent.
#[allow(non_snake_case)]
pub fn startVoiceCall(message: String) -> (cmd: ClientCommand)
    ensures
        cmd == ClientCommand::StartVoiceCall(),
{
    ClientCommand::StartVoiceCall()
}

/// The command that asks for a video call; `message` is not sent.
#[allow(non_snake_case)]
pub fn startVideoCall(message: String) -> (cmd: ClientCommand)
    ensures
        cmd == ClientCommand::StartVideoCall(),
{
    ClientCommand::StartVideoCall()
}

} // verus!
