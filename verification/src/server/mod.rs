//! The server's side of the chat: which clients are connected, and what goes
//! out to whom when one of them logs in, talks or leaves.

pub mod clients;
pub mod net;

use std::collections::HashSet;

use vstd::std_specs::hash::spec_hash_keys_iter;
use vstd::std_specs::iter::IteratorSpec;

use vstd::prelude::*;

use crate::protocol::{ClientCommand, ServerCommand};
use crate::server::clients::ClientId;

verus! {

/// A notification and the clients it goes to.
#[derive(Debug, Clone, PartialEq, Eq)]
pub struct Broadcast {
    pub recipients: Vec<ClientId>,
    pub command: ServerCommand,
}

/// What a client's command asks of the server.
#[derive(Debug, Clone, PartialEq, Eq)]
pub enum ClientAction {
    /// The client is leaving.
    Logout,
    /// The client said something to everyone else.
    SendMessage(String),
}

/// `recipients` names each client of `connected` but `excluded` exactly once,
/// and nobody else.
pub open spec fn addressed_to(recipients: Seq<ClientId>, connected: Set<ClientId>, excluded: ClientId) -> bool {
    &&& recipients.no_duplicates()
    &&& recipients.to_set() == connected.remove(excluded)
}

/// The set of connected, logged-in clients.
pub struct Server {
    connections: HashSet<ClientId>,
}

impl View for Server {
    type V = Set<ClientId>;

    closed spec fn view(&self) -> Set<ClientId> {
        self.connections@
    }
}

impl Server {
    /// A server with nobody connected.
    pub fn new() -> (s: Server)
        ensures
            s@ == Set::<ClientId>::empty(),
    {
        Server { connections: HashSet::new() }
    }

    /// Whether `client` is connected.
    pub fn is_connected(&self, client: ClientId) -> (b: bool)
        ensures
            b == self@.contains(client),
    {
        broadcast use vstd::std_specs::hash::group_hash_axioms;

        self.connections.contains(&client)
    }

    fn connect(&mut self, client: ClientId)
        ensures
            final(self)@ == old(self)@.insert(client),
    {
        broadcast use vstd::std_specs::hash::group_hash_axioms;

        self.connections.insert(client);
    }

    fn disconnect(&mut self, client: ClientId)
        ensures
            final(self)@ == old(self)@.remove(client),
    {
        broadcast use vstd::std_specs::hash::group_hash_axioms;

        self.connections.remove(&client);
    }

    /// Every connected client but `excluded`.
    pub fn recipients_except(&self, excluded: ClientId) -> (r: Vec<ClientId>)
        ensures
            addressed_to(r@, self@, excluded),
    {
        broadcast use vstd::std_specs::hash::group_hash_axioms;

        let mut r: Vec<ClientId> = Vec::new();
        let ghost keys: Seq<ClientId> = spec_hash_keys_iter(&self.connections).remaining().unref();
        for c in it: self.connections.iter()
            invariant
                it.seq().no_duplicates(),
                it.seq().unref() == keys,
                keys.to_set() == self@,
                r@.no_duplicates(),
                forall|x: ClientId| r@.contains(x) <==> (exists|j: int| 0 <= j < it.index() && keys[j] == x && x != excluded),
            ensures
                forall|x: ClientId| r@.contains(x) <==> (exists|j: int| 0 <= j < keys.len() && keys[j] == x && x != excluded),
        {
            let id: ClientId = *c;
            let ghost prev_r = r@;
            let ghost k = it.index();
            assert(keys[k] == id);
            if id != excluded {
                proof {
                    assert forall|m: int| 0 <= m < prev_r.len() implies prev_r[m] != id by {
                        assert(prev_r.contains(prev_r[m]));
                        let j = choose|j: int| 0 <= j < k && keys[j] == prev_r[m] && prev_r[m] != excluded;
                    }
                }
                r.push(id);
                proof {
                    assert forall|x: ClientId| r@.contains(x) <==> (prev_r.contains(x) || x == id) by {
                        if r@.contains(x) {
                            let m = choose|m: int| 0 <= m < r@.len() && r@[m] == x;
                            if m < prev_r.len() {
                                assert(prev_r[m] == x);
                            }
                        }
                        if prev_r.contains(x) {
                            let m = choose|m: int| 0 <= m < prev_r.len() && prev_r[m] == x;
                            assert(r@[m] == x);
                        }
                        if x == id {
                            assert(r@[prev_r.len() as int] == x);
                        }
                    }
                }
            }
            proof {
                assert forall|x: ClientId| r@.contains(x) <==> (exists|j: int| 0 <= j < k + 1 && keys[j] == x && x != excluded) by {
                    assert(prev_r.contains(x) <==> (exists|j: int| 0 <= j < k && keys[j] == x && x != excluded));
                    if x == id && id != excluded {
                        assert(keys[k] == x);
                    }
                    if exists|j: int| 0 <= j < k + 1 && keys[j] == x && x != excluded {
                        let j = choose|j: int| 0 <= j < k + 1 && keys[j] == x && x != excluded;
                        if j < k {
                            assert(prev_r.contains(x));
                        }
                    }
                }
            }
        }
        proof {
            assert forall|x: ClientId| r@.to_set().contains(x) <==> self@.remove(excluded).contains(x) by {
                if self@.contains(x) && x != excluded {
                    assert(keys.to_set().contains(x));
                    let j = choose|j: int| 0 <= j < keys.len() && keys[j] == x;
                    assert(r@.contains(x));
                }
                if r@.contains(x) {
                    let j = choose|j: int| 0 <= j < keys.len() && keys[j] == x && x != excluded;
                    assert(keys.contains(x));
                }
            }
            assert(r@.to_set() =~= self@.remove(excluded));
        }
        r
    }

    /// A client logged in: it is now connected, and every other connected
    /// client is told its name.
    pub fn login(&mut self, client: ClientId, user_name: String) -> (b: Broadcast)
        ensures
            final(self)@ == old(self)@.insert(client),
            addressed_to(b.recipients@, final(self)@, client),
            b.command == ServerCommand::UserConnected(user_name),
    {
        self.connect(client);
        let recipients = self.recipients_except(client);
        Broadcast { recipients, command: ServerCommand::UserConnected(user_name) }
    }

    /// What a client's command asks for. Calls are not offered by this
    /// server.
    pub fn handle_client_command(command: ClientCommand) -> (a: ClientAction)
        requires
            command is Logout || command is SendMessage,
        ensures
            command is Logout ==> a is Logout,
            command matches ClientCommand::SendMessage(m) ==> a == ClientAction::SendMessage(m),
    {
        match command {
            ClientCommand::Logout() => ClientAction::Logout,
            ClientCommand::SendMessage(message) => ClientAction::SendMessage(message),
            _ => {
                assert(false);
                ClientAction::Logout
            },
        }
    }

    /// `sender` said `message` at `timestamp`. If the registry still knows
    /// the sender (`sender_name`), the message goes, stamped and signed, to
    /// every other connected client; otherwise it is dropped.
    pub fn handle_send_message(
        &self,
        sender: ClientId,
        message: String,
        sender_name: Option<String>,
        timestamp: u64,
    ) -> (b: Option<Broadcast>)
        ensures
            b is Some <==> sender_name is Some,
            b is Some ==> {
                &&& addressed_to(b->0.recipients@, self@, sender)
                &&& b->0.command == ServerCommand::SendMessage(timestamp, sender_name->0, message)
            },
    {
        match sender_name {
            Some(name) => {
                let recipients = self.recipients_except(sender);
                Some(Broadcast { recipients, command: ServerCommand::SendMessage(timestamp, name, message) })
            },
            None => None,
        }
    }

    /// A client left: it is no longer connected, and if the registry still
    /// knows its name (`client_name`) every remaining client is told.
    pub fn logout(&mut self, client: ClientId, client_name: Option<String>) -> (b: Option<Broadcast>)
        ensures
            final(self)@ == old(self)@.remove(client),
            b is Some <==> client_name is Some,
            b is Some ==> {
                &&& addressed_to(b->0.recipients@, final(self)@, client)
                &&& b->0.command == ServerCommand::UserDisconnected(client_name->0)
            },
    {
        self.disconnect(client);
        match client_name {
            Some(name) => {
                let recipients = self.recipients_except(client);
                Some(Broadcast { recipients, command: ServerCommand::UserDisconnected(name) })
            },
            None => None,
        }
    }
}

/// A client that is not connected hears nothing: no broadcast is addressed
/// to it, whoever it excludes.
pub proof fn law_absent_client_hears_nothing(
    connected: Set<ClientId>,
    absent: ClientId,
    recipients: Seq<ClientId>,
    excluded: ClientId,
)
    requires
        !connected.contains(absent),
        addressed_to(recipients, connected, excluded),
    ensures
        !recipients.contains(absent),
{
    if recipients.contains(absent) {
        assert(recipients.to_set().contains(absent));
    }
}

/// Nobody is told about their own doing: a broadcast never goes back to the
/// client it is about.
pub proof fn law_no_echo(connected: Set<ClientId>, recipients: Seq<ClientId>, originator: ClientId)
    requires
        addressed_to(recipients, connected, originator),
    ensures
        !recipients.contains(originator),
{
    if recipients.contains(originator) {
        assert(recipients.to_set().contains(originator));
    }
}

/// Logging in and then out leaves the set of connected clients as it was,
/// for a client that was not connected before.
pub proof fn law_login_logout_restores(connected: Set<ClientId>, client: ClientId)
    requires
        !connected.contains(client),
    ensures
        connected.insert(client).remove(client) == connected,
{
    assert(connected.insert(client).remove(client) =~= connected);
}

} // verus!
