//! The registry of clients that have logged in: each gets a numeric id, found
//! again from its public key, until it is removed.

use vstd::prelude::*;
use vstd::hash_map::StringHashMap;

use crate::protocol::{LoginCommand, PublicKey};

verus! {

/// Index of a client in the registry.
pub type ClientId = usize;

/// What the registry knows of one client.
#[derive(Debug, Clone, PartialEq, Eq)]
pub struct Client {
    pub user_name: String,
    pub public_key: PublicKey,
}

/// A registered client as the contracts see it.
pub struct ClientView {
    pub user_name: Seq<char>,
    pub public_key: Seq<char>,
}

impl View for Client {
    type V = ClientView;

    open spec fn view(&self) -> ClientView {
        ClientView { user_name: self.user_name@, public_key: self.public_key@ }
    }
}

/// Slot `i` of `s` belongs to a live client with public key `key`.
pub open spec fn holds_key(s: Seq<Option<ClientView>>, i: int, key: Seq<char>) -> bool {
    &&& 0 <= i < s.len()
    &&& s[i] is Some
    &&& s[i]->0.public_key == key
}

/// Some live client of `s` has public key `key`.
pub open spec fn is_registered(s: Seq<Option<ClientView>>, key: Seq<char>) -> bool {
    exists|i: int| holds_key(s, i, key)
}

/// No two live clients of `s` share a public key.
pub open spec fn keys_unique(s: Seq<Option<ClientView>>) -> bool {
    forall|i: int, j: int, key: Seq<char>|
        #![trigger holds_key(s, i, key), holds_key(s, j, key)]
        holds_key(s, i, key) && holds_key(s, j, key) ==> i == j
}

/// `after` is `before` once a login with `name` and `key` has been recorded
/// under `id`: a known key keeps its id and takes the new name; a new key gets
/// the next free id.
pub open spec fn registered_as(
    before: Seq<Option<ClientView>>,
    after: Seq<Option<ClientView>>,
    name: Seq<char>,
    key: Seq<char>,
    id: int,
) -> bool {
    let entry = Some(ClientView { user_name: name, public_key: key });
    if is_registered(before, key) {
        holds_key(before, id, key) && after == before.update(id, entry)
    } else {
        id == before.len() && after == before.push(entry)
    }
}

/// One operation on the registry, as its laws see it.
pub enum RegistryOp {
    /// A login with this user name and public key.
    Login(Seq<char>, Seq<char>),
    /// Removal of a client id.
    Remove(ClientId),
    /// A lookup, which changes nothing.
    Lookup(ClientId),
}

/// The id a login with public key `key` gets in `s`: the slot that holds the
/// key, or the next free id.
pub open spec fn login_id(s: Seq<Option<ClientView>>, key: Seq<char>) -> int {
    if is_registered(s, key) {
        choose|i: int| holds_key(s, i, key)
    } else {
        s.len() as int
    }
}

/// The registry after one operation.
pub open spec fn apply_op(s: Seq<Option<ClientView>>, op: RegistryOp) -> Seq<Option<ClientView>> {
    match op {
        RegistryOp::Login(name, key) => {
            let entry = Some(ClientView { user_name: name, public_key: key });
            if is_registered(s, key) {
                s.update(login_id(s, key), entry)
            } else {
                s.push(entry)
            }
        },
        RegistryOp::Remove(id) => if id < s.len() {
            s.update(id as int, None)
        } else {
            s
        },
        RegistryOp::Lookup(_) => s,
    }
}

/// The registry after a sequence of operations, applied in order.
pub open spec fn apply_ops(s: Seq<Option<ClientView>>, ops: Seq<RegistryOp>) -> Seq<Option<ClientView>>
    decreases ops.len(),
{
    if ops.len() == 0 {
        s
    } else {
        apply_op(apply_ops(s, ops.drop_last()), ops.last())
    }
}

/// Applying one more operation after a sequence is applying the longer
/// sequence: requests served one after another compose.
pub proof fn lemma_apply_ops_push(s: Seq<Option<ClientView>>, ops: Seq<RegistryOp>, op: RegistryOp)
    ensures
        apply_ops(s, ops.push(op)) == apply_op(apply_ops(s, ops), op),
{
    assert(ops.push(op).drop_last() =~= ops);
}

/// Where keys are unique, a recorded login is the login operation, and the
/// id it got is `login_id`.
pub proof fn lemma_registered_as_is_login(
    before: Seq<Option<ClientView>>,
    after: Seq<Option<ClientView>>,
    name: Seq<char>,
    key: Seq<char>,
    id: int,
)
    requires
        keys_unique(before),
        registered_as(before, after, name, key, id),
    ensures
        id == login_id(before, key),
        after == apply_op(before, RegistryOp::Login(name, key)),
{
    if is_registered(before, key) {
        let i = choose|i: int| holds_key(before, i, key);
        assert(holds_key(before, id, key));
        assert(i == id);
    }
}

/// The registry. Slot `i` holds client `i`, or nothing once it was removed;
/// ids are never reused.
pub struct Clients {
    public_key: Vec<Option<PublicKey>>,
    user_name: Vec<Option<String>>,
    id_by_public_key: StringHashMap<ClientId>,
}

impl View for Clients {
    type V = Seq<Option<ClientView>>;

    closed spec fn view(&self) -> Seq<Option<ClientView>> {
        Seq::new(self.public_key.len() as nat, |i: int| self.slot(i))
    }
}

impl Clients {
    closed spec fn slot(&self, i: int) -> Option<ClientView> {
        match (self.user_name@[i], self.public_key@[i]) {
            (Some(n), Some(k)) => Some(ClientView { user_name: n@, public_key: k@ }),
            _ => None,
        }
    }

    /// The two columns agree, and the key index maps exactly the live keys to
    /// their slots.
    pub closed spec fn wf(&self) -> bool {
        &&& self.public_key.len() == self.user_name.len()
        &&& forall|i: int|
            0 <= i < self.public_key.len() ==> (#[trigger] self.public_key@[i] is Some
                <==> self.user_name@[i] is Some)
        &&& forall|i: int|
            0 <= i < self.public_key.len() && #[trigger] self.public_key@[i] is Some ==> {
                &&& self.id_by_public_key@.contains_key(self.public_key@[i]->0@)
                &&& self.id_by_public_key@[self.public_key@[i]->0@] == i
            }
        &&& forall|k: Seq<char>| #[trigger]
            self.id_by_public_key@.contains_key(k) ==> {
                let i = self.id_by_public_key@[k] as int;
                &&& 0 <= i < self.public_key.len()
                &&& self.public_key@[i] is Some
                &&& self.public_key@[i]->0@ == k
            }
    }

    proof fn lemma_view(&self)
        requires
            self.wf(),
        ensures
            self@.len() == self.public_key.len(),
            forall|i: int|
                0 <= i < self@.len() ==> (#[trigger] self@[i] is Some <==> self.public_key@[i] is Some),
            forall|i: int|
                0 <= i < self@.len() && #[trigger] self@[i] is Some ==> self@[i]->0.public_key
                    == self.public_key@[i]->0@ && self@[i]->0.user_name
                    == self.user_name@[i]->0@,
    {
    }

    proof fn lemma_key_lookup(&self, key: Seq<char>)
        requires
            self.wf(),
        ensures
            is_registered(self@, key) <==> self.id_by_public_key@.contains_key(key),
            self.id_by_public_key@.contains_key(key) ==> holds_key(
                self@,
                self.id_by_public_key@[key] as int,
                key,
            ),
    {
        self.lemma_view();
        if is_registered(self@, key) {
            let i = choose|i: int| holds_key(self@, i, key);
            assert(self.public_key@[i] is Some);
        }
        if self.id_by_public_key@.contains_key(key) {
            let i = self.id_by_public_key@[key] as int;
            assert(self.public_key@[i] is Some);
            assert(holds_key(self@, i, key));
        }
    }

    /// An empty registry.
    pub fn new() -> (c: Clients)
        ensures
            c.wf(),
            c@ == Seq::<Option<ClientView>>::empty(),
    {
        let c = Clients {
            public_key: Vec::new(),
            user_name: Vec::new(),
            id_by_public_key: StringHashMap::new(),
        };
        assert(c@ =~= Seq::<Option<ClientView>>::empty());
        c
    }

    /// The id the next new client will get.
    pub fn next_id(&self) -> (id: ClientId)
        requires
            self.wf(),
        ensures
            id == self@.len(),
    {
        self.public_key.len()
    }

    /// Records a login: a public key seen before keeps its id and takes the
    /// new user name; a new key gets the next id.
    pub fn register_or_update(&mut self, login_data: LoginCommand) -> (id: ClientId)
        requires
            old(self).wf(),
        ensures
            final(self).wf(),
            registered_as(
                old(self)@,
                final(self)@,
                login_data.user_name@,
                login_data.public_key@,
                id as int,
            ),
            id == login_id(old(self)@, login_data.public_key@),
            final(self)@ == apply_op(
                old(self)@,
                RegistryOp::Login(login_data.user_name@, login_data.public_key@),
            ),
    {
        let LoginCommand { user_name, public_key } = login_data;
        proof {
            self.lemma_view();
            self.lemma_key_lookup(public_key@);
            self.lemma_registered_keys_unique();
        }
        let ghost name_view = user_name@;
        let ghost key_view = public_key@;
        let ghost before = self@;
        let ghost entry = Some(ClientView { user_name: user_name@, public_key: public_key@ });
        let id = match self.id_by_public_key.get(public_key.as_str()) {
            Some(found) => {
                let old_id: ClientId = *found;
                self.user_name[old_id] = Some(user_name);
                proof {
                    assert(self.public_key@[old_id as int] is Some);
                    assert forall|i: int| 0 <= i < self.public_key.len() implies
                        #[trigger] self@[i] == before.update(old_id as int, entry)[i] by {
                    }
                    assert(self@ =~= before.update(old_id as int, entry));
                }
                old_id
            },
            None => {
                let id = self.public_key.len();
                let ghost old_pk = self.public_key@;
                let ghost old_index = self.id_by_public_key@;
                self.public_key.push(Some(public_key.clone()));
                self.user_name.push(Some(user_name));
                self.id_by_public_key.insert(public_key, id);
                proof {
                    assert forall|i: int| 0 <= i < self.public_key.len() implies
                        #[trigger] self@[i] == before.push(entry)[i] by {
                        if i < id {
                            assert(self.public_key@[i] == old_pk[i]);
                        }
                    }
                    assert(self@ =~= before.push(entry));
                    assert forall|i: int|
                        0 <= i < self.public_key.len() && #[trigger] self.public_key@[i] is Some implies {
                        &&& self.id_by_public_key@.contains_key(self.public_key@[i]->0@)
                        &&& self.id_by_public_key@[self.public_key@[i]->0@] == i
                    } by {
                        if i < id {
                            assert(old_pk[i] is Some);
                            assert(old_index.contains_key(old_pk[i]->0@));
                        }
                    }
                }
                id
            },
        };
        proof {
            lemma_registered_as_is_login(before, self@, name_view, key_view, id as int);
        }
        id
    }

    /// Forgets client `client`: its slot becomes empty and its key unknown.
    pub fn remove(&mut self, client: ClientId)
        requires
            old(self).wf(),
            client < old(self)@.len(),
        ensures
            final(self).wf(),
            final(self)@ == old(self)@.update(client as int, None),
            final(self)@ == apply_op(old(self)@, RegistryOp::Remove(client)),
    {
        proof {
            self.lemma_view();
        }
        let ghost before = self@;
        let ghost old_pk = self.public_key@;
        let ghost old_index = self.id_by_public_key@;
        if let Some(public_key) = &self.public_key[client] {
            self.id_by_public_key.remove(public_key.as_str());
        }
        self.public_key[client] = None;
        self.user_name[client] = None;
        proof {
            assert forall|i: int| 0 <= i < self.public_key.len() implies
                #[trigger] self@[i] == before.update(client as int, None)[i] by {
                if i != client {
                    assert(self.public_key@[i] == old_pk[i]);
                }
            }
            assert(self@ =~= before.update(client as int, None));
            assert forall|i: int|
                0 <= i < self.public_key.len() && #[trigger] self.public_key@[i] is Some implies {
                &&& self.id_by_public_key@.contains_key(self.public_key@[i]->0@)
                &&& self.id_by_public_key@[self.public_key@[i]->0@] == i
            } by {
                assert(old_pk[i] is Some);
                assert(old_index.contains_key(old_pk[i]->0@));
                assert(old_index[old_pk[i]->0@] == i);
            }
            assert forall|k: Seq<char>| #[trigger] self.id_by_public_key@.contains_key(k) implies {
                let i = self.id_by_public_key@[k] as int;
                &&& 0 <= i < self.public_key.len()
                &&& self.public_key@[i] is Some
                &&& self.public_key@[i]->0@ == k
            } by {
                assert(old_index.contains_key(k));
            }
        }
    }

    /// The client in slot `id`, if it is still registered.
    pub fn get_client(&self, id: ClientId) -> (c: Option<Client>)
        requires
            self.wf(),
            id < self@.len(),
        ensures
            c is Some <==> self@[id as int] is Some,
            c is Some ==> c->0@ == self@[id as int]->0,
    {
        proof {
            self.lemma_view();
        }
        match (&self.user_name[id], &self.public_key[id]) {
            (Some(user_name), Some(public_key)) => Some(
                Client { user_name: user_name.clone(), public_key: public_key.clone() },
            ),
            _ => None,
        }
    }
}


impl Default for Clients {
    fn default() -> (c: Clients)
        ensures
            c.wf(),
            c@ == Seq::<Option<ClientView>>::empty(),
    {
        Clients::new()
    }
}

/// A request to the registry.
#[derive(Debug, Clone, PartialEq, Eq)]
pub enum ClientsMessage {
    /// Record a login; answered with the client's id.
    AddOrUpdate(LoginCommand),
    /// Forget a client.
    Remove(ClientId),
    /// Look a client up.
    GetClient(ClientId),
}

/// The registry's answer to a [`ClientsMessage`].
#[derive(Debug, Clone, PartialEq, Eq)]
pub enum ClientsResponse {
    Registered(ClientId),
    Removed,
    Found(Option<Client>),
}

impl ClientsMessage {
    /// The registry can serve this request: an id it names is one the
    /// registry has handed out.
    pub open spec fn valid_for(self, clients: Seq<Option<ClientView>>) -> bool {
        match self {
            ClientsMessage::AddOrUpdate(_) => true,
            ClientsMessage::Remove(id) => id < clients.len(),
            ClientsMessage::GetClient(id) => id < clients.len(),
        }
    }

    /// The registry operation this request performs.
    pub open spec fn op(self) -> RegistryOp {
        match self {
            ClientsMessage::AddOrUpdate(login) => RegistryOp::Login(
                login.user_name@,
                login.public_key@,
            ),
            ClientsMessage::Remove(id) => RegistryOp::Remove(id),
            ClientsMessage::GetClient(id) => RegistryOp::Lookup(id),
        }
    }
}

impl Clients {
    /// Serves one request, as the registry's task does for each message it
    /// receives.
    pub fn handle_message(&mut self, msg: ClientsMessage) -> (r: ClientsResponse)
        requires
            old(self).wf(),
            msg.valid_for(old(self)@),
        ensures
            final(self).wf(),
            final(self)@ == apply_op(old(self)@, msg.op()),
            match msg {
                ClientsMessage::AddOrUpdate(login) => r matches ClientsResponse::Registered(id)
                    && id == login_id(old(self)@, login.public_key@) && registered_as(
                    old(self)@,
                    final(self)@,
                    login.user_name@,
                    login.public_key@,
                    id as int,
                ),
                ClientsMessage::Remove(id) => r is Removed && final(self)@ == old(self)@.update(
                    id as int,
                    None,
                ),
                ClientsMessage::GetClient(id) => final(self)@ == old(self)@ && (r matches ClientsResponse::Found(c)
                    && (c is Some <==> old(self)@[id as int] is Some) && (c is Some ==> c->0@
                    == old(self)@[id as int]->0)),
            },
    {
        match msg {
            ClientsMessage::AddOrUpdate(login_data) => {
                let id = self.register_or_update(login_data);
                ClientsResponse::Registered(id)
            },
            ClientsMessage::Remove(client) => {
                self.remove(client);
                ClientsResponse::Removed
            },
            ClientsMessage::GetClient(id) => ClientsResponse::Found(self.get_client(id)),
        }
    }

    /// No two registered clients share a public key.
    pub proof fn lemma_registered_keys_unique(&self)
        requires
            self.wf(),
        ensures
            keys_unique(self@),
    {
        self.lemma_view();
        assert forall|i: int, j: int, key: Seq<char>|
            holds_key(self@, i, key) && holds_key(self@, j, key) implies i == j by {
            assert(self.public_key@[i] is Some);
            assert(self.public_key@[j] is Some);
        }
    }
}

/// What a login records can be read back: the client under the returned id
/// is the one that logged in.
pub proof fn law_login_then_lookup(
    before: Seq<Option<ClientView>>,
    after: Seq<Option<ClientView>>,
    name: Seq<char>,
    key: Seq<char>,
    id: int,
)
    requires
        registered_as(before, after, name, key, id),
    ensures
        0 <= id < after.len(),
        after[id] == Some(ClientView { user_name: name, public_key: key }),
        holds_key(after, id, key),
{
}

/// Logging in leaves every other client as it was.
pub proof fn law_login_keeps_others(
    before: Seq<Option<ClientView>>,
    after: Seq<Option<ClientView>>,
    name: Seq<char>,
    key: Seq<char>,
    id: int,
    other: int,
)
    requires
        registered_as(before, after, name, key, id),
        0 <= other < before.len(),
        other != id,
    ensures
        after[other] == before[other],
{
}

/// Logging in twice with the same public key gives the same id both times,
/// and the second login only changes the name.
pub proof fn law_login_idempotent_on_key(
    s0: Seq<Option<ClientView>>,
    s1: Seq<Option<ClientView>>,
    s2: Seq<Option<ClientView>>,
    name1: Seq<char>,
    name2: Seq<char>,
    key: Seq<char>,
    id1: int,
    id2: int,
)
    requires
        keys_unique(s0),
        registered_as(s0, s1, name1, key, id1),
        registered_as(s1, s2, name2, key, id2),
    ensures
        id1 == id2,
        s2.len() == s1.len(),
        s2 == s1.update(id1, Some(ClientView { user_name: name2, public_key: key })),
{
    assert(holds_key(s1, id1, key));
    if id1 != id2 {
        if is_registered(s0, key) {
            assert(holds_key(s0, id2, key));
            assert(holds_key(s0, id1, key));
        } else {
            assert(s1[id2] == s0[id2]);
            assert(holds_key(s0, id2, key));
        }
    }
}

/// Clients with different public keys get different ids.
pub proof fn law_distinct_keys_distinct_ids(
    s0: Seq<Option<ClientView>>,
    s1: Seq<Option<ClientView>>,
    s2: Seq<Option<ClientView>>,
    name1: Seq<char>,
    name2: Seq<char>,
    key1: Seq<char>,
    key2: Seq<char>,
    id1: int,
    id2: int,
)
    requires
        key1 != key2,
        registered_as(s0, s1, name1, key1, id1),
        registered_as(s1, s2, name2, key2, id2),
    ensures
        id1 != id2,
        s2[id1] == Some(ClientView { user_name: name1, public_key: key1 }),
{
    assert(holds_key(s1, id1, key1));
}

/// A removed client is gone for good: the lookup finds nothing, its key is no
/// longer known, and logging in again with that key gives a new id.
pub proof fn law_remove_then_login(
    s0: Seq<Option<ClientView>>,
    s1: Seq<Option<ClientView>>,
    s2: Seq<Option<ClientView>>,
    id: int,
    key: Seq<char>,
    name: Seq<char>,
    new_id: int,
)
    requires
        keys_unique(s0),
        holds_key(s0, id, key),
        s1 == s0.update(id, None),
        registered_as(s1, s2, name, key, new_id),
    ensures
        s1[id] is None,
        !is_registered(s1, key),
        new_id == s0.len(),
        new_id != id,
{
    if is_registered(s1, key) {
        let j = choose|j: int| holds_key(s1, j, key);
        assert(holds_key(s0, j, key));
    }
}

/// Every operation keeps public keys unique, and never shrinks the registry.
pub proof fn lemma_op_keeps_keys_unique(s: Seq<Option<ClientView>>, op: RegistryOp)
    requires
        keys_unique(s),
    ensures
        keys_unique(apply_op(s, op)),
        apply_op(s, op).len() >= s.len(),
{
    let t = apply_op(s, op);
    match op {
        RegistryOp::Login(name, key) => {
            if is_registered(s, key) {
                let id = login_id(s, key);
                assert(holds_key(s, id, key));
                assert forall|i: int, j: int, k: Seq<char>|
                    holds_key(t, i, k) && holds_key(t, j, k) implies i == j by {
                    if i != id {
                        assert(holds_key(s, i, k));
                    }
                    if j != id {
                        assert(holds_key(s, j, k));
                    }
                }
            } else {
                assert forall|i: int, j: int, k: Seq<char>|
                    holds_key(t, i, k) && holds_key(t, j, k) implies i == j by {
                    if i < s.len() {
                        assert(holds_key(s, i, k));
                    }
                    if j < s.len() {
                        assert(holds_key(s, j, k));
                    }
                }
            }
        },
        RegistryOp::Remove(id) => {
            assert forall|i: int, j: int, k: Seq<char>|
                holds_key(t, i, k) && holds_key(t, j, k) implies i == j by {
                assert(holds_key(s, i, k));
                assert(holds_key(s, j, k));
            }
        },
        RegistryOp::Lookup(_) => {},
    }
}

/// Any sequence of operations keeps public keys unique, and never shrinks the
/// registry.
pub proof fn lemma_ops_keep_keys_unique(s: Seq<Option<ClientView>>, ops: Seq<RegistryOp>)
    requires
        keys_unique(s),
    ensures
        keys_unique(apply_ops(s, ops)),
        apply_ops(s, ops).len() >= s.len(),
    decreases ops.len(),
{
    if ops.len() > 0 {
        lemma_ops_keep_keys_unique(s, ops.drop_last());
        lemma_op_keeps_keys_unique(apply_ops(s, ops.drop_last()), ops.last());
    }
}

/// `op` neither removes `id` nor logs in again with `key`.
pub open spec fn leaves_login(op: RegistryOp, id: int, key: Seq<char>) -> bool {
    match op {
        RegistryOp::Login(_, k) => k != key,
        RegistryOp::Remove(j) => j != id,
        RegistryOp::Lookup(_) => true,
    }
}

/// A login's record stays readable under its id across any later
/// operations, until that id is removed or the same key logs in again.
pub proof fn law_login_persists(
    s: Seq<Option<ClientView>>,
    name: Seq<char>,
    key: Seq<char>,
    ops: Seq<RegistryOp>,
)
    requires
        keys_unique(s),
        forall|k: int| 0 <= k < ops.len() ==> leaves_login(#[trigger] ops[k], login_id(s, key), key),
    ensures
        ({
            let id = login_id(s, key);
            let after = apply_ops(apply_op(s, RegistryOp::Login(name, key)), ops);
            &&& 0 <= id < after.len()
            &&& after[id] == Some(ClientView { user_name: name, public_key: key })
        }),
    decreases ops.len(),
{
    let id = login_id(s, key);
    let s1 = apply_op(s, RegistryOp::Login(name, key));
    let entry = Some(ClientView { user_name: name, public_key: key });
    if is_registered(s, key) {
        assert(holds_key(s, id, key));
    }
    lemma_op_keeps_keys_unique(s, RegistryOp::Login(name, key));
    if ops.len() > 0 {
        let prefix = ops.drop_last();
        assert forall|k: int| 0 <= k < prefix.len() implies leaves_login(#[trigger] prefix[k], id, key) by {
            assert(prefix[k] == ops[k]);
        }
        law_login_persists(s, name, key, prefix);
        lemma_ops_keep_keys_unique(s1, prefix);
        let t = apply_ops(s1, prefix);
        let op = ops.last();
        assert(leaves_login(ops[ops.len() - 1], id, key));
        match op {
            RegistryOp::Login(n2, k2) => {
                if is_registered(t, k2) {
                    let i = login_id(t, k2);
                    assert(holds_key(t, i, k2));
                    assert(i != id);
                }
            },
            _ => {},
        }
    }
}

/// Logging in where slot `id` is empty never hands out `id`.
proof fn lemma_login_skips_empty_slot(s: Seq<Option<ClientView>>, id: int, key: Seq<char>)
    requires
        0 <= id < s.len(),
        s[id] is None,
    ensures
        login_id(s, key) != id,
{
    if is_registered(s, key) {
        assert(holds_key(s, login_id(s, key), key));
    }
}

/// An empty slot stays empty across any later operations, and no later
/// login is handed its id: ids of removed clients are never reused.
pub proof fn law_removed_id_stays_empty(s: Seq<Option<ClientView>>, id: int, ops: Seq<RegistryOp>)
    requires
        0 <= id < s.len(),
        s[id] is None,
    ensures
        id < apply_ops(s, ops).len(),
        apply_ops(s, ops)[id] is None,
        forall|k: int|
            #![trigger ops[k]]
            0 <= k < ops.len() ==> (ops[k] matches RegistryOp::Login(_, key) ==> login_id(
                apply_ops(s, ops.take(k)),
                key,
            ) != id),
    decreases ops.len(),
{
    if ops.len() > 0 {
        let prefix = ops.drop_last();
        law_removed_id_stays_empty(s, id, prefix);
        let t = apply_ops(s, prefix);
        match ops.last() {
            RegistryOp::Login(_, key) => {
                lemma_login_skips_empty_slot(t, id, key);
            },
            _ => {},
        }
        assert forall|k: int|
            #![trigger ops[k]]
            0 <= k < ops.len() implies (ops[k] matches RegistryOp::Login(_, key) ==> login_id(
                apply_ops(s, ops.take(k)),
                key,
            ) != id) by {
            if k < prefix.len() {
                assert(ops.take(k) =~= prefix.take(k));
                assert(prefix[k] == ops[k]);
            } else {
                assert(ops.take(k) =~= prefix);
                if let RegistryOp::Login(_, key) = ops[k] {
                    lemma_login_skips_empty_slot(t, id, key);
                }
            }
        }
    }
}

/// Removing a client empties its slot for good: whatever follows, the id
/// stays empty and is never handed to a later login.
pub proof fn law_remove_is_final(s: Seq<Option<ClientView>>, id: ClientId, ops: Seq<RegistryOp>)
    requires
        id < s.len(),
    ensures
        ({
            let s1 = apply_op(s, RegistryOp::Remove(id));
            &&& apply_ops(s1, ops)[id as int] is None
            &&& forall|k: int|
                #![trigger ops[k]]
                0 <= k < ops.len() ==> (ops[k] matches RegistryOp::Login(_, key) ==> login_id(
                    apply_ops(s1, ops.take(k)),
                    key,
                ) != id)
        }),
{
    law_removed_id_stays_empty(apply_op(s, RegistryOp::Remove(id)), id as int, ops);
}

} // verus!
