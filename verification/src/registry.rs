//! The client registry: who is authenticated, under which name, and on
//! which connection.
//!
//! The registry is a mapping from hardware id to client with at most one
//! entry for an id. Authenticating again under an id that is registered
//! replaces the entry: the last authentication wins, and the entry it
//! replaced is handed back so that its connection can be closed.

use crate::error::SerializerError;
use crate::frame::{encoded, encoding_view};
use crate::protocols::server::ServerMessage;
use vstd::prelude::*;
use vstd::utf8::{encode_utf8, encode_utf8_decode_utf8};

verus! {

/// An authenticated client.
#[derive(Debug, Clone, PartialEq, Eq, Hash)]
pub struct Client {
    /// The connection the client is on. The registry never looks inside it.
    pub connection_id: u64,
    /// The name the client is shown under.
    pub name: String,
    /// The hardware id the client authenticated with: the key of its entry.
    pub hwid: String,
    /// The token minted for this connection. It changes on every reconnect.
    pub session_token: String,
}

/// What a `Client` stands for.
pub struct ClientView {
    pub connection_id: u64,
    pub name: Seq<char>,
    pub hwid: Seq<char>,
    pub session_token: Seq<char>,
}

impl View for Client {
    type V = ClientView;

    open spec fn view(&self) -> ClientView {
        ClientView {
            connection_id: self.connection_id,
            name: self.name@,
            hwid: self.hwid@,
            session_token: self.session_token@,
        }
    }
}

impl Client {
    pub fn new(connection_id: u64, name: String, hwid: String, session_token: String) -> (client:
        Self)
        ensures
            client.connection_id == connection_id,
            client.name == name,
            client.hwid == hwid,
            client.session_token == session_token,
    {
        Self { connection_id, name, hwid, session_token }
    }

    /// A copy of the client.
    pub fn duplicate(&self) -> (copy: Self)
        ensures
            copy@ == self@,
    {
        Self {
            connection_id: self.connection_id,
            name: self.name.clone(),
            hwid: self.hwid.clone(),
            session_token: self.session_token.clone(),
        }
    }
}

/// Whether two strings hold the same text.
pub fn same_text(a: &str, b: &str) -> (same: bool)
    ensures
        same == (a@ == b@),
{
    let x = a.as_bytes();
    let y = b.as_bytes();
    proof {
        encode_utf8_decode_utf8(a@);
        encode_utf8_decode_utf8(b@);
    }
    if x.len() != y.len() {
        return false;
    }
    let mut i: usize = 0;
    while i < x.len()
        invariant
            i <= x.len(),
            x.len() == y.len(),
            x@ == encode_utf8(a@),
            y@ == encode_utf8(b@),
            forall|j: int| 0 <= j < i ==> x@[j] == y@[j],
        decreases x.len() - i,
    {
        if x[i] != y[i] {
            return false;
        }
        i += 1;
    }
    assert(x@ =~= y@);
    true
}

/// Whether no two entries have the same hardware id.
pub open spec fn unique_hwids(entries: Seq<ClientView>) -> bool {
    forall|i: int, j: int|
        0 <= i < j < entries.len() ==> (#[trigger] entries[i]).hwid != (#[trigger] entries[j]).hwid
}

/// Whether some entry has this hardware id.
pub open spec fn registered(entries: Seq<ClientView>, hwid: Seq<char>) -> bool {
    exists|i: int| 0 <= i < entries.len() && (#[trigger] entries[i]).hwid == hwid
}

/// The place of the entry with this hardware id.
pub open spec fn position(entries: Seq<ClientView>, hwid: Seq<char>) -> int {
    choose|i: int| 0 <= i < entries.len() && (#[trigger] entries[i]).hwid == hwid
}

/// The entry with this hardware id, if there is one.
pub open spec fn lookup(entries: Seq<ClientView>, hwid: Seq<char>) -> Option<ClientView> {
    if registered(entries, hwid) {
        Some(entries[position(entries, hwid)])
    } else {
        None
    }
}

/// The entries but the one with this hardware id.
pub open spec fn without(entries: Seq<ClientView>, hwid: Seq<char>) -> Seq<ClientView> {
    entries.filter(|c: ClientView| c.hwid != hwid)
}

/// The entries as a mapping from hardware id to client.
pub open spec fn as_map(entries: Seq<ClientView>) -> Map<Seq<char>, ClientView> {
    Map::new(
        |hwid: Seq<char>| registered(entries, hwid),
        |hwid: Seq<char>| entries[position(entries, hwid)],
    )
}

/// Where no entry has the hardware id, leaving it out changes nothing.
pub proof fn lemma_without_absent(entries: Seq<ClientView>, hwid: Seq<char>)
    requires
        !registered(entries, hwid),
    ensures
        without(entries, hwid) == entries,
    decreases entries.len(),
{
    reveal(Seq::filter);
    if entries.len() > 0 {
        let rest = entries.drop_last();
        assert(rest.len() == entries.len() - 1);
        assert forall|i: int| 0 <= i < rest.len() implies (#[trigger] rest[i]).hwid != hwid by {
            assert(rest[i] == entries[i]);
        }
        lemma_without_absent(rest, hwid);
        assert(entries.last() == entries[entries.len() - 1]);
        assert(rest.push(entries.last()) =~= entries);
    }
}

/// Among entries with unique hardware ids, leaving one id out takes out
/// exactly the entry that has it.
pub proof fn lemma_without_present(entries: Seq<ClientView>, i: int)
    requires
        unique_hwids(entries),
        0 <= i < entries.len(),
    ensures
        without(entries, entries[i].hwid) == entries.remove(i),
    decreases entries.len(),
{
    reveal(Seq::filter);
    let hwid = entries[i].hwid;
    let rest = entries.drop_last();
    let last = entries.len() - 1;
    assert(entries.last() == entries[last]);
    if i == last {
        assert forall|j: int| 0 <= j < rest.len() implies (#[trigger] rest[j]).hwid != hwid by {
            assert(rest[j] == entries[j]);
        }
        lemma_without_absent(rest, hwid);
        assert(entries.remove(i) =~= rest);
    } else {
        assert(unique_hwids(rest)) by {
            assert forall|a: int, b: int| 0 <= a < b < rest.len() implies (#[trigger] rest[a]).hwid
                != (#[trigger] rest[b]).hwid by {
                assert(rest[a] == entries[a]);
                assert(rest[b] == entries[b]);
            }
        }
        assert(rest[i] == entries[i]);
        lemma_without_present(rest, i);
        assert(entries[last].hwid != entries[i].hwid);
        assert(rest.remove(i).push(entries.last()) =~= entries.remove(i));
    }
}

/// Taking an entry out of entries with unique hardware ids leaves them
/// unique, and leaves every other id registered as it was.
pub proof fn lemma_remove_keeps_unique(entries: Seq<ClientView>, i: int)
    requires
        unique_hwids(entries),
        0 <= i < entries.len(),
    ensures
        unique_hwids(entries.remove(i)),
        !registered(entries.remove(i), entries[i].hwid),
        as_map(entries.remove(i)) == as_map(entries).remove(entries[i].hwid),
{
    let after = entries.remove(i);
    let gone = entries[i].hwid;
    assert forall|a: int| 0 <= a < after.len() implies (#[trigger] after[a]) == entries[if a < i {
        a
    } else {
        a + 1
    }] by {}
    assert forall|a: int, b: int| 0 <= a < b < after.len() implies (#[trigger] after[a]).hwid != (
    #[trigger] after[b]).hwid by {
        let x = if a < i { a } else { a + 1 };
        let y = if b < i { b } else { b + 1 };
        assert(after[a] == entries[x]);
        assert(after[b] == entries[y]);
    }
    assert(!registered(after, gone)) by {
        if registered(after, gone) {
            let a = position(after, gone);
            let x = if a < i { a } else { a + 1 };
            assert(after[a] == entries[x]);
            assert(entries[x].hwid == entries[i].hwid);
        }
    }
    assert forall|hwid: Seq<char>| hwid != gone && registered(entries, hwid) implies registered(
        after,
        hwid,
    ) && after[position(after, hwid)] == entries[position(entries, hwid)] by {
        let x = position(entries, hwid);
        let a = if x < i { x } else { x - 1 };
        assert(after[a] == entries[x]);
        let b = position(after, hwid);
        let y = if b < i { b } else { b + 1 };
        assert(after[b] == entries[y]);
        assert(entries[y].hwid == entries[x].hwid);
    }
    assert forall|hwid: Seq<char>| registered(after, hwid) implies registered(entries, hwid) by {
        let b = position(after, hwid);
        let y = if b < i { b } else { b + 1 };
        assert(after[b] == entries[y]);
    }
    assert(as_map(after) =~= as_map(entries).remove(gone));
}

/// Adding an entry under an id that is not registered keeps the ids unique.
pub proof fn lemma_push_keeps_unique(entries: Seq<ClientView>, client: ClientView)
    requires
        unique_hwids(entries),
        !registered(entries, client.hwid),
    ensures
        unique_hwids(entries.push(client)),
        as_map(entries.push(client)) == as_map(entries).insert(client.hwid, client),
        lookup(entries.push(client), client.hwid) == Some(client),
{
    let after = entries.push(client);
    let last = entries.len() as int;
    assert(after[last] == client);
    assert forall|a: int, b: int| 0 <= a < b < after.len() implies (#[trigger] after[a]).hwid != (
    #[trigger] after[b]).hwid by {
        assert(after[a] == entries[a]);
        if b < last {
            assert(after[b] == entries[b]);
        }
    }
    assert(registered(after, client.hwid));
    assert(after[position(after, client.hwid)] == client) by {
        let p = position(after, client.hwid);
        if p < last {
            assert(after[p] == entries[p]);
        }
    }
    assert forall|hwid: Seq<char>| hwid != client.hwid && registered(entries, hwid) implies registered(
        after,
        hwid,
    ) && after[position(after, hwid)] == entries[position(entries, hwid)] by {
        let x = position(entries, hwid);
        assert(after[x] == entries[x]);
        let b = position(after, hwid);
        assert(after[b] == entries[b]);
        assert(entries[b].hwid == entries[x].hwid);
    }
    assert forall|hwid: Seq<char>| hwid != client.hwid && registered(after, hwid) implies registered(
        entries,
        hwid,
    ) by {
        let b = position(after, hwid);
        assert(after[b] == entries[b]);
    }
    assert(as_map(after) =~= as_map(entries).insert(client.hwid, client));
}

/// Among entries with unique hardware ids, looking an id up finds the one
/// entry that has it.
pub proof fn lemma_lookup_unique(entries: Seq<ClientView>, i: int)
    requires
        unique_hwids(entries),
        0 <= i < entries.len(),
    ensures
        lookup(entries, entries[i].hwid) == Some(entries[i]),
        position(entries, entries[i].hwid) == i,
{
    let p = position(entries, entries[i].hwid);
    assert(entries[p].hwid == entries[i].hwid);
}

/// Re-authentication: registering a client under a hardware id, in place of
/// whoever was registered under it, leaves exactly one entry for that id,
/// and it is the new client's.
pub proof fn lemma_one_entry_per_hwid(entries: Seq<ClientView>, client: ClientView)
    requires
        unique_hwids(entries),
    ensures
        ({
            let after = without(entries, client.hwid).push(client);
            &&& unique_hwids(after)
            &&& lookup(after, client.hwid) == Some(client)
            &&& forall|i: int|
                0 <= i < after.len() && (#[trigger] after[i]).hwid == client.hwid ==> i
                    == after.len() - 1
            &&& as_map(after) == as_map(entries).insert(client.hwid, client)
        }),
{
    let kept = without(entries, client.hwid);
    if registered(entries, client.hwid) {
        let i = position(entries, client.hwid);
        lemma_without_present(entries, i);
        lemma_remove_keeps_unique(entries, i);
        lemma_push_keeps_unique(kept, client);
        assert(as_map(kept).insert(client.hwid, client) =~= as_map(entries).insert(
            client.hwid,
            client,
        ));
    } else {
        lemma_without_absent(entries, client.hwid);
        lemma_push_keeps_unique(kept, client);
    }
    let after = kept.push(client);
    assert forall|i: int| 0 <= i < after.len() && (#[trigger] after[i]).hwid
        == client.hwid implies i == after.len() - 1 by {
        if i < kept.len() {
            assert(after[i] == kept[i]);
            assert(after[kept.len() as int] == client);
        }
    }
}

/// Broadcast: the clients that a broadcast reaches are the registered
/// clients other than the sender, each of them once and the sender never.
pub proof fn lemma_all_but_sender(entries: Seq<ClientView>, sender: Seq<char>)
    requires
        unique_hwids(entries),
    ensures
        ({
            let reached = without(entries, sender);
            &&& unique_hwids(reached)
            &&& !registered(reached, sender)
            &&& forall|i: int|
                0 <= i < entries.len() && (#[trigger] entries[i]).hwid != sender ==> lookup(
                    reached,
                    entries[i].hwid,
                ) == Some(entries[i])
            &&& forall|k: int|
                0 <= k < reached.len() ==> lookup(entries, (#[trigger] reached[k]).hwid) == Some(
                    reached[k],
                )
        }),
{
    let reached = without(entries, sender);
    if registered(entries, sender) {
        let p = position(entries, sender);
        lemma_without_present(entries, p);
        lemma_remove_keeps_unique(entries, p);
        assert forall|a: int| 0 <= a < reached.len() implies (#[trigger] reached[a]) == entries[if a
            < p {
            a
        } else {
            a + 1
        }] by {}
        assert forall|i: int| 0 <= i < entries.len() && (#[trigger] entries[i]).hwid
            != sender implies lookup(reached, entries[i].hwid) == Some(entries[i]) by {
            let a = if i < p { i } else { i - 1 };
            assert(reached[a] == entries[i]);
            lemma_lookup_unique(reached, a);
        }
        assert forall|k: int| 0 <= k < reached.len() implies lookup(
            entries,
            (#[trigger] reached[k]).hwid,
        ) == Some(reached[k]) by {
            let i = if k < p { k } else { k + 1 };
            assert(reached[k] == entries[i]);
            lemma_lookup_unique(entries, i);
        }
    } else {
        lemma_without_absent(entries, sender);
        assert forall|i: int| 0 <= i < entries.len() implies lookup(
            entries,
            (#[trigger] entries[i]).hwid,
        ) == Some(entries[i]) by {
            lemma_lookup_unique(entries, i);
        }
    }
}

/// Entries with unique hardware ids are as many as the ids of the mapping.
pub proof fn lemma_as_map_len(entries: Seq<ClientView>)
    requires
        unique_hwids(entries),
    ensures
        as_map(entries).dom().finite(),
        as_map(entries).dom().len() == entries.len(),
{
    let hwids = entries.map_values(|c: ClientView| c.hwid);
    assert(hwids.no_duplicates()) by {
        assert forall|i: int, j: int|
            0 <= i < hwids.len() && 0 <= j < hwids.len() && i != j implies hwids[i] != hwids[j] by {
            if i < j {
                assert(entries[i].hwid != entries[j].hwid);
            } else {
                assert(entries[j].hwid != entries[i].hwid);
            }
        }
    }
    hwids.unique_seq_to_set();
    vstd::seq_lib::seq_to_set_is_finite(hwids);
    assert(as_map(entries).dom() =~= hwids.to_set()) by {
        assert forall|hwid: Seq<char>| registered(entries, hwid) implies hwids.contains(hwid) by {
            let p = position(entries, hwid);
            assert(hwids[p] == hwid);
        }
        assert forall|hwid: Seq<char>| hwids.contains(hwid) implies registered(entries, hwid) by {
            let p = choose|p: int| 0 <= p < hwids.len() && hwids[p] == hwid;
            assert(entries[p].hwid == hwid);
        }
    }
}

/// The entries with the client under `hwid`, if there is one, shown under
/// `name`.
pub open spec fn renamed_entries(entries: Seq<ClientView>, hwid: Seq<char>, name: Seq<char>) -> Seq<
    ClientView,
> {
    Seq::new(
        entries.len(),
        |i: int|
            if entries[i].hwid == hwid {
                ClientView { name, ..entries[i] }
            } else {
                entries[i]
            },
    )
}

/// One frame to write to one connection. Where the message could not be
/// encoded, the delivery holds the reason in place of the frame.
#[derive(Debug, PartialEq, Eq)]
pub struct Delivery {
    pub connection_id: u64,
    pub frame: Result<Vec<u8>, SerializerError>,
}

/// What a `Delivery` stands for.
pub struct DeliveryView {
    pub connection_id: u64,
    pub frame: Result<Seq<u8>, SerializerError>,
}

impl View for Delivery {
    type V = DeliveryView;

    open spec fn view(&self) -> DeliveryView {
        DeliveryView { connection_id: self.connection_id, frame: encoding_view(self.frame) }
    }
}

/// The views of a list of deliveries.
pub open spec fn delivery_views(deliveries: Seq<Delivery>) -> Seq<DeliveryView> {
    Seq::new(deliveries.len(), |i: int| deliveries[i]@)
}

/// The views of a list of clients.
pub open spec fn client_views(clients: Seq<Client>) -> Seq<ClientView> {
    Seq::new(clients.len(), |i: int| clients[i]@)
}

/// The authenticated clients, at most one under each hardware id.
#[derive(Debug)]
pub struct Registry {
    clients: Vec<Client>,
}

impl View for Registry {
    type V = Map<Seq<char>, ClientView>;

    /// The registry as a mapping from hardware id to client.
    open spec fn view(&self) -> Map<Seq<char>, ClientView> {
        as_map(self.entries())
    }
}

impl Registry {
    #[verifier::type_invariant]
    spec fn well_formed(self) -> bool {
        unique_hwids(client_views(self.clients@))
    }

    /// The registered clients, in the order of their authentication.
    pub closed spec fn entries(&self) -> Seq<ClientView> {
        client_views(self.clients@)
    }

    /// A registry without clients.
    pub fn new() -> (registry: Self)
        ensures
            registry.entries() == Seq::<ClientView>::empty(),
            registry@ == Map::<Seq<char>, ClientView>::empty(),
    {
        let registry = Registry { clients: Vec::new() };
        assert(registry.entries() =~= Seq::<ClientView>::empty());
        assert(registry@ =~= Map::<Seq<char>, ClientView>::empty());
        registry
    }

    fn find(&self, hwid: &str) -> (found: Option<usize>)
        ensures
            match found {
                Some(i) => i < self.entries().len() && self.entries()[i as int].hwid == hwid@,
                None => !registered(self.entries(), hwid@),
            },
    {
        let mut i: usize = 0;
        while i < self.clients.len()
            invariant
                i <= self.clients.len(),
                forall|j: int| 0 <= j < i ==> (#[trigger] self.entries()[j]).hwid != hwid@,
            decreases self.clients.len() - i,
        {
            if same_text(self.clients[i].hwid.as_str(), hwid) {
                return Some(i);
            }
            i += 1;
        }
        None
    }

    /// The number of registered clients.
    pub fn len(&self) -> (n: usize)
        ensures
            n == self.entries().len(),
            unique_hwids(self.entries()),
            self@.dom().finite(),
            n == self@.dom().len(),
    {
        proof {
            use_type_invariant(self);
            lemma_as_map_len(self.entries());
        }
        self.clients.len()
    }

    /// Brings to mind that no two entries have the same hardware id.
    pub(crate) fn recall_unique(&self)
        ensures
            unique_hwids(self.entries()),
    {
        proof {
            use_type_invariant(self);
        }
    }

    /// Whether a client is registered under this hardware id.
    pub fn contains(&self, hwid: &str) -> (found: bool)
        ensures
            found == registered(self.entries(), hwid@),
            found == self@.contains_key(hwid@),
    {
        self.find(hwid).is_some()
    }

    /// The client registered under this hardware id.
    pub fn get(&self, hwid: &str) -> (found: Option<&Client>)
        ensures
            match lookup(self.entries(), hwid@) {
                Some(client) => found matches Some(c) && c@ == client,
                None => found is None,
            },
            found matches Some(c) ==> self@.contains_key(hwid@) && self@[hwid@] == c@,
            found is None ==> !self@.contains_key(hwid@),
    {
        proof {
            use_type_invariant(self);
        }
        match self.find(hwid) {
            None => None,
            Some(i) => {
                proof {
                    lemma_lookup_unique(self.entries(), i as int);
                }
                Some(&self.clients[i])
            },
        }
    }

    /// Registers `client` under its hardware id. An entry that is already
    /// there under that id is replaced and handed back.
    pub fn insert(&mut self, client: Client) -> (prior: Option<Client>)
        ensures
            final(self).entries() == without(old(self).entries(), client.hwid@).push(client@),
            unique_hwids(final(self).entries()),
            final(self)@ == old(self)@.insert(client.hwid@, client@),
            match lookup(old(self).entries(), client.hwid@) {
                Some(replaced) => prior matches Some(p) && p@ == replaced,
                None => prior is None,
            },
    {
        proof {
            use_type_invariant(&*self);
        }
        let ghost before = self.entries();
        let found = self.find(client.hwid.as_str());
        let mut clients: Vec<Client> = Vec::new();
        std::mem::swap(&mut clients, &mut self.clients);
        assert(client_views(clients@) == before);
        let prior = match found {
            None => {
                proof {
                    lemma_without_absent(before, client.hwid@);
                }
                None
            },
            Some(i) => {
                proof {
                    lemma_lookup_unique(before, i as int);
                    lemma_without_present(before, i as int);
                    lemma_remove_keeps_unique(before, i as int);
                }
                let p = clients.remove(i);
                assert(client_views(clients@) =~= before.remove(i as int));
                Some(p)
            },
        };
        proof {
            let kept = client_views(clients@);
            lemma_push_keeps_unique(kept, client@);
            assert(client_views(clients@.push(client)) =~= kept.push(client@));
            assert(as_map(kept).insert(client.hwid@, client@) =~= as_map(before).insert(
                client.hwid@,
                client@,
            ));
        }
        clients.push(client);
        self.clients = clients;
        prior
    }

    /// Takes the client registered under this hardware id out of the
    /// registry and hands it back.
    pub fn remove(&mut self, hwid: &str) -> (removed: Option<Client>)
        ensures
            final(self).entries() == without(old(self).entries(), hwid@),
            unique_hwids(final(self).entries()),
            final(self)@ == old(self)@.remove(hwid@),
            match lookup(old(self).entries(), hwid@) {
                Some(client) => removed matches Some(c) && c@ == client,
                None => removed is None,
            },
    {
        proof {
            use_type_invariant(&*self);
        }
        let ghost before = self.entries();
        match self.find(hwid) {
            None => {
                proof {
                    lemma_without_absent(before, hwid@);
                    assert(as_map(before).remove(hwid@) =~= as_map(before));
                }
                None
            },
            Some(i) => {
                proof {
                    lemma_lookup_unique(before, i as int);
                    lemma_without_present(before, i as int);
                    lemma_remove_keeps_unique(before, i as int);
                }
                let mut clients: Vec<Client> = Vec::new();
                std::mem::swap(&mut clients, &mut self.clients);
                let removed = clients.remove(i);
                assert(client_views(clients@) =~= before.remove(i as int));
                self.clients = clients;
                Some(removed)
            },
        }
    }

    /// Shows the client registered under `hwid` under another name. Says
    /// whether there was such a client.
    pub fn rename(&mut self, hwid: &str, name: String) -> (renamed: bool)
        ensures
            renamed == registered(old(self).entries(), hwid@),
            final(self).entries() == renamed_entries(old(self).entries(), hwid@, name@),
            unique_hwids(final(self).entries()),
    {
        proof {
            use_type_invariant(&*self);
        }
        let ghost before = self.entries();
        match self.find(hwid) {
            None => {
                assert(renamed_entries(before, hwid@, name@) =~= before);
                false
            },
            Some(i) => {
                let mut clients: Vec<Client> = Vec::new();
                std::mem::swap(&mut clients, &mut self.clients);
                let mut client = clients.remove(i);
                client.name = name;
                clients.insert(i, client);
                proof {
                    let after = client_views(clients@);
                    assert(after.len() == before.len());
                    assert forall|j: int| 0 <= j < after.len() implies (#[trigger] after[j])
                        == renamed_entries(before, hwid@, name@)[j] by {
                        if j != i {
                            assert(before[j].hwid != before[i as int].hwid);
                        }
                    }
                    assert(after =~= renamed_entries(before, hwid@, name@));
                    assert forall|a: int, b: int| 0 <= a < b < after.len() implies (
                    #[trigger] after[a]).hwid != (#[trigger] after[b]).hwid by {
                        assert(after[a].hwid == before[a].hwid);
                        assert(after[b].hwid == before[b].hwid);
                    }
                }
                self.clients = clients;
                true
            },
        }
    }

    /// Builds what a broadcast has to deliver: for every registered client
    /// but the one under `exclude_hwid`, in the order of registration, the
    /// frame of the message that `build_message` makes for that client.
    ///
    /// Nothing is written here. Each delivery stands for itself: one that
    /// holds no frame, or that cannot be written, takes nothing from the
    /// others.
    pub fn broadcast<F: Fn(&Client) -> ServerMessage>(
        &self,
        exclude_hwid: &str,
        timestamp: u64,
        build_message: F,
    ) -> (deliveries: Vec<Delivery>)
        requires
            forall|recipient: &Client| call_requires(build_message, (recipient,)),
        ensures
            deliveries@.len() == without(self.entries(), exclude_hwid@).len(),
            forall|i: int|
                0 <= i < deliveries@.len() ==> {
                    let to = without(self.entries(), exclude_hwid@)[i];
                    &&& (#[trigger] deliveries@[i]).connection_id == to.connection_id
                    &&& exists|recipient: &Client, message: ServerMessage|
                        {
                            &&& recipient@ == to
                            &&& #[trigger] call_ensures(build_message, (recipient,), message)
                            &&& deliveries@[i]@.frame == encoded(
                                message.type_tag(),
                                timestamp,
                                message.fields(),
                            )
                        }
                },
    {
        let ghost all = self.entries();
        let ghost keep = |c: ClientView| c.hwid != exclude_hwid@;
        let mut deliveries: Vec<Delivery> = Vec::new();
        let mut i: usize = 0;
        proof {
            reveal(Seq::filter);
            assert(all.take(0).filter(keep) =~= Seq::<ClientView>::empty());
        }
        while i < self.clients.len()
            invariant
                i <= self.clients.len(),
                all == self.entries(),
                keep == (|c: ClientView| c.hwid != exclude_hwid@),
                forall|recipient: &Client| call_requires(build_message, (recipient,)),
                deliveries@.len() == all.take(i as int).filter(keep).len(),
                forall|k: int|
                    0 <= k < deliveries@.len() ==> {
                        let to = all.take(i as int).filter(keep)[k];
                        &&& (#[trigger] deliveries@[k]).connection_id == to.connection_id
                        &&& exists|recipient: &Client, message: ServerMessage|
                            {
                                &&& recipient@ == to
                                &&& #[trigger] call_ensures(build_message, (recipient,), message)
                                &&& encoding_view(deliveries@[k].frame) == encoded(
                                    message.type_tag(),
                                    timestamp,
                                    message.fields(),
                                )
                            }
                    },
            decreases self.clients.len() - i,
        {
            let recipient = &self.clients[i];
            let ghost done = all.take(i as int).filter(keep);
            proof {
                reveal(Seq::filter);
                assert(all.take(i + 1).drop_last() =~= all.take(i as int));
                assert(all.take(i + 1).last() == recipient@);
            }
            if !same_text(recipient.hwid.as_str(), exclude_hwid) {
                let message = build_message(recipient);
                let frame = message.encode(timestamp);
                let ghost before = deliveries@;
                deliveries.push(Delivery { connection_id: recipient.connection_id, frame });
                proof {
                    let next = all.take(i + 1).filter(keep);
                    assert(next == done.push(recipient@));
                    assert forall|k: int| 0 <= k < deliveries@.len() implies {
                        let to = next[k];
                        &&& (#[trigger] deliveries@[k]).connection_id == to.connection_id
                        &&& exists|recipient: &Client, message: ServerMessage|
                            {
                                &&& recipient@ == to
                                &&& #[trigger] call_ensures(build_message, (recipient,), message)
                                &&& encoding_view(deliveries@[k].frame) == encoded(
                                    message.type_tag(),
                                    timestamp,
                                    message.fields(),
                                )
                            }
                    } by {
                        if k < before.len() {
                            assert(deliveries@[k] == before[k]);
                            assert(next[k] == done[k]);
                        } else {
                            assert(call_ensures(build_message, (recipient,), message));
                        }
                    }
                }
            }
            i += 1;
        }
        proof {
            assert(all.take(i as int) =~= all);
        }
        deliveries
    }
}

} // verus!
