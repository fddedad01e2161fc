//! Message taxonomy of the replication protocol, the lobby, and the game
//! phase that the server replicates.
use vstd::prelude::*;

use crate::projectile::ProjectileFlight;
use crate::world::{has_id, ids_unique, InitData, MassInitData, Rotation};

verus! {

/// The phase of a match.
#[derive(Clone, Copy, Debug, PartialEq, Eq, Structural)]
pub enum GameState {
    /// Full game play.
    Running,
    /// Waiting for clients.
    Waiting,
    /// Initial phase.
    Stopped,
}

/// Position of a phase in the order Stopped, Waiting, Running.
pub open spec fn phase_rank(s: GameState) -> int {
    match s {
        GameState::Stopped => 0,
        GameState::Waiting => 1,
        GameState::Running => 2,
    }
}

/// Physics settings chosen at server start and replicated to clients.
#[derive(Clone, Copy, Debug, PartialEq, Eq, Structural)]
pub struct PhysicsConfig {
    /// Integrator substeps per rendered frame.
    pub sims_per_frame: u32,
    /// When set, masses do not attract each other.
    pub zerog: bool,
}

/// What the lobby records of a client: the mass it inhabits.
#[derive(Clone, Copy, Debug, PartialEq, Eq, Structural)]
pub struct ClientData {
    pub inhabited_mass_id: u64,
}

/// Index of the last entry keyed `id`, or -1.
pub open spec fn index_of<T>(s: Seq<(u64, T)>, id: u64) -> int
    decreases s.len(),
{
    if s.len() == 0 {
        -1
    } else if s.last().0 == id {
        s.len() - 1
    } else {
        index_of(s.drop_last(), id)
    }
}

pub proof fn lemma_index_of<T>(s: Seq<(u64, T)>, id: u64)
    ensures
        -1 <= index_of(s, id) < s.len(),
        index_of(s, id) >= 0 <==> has_id(s, id),
        index_of(s, id) >= 0 ==> s[index_of(s, id)].0 == id,
    decreases s.len(),
{
    if s.len() > 0 {
        let p = s.drop_last();
        lemma_index_of(p, id);
        if s.last().0 != id {
            if has_id(s, id) {
                let i = choose|i: int| 0 <= i < s.len() && s[i].0 == id;
                assert(p[i].0 == id);
            }
            if has_id(p, id) {
                let i = choose|i: int| 0 <= i < p.len() && p[i].0 == id;
                assert(s[i].0 == id);
            }
        }
    }
}

/// The map after recording `d` under `id`: an existing entry is replaced in
/// place, a new one is appended.
pub open spec fn insert_entry<T>(s: Seq<(u64, T)>, id: u64, d: T) -> Seq<(u64, T)> {
    if index_of(s, id) >= 0 {
        s.update(index_of(s, id), (id, d))
    } else {
        s.push((id, d))
    }
}

pub proof fn lemma_insert_entry<T>(s: Seq<(u64, T)>, id: u64, d: T)
    requires
        ids_unique(s),
    ensures
        ids_unique(insert_entry(s, id, d)),
        has_id(insert_entry(s, id, d), id),
        !has_id(s, id) ==> insert_entry(s, id, d) == s.push((id, d)),
        has_id(s, id) ==> insert_entry(s, id, d).len() == s.len(),
        forall|k: u64| k != id ==> (has_id(insert_entry(s, id, d), k) <==> has_id(s, k)),
{
    lemma_index_of(s, id);
    let r = insert_entry(s, id, d);
    if index_of(s, id) >= 0 {
        assert(r[index_of(s, id)].0 == id);
        assert forall|k: u64| k != id implies (has_id(r, k) <==> has_id(s, k)) by {
            if has_id(r, k) {
                let i = choose|i: int| 0 <= i < r.len() && r[i].0 == k;
                assert(s[i].0 == k);
            }
            if has_id(s, k) {
                let i = choose|i: int| 0 <= i < s.len() && s[i].0 == k;
                assert(r[i].0 == k);
            }
        }
    } else {
        assert(r[s.len() as int].0 == id);
        assert forall|k: u64| k != id implies (has_id(r, k) <==> has_id(s, k)) by {
            if has_id(r, k) {
                let i = choose|i: int| 0 <= i < r.len() && r[i].0 == k;
                assert(s[i].0 == k);
            }
            if has_id(s, k) {
                let i = choose|i: int| 0 <= i < s.len() && s[i].0 == k;
                assert(r[i].0 == k);
            }
        }
    }
}

/// The clients known to a participant, each with the mass it inhabits.
#[derive(Debug)]
pub struct Lobby {
    pub clients: Vec<(u64, ClientData)>,
}

impl View for Lobby {
    type V = Seq<(u64, ClientData)>;

    open spec fn view(&self) -> Seq<(u64, ClientData)> {
        self.clients@
    }
}

impl Lobby {
    pub open spec fn wf(&self) -> bool {
        ids_unique(self@)
    }

    pub fn new() -> (r: Lobby)
        ensures
            r@ == Seq::<(u64, ClientData)>::empty(),
            r.wf(),
    {
        Lobby { clients: Vec::new() }
    }

    pub fn len(&self) -> (r: usize)
        ensures
            r == self@.len(),
    {
        self.clients.len()
    }

    fn find(&self, id: u64) -> (r: Option<usize>)
        ensures
            match r {
                Some(i) => i as int == index_of(self@, id),
                None => index_of(self@, id) == -1,
            },
    {
        proof {
            lemma_index_of(self@, id);
        }
        let mut i = self.clients.len();
        while i > 0
            invariant
                i <= self@.len(),
                index_of(self@, id) < i,
                -1 <= index_of(self@, id),
                forall|j: int| i <= j < self@.len() ==> self@[j].0 != id,
                index_of(self@, id) >= 0 ==> self@[index_of(self@, id)].0 == id,
                index_of(self@, id) >= 0 <==> has_id(self@, id),
            decreases i,
        {
            i = i - 1;
            if self.clients[i].0 == id {
                proof {
                    crate::registry::lemma_last_match(self@, id, i as int);
                }
                return Some(i);
            }
        }
        proof {
            if index_of(self@, id) >= 0 {
                assert(self@[index_of(self@, id)].0 == id);
            }
        }
        None
    }

    /// The record of client `id`, if the lobby knows it.
    pub fn get(&self, id: u64) -> (r: Option<ClientData>)
        ensures
            match r {
                Some(d) => index_of(self@, id) >= 0 && self@[index_of(self@, id)] == (id, d),
                None => !has_id(self@, id),
            },
    {
        proof {
            lemma_index_of(self@, id);
        }
        match self.find(id) {
            Some(i) => Some(self.clients[i].1),
            None => None,
        }
    }

    /// Records `d` for client `id`, returning the record it replaces.
    pub fn insert(&mut self, id: u64, d: ClientData) -> (r: Option<ClientData>)
        requires
            old(self).wf(),
        ensures
            final(self)@ == insert_entry(old(self)@, id, d),
            final(self).wf(),
            match r {
                Some(prev) => has_id(old(self)@, id) && old(self)@[index_of(old(self)@, id)] == (
                id,
                prev,
                ),
                None => !has_id(old(self)@, id),
            },
    {
        proof {
            lemma_index_of(self@, id);
            lemma_insert_entry(self@, id, d);
        }
        match self.find(id) {
            Some(i) => {
                let prev = self.clients[i].1;
                self.clients.set(i, (id, d));
                Some(prev)
            },
            None => {
                self.clients.push((id, d));
                None
            },
        }
    }
}

/// Messages from the server to a client.
#[derive(Debug)]
pub enum ToClient {
    /// The full world snapshot, sent once to a newly joined client.
    Init(InitData),
    SetGameState(GameState),
    ClientJoined { id: u64, client_data: ClientData },
    SetPhysicsConfig(PhysicsConfig),
    /// Steering of the mass inhabited by `client_id`.
    InhabitantRotation { client_id: u64, rotation: Rotation },
    ProjectileFired(ProjectileFlight),
}

/// Messages from a client to the server.
#[derive(Clone, Copy, Debug, PartialEq, Eq, Structural)]
pub enum ToServer {
    /// The client finished loading and asks for a game-state evaluation.
    Ready,
    Rotation(Rotation),
    ProjectileFired(ProjectileFlight),
}

/// A `ToClient` message as a mathematical value.
pub enum ToClientView {
    Init(Seq<(u64, MassInitData)>),
    SetGameState(GameState),
    ClientJoined { id: u64, client_data: ClientData },
    SetPhysicsConfig(PhysicsConfig),
    InhabitantRotation { client_id: u64, rotation: Rotation },
    ProjectileFired(ProjectileFlight),
}

impl View for ToClient {
    type V = ToClientView;

    open spec fn view(&self) -> ToClientView {
        match self {
            ToClient::Init(d) => ToClientView::Init(d.masses@),
            ToClient::SetGameState(s) => ToClientView::SetGameState(*s),
            ToClient::ClientJoined { id, client_data } => ToClientView::ClientJoined {
                id: *id,
                client_data: *client_data,
            },
            ToClient::SetPhysicsConfig(c) => ToClientView::SetPhysicsConfig(*c),
            ToClient::InhabitantRotation { client_id, rotation } =>
                ToClientView::InhabitantRotation { client_id: *client_id, rotation: *rotation },
            ToClient::ProjectileFired(f) => ToClientView::ProjectileFired(*f),
        }
    }
}

/// A message the server hands to the transport, with its recipients.
#[derive(Debug)]
pub enum Outbound {
    SendTo { client_id: u64, message: ToClient },
    Broadcast(ToClient),
    BroadcastExcept { client_id: u64, message: ToClient },
}

pub enum OutboundView {
    SendTo { client_id: u64, message: ToClientView },
    Broadcast(ToClientView),
    BroadcastExcept { client_id: u64, message: ToClientView },
}

impl View for Outbound {
    type V = OutboundView;

    open spec fn view(&self) -> OutboundView {
        match self {
            Outbound::SendTo { client_id, message } => OutboundView::SendTo {
                client_id: *client_id,
                message: message@,
            },
            Outbound::Broadcast(m) => OutboundView::Broadcast(m@),
            Outbound::BroadcastExcept { client_id, message } => OutboundView::BroadcastExcept {
                client_id: *client_id,
                message: message@,
            },
        }
    }
}

pub open spec fn outbound_views(s: Seq<Outbound>) -> Seq<OutboundView> {
    s.map_values(|o: Outbound| o@)
}

/// The view of a pushed message list.
pub proof fn lemma_views_push(s: Seq<Outbound>, o: Outbound)
    ensures
        outbound_views(s.push(o)) == outbound_views(s).push(o@),
{
    assert(outbound_views(s.push(o)) =~= outbound_views(s).push(o@));
}

/// The view of two message lists joined.
pub proof fn lemma_views_concat(a: Seq<Outbound>, b: Seq<Outbound>)
    ensures
        outbound_views(a + b) == outbound_views(a) + outbound_views(b),
{
    assert(outbound_views(a + b) =~= outbound_views(a) + outbound_views(b));
}

/// Whether client `id` receives a message with these recipients.
pub open spec fn addressed_to(o: OutboundView, id: u64) -> bool {
    match o {
        OutboundView::SendTo { client_id, .. } => client_id == id,
        OutboundView::Broadcast(_) => true,
        OutboundView::BroadcastExcept { client_id, .. } => client_id != id,
    }
}

pub open spec fn message_of(o: OutboundView) -> ToClientView {
    match o {
        OutboundView::SendTo { message, .. } => message,
        OutboundView::Broadcast(m) => m,
        OutboundView::BroadcastExcept { message, .. } => message,
    }
}

/// The messages that client `id` receives, in order.
pub open spec fn delivered_to(s: Seq<OutboundView>, id: u64) -> Seq<ToClientView>
    decreases s.len(),
{
    if s.len() == 0 {
        Seq::empty()
    } else {
        let rest = delivered_to(s.drop_last(), id);
        if addressed_to(s.last(), id) {
            rest.push(message_of(s.last()))
        } else {
            rest
        }
    }
}

} // verus!
