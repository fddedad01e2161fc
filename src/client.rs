//! A client's local copy of the match, rebuilt only from server messages.
use vstd::prelude::*;

use crate::physics::DespawnMassEvent;
use crate::projectile::ProjectileFlight;
use crate::protocol::{
    delivered_to, index_of, insert_entry, lemma_index_of, lemma_insert_entry, message_of,
    addressed_to, ClientData, GameState, Lobby, OutboundView, PhysicsConfig, ToClient,
    ToClientView, ToServer,
};
use crate::registry::{bodies_of, init_valid, lemma_bodies_of, Body, MassRegistry};
use crate::server::{connect_step, lobby_replay, server_wf, ServerView};
use crate::world::{has_id, ids_unique, InitData, Rotation, RADIUS_LIMIT};

verus! {

/// A client's state as a mathematical value.
pub struct ClientView {
    pub my_id: u64,
    pub state: GameState,
    pub lobby: Seq<(u64, ClientData)>,
    pub registry: Seq<(u64, Body)>,
    pub config: Option<PhysicsConfig>,
    pub inhabited: Option<u64>,
    pub projectiles: Seq<ProjectileFlight>,
}

/// A client that has just connected and heard nothing yet.
pub open spec fn fresh_client(my_id: u64) -> ClientView {
    ClientView {
        my_id,
        state: GameState::Stopped,
        lobby: Seq::empty(),
        registry: Seq::empty(),
        config: None,
        inhabited: None,
        projectiles: Seq::empty(),
    }
}

pub open spec fn client_wf(c: ClientView) -> bool {
    ids_unique(c.lobby) && ids_unique(c.registry)
}

/// The registry with mass `id` turned to `rotation`, if it is live.
pub open spec fn rotate_mass(reg: Seq<(u64, Body)>, id: u64, rotation: Rotation) -> Seq<
    (u64, Body),
> {
    if has_id(reg, id) {
        reg.update(index_of(reg, id), (id, Body { rotation, ..reg[index_of(reg, id)].1 }))
    } else {
        reg
    }
}

/// The registry without mass `id`, if it was live.
pub open spec fn without_mass(reg: Seq<(u64, Body)>, id: u64) -> Seq<(u64, Body)> {
    if has_id(reg, id) {
        reg.remove(index_of(reg, id))
    } else {
        reg
    }
}

/// One server message applied to a client, with the reply it sends. A
/// snapshot is answered with `Ready`; a snapshot that cannot be built, and a
/// rotation of a client or mass the client does not know, are ignored.
pub open spec fn client_step(c: ClientView, m: ToClientView) -> (ClientView, Option<ToServer>) {
    match m {
        ToClientView::Init(init) => if init_valid(init) {
            (ClientView { registry: bodies_of(init), ..c }, Some(ToServer::Ready))
        } else {
            (c, None)
        },
        ToClientView::SetGameState(state) => (ClientView { state, ..c }, None),
        ToClientView::ClientJoined { id, client_data } => (
            ClientView {
                lobby: insert_entry(c.lobby, id, client_data),
                inhabited: if id == c.my_id {
                    Some(client_data.inhabited_mass_id)
                } else {
                    c.inhabited
                },
                ..c
            },
            None,
        ),
        ToClientView::SetPhysicsConfig(config) => (ClientView { config: Some(config), ..c }, None),
        ToClientView::InhabitantRotation { client_id, rotation } => if has_id(c.lobby, client_id) {
            (
                ClientView {
                    registry: rotate_mass(
                        c.registry,
                        c.lobby[index_of(c.lobby, client_id)].1.inhabited_mass_id,
                        rotation,
                    ),
                    ..c
                },
                None,
            )
        } else {
            (c, None)
        },
        ToClientView::ProjectileFired(f) => (
            ClientView { projectiles: c.projectiles.push(f), ..c },
            None,
        ),
    }
}

pub open spec fn replies_of(r: Option<ToServer>) -> Seq<ToServer> {
    match r {
        Some(m) => seq![m],
        None => Seq::empty(),
    }
}

/// Messages applied in order, with every reply in order.
pub open spec fn run_client(c: ClientView, ms: Seq<ToClientView>) -> (ClientView, Seq<ToServer>)
    decreases ms.len(),
{
    if ms.len() == 0 {
        (c, Seq::empty())
    } else {
        let prev = run_client(c, ms.drop_last());
        let next = client_step(prev.0, ms.last());
        (next.0, prev.1 + replies_of(next.1))
    }
}

/// No server message gives a client a repeated client or mass identifier.
pub proof fn lemma_client_step_wf(c: ClientView, m: ToClientView)
    requires
        client_wf(c),
    ensures
        client_wf(client_step(c, m).0),
{
    match m {
        ToClientView::Init(init) => {
            lemma_bodies_of(init);
        },
        ToClientView::ClientJoined { id, client_data } => {
            lemma_insert_entry(c.lobby, id, client_data);
        },
        ToClientView::InhabitantRotation { client_id, rotation } => {
            if has_id(c.lobby, client_id) {
                let mid = c.lobby[index_of(c.lobby, client_id)].1.inhabited_mass_id;
                lemma_rotate_wf(c.registry, mid, rotation);
            }
        },
        _ => {},
    }
}

proof fn lemma_rotate_wf(reg: Seq<(u64, Body)>, id: u64, rotation: Rotation)
    requires
        ids_unique(reg),
    ensures
        ids_unique(rotate_mass(reg, id, rotation)),
{
    lemma_index_of(reg, id);
    if has_id(reg, id) {
        crate::registry::lemma_update_keeps_ids(
            reg,
            index_of(reg, id),
            (id, Body { rotation, ..reg[index_of(reg, id)].1 }),
        );
    }
}

proof fn lemma_run_client_concat(c: ClientView, a: Seq<ToClientView>, b: Seq<ToClientView>)
    ensures
        run_client(c, a + b).0 == run_client(run_client(c, a).0, b).0,
    decreases b.len(),
{
    if b.len() == 0 {
        assert(a + b =~= a);
    } else {
        lemma_run_client_concat(c, a, b.drop_last());
        assert((a + b).drop_last() =~= a + b.drop_last());
        assert((a + b).last() == b.last());
    }
}

proof fn lemma_delivered_all(s: Seq<OutboundView>, id: u64)
    requires
        forall|i: int| 0 <= i < s.len() ==> addressed_to(#[trigger] s[i], id),
    ensures
        delivered_to(s, id) == s.map_values(|o: OutboundView| message_of(o)),
    decreases s.len(),
{
    if s.len() > 0 {
        lemma_delivered_all(s.drop_last(), id);
        assert(addressed_to(s[s.len() - 1], id));
        assert(s.map_values(|o: OutboundView| message_of(o)) =~= s.drop_last().map_values(
            |o: OutboundView| message_of(o),
        ).push(message_of(s.last())));
    } else {
        assert(s.map_values(|o: OutboundView| message_of(o)) =~= Seq::<ToClientView>::empty());
    }
}

pub open spec fn joined_messages(lobby: Seq<(u64, ClientData)>) -> Seq<ToClientView> {
    lobby.map_values(
        |e: (u64, ClientData)| ToClientView::ClientJoined { id: e.0, client_data: e.1 },
    )
}

/// Replaying the join records of a lobby with distinct clients, none of them
/// this client, into an empty lobby reproduces that lobby.
proof fn lemma_replay(c: ClientView, lobby: Seq<(u64, ClientData)>)
    requires
        c.lobby.len() == 0,
        ids_unique(lobby),
        !has_id(lobby, c.my_id),
    ensures
        run_client(c, joined_messages(lobby)).0 == (ClientView { lobby, ..c }),
    decreases lobby.len(),
{
    if lobby.len() == 0 {
        assert(c.lobby =~= lobby);
    } else {
        let p = lobby.drop_last();
        assert(ids_unique(p));
        if has_id(p, c.my_id) {
            let i = choose|i: int| 0 <= i < p.len() && p[i].0 == c.my_id;
            assert(lobby[i].0 == c.my_id);
        }
        lemma_replay(c, p);
        assert(joined_messages(lobby).drop_last() =~= joined_messages(p));
        let e = lobby.last();
        if has_id(p, e.0) {
            let i = choose|i: int| 0 <= i < p.len() && p[i].0 == e.0;
            assert(lobby[i].0 == lobby[lobby.len() - 1].0);
        }
        lemma_insert_entry(p, e.0, e.1);
        assert(p.push(e) =~= lobby);
        assert(lobby[lobby.len() - 1].0 != c.my_id);
    }
}

/// A client that joins after the clients already in the lobby ends up, once
/// it has read what the server sent it on joining, with the server's lobby
/// (one entry more than before, no client twice), a registry holding exactly
/// the masses of the snapshot with no identifier twice, and the mass it was
/// given.
pub proof fn lemma_join_sequencing(s: ServerView, id: u64)
    requires
        server_wf(s),
        s.unassigned.len() > 0,
        !has_id(s.lobby, id),
    ensures
        ({
            let next = connect_step(s, id);
            let c = run_client(fresh_client(id), delivered_to(next.1, id)).0;
            &&& c.lobby == next.0.lobby
            &&& c.lobby.len() == s.lobby.len() + 1
            &&& ids_unique(c.lobby)
            &&& c.registry == bodies_of(s.init)
            &&& ids_unique(c.registry)
            &&& forall|m: u64| has_id(c.registry, m) <==> has_id(s.init, m)
            &&& c.inhabited == Some(s.unassigned.last())
            &&& c.config == Some(s.config)
        }),
{
    let next = connect_step(s, id);
    let out = next.1;
    let cd = ClientData { inhabited_mass_id: s.unassigned.last() };
    let head = seq![
        OutboundView::SendTo { client_id: id, message: ToClientView::Init(s.init) },
        OutboundView::SendTo { client_id: id, message: ToClientView::SetPhysicsConfig(s.config) },
    ];
    let tail = seq![OutboundView::Broadcast(ToClientView::ClientJoined { id, client_data: cd })];
    let replay = lobby_replay(s.lobby, id);
    assert(out == head + replay + tail);
    assert forall|i: int| 0 <= i < out.len() implies addressed_to(#[trigger] out[i], id) by {
        if i >= head.len() && i < head.len() + replay.len() {
            assert(out[i] == replay[i - head.len()]);
        }
    }
    lemma_delivered_all(out, id);
    let msgs = out.map_values(|o: OutboundView| message_of(o));
    let mhead = seq![ToClientView::Init(s.init), ToClientView::SetPhysicsConfig(s.config)];
    let mtail = seq![ToClientView::ClientJoined { id, client_data: cd }];
    assert(msgs =~= mhead + joined_messages(s.lobby) + mtail);
    let c0 = fresh_client(id);
    lemma_run_client_concat(c0, mhead + joined_messages(s.lobby), mtail);
    lemma_run_client_concat(c0, mhead, joined_messages(s.lobby));
    assert(mhead.drop_last() =~= seq![ToClientView::Init(s.init)]);
    assert(seq![ToClientView::Init(s.init)].drop_last() =~= Seq::<ToClientView>::empty());
    let m1 = seq![ToClientView::Init(s.init)];
    assert(m1.last() == ToClientView::Init(s.init));
    assert(run_client(c0, m1.drop_last()).0 == c0);
    assert(client_step(c0, ToClientView::Init(s.init)).0 == ClientView {
        registry: bodies_of(s.init),
        ..c0
    });
    assert(run_client(c0, m1).0 == ClientView { registry: bodies_of(s.init), ..c0 });
    assert(mhead.last() == ToClientView::SetPhysicsConfig(s.config));
    let c1 = run_client(c0, mhead).0;
    assert(c1 == ClientView { registry: bodies_of(s.init), config: Some(s.config), ..c0 });
    lemma_replay(c1, s.lobby);
    let c2 = ClientView { lobby: s.lobby, ..c1 };
    assert(mtail.drop_last() =~= Seq::<ToClientView>::empty());
    lemma_insert_entry(s.lobby, id, cd);
    lemma_bodies_of(s.init);
    assert(run_client(c0, mhead + joined_messages(s.lobby)).0 == c2);
    assert(mtail.last() == ToClientView::ClientJoined { id, client_data: cd });
    assert(run_client(c2, mtail.drop_last()).0 == c2);
    let c3 = ClientView { lobby: s.lobby.push((id, cd)), inhabited: Some(cd.inhabited_mass_id), ..c2 };
    assert(run_client(c2, mtail).0 == c3);
    assert(delivered_to(out, id) == mhead + joined_messages(s.lobby) + mtail);
    assert(run_client(c0, delivered_to(out, id)).0 == c3);
    assert(next.0.lobby == s.lobby.push((id, cd)));
}

/// Client settings given on the command line.
#[derive(Debug)]
pub struct ClientCliArgs {
    pub nickname: String,
    pub address: String,
    pub autostart: bool,
}

/// A client's local copy of the match.
#[derive(Debug)]
pub struct ClientState {
    pub my_id: u64,
    pub game_state: GameState,
    pub lobby: Lobby,
    pub registry: MassRegistry,
    pub physics_config: Option<PhysicsConfig>,
    pub inhabited_mass_id: Option<u64>,
    pub projectiles: Vec<ProjectileFlight>,
}

impl View for ClientState {
    type V = ClientView;

    open spec fn view(&self) -> ClientView {
        ClientView {
            my_id: self.my_id,
            state: self.game_state,
            lobby: self.lobby@,
            registry: self.registry@,
            config: self.physics_config,
            inhabited: self.inhabited_mass_id,
            projectiles: self.projectiles@,
        }
    }
}

/// Whether every mass of the descriptor can be built.
pub fn init_is_valid(init_data: &InitData) -> (r: bool)
    ensures
        r == init_valid(init_data.masses@),
{
    let n = init_data.masses.len();
    let mut i: usize = 0;
    while i < n
        invariant
            n == init_data.masses@.len(),
            i <= n,
            forall|a: int| 0 <= a < i ==> init_data.masses@[a].1.radius <= RADIUS_LIMIT,
            forall|a: int, b: int|
                0 <= a < i && 0 <= b < n && a != b ==> init_data.masses@[a].0
                    != init_data.masses@[b].0,
        decreases n - i,
    {
        if init_data.masses[i].1.radius > RADIUS_LIMIT {
            return false;
        }
        let mut j: usize = 0;
        while j < n
            invariant
                n == init_data.masses@.len(),
                i < n,
                j <= n,
                forall|b: int| 0 <= b < j && b != i ==> init_data.masses@[i as int].0
                    != init_data.masses@[b].0,
            decreases n - j,
        {
            if j != i && init_data.masses[i].0 == init_data.masses[j].0 {
                return false;
            }
            j = j + 1;
        }
        i = i + 1;
    }
    true
}

impl ClientState {
    /// A client that has just connected as `my_id`.
    pub fn new(my_id: u64) -> (r: ClientState)
        ensures
            r@ == fresh_client(my_id),
    {
        ClientState {
            my_id,
            game_state: GameState::Stopped,
            lobby: Lobby::new(),
            registry: MassRegistry::new(),
            physics_config: None,
            inhabited_mass_id: None,
            projectiles: Vec::new(),
        }
    }

    pub open spec fn wf(&self) -> bool {
        client_wf(self@)
    }

    /// Applies one server message; returns the reply to send, if any.
    pub fn process_server_message(&mut self, message: ToClient) -> (r: Option<ToServer>)
        requires
            old(self).wf(),
        ensures
            final(self).wf(),
            (final(self)@, r) == client_step(old(self)@, message@),
    {
        proof {
            lemma_client_step_wf(self@, message@);
        }
        match message {
            ToClient::Init(init_data) => {
                if init_is_valid(&init_data) {
                    self.registry = MassRegistry::from_init(&init_data);
                    Some(ToServer::Ready)
                } else {
                    None
                }
            },
            ToClient::SetGameState(state) => {
                self.game_state = state;
                None
            },
            ToClient::ClientJoined { id, client_data } => {
                self.lobby.insert(id, client_data);
                if id == self.my_id {
                    self.inhabited_mass_id = Some(client_data.inhabited_mass_id);
                }
                None
            },
            ToClient::SetPhysicsConfig(config) => {
                self.physics_config = Some(config);
                None
            },
            ToClient::InhabitantRotation { client_id, rotation } => {
                self.rotate_inhabitable_masses(client_id, rotation);
                None
            },
            ToClient::ProjectileFired(flight) => {
                self.projectiles.push(flight);
                None
            },
        }
    }

    /// Turns the mass inhabited by `client_id` to `rotation`; returns whether
    /// the client and its mass are known.
    pub fn rotate_inhabitable_masses(&mut self, client_id: u64, rotation: Rotation) -> (r: bool)
        requires
            old(self).wf(),
        ensures
            final(self).wf(),
            final(self)@ == client_step(
                old(self)@,
                ToClientView::InhabitantRotation { client_id, rotation },
            ).0,
            r == (has_id(old(self)@.lobby, client_id) && has_id(
                old(self)@.registry,
                old(self)@.lobby[index_of(old(self)@.lobby, client_id)].1.inhabited_mass_id,
            )),
    {
        proof {
            lemma_index_of(self@.lobby, client_id);
            lemma_client_step_wf(self@, ToClientView::InhabitantRotation { client_id, rotation });
        }
        match self.lobby.get(client_id) {
            Some(d) => {
                proof {
                    lemma_index_of(self@.registry, d.inhabited_mass_id);
                }
                self.registry.set_rotation(d.inhabited_mass_id, rotation)
            },
            None => false,
        }
    }

    /// Turns this client's own mass to `rotation` ahead of the server's
    /// relay; returns whether the client has a live mass.
    pub fn rotate_client_inhabited_mass(&mut self, rotation: Rotation) -> (r: bool)
        requires
            old(self).wf(),
        ensures
            final(self).wf(),
            match old(self)@.inhabited {
                Some(m) => final(self)@ == (ClientView {
                    registry: rotate_mass(old(self)@.registry, m, rotation),
                    ..old(self)@
                }) && r == has_id(old(self)@.registry, m),
                None => final(self)@ == old(self)@ && !r,
            },
    {
        match self.inhabited_mass_id {
            Some(m) => {
                proof {
                    lemma_index_of(self@.registry, m);
                    lemma_rotate_wf(self@.registry, m, rotation);
                }
                self.registry.set_rotation(m, rotation)
            },
            None => false,
        }
    }

    /// Drops a despawned mass from the local copy, and the client's own
    /// binding to it if it was the client's mass.
    pub fn handle_despawn_mass(&mut self, event: DespawnMassEvent)
        requires
            old(self).wf(),
        ensures
            final(self).wf(),
            final(self)@ == (ClientView {
                registry: without_mass(old(self)@.registry, event.mass_id),
                inhabited: if old(self)@.inhabited == Some(event.mass_id) {
                    None
                } else {
                    old(self)@.inhabited
                },
                ..old(self)@
            }),
    {
        proof {
            lemma_index_of(self@.registry, event.mass_id);
        }
        self.registry.remove(event.mass_id);
        if self.inhabited_mass_id == Some(event.mass_id) {
            self.inhabited_mass_id = None;
        }
    }

    /// Applies server messages in order; returns the replies in order.
    pub fn process_server_messages(&mut self, messages: Vec<ToClient>) -> (r: Vec<ToServer>)
        requires
            old(self).wf(),
        ensures
            final(self).wf(),
            (final(self)@, r@) == run_client(
                old(self)@,
                messages@.map_values(|m: ToClient| m@),
            ),
    {
        let ghost start = self@;
        let ghost views = messages@.map_values(|m: ToClient| m@);
        let mut replies: Vec<ToServer> = Vec::new();
        let mut messages = messages;
        let ghost original = messages@;
        let mut pending: Vec<ToClient> = Vec::new();
        while messages.len() > 0
            invariant
                pending@.len() + messages@.len() == views.len(),
                views == original.map_values(|m: ToClient| m@),
                forall|k: int| 0 <= k < messages@.len() ==> #[trigger] messages@[k]@ == views[k],
                forall|k: int|
                    0 <= k < pending@.len() ==> #[trigger] pending@[k]@ == views[views.len() - 1
                        - k],
            decreases messages@.len(),
        {
            let m = messages.pop().unwrap();
            pending.push(m);
        }
        let n = pending.len();
        let mut i: usize = 0;
        while i < n
            invariant
                i <= n,
                n == views.len(),
                start == old(self)@,
                self.wf(),
                pending@.len() == n - i,
                forall|k: int| 0 <= k < pending@.len() ==> #[trigger] pending@[k]@ == views[n - 1 - k],
                run_client(start, views.subrange(0, i as int)) == (self@, replies@),
            decreases n - i,
        {
            proof {
                assert(views.subrange(0, i + 1).drop_last() =~= views.subrange(0, i as int));
            }
            let m = pending.pop().unwrap();
            let reply = self.process_server_message(m);
            match reply {
                Some(x) => {
                    replies.push(x);
                },
                None => {},
            }
            proof {
                assert(replies@ =~= run_client(start, views.subrange(0, i as int)).1 + replies_of(
                    reply,
                ));
            }
            i = i + 1;
        }
        proof {
            assert(views.subrange(0, i as int) =~= views);
        }
        replies
    }
}

} // verus!
