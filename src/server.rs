//! The authoritative server session: slot assignment for joining clients,
//! the game-phase machine, and relaying of client intents.
use vstd::prelude::*;

use crate::protocol::{
    index_of, lemma_index_of, lemma_views_concat, lemma_views_push, outbound_views, phase_rank, ClientData, GameState, Lobby, Outbound, OutboundView,
    PhysicsConfig, ToClient, ToClientView, ToServer,
};
use crate::registry::init_valid;
use crate::world::{has_id, ids_unique, inhabitable_ids, InitData, MassInitData};

verus! {

/// Inhabitable masses that no client has been given yet.
#[derive(Debug)]
pub struct UnassignedMasses(pub Vec<u64>);

/// Server settings given on the command line.
#[derive(Debug)]
pub struct ServerCliArgs {
    pub speed: u32,
    pub system: String,
    pub zerog: bool,
}

/// Connection events reported by the transport.
#[derive(Clone, Copy, Debug, PartialEq, Eq, Structural)]
pub enum ServerEvent {
    ClientConnected(u64),
    ClientDisconnected(u64),
}

/// What the server hands back to the transport after handling input.
#[derive(Debug)]
pub struct ServerReaction {
    pub outbound: Vec<Outbound>,
    /// A client left: the match is over and the process ends.
    pub quit: bool,
}

/// The physics settings the server runs and replicates.
pub fn setup_physics(cli_args: &ServerCliArgs) -> (r: PhysicsConfig)
    ensures
        r == (PhysicsConfig { sims_per_frame: cli_args.speed, zerog: cli_args.zerog }),
{
    PhysicsConfig { sims_per_frame: cli_args.speed, zerog: cli_args.zerog }
}

/// Appends the identifiers of the inhabitable masses, in descriptor order.
pub fn populate_unassigned_masses(unassigned_masses: &mut UnassignedMasses, init_data: &InitData)
    ensures
        final(unassigned_masses).0@ == old(unassigned_masses).0@ + inhabitable_ids(
            init_data.masses@,
        ),
{
    let ghost start = unassigned_masses.0@;
    let mut i: usize = 0;
    while i < init_data.masses.len()
        invariant
            i <= init_data.masses@.len(),
            unassigned_masses.0@ == start + inhabitable_ids(init_data.masses@.subrange(0, i as int)),
        decreases init_data.masses@.len() - i,
    {
        let (mass_id, data) = init_data.masses[i];
        proof {
            assert(init_data.masses@.subrange(0, i + 1).drop_last() =~= init_data.masses@.subrange(
                0,
                i as int,
            ));
        }
        if data.inhabitable {
            unassigned_masses.0.push(mass_id);
            proof {
                assert(start + inhabitable_ids(init_data.masses@.subrange(0, i + 1)) =~= (start
                    + inhabitable_ids(init_data.masses@.subrange(0, i as int))).push(mass_id));
            }
        }
        i = i + 1;
    }
    proof {
        assert(init_data.masses@.subrange(0, i as int) =~= init_data.masses@);
    }
}

/// The server session as a mathematical value.
pub struct ServerView {
    pub init: Seq<(u64, MassInitData)>,
    pub config: PhysicsConfig,
    pub lobby: Seq<(u64, ClientData)>,
    pub unassigned: Seq<u64>,
    pub state: GameState,
    pub slots: nat,
}

/// Every inhabitable mass is held by at most one client or waits unassigned,
/// and the match runs only with every slot taken.
pub open spec fn server_wf(s: ServerView) -> bool {
    &&& init_valid(s.init)
    &&& s.slots == inhabitable_ids(s.init).len()
    &&& ids_unique(s.lobby)
    &&& s.lobby.len() + s.unassigned.len() == s.slots
    &&& s.state == GameState::Running ==> s.lobby.len() == s.slots
    &&& forall|i: int, j: int|
        0 <= i < s.unassigned.len() && 0 <= j < s.unassigned.len() && i != j
            ==> s.unassigned[i] != s.unassigned[j]
    &&& forall|i: int, k: int|
        0 <= i < s.lobby.len() && 0 <= k < s.unassigned.len()
            ==> s.lobby[i].1.inhabited_mass_id != s.unassigned[k]
    &&& forall|i: int, j: int|
        0 <= i < s.lobby.len() && 0 <= j < s.lobby.len() && i != j
            ==> s.lobby[i].1.inhabited_mass_id != s.lobby[j].1.inhabited_mass_id
}

/// The join records of the lobby, replayed to client `to`.
pub open spec fn lobby_replay(lobby: Seq<(u64, ClientData)>, to: u64) -> Seq<OutboundView> {
    lobby.map_values(
        |e: (u64, ClientData)|
            OutboundView::SendTo {
                client_id: to,
                message: ToClientView::ClientJoined { id: e.0, client_data: e.1 },
            },
    )
}

/// A connection from client `id`. With a free slot the client is given the
/// most recently listed free mass and receives, in order, the world snapshot,
/// the physics settings and the join record of every client already present;
/// then everyone hears of the new client. Without a free slot, or for a
/// client already present, it is only told to wait.
pub open spec fn connect_step(s: ServerView, id: u64) -> (ServerView, Seq<OutboundView>) {
    if s.unassigned.len() == 0 || has_id(s.lobby, id) {
        (
            s,
            seq![
                OutboundView::SendTo {
                    client_id: id,
                    message: ToClientView::SetGameState(GameState::Waiting),
                },
            ],
        )
    } else {
        let cd = ClientData { inhabited_mass_id: s.unassigned.last() };
        (
            ServerView { lobby: s.lobby.push((id, cd)), unassigned: s.unassigned.drop_last(), ..s },
            seq![
                OutboundView::SendTo { client_id: id, message: ToClientView::Init(s.init) },
                OutboundView::SendTo {
                    client_id: id,
                    message: ToClientView::SetPhysicsConfig(s.config),
                },
            ] + lobby_replay(s.lobby, id) + seq![
                OutboundView::Broadcast(ToClientView::ClientJoined { id, client_data: cd }),
            ],
        )
    }
}

/// A message from client `from`. Messages from a client the lobby does not
/// know, and fire commands from a mass the sender does not inhabit, are
/// ignored.
pub open spec fn message_step(s: ServerView, from: u64, m: ToServer) -> (
    ServerView,
    Seq<OutboundView>,
) {
    if !has_id(s.lobby, from) {
        (s, Seq::empty())
    } else {
        match m {
            ToServer::Ready => if s.lobby.len() == s.slots {
                (
                    ServerView { state: GameState::Running, ..s },
                    seq![OutboundView::Broadcast(ToClientView::SetGameState(GameState::Running))],
                )
            } else {
                (
                    ServerView { state: GameState::Waiting, ..s },
                    seq![
                        OutboundView::SendTo {
                            client_id: from,
                            message: ToClientView::SetGameState(GameState::Waiting),
                        },
                    ],
                )
            },
            ToServer::Rotation(rotation) => (
                s,
                seq![
                    OutboundView::BroadcastExcept {
                        client_id: from,
                        message: ToClientView::InhabitantRotation { client_id: from, rotation },
                    },
                ],
            ),
            ToServer::ProjectileFired(f) => if s.lobby[index_of(s.lobby, from)].1.inhabited_mass_id
                == f.from_mass_id {
                (s, seq![OutboundView::Broadcast(ToClientView::ProjectileFired(f))])
            } else {
                (s, Seq::empty())
            },
        }
    }
}

/// A connection event; the flag says that the match ends.
pub open spec fn event_step(s: ServerView, e: ServerEvent) -> (ServerView, Seq<OutboundView>, bool) {
    match e {
        ServerEvent::ClientConnected(id) => (connect_step(s, id).0, connect_step(s, id).1, false),
        ServerEvent::ClientDisconnected(_) => (s, Seq::empty(), true),
    }
}

/// Events handled in order, stopping at the first that ends the match.
pub open spec fn run_events(s: ServerView, es: Seq<ServerEvent>) -> (
    ServerView,
    Seq<OutboundView>,
    bool,
)
    decreases es.len(),
{
    if es.len() == 0 {
        (s, Seq::empty(), false)
    } else {
        let prev = run_events(s, es.drop_last());
        if prev.2 {
            prev
        } else {
            let next = event_step(prev.0, es.last());
            (next.0, prev.1 + next.1, next.2)
        }
    }
}

/// A connection keeps the session well formed and its phase unchanged.
pub proof fn lemma_connect_wf(s: ServerView, id: u64)
    requires
        server_wf(s),
    ensures
        server_wf(connect_step(s, id).0),
        connect_step(s, id).0.state == s.state,
        connect_step(s, id).0.init == s.init,
{
    if !(s.unassigned.len() == 0 || has_id(s.lobby, id)) {
        let t = connect_step(s, id).0;
        let m = s.unassigned.last();
        assert forall|i: int, j: int| 0 <= i < t.lobby.len() && 0 <= j < t.lobby.len() && i != j
            implies t.lobby[i].0 != t.lobby[j].0 by {
            if i == s.lobby.len() {
                assert(s.lobby[j].0 != id);
            }
            if j == s.lobby.len() {
                assert(s.lobby[i].0 != id);
            }
        }
        assert forall|i: int, j: int| 0 <= i < t.lobby.len() && 0 <= j < t.lobby.len() && i != j
            implies t.lobby[i].1.inhabited_mass_id != t.lobby[j].1.inhabited_mass_id by {
            if i == s.lobby.len() {
                assert(s.lobby[j].1.inhabited_mass_id != s.unassigned[s.unassigned.len() - 1]);
            }
            if j == s.lobby.len() {
                assert(s.lobby[i].1.inhabited_mass_id != s.unassigned[s.unassigned.len() - 1]);
            }
        }
        assert forall|i: int, k: int| 0 <= i < t.lobby.len() && 0 <= k < t.unassigned.len()
            implies t.lobby[i].1.inhabited_mass_id != t.unassigned[k] by {
            if i == s.lobby.len() {
                assert(s.unassigned[s.unassigned.len() - 1] != s.unassigned[k]);
            } else {
                assert(s.lobby[i].1.inhabited_mass_id != s.unassigned[k]);
            }
        }
    }
}

/// A client message keeps the session well formed and its lobby unchanged.
pub proof fn lemma_message_wf(s: ServerView, from: u64, m: ToServer)
    requires
        server_wf(s),
    ensures
        server_wf(message_step(s, from, m).0),
        message_step(s, from, m).0.lobby == s.lobby,
        message_step(s, from, m).0.init == s.init,
{
}

/// Connection events keep the session well formed and its phase unchanged.
pub proof fn lemma_run_events_wf(s: ServerView, es: Seq<ServerEvent>)
    requires
        server_wf(s),
    ensures
        server_wf(run_events(s, es).0),
        phase_rank(run_events(s, es).0.state) == phase_rank(s.state),
    decreases es.len(),
{
    if es.len() > 0 {
        lemma_run_events_wf(s, es.drop_last());
        let prev = run_events(s, es.drop_last());
        match es.last() {
            ServerEvent::ClientConnected(id) => lemma_connect_wf(prev.0, id),
            ServerEvent::ClientDisconnected(_) => {},
        }
    }
}

/// The phase of a match never moves backwards: no message or connection
/// event takes a running match back to waiting, or a waiting one back to
/// stopped.
pub proof fn lemma_phase_monotone(s: ServerView, from: u64, m: ToServer, e: ServerEvent)
    requires
        server_wf(s),
    ensures
        phase_rank(message_step(s, from, m).0.state) >= phase_rank(s.state),
        phase_rank(event_step(s, e).0.state) >= phase_rank(s.state),
{
    match e {
        ServerEvent::ClientConnected(id) => lemma_connect_wf(s, id),
        ServerEvent::ClientDisconnected(_) => {},
    }
}

proof fn lemma_quit_stays(s: ServerView, es: Seq<ServerEvent>, k: int, n: int)
    requires
        0 <= k <= n <= es.len(),
        run_events(s, es.subrange(0, k)).2,
    ensures
        run_events(s, es.subrange(0, n)) == run_events(s, es.subrange(0, k)),
    decreases n - k,
{
    if n > k {
        lemma_quit_stays(s, es, k, n - 1);
        assert(es.subrange(0, n).drop_last() =~= es.subrange(0, n - 1));
    }
}

/// The authoritative session state, owned by the server's tick.
#[derive(Debug)]
pub struct Server {
    pub init_data: InitData,
    pub physics_config: PhysicsConfig,
    pub lobby: Lobby,
    pub unassigned_masses: UnassignedMasses,
    pub game_state: GameState,
    /// Number of inhabitable masses in `init_data`.
    pub slots: usize,
}

impl View for Server {
    type V = ServerView;

    open spec fn view(&self) -> ServerView {
        ServerView {
            init: self.init_data.masses@,
            config: self.physics_config,
            lobby: self.lobby@,
            unassigned: self.unassigned_masses.0@,
            state: self.game_state,
            slots: self.slots as nat,
        }
    }
}

proof fn lemma_inhabitable_ids(s: Seq<(u64, MassInitData)>)
    requires
        ids_unique(s),
    ensures
        inhabitable_ids(s).len() <= s.len(),
        forall|k: int| 0 <= k < inhabitable_ids(s).len() ==> has_id(s, #[trigger] inhabitable_ids(s)[k]),
        forall|i: int, j: int|
            0 <= i < inhabitable_ids(s).len() && 0 <= j < inhabitable_ids(s).len() && i != j
                ==> inhabitable_ids(s)[i] != inhabitable_ids(s)[j],
    decreases s.len(),
{
    if s.len() > 0 {
        let p = s.drop_last();
        lemma_inhabitable_ids(p);
        let ids = inhabitable_ids(s);
        let pids = inhabitable_ids(p);
        assert forall|k: int| 0 <= k < pids.len() implies pids[k] != s.last().0 by {
            let i = choose|i: int| 0 <= i < p.len() && p[i].0 == pids[k];
            assert(s[i].0 == pids[k]);
        }
        assert forall|k: int| 0 <= k < ids.len() implies has_id(s, #[trigger] ids[k]) by {
            if k < pids.len() {
                assert(ids[k] == pids[k]);
                let i = choose|i: int| 0 <= i < p.len() && p[i].0 == pids[k];
                assert(s[i].0 == ids[k]);
            } else {
                assert(s[s.len() - 1].0 == ids[k]);
            }
        }
    }
}

impl Server {
    /// A session for a match built from `init_data`: empty lobby, every
    /// inhabitable mass free, phase stopped.
    pub fn new(init_data: InitData, physics_config: PhysicsConfig) -> (r: Server)
        requires
            init_valid(init_data.masses@),
        ensures
            server_wf(r@),
            r@.init == init_data.masses@,
            r@.config == physics_config,
            r@.lobby.len() == 0,
            r@.unassigned == inhabitable_ids(init_data.masses@),
            r@.state == GameState::Stopped,
    {
        let mut unassigned_masses = UnassignedMasses(Vec::new());
        populate_unassigned_masses(&mut unassigned_masses, &init_data);
        proof {
            lemma_inhabitable_ids(init_data.masses@);
            assert(unassigned_masses.0@ =~= inhabitable_ids(init_data.masses@));
        }
        let slots = unassigned_masses.0.len();
        Server {
            init_data,
            physics_config,
            lobby: Lobby::new(),
            unassigned_masses,
            game_state: GameState::Stopped,
            slots,
        }
    }

    pub open spec fn wf(&self) -> bool {
        server_wf(self@)
    }

    /// Handles a connection from client `id`.
    pub fn handle_client_connected(&mut self, id: u64) -> (r: Vec<Outbound>)
        requires
            old(self).wf(),
        ensures
            final(self).wf(),
            final(self)@ == connect_step(old(self)@, id).0,
            outbound_views(r@) == connect_step(old(self)@, id).1,
    {
        proof {
            lemma_connect_wf(self@, id);
            lemma_index_of(self.lobby@, id);
        }
        let mut out: Vec<Outbound> = Vec::new();
        let present = match self.lobby.get(id) {
            Some(_) => true,
            None => false,
        };
        let inhabited_mass_id = if present {
            None
        } else {
            self.unassigned_masses.0.pop()
        };
        let inhabited_mass_id = match inhabited_mass_id {
            Some(m) => m,
            None => {
                let reply = Outbound::SendTo {
                    client_id: id,
                    message: ToClient::SetGameState(GameState::Waiting),
                };
                proof {
                    lemma_views_push(out@, reply);
                }
                out.push(reply);
                proof {
                    assert(outbound_views(out@) =~= connect_step(old(self)@, id).1);
                }
                return out;
            },
        };
        let ghost s = old(self)@;
        let snapshot = Outbound::SendTo { client_id: id, message: ToClient::Init(self.init_data.clone()) };
        proof {
            lemma_views_push(out@, snapshot);
        }
        out.push(snapshot);
        let config = Outbound::SendTo {
            client_id: id,
            message: ToClient::SetPhysicsConfig(self.physics_config),
        };
        proof {
            lemma_views_push(out@, config);
        }
        out.push(config);
        let ghost head = seq![
            OutboundView::SendTo { client_id: id, message: ToClientView::Init(s.init) },
            OutboundView::SendTo { client_id: id, message: ToClientView::SetPhysicsConfig(s.config) },
        ];
        proof {
            assert(outbound_views(out@) =~= head);
        }
        let mut i: usize = 0;
        while i < self.lobby.clients.len()
            invariant
                i <= self.lobby@.len(),
                self.lobby@ == s.lobby,
                outbound_views(out@) == head + lobby_replay(s.lobby, id).subrange(0, i as int),
            decreases self.lobby@.len() - i,
        {
            let (existing_id, client_data) = self.lobby.clients[i];
            let joined = Outbound::SendTo {
                client_id: id,
                message: ToClient::ClientJoined { id: existing_id, client_data },
            };
            proof {
                lemma_views_push(out@, joined);
            }
            out.push(joined);
            proof {
                assert(outbound_views(out@) =~= head + lobby_replay(s.lobby, id).subrange(
                    0,
                    i + 1,
                ));
            }
            i = i + 1;
        }
        let client_data = ClientData { inhabited_mass_id };
        self.lobby.clients.push((id, client_data));
        let announce = Outbound::Broadcast(ToClient::ClientJoined { id, client_data });
        proof {
            lemma_views_push(out@, announce);
        }
        out.push(announce);
        proof {
            assert(lobby_replay(s.lobby, id).subrange(0, i as int) =~= lobby_replay(s.lobby, id));
            assert(outbound_views(out@) =~= connect_step(s, id).1);
            assert(self@ == connect_step(s, id).0);
        }
        out
    }

    /// Handles one message from client `from`.
    pub fn handle_client_message(&mut self, from: u64, message: ToServer) -> (r: Vec<Outbound>)
        requires
            old(self).wf(),
        ensures
            final(self).wf(),
            final(self)@ == message_step(old(self)@, from, message).0,
            outbound_views(r@) == message_step(old(self)@, from, message).1,
    {
        proof {
            lemma_message_wf(self@, from, message);
            lemma_index_of(self.lobby@, from);
        }
        let mut out: Vec<Outbound> = Vec::new();
        let sender = match self.lobby.get(from) {
            Some(d) => d,
            None => {
                proof {
                    assert(outbound_views(out@) =~= Seq::<OutboundView>::empty());
                }
                return out;
            },
        };
        match message {
            ToServer::Ready => {
                let reply = if self.lobby.len() == self.slots {
                    self.game_state = GameState::Running;
                    Outbound::Broadcast(ToClient::SetGameState(GameState::Running))
                } else {
                    self.game_state = GameState::Waiting;
                    Outbound::SendTo {
                        client_id: from,
                        message: ToClient::SetGameState(GameState::Waiting),
                    }
                };
                proof {
                    lemma_views_push(out@, reply);
                }
                out.push(reply);
            },
            ToServer::Rotation(rotation) => {
                let relay = Outbound::BroadcastExcept {
                    client_id: from,
                    message: ToClient::InhabitantRotation { client_id: from, rotation },
                };
                proof {
                    lemma_views_push(out@, relay);
                }
                out.push(relay);
            },
            ToServer::ProjectileFired(flight) => {
                if sender.inhabited_mass_id == flight.from_mass_id {
                    let relay = Outbound::Broadcast(ToClient::ProjectileFired(flight));
                    proof {
                        lemma_views_push(out@, relay);
                    }
                    out.push(relay);
                }
            },
        }
        proof {
            assert(outbound_views(out@) =~= message_step(old(self)@, from, message).1);
        }
        out
    }

    /// Handles the connection events of one tick in order; a disconnect ends
    /// the match and the events after it are not handled.
    pub fn handle_server_events(&mut self, events: &Vec<ServerEvent>) -> (r: ServerReaction)
        requires
            old(self).wf(),
        ensures
            final(self).wf(),
            final(self)@ == run_events(old(self)@, events@).0,
            outbound_views(r.outbound@) == run_events(old(self)@, events@).1,
            r.quit == run_events(old(self)@, events@).2,
    {
        let ghost s = self@;
        let mut outbound: Vec<Outbound> = Vec::new();
        let mut i: usize = 0;
        while i < events.len()
            invariant
                i <= events@.len(),
                s == old(self)@,
                self.wf(),
                run_events(s, events@.subrange(0, i as int)) == (
                    self@,
                    outbound_views(outbound@),
                    false,
                ),
            decreases events@.len() - i,
        {
            proof {
                assert(events@.subrange(0, i + 1).drop_last() =~= events@.subrange(0, i as int));
            }
            match events[i] {
                ServerEvent::ClientConnected(id) => {
                    let mut sent = self.handle_client_connected(id);
                    let ghost before = outbound@;
                    let ghost sent_view = sent@;
                    outbound.append(&mut sent);
                    proof {
                        lemma_views_concat(before, sent_view);
                    }
                },
                ServerEvent::ClientDisconnected(_) => {
                    proof {
                        let pre = events@.subrange(0, i + 1);
                        assert(pre.last() == events@[i as int]);
                        assert(outbound_views(outbound@) + Seq::<OutboundView>::empty()
                            =~= outbound_views(outbound@));
                        assert(run_events(s, pre) == (self@, outbound_views(outbound@), true));
                        lemma_quit_stays(s, events@, i + 1, events@.len() as int);
                        assert(events@.subrange(0, events@.len() as int) =~= events@);
                    }
                    return ServerReaction { outbound, quit: true };
                },
            }
            i = i + 1;
        }
        proof {
            assert(events@.subrange(0, i as int) =~= events@);
        }
        ServerReaction { outbound, quit: false }
    }
}

} // verus!
