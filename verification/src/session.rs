//! The per-connection session state machine.
//!
//! A session is `Unbound` until a successful Join binds it to a player
//! identifier, and returns to `Unbound` on Leave; the binding is the
//! `Option<String>` threaded through [`handle_client_message`].  The binary
//! runs one inbound loop per connection that feeds decoded messages through
//! this function and publishes the returned events, in order, to the bus;
//! on connection close it runs [`handle_disconnect`] once.
//!
//! Policy choices this implementation documents:
//! - A Join on an already-bound session is a protocol violation: it is
//!   rejected with an Error event and changes nothing, so a session binds at
//!   most one identifier until it leaves.
//! - A duplicate-identity Error, like every other event, is broadcast to all
//!   sessions, and every Join publishes the full snapshot to all sessions,
//!   reproducing the observed wire behaviour.
use vstd::prelude::*;

use crate::messages::ClientMessage;
use crate::messages::ClientMessageView;
use crate::messages::Coord;
use crate::messages::Player;
use crate::messages::PlayerView;
use crate::messages::ServerMessage;
use crate::messages::ServerMessageView;
use crate::messages::wf_client_view;
use crate::messages::wf_num_text;
use crate::messages::wf_player_view;
use crate::messages::wf_server_view;
use crate::registry::Registry;
use crate::registry::lemma_map_of_index;
use crate::registry::map_of;
use crate::registry::seq_contains_id;
use crate::registry::seq_idx_of;
use crate::registry::unique_ids;

verus! {

/// The coordinate text every player starts at.
pub open spec fn origin_text() -> Seq<char> {
    ("0.0")@
}

pub proof fn lemma_origin_wf()
    ensures
        wf_num_text(origin_text()),
{
    reveal_strlit("0.0");
    assert(origin_text().len() == 3);
    assert(origin_text()[0] == '0');
    assert(origin_text()[1] == '.');
    assert(origin_text()[2] == '0');
    assert forall|k: int| 0 <= k < 3 implies crate::messages::is_num_char(
        #[trigger] origin_text()[k],
    ) by {
        if k == 0 {
        } else if k == 1 {
        } else {
        }
    }
}

/// The error text broadcast when a Join names an identifier that is already
/// registered.
pub open spec fn in_use_error_text(player_id: Seq<char>) -> Seq<char> {
    ("Player ID ")@ + player_id + (" is already in use")@
}

/// The error text broadcast when an already-bound session sends another
/// Join.
pub open spec fn rebind_error_text() -> Seq<char> {
    ("Session already bound to a player")@
}

/// The record a fresh join creates: the given identity at the origin.
pub open spec fn joined_player(player_id: Seq<char>, player_name: Seq<char>) -> PlayerView {
    PlayerView {
        id: player_id,
        name: player_name,
        x: origin_text(),
        y: origin_text(),
        z: origin_text(),
    }
}

/// The outcome of one serialized session step: the session's new binding,
/// the registry contents after the step, and the events published, in
/// publish order.
#[verifier::ext_equal]
pub struct StepView {
    pub binding: Option<Seq<char>>,
    pub registry: Seq<PlayerView>,
    pub events: Seq<ServerMessageView>,
}

/// The session state machine, as one atomic transition on the shared
/// registry.  `reg` is the registry contents (in insertion order) when the
/// step acquires the registry's critical section, `binding` the session's
/// bound identifier, `msg` the decoded inbound message.
pub open spec fn spec_step(
    reg: Seq<PlayerView>,
    binding: Option<Seq<char>>,
    msg: ClientMessageView,
) -> StepView {
    match msg {
        ClientMessageView::Join { player_id, player_name } => {
            if binding is Some {
                StepView {
                    binding,
                    registry: reg,
                    events: seq![ServerMessageView::Error { message: rebind_error_text() }],
                }
            } else if seq_contains_id(reg, player_id) {
                StepView {
                    binding,
                    registry: reg,
                    events: seq![
                        ServerMessageView::Error { message: in_use_error_text(player_id) },
                    ],
                }
            } else {
                let reg1 = reg.push(joined_player(player_id, player_name));
                StepView {
                    binding: Some(player_id),
                    registry: reg1,
                    events: seq![
                        ServerMessageView::GameState { players: reg1 },
                        ServerMessageView::PlayerJoined {
                            player_id,
                            player_name,
                            x: origin_text(),
                            y: origin_text(),
                            z: origin_text(),
                        },
                    ],
                }
            }
        },
        ClientMessageView::UpdatePosition { x, y, z } => match binding {
            Some(pid) => {
                if seq_contains_id(reg, pid) {
                    let k = seq_idx_of(reg, pid);
                    StepView {
                        binding,
                        registry: reg.update(k, PlayerView { x, y, z, ..reg[k] }),
                        events: seq![
                            ServerMessageView::PlayerMoved { player_id: pid, x, y, z },
                        ],
                    }
                } else {
                    StepView { binding, registry: reg, events: Seq::empty() }
                }
            },
            None => StepView { binding, registry: reg, events: Seq::empty() },
        },
        ClientMessageView::Leave => match binding {
            Some(pid) => {
                let reg1 = if seq_contains_id(reg, pid) {
                    reg.remove(seq_idx_of(reg, pid))
                } else {
                    reg
                };
                StepView {
                    binding: None,
                    registry: reg1,
                    events: seq![ServerMessageView::PlayerLeft { player_id: pid }],
                }
            },
            None => StepView { binding: None, registry: reg, events: Seq::empty() },
        },
    }
}

/// Connection teardown, from either flow ending: if an identifier is bound
/// and still registered, it is removed and exactly one PlayerLeft is
/// published; otherwise nothing happens.
pub open spec fn spec_disconnect(reg: Seq<PlayerView>, binding: Option<Seq<char>>) -> StepView {
    match binding {
        Some(pid) => {
            if seq_contains_id(reg, pid) {
                StepView {
                    binding: None,
                    registry: reg.remove(seq_idx_of(reg, pid)),
                    events: seq![ServerMessageView::PlayerLeft { player_id: pid }],
                }
            } else {
                StepView { binding: None, registry: reg, events: Seq::empty() }
            }
        },
        None => StepView { binding: None, registry: reg, events: Seq::empty() },
    }
}

/// Drives one decoded client message through the session state machine,
/// mutating the registry and returning the session's new binding together
/// with the events to publish, in publish order.  This is the inbound flow's
/// whole decision step; the binary only decodes, calls this, and publishes.
pub fn handle_client_message(
    msg: ClientMessage,
    current_player_id: Option<String>,
    registry: &mut Registry,
) -> (r: (Option<String>, Vec<ServerMessage>))
    requires
        old(registry).wf(),
        msg.wf(),
    ensures
        final(registry).wf(),
        ({
            let sv = spec_step(
                old(registry).seq_view(),
                current_player_id.deep_view(),
                msg.deep_view(),
            );
            &&& r.0.deep_view() == sv.binding
            &&& r.1.deep_view() == sv.events
            &&& final(registry).seq_view() == sv.registry
        }),
{
    let ghost reg0 = registry.seq_view();
    match msg {
        ClientMessage::Join { player_id, player_name } => {
            match current_player_id {
                Some(bound) => {
                    let mut events: Vec<ServerMessage> = Vec::new();
                    events.push(
                        ServerMessage::Error {
                            message: String::from_str("Session already bound to a player"),
                        },
                    );
                    proof {
                        let sv = spec_step(
                            reg0,
                            Some(bound@),
                            ClientMessageView::Join { player_id: player_id@, player_name: player_name@ },
                        );
                        assert(events.deep_view() =~= sv.events);
                    }
                    (Some(bound), events)
                },
                None => {
                    let ghost pid_v = player_id@;
                    let ghost pname_v = player_name@;
                    let p = Player {
                        id: player_id.clone(),
                        name: player_name.clone(),
                        x: Coord::origin(),
                        y: Coord::origin(),
                        z: Coord::origin(),
                    };
                    proof {
                        lemma_origin_wf();
                        assert(p.deep_view() =~= joined_player(pid_v, pname_v));
                    }
                    if registry.try_insert(p) {
                        let players = registry.snapshot();
                        let mut events: Vec<ServerMessage> = Vec::new();
                        events.push(ServerMessage::GameState { players });
                        events.push(
                            ServerMessage::PlayerJoined {
                                player_id: player_id.clone(),
                                player_name,
                                x: Coord::origin(),
                                y: Coord::origin(),
                                z: Coord::origin(),
                            },
                        );
                        proof {
                            old(registry).lemma_view_map();
                            assert(!seq_contains_id(reg0, pid_v));
                            assert(events.deep_view() =~= spec_step(
                                reg0,
                                None::<Seq<char>>,
                                ClientMessageView::Join { player_id: pid_v, player_name: pname_v },
                            ).events);
                        }
                        (Some(player_id), events)
                    } else {
                        let mut message = String::from_str("Player ID ");
                        message.append(player_id.as_str());
                        message.append(" is already in use");
                        let mut events: Vec<ServerMessage> = Vec::new();
                        events.push(ServerMessage::Error { message });
                        proof {
                            old(registry).lemma_view_map();
                            assert(seq_contains_id(reg0, pid_v));
                            assert(events.deep_view() =~= spec_step(
                                reg0,
                                None::<Seq<char>>,
                                ClientMessageView::Join { player_id: pid_v, player_name: pname_v },
                            ).events);
                        }
                        (None, events)
                    }
                },
            }
        },
        ClientMessage::UpdatePosition { x, y, z } => {
            match current_player_id {
                Some(pid) => {
                    let mut events: Vec<ServerMessage> = Vec::new();
                    if registry.contains(&pid) {
                        proof {
                            old(registry).lemma_view_map();
                        }
                        registry.update(&pid, x.clone(), y.clone(), z.clone());
                        events.push(
                            ServerMessage::PlayerMoved { player_id: pid.clone(), x, y, z },
                        );
                        proof {
                            assert(events.deep_view() =~= spec_step(
                                reg0,
                                Some(pid@),
                                ClientMessageView::UpdatePosition { x: x@, y: y@, z: z@ },
                            ).events);
                        }
                    } else {
                        proof {
                            old(registry).lemma_view_map();
                            assert(events.deep_view() =~= Seq::<ServerMessageView>::empty());
                        }
                    }
                    (Some(pid), events)
                },
                None => {
                    let events: Vec<ServerMessage> = Vec::new();
                    proof {
                        assert(events.deep_view() =~= Seq::<ServerMessageView>::empty());
                    }
                    (None, events)
                },
            }
        },
        ClientMessage::Leave => {
            match current_player_id {
                Some(pid) => {
                    let ghost pid_v = pid@;
                    let mut events: Vec<ServerMessage> = Vec::new();
                    registry.remove(&pid);
                    events.push(ServerMessage::PlayerLeft { player_id: pid });
                    proof {
                        old(registry).lemma_view_map();
                        assert(events.deep_view() =~= spec_step(
                            reg0,
                            Some(pid_v),
                            ClientMessageView::Leave,
                        ).events);
                    }
                    (None, events)
                },
                None => {
                    let events: Vec<ServerMessage> = Vec::new();
                    proof {
                        assert(events.deep_view() =~= Seq::<ServerMessageView>::empty());
                    }
                    (None, events)
                },
            }
        },
    }
}

/// Runs the exactly-once cleanup for a closing connection: removes the bound
/// identifier, if any, and returns the events to publish.
pub fn handle_disconnect(current_player_id: Option<String>, registry: &mut Registry) -> (r: Vec<
    ServerMessage,
>)
    requires
        old(registry).wf(),
    ensures
        final(registry).wf(),
        ({
            let sv = spec_disconnect(old(registry).seq_view(), current_player_id.deep_view());
            &&& r.deep_view() == sv.events
            &&& final(registry).seq_view() == sv.registry
        }),
{
    match current_player_id {
        Some(pid) => {
            let mut events: Vec<ServerMessage> = Vec::new();
            proof {
                old(registry).lemma_view_map();
            }
            if registry.remove(&pid) {
                events.push(ServerMessage::PlayerLeft { player_id: pid });
                proof {
                    assert(events.deep_view() =~= spec_disconnect(
                        old(registry).seq_view(),
                        Some(pid@),
                    ).events);
                }
            } else {
                proof {
                    assert(events.deep_view() =~= Seq::<ServerMessageView>::empty());
                }
            }
            events
        },
        None => {
            let events: Vec<ServerMessage> = Vec::new();
            proof {
                assert(events.deep_view() =~= Seq::<ServerMessageView>::empty());
            }
            events
        },
    }
}

/// Every step of a session on a well-formed registry leaves the registry
/// records well formed and publishes only well-formed events — so every
/// event a step emits can be encoded and decoded losslessly.
pub proof fn lemma_step_wf(reg: Seq<PlayerView>, binding: Option<Seq<char>>, msg: ClientMessageView)
    requires
        forall|k: int| 0 <= k < reg.len() ==> wf_player_view(#[trigger] reg[k]),
        wf_client_view(msg),
    ensures
        ({
            let s = spec_step(reg, binding, msg);
            &&& forall|k: int| 0 <= k < s.registry.len() ==> wf_player_view(#[trigger] s.registry[k])
            &&& forall|k: int| 0 <= k < s.events.len() ==> wf_server_view(#[trigger] s.events[k])
        }),
{
    lemma_origin_wf();
    let s = spec_step(reg, binding, msg);
    match msg {
        ClientMessageView::Join { player_id, player_name } => {
            if binding is None && !seq_contains_id(reg, player_id) {
                assert(wf_player_view(joined_player(player_id, player_name)));
                assert(forall|k: int|
                    0 <= k < s.registry.len() ==> wf_player_view(#[trigger] s.registry[k]));
                assert(wf_server_view(s.events[0]));
                assert(wf_server_view(s.events[1]));
            }
        },
        ClientMessageView::UpdatePosition { x, y, z } => {
            if binding is Some && seq_contains_id(reg, binding->0) {
                assert(forall|k: int|
                    0 <= k < s.registry.len() ==> wf_player_view(#[trigger] s.registry[k]));
                assert(wf_server_view(s.events[0]));
            }
        },
        ClientMessageView::Leave => {},
    }
}

/// Uniqueness of identity: of two Join attempts with the same identifier —
/// serialized in either order by the registry's critical section, this lemma
/// covering the order given — exactly one succeeds and binds; the other
/// observes "already in use", stays unbound, and changes nothing.
pub proof fn lemma_join_uniqueness(
    reg: Seq<PlayerView>,
    id: Seq<char>,
    name1: Seq<char>,
    name2: Seq<char>,
)
    requires
        !seq_contains_id(reg, id),
    ensures
        ({
            let s1 = spec_step(reg, None, ClientMessageView::Join { player_id: id, player_name: name1 });
            let s2 = spec_step(
                s1.registry,
                None,
                ClientMessageView::Join { player_id: id, player_name: name2 },
            );
            &&& s1.binding == Some(id)
            &&& s2.binding == None::<Seq<char>>
            &&& s2.registry == s1.registry
            &&& s2.events == seq![
                ServerMessageView::Error { message: in_use_error_text(id) },
            ]
        }),
{
    let s1 = spec_step(reg, None, ClientMessageView::Join { player_id: id, player_name: name1 });
    assert(s1.registry[reg.len() as int].id == id);
    assert(seq_contains_id(s1.registry, id));
}

/// Join visibility: after a successful Join for `id`, the snapshot event
/// published with it is a GameState holding the registry contents of that
/// instant, including `id`'s record at the origin; the PlayerJoined event
/// follows it.
pub proof fn lemma_join_visibility(reg: Seq<PlayerView>, id: Seq<char>, name: Seq<char>)
    requires
        unique_ids(reg),
        !seq_contains_id(reg, id),
    ensures
        ({
            let s = spec_step(reg, None, ClientMessageView::Join { player_id: id, player_name: name });
            &&& s.binding == Some(id)
            &&& s.events.len() == 2
            &&& s.events[0] == ServerMessageView::GameState { players: s.registry }
            &&& s.events[1] == ServerMessageView::PlayerJoined {
                player_id: id,
                player_name: name,
                x: origin_text(),
                y: origin_text(),
                z: origin_text(),
            }
            &&& s.registry == reg.push(joined_player(id, name))
            &&& unique_ids(s.registry)
            &&& seq_contains_id(s.registry, id)
            &&& map_of(s.registry)[id] == joined_player(id, name)
        }),
{
    let s = spec_step(reg, None, ClientMessageView::Join { player_id: id, player_name: name });
    assert(s.registry[reg.len() as int].id == id);
    assert(seq_contains_id(s.registry, id));
    assert forall|i: int, j: int|
        0 <= i < s.registry.len() && 0 <= j < s.registry.len() && (#[trigger] s.registry[i]).id
            == (#[trigger] s.registry[j]).id implies i == j by {
        if i < reg.len() && j == reg.len() {
            assert(seq_contains_id(reg, reg[i].id));
        }
        if j < reg.len() && i == reg.len() {
            assert(seq_contains_id(reg, reg[j].id));
        }
    }
    lemma_map_of_index(s.registry, reg.len() as int);
}

/// A Join from an unbound session naming an identifier that is already
/// registered changes nothing: the registry is untouched, the session stays
/// unbound, and the one event published is the "already in use" error — no
/// PlayerJoined, no snapshot.  (A Join from a bound session is intercepted
/// earlier, with the rebind error, whatever the registry holds.)
pub proof fn lemma_join_duplicate(reg: Seq<PlayerView>, id: Seq<char>, name: Seq<char>)
    requires
        seq_contains_id(reg, id),
    ensures
        ({
            let s = spec_step(reg, None, ClientMessageView::Join { player_id: id, player_name: name });
            &&& s.registry == reg
            &&& s.binding == None::<Seq<char>>
            &&& s.events == seq![
                ServerMessageView::Error { message: in_use_error_text(id) },
            ]
        }),
{
}

/// An UpdatePosition processed for an identifier no longer in the registry
/// is a silent no-op: no PlayerMoved event, no error, no mutation.
pub proof fn lemma_update_after_leave(
    reg: Seq<PlayerView>,
    pid: Seq<char>,
    x: Seq<char>,
    y: Seq<char>,
    z: Seq<char>,
)
    requires
        !seq_contains_id(reg, pid),
    ensures
        ({
            let s = spec_step(reg, Some(pid), ClientMessageView::UpdatePosition { x, y, z });
            &&& s.registry == reg
            &&& s.events == Seq::<ServerMessageView>::empty()
            &&& s.binding == Some(pid)
        }),
{
}

/// Leave cleans up: a Leave from a session bound to a registered `pid`
/// removes `pid` from the registry — afterwards no record carries it — and
/// publishes exactly one PlayerLeft for it; the session is unbound.
pub proof fn lemma_leave_cleanup(reg: Seq<PlayerView>, pid: Seq<char>)
    requires
        unique_ids(reg),
        seq_contains_id(reg, pid),
    ensures
        ({
            let s = spec_step(reg, Some(pid), ClientMessageView::Leave);
            &&& s.binding == None::<Seq<char>>
            &&& !seq_contains_id(s.registry, pid)
            &&& s.events == seq![ServerMessageView::PlayerLeft { player_id: pid }]
        }),
{
    let s = spec_step(reg, Some(pid), ClientMessageView::Leave);
    let k = seq_idx_of(reg, pid);
    assert(0 <= k < reg.len() && reg[k].id == pid);
    assert forall|j: int| 0 <= j < s.registry.len() implies (#[trigger] s.registry[j]).id
        != pid by {
        let j0 = if j < k {
            j
        } else {
            j + 1
        };
        assert(s.registry[j] == reg[j0]);
    }
}

/// Disconnect cleans up exactly as Leave does: the bound identifier is
/// removed and exactly one PlayerLeft is published for it.
pub proof fn lemma_disconnect_cleanup(reg: Seq<PlayerView>, pid: Seq<char>)
    requires
        unique_ids(reg),
        seq_contains_id(reg, pid),
    ensures
        ({
            let s = spec_disconnect(reg, Some(pid));
            &&& s.binding == None::<Seq<char>>
            &&& !seq_contains_id(s.registry, pid)
            &&& s.events == seq![ServerMessageView::PlayerLeft { player_id: pid }]
        }),
{
    let s = spec_disconnect(reg, Some(pid));
    let k = seq_idx_of(reg, pid);
    assert(0 <= k < reg.len() && reg[k].id == pid);
    assert forall|j: int| 0 <= j < s.registry.len() implies (#[trigger] s.registry[j]).id
        != pid by {
        let j0 = if j < k {
            j
        } else {
            j + 1
        };
        assert(s.registry[j] == reg[j0]);
    }
}

/// Non-interference: one session's step never disturbs a record owned by
/// another session.  Any registered identifier other than the stepping
/// session's own binding is still registered afterwards, with its record
/// unchanged.
pub proof fn lemma_step_preserves_others(
    reg: Seq<PlayerView>,
    binding: Option<Seq<char>>,
    msg: ClientMessageView,
    other: Seq<char>,
)
    requires
        unique_ids(reg),
        seq_contains_id(reg, other),
        match binding {
            Some(p) => other != p,
            None => true,
        },
    ensures
        ({
            let s = spec_step(reg, binding, msg);
            &&& seq_contains_id(s.registry, other)
            &&& map_of(s.registry)[other] == map_of(reg)[other]
        }),
{
    let s = spec_step(reg, binding, msg);
    let ko = seq_idx_of(reg, other);
    assert(0 <= ko < reg.len() && reg[ko].id == other);
    lemma_map_of_index(reg, ko);
    match msg {
        ClientMessageView::Join { player_id, player_name } => {
            if binding is None && !seq_contains_id(reg, player_id) {
                assert(player_id != other);
                assert(s.registry[ko] == reg[ko]);
                assert(unique_ids(s.registry)) by {
                    assert forall|i: int, j: int|
                        0 <= i < s.registry.len() && 0 <= j < s.registry.len() && (
                        #[trigger] s.registry[i]).id == (#[trigger] s.registry[j]).id implies i
                        == j by {
                        if i < reg.len() && j == reg.len() {
                            assert(seq_contains_id(reg, reg[i].id));
                        }
                        if j < reg.len() && i == reg.len() {
                            assert(seq_contains_id(reg, reg[j].id));
                        }
                    }
                }
                lemma_map_of_index(s.registry, ko);
            }
        },
        ClientMessageView::UpdatePosition { x, y, z } => {
            if binding is Some && seq_contains_id(reg, binding->0) {
                let k = seq_idx_of(reg, binding->0);
                assert(0 <= k < reg.len() && reg[k].id == binding->0);
                assert(k != ko);
                assert(s.registry[ko] == reg[ko]);
                assert(unique_ids(s.registry)) by {
                    assert forall|i: int, j: int|
                        0 <= i < s.registry.len() && 0 <= j < s.registry.len() && (
                        #[trigger] s.registry[i]).id == (#[trigger] s.registry[j]).id implies i
                        == j by {
                        assert(s.registry[i].id == reg[i].id);
                        assert(s.registry[j].id == reg[j].id);
                    }
                }
                lemma_map_of_index(s.registry, ko);
            }
        },
        ClientMessageView::Leave => {
            if binding is Some && seq_contains_id(reg, binding->0) {
                let k = seq_idx_of(reg, binding->0);
                assert(0 <= k < reg.len() && reg[k].id == binding->0);
                assert(k != ko);
                let ko1 = if ko < k {
                    ko
                } else {
                    ko - 1
                };
                assert(s.registry[ko1] == reg[ko]);
                assert(unique_ids(s.registry)) by {
                    assert forall|i: int, j: int|
                        0 <= i < s.registry.len() && 0 <= j < s.registry.len() && (
                        #[trigger] s.registry[i]).id == (#[trigger] s.registry[j]).id implies i
                        == j by {
                        let i0 = if i < k {
                            i
                        } else {
                            i + 1
                        };
                        let j0 = if j < k {
                            j
                        } else {
                            j + 1
                        };
                        assert(s.registry[i] == reg[i0]);
                        assert(s.registry[j] == reg[j0]);
                    }
                }
                lemma_map_of_index(s.registry, ko1);
            }
        },
    }
}

/// The session-ownership invariant is preserved by every step: if the
/// stepping session's bound identifier is registered before the step, the
/// new binding's identifier is registered after it.
pub proof fn lemma_step_preserves_binding(
    reg: Seq<PlayerView>,
    binding: Option<Seq<char>>,
    msg: ClientMessageView,
)
    requires
        unique_ids(reg),
        match binding {
            Some(p) => seq_contains_id(reg, p),
            None => true,
        },
    ensures
        ({
            let s = spec_step(reg, binding, msg);
            match s.binding {
                Some(p) => seq_contains_id(s.registry, p),
                None => true,
            }
        }),
{
    let s = spec_step(reg, binding, msg);
    match msg {
        ClientMessageView::Join { player_id, player_name } => {
            if binding is None && !seq_contains_id(reg, player_id) {
                assert(s.registry[reg.len() as int].id == player_id);
            } else {
                if binding is Some {
                    lemma_step_preserves_others_self(reg, binding, msg);
                }
            }
        },
        ClientMessageView::UpdatePosition { x, y, z } => {
            if binding is Some && seq_contains_id(reg, binding->0) {
                let k = seq_idx_of(reg, binding->0);
                assert(0 <= k < reg.len() && reg[k].id == binding->0);
                assert(s.registry[k].id == binding->0);
            }
        },
        ClientMessageView::Leave => {},
    }
}

/// A bound session whose message leaves the registry untouched keeps its
/// identifier registered.
proof fn lemma_step_preserves_others_self(
    reg: Seq<PlayerView>,
    binding: Option<Seq<char>>,
    msg: ClientMessageView,
)
    requires
        binding is Some,
        seq_contains_id(reg, binding->0),
        spec_step(reg, binding, msg).registry == reg,
    ensures
        seq_contains_id(spec_step(reg, binding, msg).registry, binding->0),
{
}

} // verus!
