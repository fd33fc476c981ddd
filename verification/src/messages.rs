//! Message and player data carried between clients and the server core.
//!
//! Positions travel on the wire as decimal number literals.  The core never
//! does arithmetic on them — it only stores and relays them — so a coordinate
//! is carried as its literal text, kept well-formed by [`Coord`]'s validity
//! predicate, and relayed unchanged between clients.
use vstd::prelude::*;

verus! {

/// Characters that may appear in a coordinate literal: digits, sign,
/// decimal point and exponent markers.  None of them can collide with the
/// envelope framing characters (`"`, `,`, `}`, `]`), which is what the codec
/// relies on to delimit a number.
pub open spec fn is_num_char(c: char) -> bool {
    ('0' <= c && c <= '9') || c == '-' || c == '+' || c == '.' || c == 'e' || c == 'E'
}

/// A well-formed coordinate text: non-empty and made of number characters
/// only.  The translator is deliberately lenient: it treats any such token as
/// a number literal and does not re-check full decimal syntax.
pub open spec fn wf_num_text(t: Seq<char>) -> bool {
    &&& t.len() > 0
    &&& forall|k: int| 0 <= k < t.len() ==> is_num_char(#[trigger] t[k])
}

/// One position coordinate, carried as its decimal text.
pub struct Coord {
    pub text: String,
}

impl View for Coord {
    type V = Seq<char>;

    open spec fn view(&self) -> Seq<char> {
        self.text@
    }
}

impl DeepView for Coord {
    type V = Seq<char>;

    open spec fn deep_view(&self) -> Seq<char> {
        self.text@
    }
}

impl Coord {
    pub open spec fn wf(&self) -> bool {
        wf_num_text(self.text@)
    }

    /// Accepts a coordinate literal, rejecting any text that could break the
    /// envelope framing.
    pub fn from_text(text: String) -> (r: Option<Coord>)
        ensures
            match r {
                Some(c) => c.wf() && c@ == text@,
                None => !wf_num_text(text@),
            },
    {
        let n = text.as_str().unicode_len();
        if n == 0 {
            return None;
        }
        let mut i: usize = 0;
        while i < n
            invariant
                0 <= i <= n,
                n == text@.len(),
                forall|k: int| 0 <= k < i ==> is_num_char(#[trigger] text@[k]),
            decreases n - i,
        {
            let c = text.as_str().get_char(i);
            if !exec_is_num_char(c) {
                return None;
            }
            i += 1;
        }
        Some(Coord { text })
    }

    /// The origin coordinate, `0.0`, given to every player at join.
    pub fn origin() -> (r: Coord)
        ensures
            r.wf(),
            r@ == ("0.0")@,
    {
        proof {
            reveal_strlit("0.0");
        }
        let text = String::from_str("0.0");
        Coord { text }
    }
}

impl Clone for Coord {
    fn clone(&self) -> (r: Coord)
        ensures
            r == *self,
    {
        Coord { text: self.text.clone() }
    }
}

/// Executable mirror of [`is_num_char`].
pub fn exec_is_num_char(c: char) -> (r: bool)
    ensures
        r == is_num_char(c),
{
    ('0' <= c && c <= '9') || c == '-' || c == '+' || c == '.' || c == 'e' || c == 'E'
}

/// The mathematical value of a player record: its field texts.
#[verifier::ext_equal]
pub struct PlayerView {
    pub id: Seq<char>,
    pub name: Seq<char>,
    pub x: Seq<char>,
    pub y: Seq<char>,
    pub z: Seq<char>,
}

pub open spec fn wf_player_view(p: PlayerView) -> bool {
    wf_num_text(p.x) && wf_num_text(p.y) && wf_num_text(p.z)
}

/// One connected player: identifier, display name and current position.
pub struct Player {
    pub id: String,
    pub name: String,
    pub x: Coord,
    pub y: Coord,
    pub z: Coord,
}

impl DeepView for Player {
    type V = PlayerView;

    open spec fn deep_view(&self) -> PlayerView {
        PlayerView {
            id: self.id@,
            name: self.name@,
            x: self.x@,
            y: self.y@,
            z: self.z@,
        }
    }
}

impl Player {
    pub open spec fn wf(&self) -> bool {
        wf_player_view(self.deep_view())
    }
}

impl Clone for Player {
    fn clone(&self) -> (r: Player)
        ensures
            r == *self,
    {
        Player {
            id: self.id.clone(),
            name: self.name.clone(),
            x: self.x.clone(),
            y: self.y.clone(),
            z: self.z.clone(),
        }
    }
}

/// The mathematical value of an inbound client message.
#[verifier::ext_equal]
pub enum ClientMessageView {
    Join { player_id: Seq<char>, player_name: Seq<char> },
    UpdatePosition { x: Seq<char>, y: Seq<char>, z: Seq<char> },
    Leave,
}

pub open spec fn wf_client_view(m: ClientMessageView) -> bool {
    match m {
        ClientMessageView::Join { .. } => true,
        ClientMessageView::UpdatePosition { x, y, z } => wf_num_text(x) && wf_num_text(y)
            && wf_num_text(z),
        ClientMessageView::Leave => true,
    }
}

/// A decoded inbound message: a client announcing itself, moving, or leaving.
pub enum ClientMessage {
    Join { player_id: String, player_name: String },
    UpdatePosition { x: Coord, y: Coord, z: Coord },
    Leave,
}

impl DeepView for ClientMessage {
    type V = ClientMessageView;

    open spec fn deep_view(&self) -> ClientMessageView {
        match self {
            ClientMessage::Join { player_id, player_name } => ClientMessageView::Join {
                player_id: player_id@,
                player_name: player_name@,
            },
            ClientMessage::UpdatePosition { x, y, z } => ClientMessageView::UpdatePosition {
                x: x@,
                y: y@,
                z: z@,
            },
            ClientMessage::Leave => ClientMessageView::Leave,
        }
    }
}

impl ClientMessage {
    pub open spec fn wf(&self) -> bool {
        wf_client_view(self.deep_view())
    }
}

/// The mathematical value of an outbound server event.
#[verifier::ext_equal]
pub enum ServerMessageView {
    PlayerJoined {
        player_id: Seq<char>,
        player_name: Seq<char>,
        x: Seq<char>,
        y: Seq<char>,
        z: Seq<char>,
    },
    PlayerLeft { player_id: Seq<char> },
    PlayerMoved { player_id: Seq<char>, x: Seq<char>, y: Seq<char>, z: Seq<char> },
    GameState { players: Seq<PlayerView> },
    Error { message: Seq<char> },
}

pub open spec fn wf_server_view(m: ServerMessageView) -> bool {
    match m {
        ServerMessageView::PlayerJoined { x, y, z, .. } => wf_num_text(x) && wf_num_text(y)
            && wf_num_text(z),
        ServerMessageView::PlayerLeft { .. } => true,
        ServerMessageView::PlayerMoved { x, y, z, .. } => wf_num_text(x) && wf_num_text(y)
            && wf_num_text(z),
        ServerMessageView::GameState { players } => forall|k: int|
            0 <= k < players.len() ==> wf_player_view(#[trigger] players[k]),
        ServerMessageView::Error { .. } => true,
    }
}

/// An event broadcast to every connected session.
pub enum ServerMessage {
    PlayerJoined { player_id: String, player_name: String, x: Coord, y: Coord, z: Coord },
    PlayerLeft { player_id: String },
    PlayerMoved { player_id: String, x: Coord, y: Coord, z: Coord },
    GameState { players: Vec<Player> },
    Error { message: String },
}

impl DeepView for ServerMessage {
    type V = ServerMessageView;

    open spec fn deep_view(&self) -> ServerMessageView {
        match self {
            ServerMessage::PlayerJoined { player_id, player_name, x, y, z } => {
                ServerMessageView::PlayerJoined {
                    player_id: player_id@,
                    player_name: player_name@,
                    x: x@,
                    y: y@,
                    z: z@,
                }
            },
            ServerMessage::PlayerLeft { player_id } => ServerMessageView::PlayerLeft {
                player_id: player_id@,
            },
            ServerMessage::PlayerMoved { player_id, x, y, z } => ServerMessageView::PlayerMoved {
                player_id: player_id@,
                x: x@,
                y: y@,
                z: z@,
            },
            ServerMessage::GameState { players } => ServerMessageView::GameState {
                players: players.deep_view(),
            },
            ServerMessage::Error { message } => ServerMessageView::Error { message: message@ },
        }
    }
}

impl ServerMessage {
    pub open spec fn wf(&self) -> bool {
        wf_server_view(self.deep_view())
    }
}

/// Duplicates a player list element by element, preserving every record.
pub fn clone_players(v: &Vec<Player>) -> (r: Vec<Player>)
    ensures
        r@ == v@,
{
    let mut r: Vec<Player> = Vec::new();
    let mut i: usize = 0;
    while i < v.len()
        invariant
            0 <= i <= v.len(),
            r@ =~= v@.take(i as int),
        decreases v.len() - i,
    {
        r.push(v[i].clone());
        i += 1;
    }
    proof {
        assert(r@ =~= v@);
    }
    r
}

impl Clone for ServerMessage {
    fn clone(&self) -> (r: ServerMessage)
        ensures
            r.deep_view() == self.deep_view(),
    {
        match self {
            ServerMessage::PlayerJoined { player_id, player_name, x, y, z } => {
                ServerMessage::PlayerJoined {
                    player_id: player_id.clone(),
                    player_name: player_name.clone(),
                    x: x.clone(),
                    y: y.clone(),
                    z: z.clone(),
                }
            },
            ServerMessage::PlayerLeft { player_id } => ServerMessage::PlayerLeft {
                player_id: player_id.clone(),
            },
            ServerMessage::PlayerMoved { player_id, x, y, z } => ServerMessage::PlayerMoved {
                player_id: player_id.clone(),
                x: x.clone(),
                y: y.clone(),
                z: z.clone(),
            },
            ServerMessage::GameState { players } => {
                let r = ServerMessage::GameState { players: clone_players(players) };
                proof {
                    assert(r.deep_view() =~= self.deep_view());
                }
                r
            },
            ServerMessage::Error { message } => ServerMessage::Error {
                message: message.clone(),
            },
        }
    }
}

} // verus!
