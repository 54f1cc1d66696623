//! Match bookkeeping for the game server: players, the matchmaking queue and
//! games, and the messages each request sends to which player.
//!
//! Every operation updates the server state and returns the messages to
//! deliver, each addressed to an existing player.

use vstd::prelude::*;
use crate::protocol::{ClientMessage, MessageView, ServerMessage};
use crate::server_laws::{
    fresh_player_id, lemma_accept_rematch_keeps_wf, lemma_add_player_keeps_wf,
    lemma_remove_player_keeps_wf, lemma_request_keeps_wf, lemma_start_matchmaking_keeps_wf,
    server_wf,
};

verus! {

// ---------------------------------------------------------------------------
// Types and their views
// ---------------------------------------------------------------------------

pub enum PlayerState {
    Idle,
    InMatchmaking,
    InGame(String),
    GameOver(String),
}

pub enum StateView {
    Idle,
    InMatchmaking,
    InGame(Seq<char>),
    GameOver(Seq<char>),
}

impl View for PlayerState {
    type V = StateView;

    open spec fn view(&self) -> StateView {
        match self {
            PlayerState::Idle => StateView::Idle,
            PlayerState::InMatchmaking => StateView::InMatchmaking,
            PlayerState::InGame(g) => StateView::InGame(g@),
            PlayerState::GameOver(g) => StateView::GameOver(g@),
        }
    }
}

pub struct Player {
    pub id: String,
    pub name: String,
    pub state: PlayerState,
}

pub struct PlayerView {
    pub id: Seq<char>,
    pub name: Seq<char>,
    pub state: StateView,
}

impl View for Player {
    type V = PlayerView;

    open spec fn view(&self) -> PlayerView {
        PlayerView { id: self.id@, name: self.name@, state: self.state@ }
    }
}

pub struct Game {
    pub id: String,
    pub white_id: String,
    pub black_id: String,
    pub over: bool,
    /// Player id who has asked for a rematch (if any).
    pub rematch_requester: Option<String>,
}

pub struct GameView {
    pub id: Seq<char>,
    pub white: Seq<char>,
    pub black: Seq<char>,
    pub over: bool,
    pub requester: Option<Seq<char>>,
}

impl View for Game {
    type V = GameView;

    open spec fn view(&self) -> GameView {
        GameView {
            id: self.id@,
            white: self.white_id@,
            black: self.black_id@,
            over: self.over,
            requester: match self.rematch_requester {
                Some(r) => Some(r@),
                None => None,
            },
        }
    }
}

/// A message and the player it goes to.
pub struct Outgoing {
    pub to: String,
    pub message: ServerMessage,
}

impl View for Outgoing {
    type V = (Seq<char>, MessageView);

    open spec fn view(&self) -> (Seq<char>, MessageView) {
        (self.to@, self.message@)
    }
}

/// The whole server state.
pub struct ServerState {
    pub players: Vec<Player>,
    pub matchmaking: Vec<String>,
    pub games: Vec<Game>,
}

pub struct ServerView {
    pub players: Seq<PlayerView>,
    pub queue: Seq<Seq<char>>,
    pub games: Seq<GameView>,
}

impl View for ServerState {
    type V = ServerView;

    open spec fn view(&self) -> ServerView {
        ServerView {
            players: self.players@.map_values(|p: Player| p@),
            queue: self.matchmaking@.map_values(|s: String| s@),
            games: self.games@.map_values(|g: Game| g@),
        }
    }
}

impl ServerState {
    /// Player ids, game ids and queued ids are unique, the queue holds
    /// waiting players only, and every player of a game is in play in it
    /// alone (`server_wf`).
    pub open spec fn wf(&self) -> bool {
        server_wf(self@)
    }
}

pub open spec fn outs_view(outs: Seq<Outgoing>) -> Seq<(Seq<char>, MessageView)> {
    outs.map_values(|o: Outgoing| o@)
}

// ---------------------------------------------------------------------------
// Lookups
// ---------------------------------------------------------------------------

/// The first position at or after `k` of the player with id `id`.
pub open spec fn player_from(ps: Seq<PlayerView>, id: Seq<char>, k: nat) -> Option<int>
    decreases ps.len() - k,
{
    if k >= ps.len() {
        None
    } else if ps[k as int].id == id {
        Some(k as int)
    } else {
        player_from(ps, id, k + 1)
    }
}

pub open spec fn find_player(ps: Seq<PlayerView>, id: Seq<char>) -> Option<int> {
    player_from(ps, id, 0)
}

/// The first position at or after `k` of the game with id `id`.
pub open spec fn game_from(gs: Seq<GameView>, id: Seq<char>, k: nat) -> Option<int>
    decreases gs.len() - k,
{
    if k >= gs.len() {
        None
    } else if gs[k as int].id == id {
        Some(k as int)
    } else {
        game_from(gs, id, k + 1)
    }
}

pub open spec fn find_game(gs: Seq<GameView>, id: Seq<char>) -> Option<int> {
    game_from(gs, id, 0)
}

proof fn lemma_player_from_found(ps: Seq<PlayerView>, id: Seq<char>, k: nat)
    ensures
        player_from(ps, id, k) matches Some(i) ==> k <= i < ps.len() && ps[i].id == id,
        player_from(ps, id, k) is None ==> forall|j: int| k <= j < ps.len() ==> ps[j].id != id,
    decreases ps.len() - k,
{
    if k < ps.len() && ps[k as int].id != id {
        lemma_player_from_found(ps, id, k + 1);
    }
}

proof fn lemma_game_from_found(gs: Seq<GameView>, id: Seq<char>, k: nat)
    ensures
        game_from(gs, id, k) matches Some(i) ==> k <= i < gs.len() && gs[i].id == id,
        game_from(gs, id, k) is None ==> forall|j: int| k <= j < gs.len() ==> gs[j].id != id,
    decreases gs.len() - k,
{
    if k < gs.len() && gs[k as int].id != id {
        lemma_game_from_found(gs, id, k + 1);
    }
}

pub proof fn lemma_find_player(ps: Seq<PlayerView>, id: Seq<char>)
    ensures
        find_player(ps, id) matches Some(i) ==> 0 <= i < ps.len() && ps[i].id == id && forall|j: int|
            0 <= j < i ==> ps[j].id != id,
        find_player(ps, id) is None ==> forall|j: int| 0 <= j < ps.len() ==> ps[j].id != id,
{
    lemma_player_from_found(ps, id, 0);
    if let Some(i) = find_player(ps, id) {
        lemma_first_player(ps, id, 0, i);
    }
}

proof fn lemma_first_player(ps: Seq<PlayerView>, id: Seq<char>, k: nat, i: int)
    requires
        player_from(ps, id, k) == Some(i),
    ensures
        forall|j: int| k <= j < i ==> ps[j].id != id,
    decreases ps.len() - k,
{
    if k < ps.len() && ps[k as int].id != id {
        lemma_first_player(ps, id, k + 1, i);
    }
}

pub proof fn lemma_find_game(gs: Seq<GameView>, id: Seq<char>)
    ensures
        find_game(gs, id) matches Some(i) ==> 0 <= i < gs.len() && gs[i].id == id && forall|j: int|
            0 <= j < i ==> gs[j].id != id,
        find_game(gs, id) is None ==> forall|j: int| 0 <= j < gs.len() ==> gs[j].id != id,
{
    lemma_game_from_found(gs, id, 0);
    if let Some(i) = find_game(gs, id) {
        lemma_first_game(gs, id, 0, i);
    }
}

proof fn lemma_first_game(gs: Seq<GameView>, id: Seq<char>, k: nat, i: int)
    requires
        game_from(gs, id, k) == Some(i),
    ensures
        forall|j: int| k <= j < i ==> gs[j].id != id,
    decreases gs.len() - k,
{
    if k < gs.len() && gs[k as int].id != id {
        lemma_first_game(gs, id, k + 1, i);
    }
}

impl ServerState {
    pub fn new() -> (s: Self)
        ensures
            s@.players.len() == 0,
            s@.queue.len() == 0,
            s@.games.len() == 0,
    {
        ServerState { players: Vec::new(), matchmaking: Vec::new(), games: Vec::new() }
    }

    /// Position of the player with id `id`.
    pub fn player_pos(&self, id: &String) -> (r: Option<usize>)
        ensures
            r matches Some(i) ==> find_player(self@.players, id@) == Some(i as int),
            r is None ==> find_player(self@.players, id@) is None,
    {
        let mut i: usize = 0;
        while i < self.players.len()
            invariant
                i <= self.players@.len(),
                find_player(self@.players, id@) == player_from(self@.players, id@, i as nat),
            decreases self.players@.len() - i,
        {
            if self.players[i].id == *id {
                return Some(i);
            }
            i += 1;
        }
        None
    }

    /// Position of the game with id `id`.
    pub fn game_pos(&self, id: &String) -> (r: Option<usize>)
        ensures
            r matches Some(i) ==> find_game(self@.games, id@) == Some(i as int),
            r is None ==> find_game(self@.games, id@) is None,
    {
        let mut i: usize = 0;
        while i < self.games.len()
            invariant
                i <= self.games@.len(),
                find_game(self@.games, id@) == game_from(self@.games, id@, i as nat),
            decreases self.games@.len() - i,
        {
            if self.games[i].id == *id {
                return Some(i);
            }
            i += 1;
        }
        None
    }
}

// ---------------------------------------------------------------------------
// Primitive updates
// ---------------------------------------------------------------------------

pub open spec fn with_state(p: PlayerView, st: StateView) -> PlayerView {
    PlayerView { id: p.id, name: p.name, state: st }
}

/// The players with the state of `id` (if present) replaced by `st`.
pub open spec fn set_state_of(ps: Seq<PlayerView>, id: Seq<char>, st: StateView) -> Seq<PlayerView> {
    match find_player(ps, id) {
        Some(i) => ps.update(i, with_state(ps[i], st)),
        None => ps,
    }
}

/// The messages with `m` for `to` appended, when `to` is a present player.
pub open spec fn notify(
    ps: Seq<PlayerView>,
    outs: Seq<(Seq<char>, MessageView)>,
    to: Seq<char>,
    m: MessageView,
) -> Seq<(Seq<char>, MessageView)> {
    if find_player(ps, to) is Some {
        outs.push((to, m))
    } else {
        outs
    }
}

/// The players without `id`.
pub open spec fn without_player(ps: Seq<PlayerView>, id: Seq<char>) -> Seq<PlayerView> {
    match find_player(ps, id) {
        Some(i) => ps.remove(i),
        None => ps,
    }
}

/// The games without `id`.
pub open spec fn without_game(gs: Seq<GameView>, id: Seq<char>) -> Seq<GameView> {
    match find_game(gs, id) {
        Some(i) => gs.remove(i),
        None => gs,
    }
}

/// The games with `g` stored under its id, replacing a game with the same id.
pub open spec fn with_game(gs: Seq<GameView>, g: GameView) -> Seq<GameView> {
    match find_game(gs, g.id) {
        Some(i) => gs.update(i, g),
        None => gs.push(g),
    }
}

/// The players with `p` stored under its id, replacing a player with the same id.
pub open spec fn with_player(ps: Seq<PlayerView>, p: PlayerView) -> Seq<PlayerView> {
    match find_player(ps, p.id) {
        Some(i) => ps.update(i, p),
        None => ps.push(p),
    }
}

pub open spec fn not_id(id: Seq<char>) -> spec_fn(Seq<char>) -> bool {
    |x: Seq<char>| x != id
}

/// The queue without any entry `id`.
pub open spec fn queue_without(q: Seq<Seq<char>>, id: Seq<char>) -> Seq<Seq<char>> {
    q.filter(not_id(id))
}

/// The name of a player, or the empty name for an absent one.
pub open spec fn name_of(ps: Seq<PlayerView>, id: Seq<char>) -> Seq<char> {
    match find_player(ps, id) {
        Some(i) => ps[i].name,
        None => Seq::empty(),
    }
}

/// The other player of a game: black when `pid` is white, white otherwise.
pub open spec fn other_side(g: GameView, pid: Seq<char>) -> Seq<char> {
    if g.white == pid {
        g.black
    } else {
        g.white
    }
}

impl ServerState {
    /// Set the state of player `id`, if present.
    fn set_state(&mut self, id: &String, st: PlayerState)
        ensures
            final(self)@.players == set_state_of(old(self)@.players, id@, st@),
            final(self)@.queue == old(self)@.queue,
            final(self)@.games == old(self)@.games,
    {
        match self.player_pos(id) {
            Some(i) => {
                proof {
                    lemma_find_player(self@.players, id@);
                }
                self.players[i].state = st;
                proof {
                    assert(self@.players =~= set_state_of(old(self)@.players, id@, st@));
                }
            },
            None => {},
        }
    }

    /// Queue `msg` for player `to`, if present.
    fn notify(&self, outs: &mut Vec<Outgoing>, to: &String, msg: ServerMessage)
        ensures
            outs_view(final(outs)@) == notify(self@.players, outs_view(old(outs)@), to@, msg@),
    {
        if self.player_pos(to).is_some() {
            outs.push(Outgoing { to: to.clone(), message: msg });
            proof {
                assert(outs_view(outs@) =~= outs_view(old(outs)@).push((to@, msg@)));
            }
        }
    }

    /// The name of player `id`, or an empty name.
    fn name_of(&self, id: &String) -> (n: String)
        ensures
            n@ == name_of(self@.players, id@),
    {
        match self.player_pos(id) {
            Some(i) => {
                proof {
                    lemma_find_player(self@.players, id@);
                }
                self.players[i].name.clone()
            },
            None => String::new(),
        }
    }

    /// Remove player `id`, if present.
    fn remove_player_entry(&mut self, id: &String)
        ensures
            final(self)@.players == without_player(old(self)@.players, id@),
            final(self)@.queue == old(self)@.queue,
            final(self)@.games == old(self)@.games,
    {
        match self.player_pos(id) {
            Some(i) => {
                proof {
                    lemma_find_player(self@.players, id@);
                }
                self.players.remove(i);
                proof {
                    assert(self@.players =~= without_player(old(self)@.players, id@));
                }
            },
            None => {},
        }
    }

    /// Remove game `id`, if present.
    fn remove_game_entry(&mut self, id: &String)
        ensures
            final(self)@.games == without_game(old(self)@.games, id@),
            final(self)@.queue == old(self)@.queue,
            final(self)@.players == old(self)@.players,
    {
        match self.game_pos(id) {
            Some(i) => {
                proof {
                    lemma_find_game(self@.games, id@);
                }
                self.games.remove(i);
                proof {
                    assert(self@.games =~= without_game(old(self)@.games, id@));
                }
            },
            None => {},
        }
    }

    /// Store `g` under its id, replacing a game with the same id.
    fn put_game(&mut self, g: Game)
        ensures
            final(self)@.games == with_game(old(self)@.games, g@),
            final(self)@.queue == old(self)@.queue,
            final(self)@.players == old(self)@.players,
    {
        match self.game_pos(&g.id) {
            Some(i) => {
                proof {
                    lemma_find_game(self@.games, g@.id);
                }
                self.games[i] = g;
                proof {
                    assert(self@.games =~= with_game(old(self)@.games, g@));
                }
            },
            None => {
                self.games.push(g);
                proof {
                    assert(self@.games =~= with_game(old(self)@.games, g@));
                }
            },
        }
    }

    /// Drop every queue entry `id`.
    fn dequeue(&mut self, id: &String)
        ensures
            final(self)@.queue == queue_without(old(self)@.queue, id@),
            final(self)@.players == old(self)@.players,
            final(self)@.games == old(self)@.games,
    {
        let ghost q = old(self)@.queue;
        let ghost p = not_id(id@);
        let mut kept: Vec<String> = Vec::new();
        let n = self.matchmaking.len();
        let mut i: usize = 0;
        proof {
            assert(q.take(0) =~= Seq::<Seq<char>>::empty());
            reveal(Seq::filter);
        }
        while i < n
            invariant
                n == self.matchmaking@.len(),
                q == self@.queue,
                self@.players == old(self)@.players,
                self@.games == old(self)@.games,
                q == old(self)@.queue,
                p == not_id(id@),
                0 <= i <= n,
                kept@.map_values(|s: String| s@) == q.take(i as int).filter(p),
            decreases n - i,
        {
            proof {
                assert(q.take(i + 1).drop_last() =~= q.take(i as int));
                assert(q.take(i + 1).last() == self.matchmaking@[i as int]@);
                reveal(Seq::filter);
            }
            if self.matchmaking[i] != *id {
                let e = self.matchmaking[i].clone();
                kept.push(e);
                proof {
                    assert(kept@.map_values(|s: String| s@) =~= q.take(i as int).filter(p).push(e@));
                }
            }
            i += 1;
        }
        self.matchmaking = kept;
        proof {
            assert(q.take(n as int) =~= q);
        }
    }
}

// ---------------------------------------------------------------------------
// Identifiers
// ---------------------------------------------------------------------------

/// A lowercase hexadecimal digit.
pub open spec fn is_lower_hex(c: char) -> bool {
    (48 <= c as int && c as int <= 57) || (97 <= c as int && c as int <= 102)
}

/// The text of a random (version 4, RFC 4122 variant) UUID in hyphenated
/// lowercase form: 36 characters, hyphens at 8, 13, 18 and 23, the version
/// digit `4` at 14, the variant digit one of `8`, `9`, `a`, `b` at 19, and
/// lowercase hexadecimal digits elsewhere.
pub open spec fn uuid_v4_text(s: Seq<char>) -> bool {
    &&& s.len() == 36
    &&& forall|i: int|
        0 <= i < 36 ==> if i == 8 || i == 13 || i == 18 || i == 23 {
            #[trigger] s[i] == '-'
        } else {
            is_lower_hex(s[i])
        }
    &&& s[14] == '4'
    &&& (s[19] == '8' || s[19] == '9' || s[19] == 'a' || s[19] == 'b')
}

/// A fresh random identifier: `uuid::Uuid::new_v4()` turned into text with
/// `to_string`, which writes the hyphenated lowercase form. The contract
/// states that form; the value itself is random, so two calls may give any
/// such strings (distinctness is only overwhelmingly likely, and the server
/// does not rely on it).
#[verifier::external_body]
fn fresh_id() -> (id: String)
    ensures
        uuid_v4_text(id@),
{
    uuid::Uuid::new_v4().to_string()
}

// ---------------------------------------------------------------------------
// Operations, as transitions of the server view
// ---------------------------------------------------------------------------

pub type Outs = Seq<(Seq<char>, MessageView)>;

pub open spec fn add_player_spec(s: ServerView, id: Seq<char>, name: Seq<char>) -> ServerView {
    ServerView {
        players: with_player(s.players, PlayerView { id, name, state: StateView::Idle }),
        queue: s.queue,
        games: s.games,
    }
}

/// A new game `gid` with `p1` as White and `p2` as Black: both players (when
/// present) move into the game and are told their opponent's name and colour.
pub open spec fn create_game_spec(s: ServerView, p1: Seq<char>, p2: Seq<char>, gid: Seq<char>) -> (ServerView, Outs) {
    let p1_name = name_of(s.players, p1);
    let p2_name = name_of(s.players, p2);
    let games = with_game(
        s.games,
        GameView { id: gid, white: p1, black: p2, over: false, requester: None },
    );
    let ps1 = set_state_of(s.players, p1, StateView::InGame(gid));
    let o1 = notify(
        ps1,
        Seq::empty(),
        p1,
        MessageView::MatchFound { game_id: gid, opponent_name: p2_name, your_color: "white"@ },
    );
    let ps2 = set_state_of(ps1, p2, StateView::InGame(gid));
    let o2 = notify(
        ps2,
        o1,
        p2,
        MessageView::MatchFound { game_id: gid, opponent_name: p1_name, your_color: "black"@ },
    );
    (ServerView { players: ps2, queue: s.queue, games }, o2)
}

/// An idle player joins the queue; when two players wait, the one that waited
/// longer plays Black against the other in a new game `gid`.  Otherwise the
/// player is told that matchmaking started.  Anyone else is refused.
pub open spec fn start_matchmaking_spec(s: ServerView, pid: Seq<char>, gid: Seq<char>) -> (ServerView, Outs, bool) {
    match find_player(s.players, pid) {
        Some(i) if s.players[i].state is Idle => {
            let ps = set_state_of(s.players, pid, StateView::InMatchmaking);
            let q = s.queue.push(pid);
            if q.len() >= 2 {
                let (s2, o) = create_game_spec(
                    ServerView { players: ps, queue: q.subrange(2, q.len() as int), games: s.games },
                    q[1],
                    q[0],
                    gid,
                );
                (s2, o, true)
            } else {
                (
                    ServerView { players: ps, queue: q, games: s.games },
                    notify(ps, Seq::empty(), pid, MessageView::MatchmakingStarted),
                    false,
                )
            }
        },
        _ => (s, Seq::empty(), false),
    }
}

/// The player leaves the queue and, if it was waiting, becomes idle.
pub open spec fn leave_matchmaking_spec(s: ServerView, pid: Seq<char>) -> ServerView {
    ServerView {
        players: match find_player(s.players, pid) {
            Some(i) if s.players[i].state is InMatchmaking => set_state_of(s.players, pid, StateView::Idle),
            _ => s.players,
        },
        queue: queue_without(s.queue, pid),
        games: s.games,
    }
}

/// A move of a player of a running game is forwarded to the other player.
pub open spec fn handle_move_spec(s: ServerView, pid: Seq<char>, gid: Seq<char>, from: u8, to: u8) -> Outs {
    match find_game(s.games, gid) {
        Some(gi) => {
            let g = s.games[gi];
            let m = MessageView::OpponentMove { game_id: gid, from, to };
            if g.over {
                Seq::empty()
            } else if g.white == pid {
                notify(s.players, Seq::empty(), g.black, m)
            } else if g.black == pid {
                notify(s.players, Seq::empty(), g.white, m)
            } else {
                Seq::empty()
            }
        },
        None => Seq::empty(),
    }
}

// ---------------------------------------------------------------------------
// Chat text
// ---------------------------------------------------------------------------

/// Unicode `White_Space` characters.
pub open spec fn is_white_space(c: char) -> bool {
    ('\u{9}' <= c <= '\u{d}') || c == ' ' || c == '\u{85}' || c == '\u{a0}' || c == '\u{1680}' || (
    '\u{2000}' <= c <= '\u{200a}') || c == '\u{2028}' || c == '\u{2029}' || c == '\u{202f}' || c
        == '\u{205f}' || c == '\u{3000}'
}

pub open spec fn trim_start_spec(s: Seq<char>) -> Seq<char>
    decreases s.len(),
{
    if s.len() > 0 && is_white_space(s[0]) {
        trim_start_spec(s.drop_first())
    } else {
        s
    }
}

pub open spec fn trim_end_spec(s: Seq<char>) -> Seq<char>
    decreases s.len(),
{
    if s.len() > 0 && is_white_space(s.last()) {
        trim_end_spec(s.drop_last())
    } else {
        s
    }
}

/// The text without leading and trailing white space.
pub open spec fn trim_spec(s: Seq<char>) -> Seq<char> {
    trim_end_spec(trim_start_spec(s))
}

/// `str::trim`: the slice without leading and trailing characters of the
/// Unicode `White_Space` property.
#[verifier::external_body]
pub(crate) fn trim_text(s: &str) -> (t: &str)
    ensures
        t@ == trim_spec(s@),
{
    s.trim()
}

/// The longest accepted chat message, in bytes of UTF-8.
pub const MAX_CHAT_BYTES: usize = 280;

/// A chat line from a player of the game, once trimmed, non-empty and at most
/// 280 bytes long, goes to both players of the game under the sender's name.
pub open spec fn send_chat_spec(s: ServerView, pid: Seq<char>, gid: Seq<char>, message: Seq<char>) -> Outs {
    let t = trim_spec(message);
    if t.len() == 0 || vstd::utf8::encode_utf8(t).len() > MAX_CHAT_BYTES {
        Seq::empty()
    } else {
        match find_game(s.games, gid) {
            Some(gi) => {
                let g = s.games[gi];
                if g.white == pid || g.black == pid {
                    let m = MessageView::ChatMessage {
                        game_id: gid,
                        sender_name: name_of(s.players, pid),
                        message: t,
                    };
                    notify(s.players, notify(s.players, Seq::empty(), g.white, m), g.black, m)
                } else {
                    Seq::empty()
                }
            },
            None => Seq::empty(),
        }
    }
}

// ---------------------------------------------------------------------------
// Game endings and rematches
// ---------------------------------------------------------------------------

pub open spec fn with_over(g: GameView) -> GameView {
    GameView { id: g.id, white: g.white, black: g.black, over: true, requester: g.requester }
}

pub open spec fn with_requester(g: GameView, r: Seq<char>) -> GameView {
    GameView { id: g.id, white: g.white, black: g.black, over: g.over, requester: Some(r) }
}

/// Resigning ends a running game; when the resigner plays in it, the other
/// player wins, both players' games are over and each is told the result.
/// A request from someone who does not play in the game changes nothing.
pub open spec fn resign_spec(s: ServerView, pid: Seq<char>, gid: Seq<char>) -> (ServerView, Outs) {
    match find_game(s.games, gid) {
        Some(gi) if !s.games[gi].over => {
            let g = s.games[gi];
            let games = s.games.update(gi, with_over(g));
            if g.white == pid || g.black == pid {
                let winner = if g.white == pid { g.black } else { g.white };
                let loser = if g.white == pid { g.white } else { g.black };
                let ps1 = set_state_of(s.players, winner, StateView::GameOver(gid));
                let o1 = notify(
                    ps1,
                    Seq::empty(),
                    winner,
                    MessageView::GameOver { game_id: gid, reason: "resign"@, result: Some("win"@) },
                );
                let ps2 = set_state_of(ps1, loser, StateView::GameOver(gid));
                let o2 = notify(
                    ps2,
                    o1,
                    loser,
                    MessageView::GameOver { game_id: gid, reason: "resign"@, result: Some("loss"@) },
                );
                (ServerView { players: ps2, queue: s.queue, games }, o2)
            } else {
                (s, Seq::empty())
            }
        },
        _ => (s, Seq::empty()),
    }
}

/// The first rematch request on a finished game is recorded and passed to
/// the other player.
pub open spec fn request_rematch_spec(s: ServerView, pid: Seq<char>, gid: Seq<char>) -> (ServerView, Outs) {
    match find_game(s.games, gid) {
        Some(gi) if s.games[gi].over && s.games[gi].requester is None => {
            let g = s.games[gi];
            (
                ServerView {
                    players: s.players,
                    queue: s.queue,
                    games: s.games.update(gi, with_requester(g, pid)),
                },
                notify(
                    s.players,
                    Seq::empty(),
                    other_side(g, pid),
                    MessageView::RematchRequested { game_id: gid },
                ),
            )
        },
        _ => (s, Seq::empty()),
    }
}

/// The other player of a finished game accepts a pending request: a new game
/// `new_gid` starts with the colours swapped (the old Black plays White),
/// both are told, and the old game is dropped.
pub open spec fn accept_rematch_spec(s: ServerView, pid: Seq<char>, gid: Seq<char>, new_gid: Seq<char>) -> (ServerView, Outs) {
    match find_game(s.games, gid) {
        Some(gi) if s.games[gi].over => {
            let g = s.games[gi];
            match g.requester {
                Some(r) => if (pid != g.white && pid != g.black) || pid == r {
                    (s, Seq::empty())
                } else {
                    let p1 = g.black;
                    let p2 = g.white;
                    let games1 = with_game(
                        s.games,
                        GameView { id: new_gid, white: p1, black: p2, over: false, requester: None },
                    );
                    let ps1 = set_state_of(s.players, p1, StateView::InGame(new_gid));
                    let o1 = notify(
                        ps1,
                        Seq::empty(),
                        p1,
                        MessageView::RematchAccepted { old_game_id: g.id, new_game_id: new_gid, your_color: "white"@ },
                    );
                    let ps2 = set_state_of(ps1, p2, StateView::InGame(new_gid));
                    let o2 = notify(
                        ps2,
                        o1,
                        p2,
                        MessageView::RematchAccepted { old_game_id: g.id, new_game_id: new_gid, your_color: "black"@ },
                    );
                    (ServerView { players: ps2, queue: s.queue, games: without_game(games1, g.id) }, o2)
                },
                None => (s, Seq::empty()),
            }
        },
        _ => (s, Seq::empty()),
    }
}

/// The other player of a finished game declines a pending request: both
/// players are told, become idle, and the game is dropped.
pub open spec fn decline_rematch_spec(s: ServerView, pid: Seq<char>, gid: Seq<char>) -> (ServerView, Outs) {
    match find_game(s.games, gid) {
        Some(gi) if s.games[gi].over => {
            let g = s.games[gi];
            match g.requester {
                Some(r) => if (pid != g.white && pid != g.black) || pid == r {
                    (s, Seq::empty())
                } else {
                    let m = MessageView::RematchDeclined { game_id: gid };
                    let o1 = notify(s.players, Seq::empty(), r, m);
                    let ps1 = set_state_of(s.players, g.white, StateView::Idle);
                    let ps2 = set_state_of(ps1, g.black, StateView::Idle);
                    let o2 = notify(ps2, o1, pid, m);
                    (ServerView { players: ps2, queue: s.queue, games: without_game(s.games, gid) }, o2)
                },
                None => (s, Seq::empty()),
            }
        },
        _ => (s, Seq::empty()),
    }
}

/// The game a player is in, as (game id, other player, finished), when its
/// state names a game that exists.
pub open spec fn game_of(s: ServerView, pid: Seq<char>) -> Option<(Seq<char>, Seq<char>, bool)> {
    match find_player(s.players, pid) {
        Some(i) => match s.players[i].state {
            StateView::InGame(g) => match find_game(s.games, g) {
                Some(gi) => Some((g, other_side(s.games[gi], pid), s.games[gi].over)),
                None => None,
            },
            StateView::GameOver(g) => match find_game(s.games, g) {
                Some(gi) => Some((g, other_side(s.games[gi], pid), s.games[gi].over)),
                None => None,
            },
            _ => None,
        },
        None => None,
    }
}

/// A leaving player is dropped from the queue and the players; the other
/// player of its game is told (the game is over, or the opponent
/// disconnected), becomes idle, and the game is dropped.
pub open spec fn remove_player_spec(s: ServerView, pid: Seq<char>) -> (ServerView, Outs) {
    let q = queue_without(s.queue, pid);
    let ps1 = without_player(s.players, pid);
    match game_of(s, pid) {
        None => (ServerView { players: ps1, queue: q, games: s.games }, Seq::empty()),
        Some((g, opp, over)) => {
            let m = if over {
                MessageView::GameOver { game_id: g, reason: "disconnect"@, result: None }
            } else {
                MessageView::OpponentDisconnected { game_id: g }
            };
            let o = notify(ps1, Seq::empty(), opp, m);
            (
                ServerView {
                    players: set_state_of(ps1, opp, StateView::Idle),
                    queue: q,
                    games: without_game(s.games, g),
                },
                o,
            )
        },
    }
}

// ---------------------------------------------------------------------------
// Operations
// ---------------------------------------------------------------------------

/// Whether two views of server states are the same.
pub open spec fn same_view(a: ServerView, b: ServerView) -> bool {
    a.players == b.players && a.queue == b.queue && a.games == b.games
}

impl ServerState {
    /// Add an idle player `id` named `name`, replacing a player with the same id.
    pub fn add_player(&mut self, id: String, name: String)
        ensures
            same_view(final(self)@, add_player_spec(old(self)@, id@, name@)),
    {
        let ghost pv = PlayerView { id: id@, name: name@, state: StateView::Idle };
        match self.player_pos(&id) {
            Some(i) => {
                proof {
                    lemma_find_player(self@.players, id@);
                }
                self.players[i] = Player { id, name, state: PlayerState::Idle };
                proof {
                    assert(self@.players =~= with_player(old(self)@.players, pv));
                }
            },
            None => {
                self.players.push(Player { id, name, state: PlayerState::Idle });
                proof {
                    assert(self@.players =~= with_player(old(self)@.players, pv));
                }
            },
        }
    }

    /// Register a new player under a fresh random id (a version 4 UUID in
    /// hyphenated form), and return the id.
    pub fn register_player(&mut self, name: String) -> (id: String)
        ensures
            same_view(final(self)@, add_player_spec(old(self)@, id@, name@)),
            uuid_v4_text(id@),
            old(self).wf() && fresh_player_id(old(self)@, id@) ==> final(self).wf(),
    {
        let id = fresh_id();
        let key = id.clone();
        let ghost nm = name@;
        self.add_player(key, name);
        proof {
            if old(self).wf() && fresh_player_id(old(self)@, id@) {
                lemma_add_player_keeps_wf(old(self)@, id@, nm);
                assert(self@ == add_player_spec(old(self)@, id@, nm));
            }
        }
        id
    }

    /// Start game `game_id` between `p1` (White) and `p2` (Black).
    pub fn create_game(&mut self, p1: &String, p2: &String, game_id: String) -> (outs: Vec<Outgoing>)
        ensures
            ({
                let (s2, o) = create_game_spec(old(self)@, p1@, p2@, game_id@);
                same_view(final(self)@, s2) && outs_view(outs@) == o
            }),
    {
        let p1_name = self.name_of(p1);
        let p2_name = self.name_of(p2);
        self.put_game(
            Game {
                id: game_id.clone(),
                white_id: p1.clone(),
                black_id: p2.clone(),
                over: false,
                rematch_requester: None,
            },
        );
        let mut outs: Vec<Outgoing> = Vec::new();
        proof {
            assert(outs_view(outs@) =~= Seq::empty());
        }
        self.set_state(p1, PlayerState::InGame(game_id.clone()));
        self.notify(
            &mut outs,
            p1,
            ServerMessage::MatchFound {
                game_id: game_id.clone(),
                opponent_name: p2_name,
                your_color: "white".to_string(),
            },
        );
        self.set_state(p2, PlayerState::InGame(game_id.clone()));
        self.notify(
            &mut outs,
            p2,
            ServerMessage::MatchFound {
                game_id: game_id.clone(),
                opponent_name: p1_name,
                your_color: "black".to_string(),
            },
        );
        outs
    }

    /// Put player `pid` into the matchmaking queue, pairing it with a waiting
    /// player when there is one. Returns whether a game was created.
    pub fn start_matchmaking(&mut self, pid: &str) -> (r: (bool, Vec<Outgoing>))
        ensures
            exists|gid: Seq<char>|
                {
                    let (s2, o, matched) = #[trigger] start_matchmaking_spec(old(self)@, pid@, gid);
                    uuid_v4_text(gid) && same_view(final(self)@, s2) && outs_view(r.1@) == o && r.0 == matched
                },
            old(self).wf() ==> final(self).wf(),
    {
        let pid = pid.to_string();
        let can_queue = match self.player_pos(&pid) {
            Some(i) => {
                proof {
                    lemma_find_player(self@.players, pid@);
                }
                match self.players[i].state {
                    PlayerState::Idle => true,
                    _ => false,
                }
            },
            None => false,
        };
        let gid = fresh_id();
        if !can_queue {
            let outs: Vec<Outgoing> = Vec::new();
            proof {
                assert(outs_view(outs@) =~= Seq::empty());
                let t = start_matchmaking_spec(old(self)@, pid@, gid@);
                assert(t.1 =~= Seq::empty());
                if old(self).wf() {
                    lemma_start_matchmaking_keeps_wf(old(self)@, pid@, gid@);
                    assert(self@ == t.0);
                }
            }
            return (false, outs);
        }
        self.set_state(&pid, PlayerState::InMatchmaking);
        self.matchmaking.push(pid.clone());
        proof {
            assert(self@.queue =~= old(self)@.queue.push(pid@));
        }
        if self.matchmaking.len() >= 2 {
            let ghost q = self@.queue;
            let p2 = self.matchmaking.remove(0);
            let p1 = self.matchmaking.remove(0);
            proof {
                assert(self@.queue =~= q.subrange(2, q.len() as int));
                assert(p1@ == q[1]);
                assert(p2@ == q[0]);
            }
            let ghost gv = gid@;
            let outs = self.create_game(&p1, &p2, gid);
            proof {
                let (s2, o, m) = start_matchmaking_spec(old(self)@, pid@, gv);
                assert(same_view(self@, s2));
                assert(outs_view(outs@) == o);
                assert(m);
                if old(self).wf() {
                    lemma_start_matchmaking_keeps_wf(old(self)@, pid@, gv);
                    assert(self@ == s2);
                }
            }
            (true, outs)
        } else {
            let mut outs: Vec<Outgoing> = Vec::new();
            proof {
                assert(outs_view(outs@) =~= Seq::empty());
            }
            self.notify(&mut outs, &pid, ServerMessage::MatchmakingStarted);
            proof {
                let (s2, o, m) = start_matchmaking_spec(old(self)@, pid@, gid@);
                assert(same_view(self@, s2));
                assert(outs_view(outs@) == o);
                assert(!m);
                if old(self).wf() {
                    lemma_start_matchmaking_keeps_wf(old(self)@, pid@, gid@);
                    assert(self@ == s2);
                }
            }
            (false, outs)
        }
    }

    /// Take player `pid` out of the matchmaking queue.
    pub fn leave_matchmaking(&mut self, pid: &str)
        ensures
            same_view(final(self)@, leave_matchmaking_spec(old(self)@, pid@)),
    {
        let pid = pid.to_string();
        self.dequeue(&pid);
        match self.player_pos(&pid) {
            Some(i) => {
                proof {
                    lemma_find_player(self@.players, pid@);
                }
                match self.players[i].state {
                    PlayerState::InMatchmaking => {
                        self.set_state(&pid, PlayerState::Idle);
                    },
                    _ => {},
                }
            },
            None => {},
        }
    }

    /// Forward a move from one player to the opponent in the specified game.
    pub fn handle_move(&self, pid: &str, game_id: &str, from: u8, to: u8) -> (outs: Vec<Outgoing>)
        ensures
            outs_view(outs@) == handle_move_spec(self@, pid@, game_id@, from, to),
    {
        let pid = pid.to_string();
        let gid = game_id.to_string();
        let mut outs: Vec<Outgoing> = Vec::new();
        proof {
            assert(outs_view(outs@) =~= Seq::empty());
        }
        let gi = match self.game_pos(&gid) {
            Some(gi) => gi,
            None => return outs,
        };
        proof {
            lemma_find_game(self@.games, gid@);
        }
        let game = &self.games[gi];
        if game.over {
            return outs;
        }
        let opponent = if game.white_id == pid {
            game.black_id.clone()
        } else if game.black_id == pid {
            game.white_id.clone()
        } else {
            return outs;
        };
        self.notify(&mut outs, &opponent, ServerMessage::OpponentMove { game_id: gid, from, to });
        outs
    }

    /// Send a chat line to both players of a game, trimmed, if it is not
    /// empty and at most 280 bytes long and the sender plays in the game.
    pub fn send_chat(&self, pid: &str, game_id: &str, message: &str) -> (outs: Vec<Outgoing>)
        ensures
            outs_view(outs@) == send_chat_spec(self@, pid@, game_id@, message@),
    {
        let mut outs: Vec<Outgoing> = Vec::new();
        proof {
            assert(outs_view(outs@) =~= Seq::empty());
        }
        let trimmed = trim_text(message);
        if trimmed.is_empty() || trimmed.as_bytes().len() > MAX_CHAT_BYTES {
            return outs;
        }
        let pid = pid.to_string();
        let gid = game_id.to_string();
        let gi = match self.game_pos(&gid) {
            Some(gi) => gi,
            None => return outs,
        };
        proof {
            lemma_find_game(self@.games, gid@);
        }
        let game = &self.games[gi];
        if !(game.white_id == pid || game.black_id == pid) {
            return outs;
        }
        let white = game.white_id.clone();
        let black = game.black_id.clone();
        let sender_name = self.name_of(&pid);
        self.notify(
            &mut outs,
            &white,
            ServerMessage::ChatMessage {
                game_id: gid.clone(),
                sender_name: sender_name.clone(),
                message: trimmed.to_string(),
            },
        );
        self.notify(
            &mut outs,
            &black,
            ServerMessage::ChatMessage {
                game_id: gid,
                sender_name,
                message: trimmed.to_string(),
            },
        );
        outs
    }
}

impl ServerState {
    /// Mark a game as resigned; the opponent wins.
    pub fn resign(&mut self, pid: &str, game_id: &str) -> (outs: Vec<Outgoing>)
        ensures
            ({
                let (s2, o) = resign_spec(old(self)@, pid@, game_id@);
                same_view(final(self)@, s2) && outs_view(outs@) == o
            }),
    {
        let pid = pid.to_string();
        let gid = game_id.to_string();
        let mut outs: Vec<Outgoing> = Vec::new();
        proof {
            assert(outs_view(outs@) =~= Seq::empty());
        }
        let gi = match self.game_pos(&gid) {
            Some(gi) => gi,
            None => return outs,
        };
        proof {
            lemma_find_game(self@.games, gid@);
        }
        if self.games[gi].over {
            return outs;
        }
        let white = self.games[gi].white_id.clone();
        let black = self.games[gi].black_id.clone();
        let (winner, loser) = if white == pid {
            (black, white)
        } else if black == pid {
            (white, black)
        } else {
            return outs;
        };
        self.games[gi].over = true;
        proof {
            assert(self@.games =~= old(self)@.games.update(gi as int, with_over(old(self)@.games[gi as int])));
        }
        self.set_state(&winner, PlayerState::GameOver(gid.clone()));
        self.notify(
            &mut outs,
            &winner,
            ServerMessage::GameOver {
                game_id: gid.clone(),
                reason: "resign".to_string(),
                result: Some("win".to_string()),
            },
        );
        self.set_state(&loser, PlayerState::GameOver(gid.clone()));
        self.notify(
            &mut outs,
            &loser,
            ServerMessage::GameOver {
                game_id: gid,
                reason: "resign".to_string(),
                result: Some("loss".to_string()),
            },
        );
        outs
    }

    /// Record a rematch request on a finished game and tell the other player.
    pub fn request_rematch(&mut self, pid: &str, game_id: &str) -> (outs: Vec<Outgoing>)
        ensures
            ({
                let (s2, o) = request_rematch_spec(old(self)@, pid@, game_id@);
                same_view(final(self)@, s2) && outs_view(outs@) == o
            }),
    {
        let pid = pid.to_string();
        let gid = game_id.to_string();
        let mut outs: Vec<Outgoing> = Vec::new();
        proof {
            assert(outs_view(outs@) =~= Seq::empty());
        }
        let gi = match self.game_pos(&gid) {
            Some(gi) => gi,
            None => return outs,
        };
        proof {
            lemma_find_game(self@.games, gid@);
        }
        if !self.games[gi].over || self.games[gi].rematch_requester.is_some() {
            return outs;
        }
        self.games[gi].rematch_requester = Some(pid.clone());
        proof {
            assert(self@.games =~= old(self)@.games.update(
                gi as int,
                with_requester(old(self)@.games[gi as int], pid@),
            ));
        }
        let opponent = if self.games[gi].white_id == pid {
            self.games[gi].black_id.clone()
        } else {
            self.games[gi].white_id.clone()
        };
        self.notify(&mut outs, &opponent, ServerMessage::RematchRequested { game_id: gid });
        outs
    }

    /// Accept a pending rematch request: start game `new_game_id`.
    pub fn accept_rematch_with(&mut self, pid: &str, game_id: &str, new_game_id: String) -> (outs: Vec<Outgoing>)
        ensures
            ({
                let (s2, o) = accept_rematch_spec(old(self)@, pid@, game_id@, new_game_id@);
                same_view(final(self)@, s2) && outs_view(outs@) == o
            }),
    {
        let pid = pid.to_string();
        let gid = game_id.to_string();
        let mut outs: Vec<Outgoing> = Vec::new();
        proof {
            assert(outs_view(outs@) =~= Seq::empty());
        }
        let gi = match self.game_pos(&gid) {
            Some(gi) => gi,
            None => return outs,
        };
        proof {
            lemma_find_game(self@.games, gid@);
        }
        if !self.games[gi].over {
            return outs;
        }
        let requester = match &self.games[gi].rematch_requester {
            Some(r) => r.clone(),
            None => return outs,
        };
        let white = self.games[gi].white_id.clone();
        let black = self.games[gi].black_id.clone();
        if pid != white && pid != black {
            return outs;
        }
        if pid == requester {
            return outs;
        }
        let old_gid = self.games[gi].id.clone();
        // Swap colours: each player takes the other colour in the rematch.
        let (p1, p2) = (black, white);
        self.put_game(
            Game {
                id: new_game_id.clone(),
                white_id: p1.clone(),
                black_id: p2.clone(),
                over: false,
                rematch_requester: None,
            },
        );
        self.set_state(&p1, PlayerState::InGame(new_game_id.clone()));
        self.notify(
            &mut outs,
            &p1,
            ServerMessage::RematchAccepted {
                old_game_id: old_gid.clone(),
                new_game_id: new_game_id.clone(),
                your_color: "white".to_string(),
            },
        );
        self.set_state(&p2, PlayerState::InGame(new_game_id.clone()));
        self.notify(
            &mut outs,
            &p2,
            ServerMessage::RematchAccepted {
                old_game_id: old_gid.clone(),
                new_game_id,
                your_color: "black".to_string(),
            },
        );
        // Remove the old game entry
        self.remove_game_entry(&old_gid);
        outs
    }

    /// Accept a pending rematch request: start a new game under a fresh id.
    pub fn accept_rematch(&mut self, pid: &str, game_id: &str) -> (outs: Vec<Outgoing>)
        ensures
            exists|new_gid: Seq<char>|
                {
                    let (s2, o) = #[trigger] accept_rematch_spec(old(self)@, pid@, game_id@, new_gid);
                    uuid_v4_text(new_gid) && same_view(final(self)@, s2) && outs_view(outs@) == o
                },
            old(self).wf() ==> final(self).wf(),
    {
        let new_game_id = fresh_id();
        let ghost ng = new_game_id@;
        let outs = self.accept_rematch_with(pid, game_id, new_game_id);
        proof {
            let (s2, o) = accept_rematch_spec(old(self)@, pid@, game_id@, ng);
            assert(same_view(self@, s2) && outs_view(outs@) == o);
            if old(self).wf() {
                lemma_accept_rematch_keeps_wf(old(self)@, pid@, game_id@, ng);
                assert(self@ == s2);
            }
        }
        outs
    }

    /// Decline a pending rematch request: both players become idle and the
    /// finished game is dropped.
    pub fn decline_rematch(&mut self, pid: &str, game_id: &str) -> (outs: Vec<Outgoing>)
        ensures
            ({
                let (s2, o) = decline_rematch_spec(old(self)@, pid@, game_id@);
                same_view(final(self)@, s2) && outs_view(outs@) == o
            }),
    {
        let pid = pid.to_string();
        let gid = game_id.to_string();
        let mut outs: Vec<Outgoing> = Vec::new();
        proof {
            assert(outs_view(outs@) =~= Seq::empty());
        }
        let gi = match self.game_pos(&gid) {
            Some(gi) => gi,
            None => return outs,
        };
        proof {
            lemma_find_game(self@.games, gid@);
        }
        if !self.games[gi].over {
            return outs;
        }
        let requester = match &self.games[gi].rematch_requester {
            Some(r) => r.clone(),
            None => return outs,
        };
        let white = self.games[gi].white_id.clone();
        let black = self.games[gi].black_id.clone();
        if pid != white && pid != black {
            return outs;
        }
        if pid == requester {
            return outs;
        }
        // Tell the requester their rematch was declined
        self.notify(&mut outs, &requester, ServerMessage::RematchDeclined { game_id: gid.clone() });
        // Move both players back to idle
        self.set_state(&white, PlayerState::Idle);
        self.set_state(&black, PlayerState::Idle);
        // Also let the decliner know the rematch is off
        self.notify(&mut outs, &pid, ServerMessage::RematchDeclined { game_id: gid.clone() });
        self.remove_game_entry(&gid);
        outs
    }

    /// Remove a player entirely, cleaning up the matchmaking queue and its game.
    pub fn remove_player(&mut self, pid: &str) -> (outs: Vec<Outgoing>)
        ensures
            ({
                let (s2, o) = remove_player_spec(old(self)@, pid@);
                same_view(final(self)@, s2) && outs_view(outs@) == o
            }),
            old(self).wf() ==> final(self).wf(),
    {
        let pid = pid.to_string();
        let mut outs: Vec<Outgoing> = Vec::new();
        proof {
            assert(outs_view(outs@) =~= Seq::empty());
        }
        let ghost s0 = self@;
        // The game the player is in, before the player is removed
        let mut info: Option<(String, String, bool)> = None;
        match self.player_pos(&pid) {
            Some(i) => {
                proof {
                    lemma_find_player(self@.players, pid@);
                }
                let g: Option<String> = match &self.players[i].state {
                    PlayerState::InGame(g) => Some(g.clone()),
                    PlayerState::GameOver(g) => Some(g.clone()),
                    _ => None,
                };
                if let Some(g) = g {
                    if let Some(gi) = self.game_pos(&g) {
                        proof {
                            lemma_find_game(self@.games, g@);
                        }
                        let opponent = if self.games[gi].white_id == pid {
                            self.games[gi].black_id.clone()
                        } else {
                            self.games[gi].white_id.clone()
                        };
                        info = Some((g, opponent, self.games[gi].over));
                    }
                }
            },
            None => {},
        }
        proof {
            match game_of(s0, pid@) {
                Some((g, o, ov)) => {
                    assert(info is Some);
                    let (a, b, c) = info->0;
                    assert(a@ == g && b@ == o && c == ov);
                },
                None => {
                    assert(info is None);
                },
            }
        }
        // Remove from the matchmaking queue
        self.dequeue(&pid);
        // Remove the player
        self.remove_player_entry(&pid);
        // Notify the opponent and clean up the game
        if let Some((gid, opponent_id, was_over)) = info {
            if was_over {
                self.notify(
                    &mut outs,
                    &opponent_id,
                    ServerMessage::GameOver {
                        game_id: gid.clone(),
                        reason: "disconnect".to_string(),
                        result: None,
                    },
                );
            } else {
                self.notify(
                    &mut outs,
                    &opponent_id,
                    ServerMessage::OpponentDisconnected { game_id: gid.clone() },
                );
            }
            self.remove_game_entry(&gid);
            self.set_state(&opponent_id, PlayerState::Idle);
        }
        proof {
            if old(self).wf() {
                lemma_remove_player_keeps_wf(old(self)@, pid@);
                assert(same_view(self@, remove_player_spec(old(self)@, pid@).0));
                assert(self@ == remove_player_spec(old(self)@, pid@).0);
            }
        }
        outs
    }
}

// ---------------------------------------------------------------------------
// One connection's requests
// ---------------------------------------------------------------------------

pub open spec fn msgs_view(ms: Seq<ServerMessage>) -> Seq<MessageView> {
    ms.map_values(|m: ServerMessage| m@)
}

/// What one client request does, for a connection that has joined as
/// `pid`: the new state and the messages to other players.
pub open spec fn request_spec(s: ServerView, pid: Seq<char>, msg: ClientMessage) -> (ServerView, Outs) {
    match msg {
        ClientMessage::LeaveMatchmaking => (leave_matchmaking_spec(s, pid), Seq::empty()),
        ClientMessage::MakeMove { game_id, from, to } => (s, handle_move_spec(s, pid, game_id@, from, to)),
        ClientMessage::Resign { game_id } => resign_spec(s, pid, game_id@),
        ClientMessage::RequestRematch { game_id } => request_rematch_spec(s, pid, game_id@),
        ClientMessage::DeclineRematch { game_id } => decline_rematch_spec(s, pid, game_id@),
        ClientMessage::SendChat { game_id, message } => (s, send_chat_spec(s, pid, game_id@, message@)),
        _ => (s, Seq::empty()),
    }
}

impl ServerState {
    /// Handle one request of a connection whose player id (once joined) is in
    /// `session`.  Returns the replies for this connection and the messages
    /// for players.  The first request must be `Join`; a second `Join` is an
    /// error; lobby requests and `Disconnect` are not served.
    pub fn handle_client_message(&mut self, session: &mut Option<String>, msg: ClientMessage) -> (r: (
        Vec<ServerMessage>,
        Vec<Outgoing>,
    ))
        ensures
            match (*old(session), msg) {
                (None, ClientMessage::Join { name, client }) => {
                    &&& *final(session) is Some
                    &&& uuid_v4_text((*final(session))->0@)
                    &&& same_view(final(self)@, add_player_spec(old(self)@, (*final(session))->0@, name@))
                    &&& msgs_view(r.0@) == seq![MessageView::Joined { player_id: (*final(session))->0@ }]
                    &&& r.1@.len() == 0
                },
                (None, _) => {
                    &&& *final(session) == *old(session)
                    &&& same_view(final(self)@, old(self)@)
                    &&& msgs_view(r.0@) == seq![MessageView::Error { message: "first message must be Join"@ }]
                    &&& r.1@.len() == 0
                },
                (Some(pid), ClientMessage::Join { .. }) => {
                    &&& *final(session) == *old(session)
                    &&& same_view(final(self)@, old(self)@)
                    &&& msgs_view(r.0@) == seq![MessageView::Error { message: "already joined"@ }]
                    &&& r.1@.len() == 0
                },
                (Some(pid), ClientMessage::StartMatchmaking) => {
                    &&& *final(session) == *old(session)
                    &&& r.0@.len() == 0
                    &&& exists|gid: Seq<char>|
                        {
                            let (s2, o, matched) = #[trigger] start_matchmaking_spec(old(self)@, pid@, gid);
                            uuid_v4_text(gid) && same_view(final(self)@, s2) && outs_view(r.1@) == o
                        }
                },
                (Some(pid), ClientMessage::AcceptRematch { game_id }) => {
                    &&& *final(session) == *old(session)
                    &&& r.0@.len() == 0
                    &&& exists|gid: Seq<char>|
                        {
                            let (s2, o) = #[trigger] accept_rematch_spec(old(self)@, pid@, game_id@, gid);
                            uuid_v4_text(gid) && same_view(final(self)@, s2) && outs_view(r.1@) == o
                        }
                },
                (Some(pid), m) => {
                    let (s2, o) = request_spec(old(self)@, pid@, m);
                    &&& *final(session) == *old(session)
                    &&& same_view(final(self)@, s2)
                    &&& outs_view(r.1@) == o
                    &&& msgs_view(r.0@) == if m is LeaveMatchmaking {
                        seq![MessageView::MatchmakingLeft]
                    } else {
                        Seq::empty()
                    }
                },
            },
            old(self).wf() ==> final(self).wf() || (*old(session) is None && msg is Join && !fresh_player_id(
                old(self)@,
                (*final(session))->0@,
            )),
    {
        let ghost m0 = msg;
        let mut replies: Vec<ServerMessage> = Vec::new();
        let mut outs: Vec<Outgoing> = Vec::new();
        proof {
            assert(msgs_view(replies@) =~= Seq::empty());
            assert(outs_view(outs@) =~= Seq::empty());
        }
        // Every first message from a connection must be Join
        let pid: String = match session {
            Some(p) => p.clone(),
            None => {
                match msg {
                    ClientMessage::Join { name, client } => {
                        let id = self.register_player(name);
                        replies.push(ServerMessage::Joined { player_id: id.clone() });
                        *session = Some(id);
                        proof {
                            assert(msgs_view(replies@) =~= seq![MessageView::Joined { player_id: session->0@ }]);
                        }
                    },
                    _ => {
                        replies.push(ServerMessage::Error { message: "first message must be Join".to_string() });
                        proof {
                            assert(msgs_view(replies@) =~= seq![MessageView::Error { message: "first message must be Join"@ }]);
                        }
                    },
                }
                return (replies, outs);
            },
        };
        match msg {
            ClientMessage::Join { .. } => {
                replies.push(ServerMessage::Error { message: "already joined".to_string() });
                proof {
                    assert(msgs_view(replies@) =~= seq![MessageView::Error { message: "already joined"@ }]);
                }
            },
            ClientMessage::StartMatchmaking => {
                let (_matched, o) = self.start_matchmaking(pid.as_str());
                outs = o;
            },
            ClientMessage::LeaveMatchmaking => {
                self.leave_matchmaking(pid.as_str());
                replies.push(ServerMessage::MatchmakingLeft);
                proof {
                    assert(msgs_view(replies@) =~= seq![MessageView::MatchmakingLeft]);
                }
            },
            ClientMessage::MakeMove { game_id, from, to } => {
                outs = self.handle_move(pid.as_str(), game_id.as_str(), from, to);
            },
            ClientMessage::Resign { game_id } => {
                outs = self.resign(pid.as_str(), game_id.as_str());
            },
            ClientMessage::RequestRematch { game_id } => {
                outs = self.request_rematch(pid.as_str(), game_id.as_str());
            },
            ClientMessage::AcceptRematch { game_id } => {
                outs = self.accept_rematch(pid.as_str(), game_id.as_str());
            },
            ClientMessage::DeclineRematch { game_id } => {
                outs = self.decline_rematch(pid.as_str(), game_id.as_str());
            },
            ClientMessage::SendChat { game_id, message } => {
                outs = self.send_chat(pid.as_str(), game_id.as_str(), message.as_str());
            },
            _ => {},
        }
        proof {
            if old(self).wf() && !(m0 is StartMatchmaking) && !(m0 is AcceptRematch) && !(m0 is Join) {
                lemma_request_keeps_wf(old(self)@, pid@, m0);
                assert(self@ == request_spec(old(self)@, pid@, m0).0);
            }
        }
        (replies, outs)
    }
}

} // verus!
