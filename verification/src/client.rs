//! The online side of the game client: what the player asked the server
//! for, the status shown while waiting, the public lobby list, and how each
//! message from the server changes the game on screen. The connection itself
//! belongs to the caller; this module says what to send and what to show.

use vstd::prelude::*;
use crate::protocol::{lobbies_view, ClientMessage, LobbySummary, MessageView, ServerMessage};
use crate::server::{trim_spec, trim_text};
use crate::session::{
    after_opponent_move, fresh_session, rematch_possible_view, sound_for, started, with_chat_line, with_system_line,
    GameMode, GameSession, RematchState, SessionView, Sound,
};
use crate::types::{Color, Move};

verus! {

/// The screen the client shows.
#[derive(Clone, Copy, Debug, PartialEq, Eq, Structural)]
pub enum Screen {
    Menu,
    OnlineWaiting,
    LobbyBrowser,
    Playing,
}

/// What the player asked for when going online.
pub enum OnlineIntent {
    RandomMatchmaking,
    BrowseLobbies,
    CreatePublicLobby,
    CreatePrivateLobby,
    JoinLobby(String),
}

pub enum IntentView {
    RandomMatchmaking,
    BrowseLobbies,
    CreatePublicLobby,
    CreatePrivateLobby,
    JoinLobby(Seq<char>),
}

impl View for OnlineIntent {
    type V = IntentView;

    open spec fn view(&self) -> IntentView {
        match self {
            OnlineIntent::RandomMatchmaking => IntentView::RandomMatchmaking,
            OnlineIntent::BrowseLobbies => IntentView::BrowseLobbies,
            OnlineIntent::CreatePublicLobby => IntentView::CreatePublicLobby,
            OnlineIntent::CreatePrivateLobby => IntentView::CreatePrivateLobby,
            OnlineIntent::JoinLobby(code) => IntentView::JoinLobby(code@),
        }
    }
}

/// The client: the screen, the game, whether a connection is open, and the
/// online state.
pub struct OnlineClient {
    pub screen: Screen,
    pub board: GameSession,
    pub connected: bool,
    pub online_intent: Option<OnlineIntent>,
    pub online_status: String,
    pub active_lobby_code: Option<String>,
    pub public_lobbies: Vec<LobbySummary>,
}

pub struct ClientView {
    pub screen: Screen,
    pub board: SessionView,
    pub connected: bool,
    pub intent: Option<IntentView>,
    pub status: Seq<char>,
    pub lobby_code: Option<Seq<char>>,
    pub lobbies: Seq<(Seq<char>, Seq<char>)>,
}

impl View for OnlineClient {
    type V = ClientView;

    open spec fn view(&self) -> ClientView {
        ClientView {
            screen: self.screen,
            board: self.board@,
            connected: self.connected,
            intent: match self.online_intent {
                Some(i) => Some(i@),
                None => None,
            },
            status: self.online_status@,
            lobby_code: match self.active_lobby_code {
                Some(c) => Some(c@),
                None => None,
            },
            lobbies: lobbies_view(self.public_lobbies@),
        }
    }
}

/// What the caller does after a server message: send `send` to the server,
/// play `sound`, and start the clocks when `game_started` is set.
pub struct Reaction {
    pub send: Option<ClientMessage>,
    pub sound: Option<Sound>,
    pub game_started: bool,
}

/// The request that carries out an intent once the server has accepted us.
pub open spec fn request_for(m: ClientMessage, i: IntentView) -> bool {
    match i {
        IntentView::RandomMatchmaking => m is StartMatchmaking,
        IntentView::BrowseLobbies => m is RequestLobbyList,
        IntentView::CreatePublicLobby => m matches ClientMessage::CreateLobby { private_lobby } && !private_lobby,
        IntentView::CreatePrivateLobby => m matches ClientMessage::CreateLobby { private_lobby } && private_lobby,
        IntentView::JoinLobby(code) => m matches ClientMessage::JoinLobby { lobby_code } && lobby_code@ == code,
    }
}

/// Back to the menu with the online state cleared.
pub open spec fn cleared_online(c: ClientView) -> ClientView {
    ClientView { intent: None, lobby_code: None, lobbies: Seq::empty(), status: Seq::empty(), screen: Screen::Menu, ..c }
}

/// A new public lobby list; while browsing with no lobby of our own, the
/// status says whether there is any.
pub open spec fn lobby_list_applied(c: ClientView, lobbies: Seq<(Seq<char>, Seq<char>)>) -> ClientView {
    if c.intent == Some(IntentView::BrowseLobbies) && c.lobby_code is None {
        ClientView {
            lobbies: lobbies,
            status: if lobbies.len() == 0 {
                "No public lobbies yet."@
            } else {
                "Select a public lobby to join."@
            },
            ..c
        }
    } else {
        ClientView { lobbies: lobbies, ..c }
    }
}

/// The side named by the server: "white", or else Black.
pub open spec fn color_named(s: Seq<char>) -> Color {
    if s == "white"@ {
        Color::White
    } else {
        Color::Black
    }
}

/// The status line at the end of an online game.
pub open spec fn game_over_status(reason: Seq<char>, result: Option<Seq<char>>) -> Seq<char> {
    if result == Some("win"@) {
        "You win!"@
    } else if result == Some("loss"@) {
        "You lose"@
    } else if result == Some("draw"@) {
        "Draw"@
    } else {
        "Game over: "@ + reason
    }
}

/// The rematch offer shown when a rematch is possible.
pub open spec fn offer_rematch(v: SessionView, r: RematchState) -> SessionView {
    if rematch_possible_view(v) {
        SessionView { rematch: r, ..v }
    } else {
        v
    }
}

/// The message is about the game on screen.
pub open spec fn same_game(v: SessionView, gid: Seq<char>) -> bool {
    v.game_id == Some(gid)
}

/// How a server message changes the client.
pub open spec fn react(c: ClientView, m: MessageView) -> ClientView {
    match m {
        MessageView::Joined { .. } => c,
        MessageView::MatchmakingStarted => ClientView { status: "Looking for a random opponent..."@, ..c },
        MessageView::MatchmakingLeft => cleared_online(c),
        MessageView::LobbyLeft => cleared_online(c),
        MessageView::LobbyList { lobbies } => lobby_list_applied(c, lobbies),
        MessageView::LobbyListUpdated { lobbies } => lobby_list_applied(c, lobbies),
        MessageView::LobbyCreated { lobby_code, private_lobby } => ClientView {
            lobby_code: Some(lobby_code),
            status: if private_lobby {
                "Private lobby created. Share the code below."@
            } else {
                "Public lobby created. Waiting for another player."@
            },
            ..c
        },
        MessageView::MatchFound { game_id, opponent_name, your_color } => ClientView {
            board: started(
                SessionView { game_id: Some(game_id), ..c.board },
                GameMode::Online,
                color_named(your_color),
                opponent_name,
            ),
            lobby_code: None,
            intent: None,
            lobbies: Seq::empty(),
            status: Seq::empty(),
            screen: Screen::Playing,
            ..c
        },
        MessageView::OpponentMove { from, to, .. } => ClientView {
            board: after_opponent_move(c.board, Move { from, to, capture: c.board.cells[to as int] is Some }),
            ..c
        },
        MessageView::GameOver { reason, result, .. } => ClientView {
            board: offer_rematch(
                SessionView { our_turn: false, status: game_over_status(reason, result), ..c.board },
                RematchState::Available,
            ),
            ..c
        },
        MessageView::RematchRequested { game_id } => if same_game(c.board, game_id) {
            ClientView {
                board: with_system_line(
                    offer_rematch(c.board, RematchState::RequestedByOpponent),
                    "Opponent requested a rematch."@,
                ),
                ..c
            }
        } else {
            c
        },
        MessageView::RematchAccepted { old_game_id, new_game_id, your_color } => if same_game(c.board, old_game_id) {
            ClientView {
                board: with_system_line(
                    started(
                        SessionView { rematch: RematchState::Starting, game_id: Some(new_game_id), ..c.board },
                        GameMode::Online,
                        color_named(your_color),
                        c.board.opponent,
                    ),
                    "Rematch started."@,
                ),
                screen: Screen::Playing,
                ..c
            }
        } else {
            ClientView { screen: Screen::Playing, ..c }
        },
        MessageView::RematchDeclined { game_id } => if same_game(c.board, game_id) {
            ClientView {
                board: with_system_line(SessionView { rematch: RematchState::Declined, ..c.board }, "Rematch declined."@),
                ..c
            }
        } else {
            c
        },
        MessageView::OpponentDisconnected { .. } => ClientView {
            board: SessionView { our_turn: false, status: "Opponent disconnected"@, ..c.board },
            ..c
        },
        MessageView::ChatMessage { game_id, sender_name, message } => if same_game(c.board, game_id) {
            ClientView {
                board: with_chat_line(
                    c.board,
                    if sender_name == c.board.opponent {
                        sender_name
                    } else {
                        "You"@
                    },
                    message,
                ),
                ..c
            }
        } else {
            c
        },
        MessageView::Error { message } => if c.screen == Screen::OnlineWaiting {
            ClientView { status: "Server error: "@ + message, ..c }
        } else if c.board.mode == GameMode::Online {
            ClientView { board: with_system_line(c.board, "Server error: "@ + message), ..c }
        } else {
            ClientView { board: SessionView { status: "Server error: "@ + message, ..c.board }, ..c }
        },
    }
}

/// What the caller does for a server message.
pub open spec fn reaction_ok(r: Reaction, c: ClientView, m: MessageView) -> bool {
    &&& match m {
        MessageView::Joined { .. } => if c.connected && c.intent is Some {
            r.send matches Some(msg) && request_for(msg, c.intent->Some_0)
        } else {
            r.send is None
        },
        _ => r.send is None,
    }
    &&& r.sound == match m {
        MessageView::OpponentMove { from, to, .. } => Some(
            sound_for(react(c, m).board.cells, react(c, m).board.turn, c.board.cells[to as int] is Some),
        ),
        _ => None,
    }
    &&& r.game_started == (m is MatchFound || (m matches MessageView::RematchAccepted { old_game_id, .. }
        && same_game(c.board, old_game_id)))
}

/// What `str::to_uppercase` gives for a text.
pub uninterp spec fn uppercase(s: Seq<char>) -> Seq<char>;

/// `str::to_uppercase`: the text with each character replaced by its
/// Unicode uppercase mapping. The mapping is left unstated here; the result
/// is named `uppercase` of the text.
#[verifier::external_body]
fn to_upper(s: &str) -> (t: String)
    ensures
        t@ == uppercase(s@),
{
    s.to_uppercase()
}

/// Why a connection attempt ended before it was open.
#[derive(Clone, Copy, Debug, PartialEq, Eq, Structural)]
pub enum ConnectFailure {
    /// The server could not be reached.
    Connect,
    /// The introduction could not be sent.
    Join,
}

/// What joining a lobby by code asks of the caller.
pub enum JoinStep {
    /// Nothing to do (the code was empty).
    Nothing,
    /// Send this message on the open connection.
    Send(ClientMessage),
    /// Open a connection for the intent now stored.
    Connect,
}

/// The status shown while connecting for an intent.
pub open spec fn connecting_status(i: IntentView) -> Seq<char> {
    match i {
        IntentView::RandomMatchmaking => "Connecting to matchmaking..."@,
        IntentView::BrowseLobbies => "Loading public lobbies..."@,
        IntentView::CreatePublicLobby => "Creating public lobby..."@,
        IntentView::CreatePrivateLobby => "Creating private lobby..."@,
        IntentView::JoinLobby(code) => "Joining lobby "@ + uppercase(code) + "..."@,
    }
}

/// The client once a connection for `i` is being opened.
pub open spec fn connecting(c: ClientView, i: IntentView) -> ClientView {
    ClientView {
        intent: Some(i),
        lobby_code: None,
        lobbies: Seq::empty(),
        status: connecting_status(i),
        screen: if i is BrowseLobbies {
            Screen::LobbyBrowser
        } else {
            Screen::OnlineWaiting
        },
        connected: true,
        ..c
    }
}

/// The client after the connection is gone: the online state is cleared and
/// a waiting screen goes back to the menu.
pub open spec fn disconnected(c: ClientView) -> ClientView {
    ClientView {
        connected: false,
        intent: None,
        lobby_code: None,
        lobbies: Seq::empty(),
        screen: if c.screen == Screen::OnlineWaiting || c.screen == Screen::LobbyBrowser {
            Screen::Menu
        } else {
            c.screen
        },
        ..c
    }
}

/// The messages that close a connection: leaving the queue or our lobby
/// when we were in one, then saying goodbye with `reason`.
pub open spec fn farewell_ok(msgs: Seq<ClientMessage>, c: ClientView, reason: Seq<char>) -> bool {
    if !c.connected {
        msgs.len() == 0
    } else {
        let leave = match c.intent {
            Some(IntentView::RandomMatchmaking) => 1int,
            Some(IntentView::CreatePublicLobby) => 2int,
            Some(IntentView::CreatePrivateLobby) => 2int,
            _ => 0int,
        };
        &&& msgs.len() == if leave == 0 {
            1int
        } else {
            2int
        }
        &&& leave == 1 ==> msgs[0] is LeaveMatchmaking
        &&& leave == 2 ==> msgs[0] is LeaveLobby
        &&& msgs.last() matches ClientMessage::Disconnect { reason: Some(r) } && r@ == reason
    }
}

/// Whether `a` and `b` hold the same text.
fn same_text(a: &String, b: &str) -> (r: bool)
    ensures
        r == (a@ == b@),
{
    let t = String::from_str(b);
    *a == t
}

/// Whether the game on screen has id `gid`.
fn is_current_game(board: &GameSession, gid: &String) -> (r: bool)
    ensures
        r == same_game(board@, gid@),
{
    match &board.game_id {
        Some(g) => *g == *gid,
        None => false,
    }
}

fn color_from(s: &String) -> (c: Color)
    ensures
        c == color_named(s@),
{
    if same_text(s, "white") {
        Color::White
    } else {
        Color::Black
    }
}

impl OnlineClient {
    pub open spec fn wf(&self) -> bool {
        self.board.wf()
    }

    /// A client on the menu with a fresh game and no connection.
    pub fn new() -> (c: Self)
        ensures
            c.wf(),
            c@.board == fresh_session(),
            c@.screen == Screen::Menu,
            !c@.connected,
            c@.intent is None,
            c@.status.len() == 0,
            c@.lobby_code is None,
            c@.lobbies.len() == 0,
    {
        let c = OnlineClient {
            screen: Screen::Menu,
            board: GameSession::new(),
            connected: false,
            online_intent: None,
            online_status: String::new(),
            active_lobby_code: None,
            public_lobbies: Vec::new(),
        };
        proof {
            assert(lobbies_view(c.public_lobbies@) =~= Seq::empty());
        }
        c
    }

    fn clear_online(&mut self)
        ensures
            final(self)@ == cleared_online(old(self)@),
            final(self).board == old(self).board,
    {
        self.online_intent = None;
        self.active_lobby_code = None;
        self.public_lobbies = Vec::new();
        self.online_status = String::new();
        self.screen = Screen::Menu;
        proof {
            assert(lobbies_view(self.public_lobbies@) =~= Seq::empty());
        }
    }

    /// Take a new public lobby list.
    pub fn apply_public_lobby_list(&mut self, lobbies: Vec<LobbySummary>)
        ensures
            final(self)@ == lobby_list_applied(old(self)@, lobbies_view(lobbies@)),
            final(self).board == old(self).board,
    {
        let browsing = match &self.online_intent {
            Some(OnlineIntent::BrowseLobbies) => true,
            _ => false,
        };
        let empty = lobbies.len() == 0;
        self.public_lobbies = lobbies;
        if browsing && self.active_lobby_code.is_none() {
            self.online_status = if empty {
                String::from_str("No public lobbies yet.")
            } else {
                String::from_str("Select a public lobby to join.")
            };
        }
    }

    /// The request to send once the server has accepted us.
    fn request_for_intent(intent: &OnlineIntent) -> (m: ClientMessage)
        ensures
            request_for(m, intent@),
    {
        match intent {
            OnlineIntent::RandomMatchmaking => ClientMessage::StartMatchmaking,
            OnlineIntent::BrowseLobbies => ClientMessage::RequestLobbyList,
            OnlineIntent::CreatePublicLobby => ClientMessage::CreateLobby { private_lobby: false },
            OnlineIntent::CreatePrivateLobby => ClientMessage::CreateLobby { private_lobby: true },
            OnlineIntent::JoinLobby(code) => ClientMessage::JoinLobby { lobby_code: code.clone() },
        }
    }

    fn on_match_found(&mut self, game_id: String, opponent_name: String, your_color: String)
        requires
            old(self).wf(),
        ensures
            final(self).wf(),
            final(self)@ == react(
                old(self)@,
                MessageView::MatchFound { game_id: game_id@, opponent_name: opponent_name@, your_color: your_color@ },
            ),
    {
        let color = color_from(&your_color);
        self.board.game_id = Some(game_id);
        self.board.start_game(GameMode::Online, color, opponent_name.as_str());
        self.active_lobby_code = None;
        self.online_intent = None;
        self.public_lobbies = Vec::new();
        self.online_status = String::new();
        self.screen = Screen::Playing;
        proof {
            assert(lobbies_view(self.public_lobbies@) =~= Seq::empty());
        }
    }

    fn on_opponent_move(&mut self, game_id: Ghost<Seq<char>>, from: u8, to: u8) -> (s: Sound)
        requires
            old(self).wf(),
            from < 64,
            to < 64,
            old(self).board.move_count < u32::MAX,
        ensures
            final(self).wf(),
            final(self)@ == react(old(self)@, MessageView::OpponentMove { game_id: game_id@, from, to }),
            s == sound_for(final(self)@.board.cells, final(self)@.board.turn, old(self)@.board.cells[to as int] is Some),
    {
        let is_capture = self.board.game_state.get(to as usize).is_some();
        let mv = Move::new(from, to, is_capture);
        self.board.apply_opponent_move(mv)
    }

    fn on_game_over(&mut self, game_id: Ghost<Seq<char>>, reason: String, result: Option<String>)
        requires
            old(self).wf(),
        ensures
            final(self).wf(),
            final(self)@ == react(
                old(self)@,
                MessageView::GameOver {
                    game_id: game_id@,
                    reason: reason@,
                    result: match result {
                        Some(r) => Some(r@),
                        None => None,
                    },
                },
            ),
    {
        self.board.is_our_turn = false;
        let status = match &result {
            Some(r) => {
                if same_text(r, "win") {
                    String::from_str("You win!")
                } else if same_text(r, "loss") {
                    String::from_str("You lose")
                } else if same_text(r, "draw") {
                    String::from_str("Draw")
                } else {
                    let mut s = String::from_str("Game over: ");
                    s.append(reason.as_str());
                    s
                }
            },
            None => {
                let mut s = String::from_str("Game over: ");
                s.append(reason.as_str());
                s
            },
        };
        self.board.status_message = status;
        self.board.enable_rematch_offer();
    }

    fn on_rematch_requested(&mut self, game_id: String)
        requires
            old(self).wf(),
        ensures
            final(self).wf(),
            final(self)@ == react(old(self)@, MessageView::RematchRequested { game_id: game_id@ }),
    {
        if is_current_game(&self.board, &game_id) {
            self.board.note_rematch_requested();
            self.board.push_system_chat_message(String::from_str("Opponent requested a rematch."));
        }
    }

    fn on_rematch_accepted(&mut self, old_game_id: String, new_game_id: String, your_color: String) -> (started_game: bool)
        requires
            old(self).wf(),
        ensures
            final(self).wf(),
            final(self)@ == react(
                old(self)@,
                MessageView::RematchAccepted {
                    old_game_id: old_game_id@,
                    new_game_id: new_game_id@,
                    your_color: your_color@,
                },
            ),
            started_game == same_game(old(self)@.board, old_game_id@),
    {
        let color = color_from(&your_color);
        let mut started_game = false;
        if is_current_game(&self.board, &old_game_id) {
            self.board.note_rematch_starting();
            let opponent_name = self.board.opponent_name.clone();
            self.board.game_id = Some(new_game_id);
            self.board.start_game(GameMode::Online, color, opponent_name.as_str());
            self.board.push_system_chat_message(String::from_str("Rematch started."));
            started_game = true;
        }
        self.screen = Screen::Playing;
        started_game
    }

    fn on_rematch_declined(&mut self, game_id: String)
        requires
            old(self).wf(),
        ensures
            final(self).wf(),
            final(self)@ == react(old(self)@, MessageView::RematchDeclined { game_id: game_id@ }),
    {
        if is_current_game(&self.board, &game_id) {
            self.board.note_rematch_declined();
            self.board.push_system_chat_message(String::from_str("Rematch declined."));
        }
    }

    fn on_chat_message(&mut self, game_id: String, sender_name: String, message: String)
        requires
            old(self).wf(),
        ensures
            final(self).wf(),
            final(self)@ == react(
                old(self)@,
                MessageView::ChatMessage { game_id: game_id@, sender_name: sender_name@, message: message@ },
            ),
    {
        if is_current_game(&self.board, &game_id) {
            let sender = if sender_name == self.board.opponent_name {
                sender_name
            } else {
                String::from_str("You")
            };
            self.board.push_chat_message(sender, message);
        }
    }

    fn on_error(&mut self, message: String)
        requires
            old(self).wf(),
        ensures
            final(self).wf(),
            final(self)@ == react(old(self)@, MessageView::Error { message: message@ }),
    {
        let mut text = String::from_str("Server error: ");
        text.append(message.as_str());
        match self.screen {
            Screen::OnlineWaiting => {
                self.online_status = text;
            },
            _ => {
                match self.board.game_mode {
                    GameMode::Online => {
                        self.board.push_system_chat_message(text);
                    },
                    _ => {
                        self.board.status_message = text;
                    },
                }
            },
        }
    }

    /// React to a message from the server.
    pub fn handle_server_message(&mut self, msg: ServerMessage) -> (r: Reaction)
        requires
            old(self).wf(),
            msg matches ServerMessage::OpponentMove { from, to, .. } ==> from < 64 && to < 64
                && old(self).board.move_count < u32::MAX,
        ensures
            final(self).wf(),
            final(self)@ == react(old(self)@, msg@),
            reaction_ok(r, old(self)@, msg@),
    {
        let none = Reaction { send: None, sound: None, game_started: false };
        match msg {
            ServerMessage::Joined { .. } => {
                if self.connected {
                    match &self.online_intent {
                        Some(intent) => {
                            let next = Self::request_for_intent(intent);
                            return Reaction { send: Some(next), sound: None, game_started: false };
                        },
                        None => {},
                    }
                }
                none
            },
            ServerMessage::MatchmakingStarted => {
                self.online_status = String::from_str("Looking for a random opponent...");
                none
            },
            ServerMessage::MatchmakingLeft => {
                self.clear_online();
                none
            },
            ServerMessage::LobbyLeft => {
                self.clear_online();
                none
            },
            ServerMessage::LobbyList { lobbies } => {
                self.apply_public_lobby_list(lobbies);
                none
            },
            ServerMessage::LobbyListUpdated { lobbies } => {
                self.apply_public_lobby_list(lobbies);
                none
            },
            ServerMessage::LobbyCreated { lobby_code, private_lobby } => {
                self.active_lobby_code = Some(lobby_code);
                self.online_status = if private_lobby {
                    String::from_str("Private lobby created. Share the code below.")
                } else {
                    String::from_str("Public lobby created. Waiting for another player.")
                };
                none
            },
            ServerMessage::MatchFound { game_id, opponent_name, your_color } => {
                self.on_match_found(game_id, opponent_name, your_color);
                Reaction { send: None, sound: None, game_started: true }
            },
            ServerMessage::OpponentMove { game_id, from, to } => {
                let sound = self.on_opponent_move(Ghost(game_id@), from, to);
                Reaction { send: None, sound: Some(sound), game_started: false }
            },
            ServerMessage::GameOver { game_id, reason, result } => {
                self.on_game_over(Ghost(game_id@), reason, result);
                none
            },
            ServerMessage::RematchRequested { game_id } => {
                self.on_rematch_requested(game_id);
                none
            },
            ServerMessage::RematchAccepted { old_game_id, new_game_id, your_color } => {
                let started_game = self.on_rematch_accepted(old_game_id, new_game_id, your_color);
                Reaction { send: None, sound: None, game_started: started_game }
            },
            ServerMessage::RematchDeclined { game_id } => {
                self.on_rematch_declined(game_id);
                none
            },
            ServerMessage::OpponentDisconnected { .. } => {
                self.board.is_our_turn = false;
                self.board.status_message = String::from_str("Opponent disconnected");
                none
            },
            ServerMessage::ChatMessage { game_id, sender_name, message } => {
                self.on_chat_message(game_id, sender_name, message);
                none
            },
            ServerMessage::Error { message } => {
                self.on_error(message);
                none
            },
        }
    }

    /// Start a game against the bot or on this screen.
    pub fn start_game(&mut self, mode: GameMode, color: Color, opponent: &str)
        requires
            old(self).wf(),
        ensures
            final(self).wf(),
            final(self)@ == (ClientView {
                board: started(old(self)@.board, mode, color, opponent@),
                screen: Screen::Playing,
                ..old(self)@
            }),
    {
        self.board.start_game(mode, color, opponent);
        self.screen = Screen::Playing;
    }

    /// Remember `intent` and show that a connection for it is being opened.
    pub fn begin_connect(&mut self, intent: OnlineIntent)
        ensures
            final(self)@ == connecting(old(self)@, intent@),
            final(self).board == old(self).board,
    {
        let status = match &intent {
            OnlineIntent::RandomMatchmaking => String::from_str("Connecting to matchmaking..."),
            OnlineIntent::BrowseLobbies => String::from_str("Loading public lobbies..."),
            OnlineIntent::CreatePublicLobby => String::from_str("Creating public lobby..."),
            OnlineIntent::CreatePrivateLobby => String::from_str("Creating private lobby..."),
            OnlineIntent::JoinLobby(code) => {
                let mut s = String::from_str("Joining lobby ");
                let upper = to_upper(code.as_str());
                s.append(upper.as_str());
                s.append("...");
                s
            },
        };
        self.screen = match &intent {
            OnlineIntent::BrowseLobbies => Screen::LobbyBrowser,
            _ => Screen::OnlineWaiting,
        };
        self.online_intent = Some(intent);
        self.active_lobby_code = None;
        self.public_lobbies = Vec::new();
        self.online_status = status;
        self.connected = true;
        proof {
            assert(lobbies_view(self.public_lobbies@) =~= Seq::empty());
        }
    }

    /// The connection could not be opened: back to the menu with the reason.
    pub fn connection_failed(&mut self, failure: ConnectFailure)
        ensures
            final(self)@ == (ClientView {
                connected: false,
                status: if failure == ConnectFailure::Connect {
                    "Failed to connect to server."@
                } else {
                    "Failed to join server."@
                },
                ..cleared_online(old(self)@)
            }),
            final(self).board == old(self).board,
    {
        self.clear_online();
        self.connected = false;
        self.online_status = match failure {
            ConnectFailure::Connect => String::from_str("Failed to connect to server."),
            ConnectFailure::Join => String::from_str("Failed to join server."),
        };
    }

    /// The server closed the connection.
    pub fn connection_closed(&mut self)
        ensures
            final(self)@ == disconnected(old(self)@),
            final(self).board == old(self).board,
    {
        self.connected = false;
        self.online_intent = None;
        self.active_lobby_code = None;
        self.public_lobbies = Vec::new();
        match self.screen {
            Screen::OnlineWaiting => {
                self.screen = Screen::Menu;
            },
            Screen::LobbyBrowser => {
                self.screen = Screen::Menu;
            },
            _ => {},
        }
        proof {
            assert(lobbies_view(self.public_lobbies@) =~= Seq::empty());
        }
    }

    /// Close the connection, if one is open: the messages to send before
    /// closing it.
    pub fn disconnect_online(&mut self, reason: String) -> (msgs: Vec<ClientMessage>)
        ensures
            farewell_ok(msgs@, old(self)@, reason@),
            final(self)@ == (ClientView { connected: false, ..old(self)@ }),
            final(self).board == old(self).board,
    {
        let mut msgs: Vec<ClientMessage> = Vec::new();
        if !self.connected {
            return msgs;
        }
        self.connected = false;
        match &self.online_intent {
            Some(OnlineIntent::RandomMatchmaking) => {
                msgs.push(ClientMessage::LeaveMatchmaking);
            },
            Some(OnlineIntent::CreatePublicLobby) => {
                msgs.push(ClientMessage::LeaveLobby);
            },
            Some(OnlineIntent::CreatePrivateLobby) => {
                msgs.push(ClientMessage::LeaveLobby);
            },
            _ => {},
        }
        msgs.push(ClientMessage::Disconnect { reason: Some(reason) });
        msgs
    }

    /// Stop waiting for a game: close the connection and go back to the menu.
    pub fn cancel_matchmaking(&mut self) -> (msgs: Vec<ClientMessage>)
        ensures
            farewell_ok(msgs@, old(self)@, "cancel_waiting"@),
            final(self)@ == cleared_online(ClientView { connected: false, ..old(self)@ }),
            final(self).board == old(self).board,
    {
        let msgs = self.disconnect_online(String::from_str("cancel_waiting"));
        self.clear_online();
        msgs
    }

    /// What joining the lobby with the normalised `code` does: an empty code
    /// asks for one; on an open connection the request goes out; otherwise a
    /// connection for the lobby is opened.
    pub fn join_lobby_code(&mut self, code: String) -> (step: JoinStep)
        ensures
            final(self).board == old(self).board,
            if code@.len() == 0 {
                final(self)@ == (ClientView { status: "Lobby code is required."@, ..old(self)@ }) && step is Nothing
            } else if old(self)@.connected {
                final(self)@ == (ClientView { status: "Joining lobby "@ + code@ + "..."@, ..old(self)@ })
                    && (step matches JoinStep::Send(ClientMessage::JoinLobby { lobby_code }) && lobby_code@
                    == code@)
            } else {
                final(self)@ == connecting(old(self)@, IntentView::JoinLobby(code@)) && step is Connect
            },
    {
        if code.as_str().is_empty() {
            self.online_status = String::from_str("Lobby code is required.");
            return JoinStep::Nothing;
        }
        if self.connected {
            let mut status = String::from_str("Joining lobby ");
            status.append(code.as_str());
            status.append("...");
            self.online_status = status;
            return JoinStep::Send(ClientMessage::JoinLobby { lobby_code: code });
        }
        self.begin_connect(OnlineIntent::JoinLobby(code));
        JoinStep::Connect
    }

    /// Join a lobby by the code the player typed, trimmed and in upper case,
    /// on the open connection or by opening one.
    pub fn join_lobby_from_current_session(&mut self, lobby_code: &str) -> (step: JoinStep)
        ensures
            final(self).board == old(self).board,
            ({
                let code = uppercase(trim_spec(lobby_code@));
                if code.len() == 0 {
                    final(self)@ == (ClientView { status: "Lobby code is required."@, ..old(self)@ }) && step is Nothing
                } else if old(self)@.connected {
                    final(self)@ == (ClientView { status: "Joining lobby "@ + code + "..."@, ..old(self)@ })
                        && (step matches JoinStep::Send(ClientMessage::JoinLobby { lobby_code }) && lobby_code@ == code)
                } else {
                    final(self)@ == connecting(old(self)@, IntentView::JoinLobby(code)) && step is Connect
                }
            }),
    {
        let normalized = to_upper(trim_text(lobby_code));
        self.join_lobby_code(normalized)
    }
}

} // verus!
