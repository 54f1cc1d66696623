//! Messages exchanged between clients and the match server.

use vstd::prelude::*;

verus! {

pub struct ClientInfo {
    /// App version sent by the client binary.
    pub client_version: String,
    /// Stable machine identifier from the local platform.
    pub machine_id: String,
    /// Operating system name.
    pub os: String,
    /// CPU architecture.
    pub arch: String,
    /// Whether the client was built in debug mode.
    pub debug: bool,
    /// Human-readable application name.
    pub app_name: String,
    /// Protocol version for compatibility checks.
    pub protocol_version: u32,
}

pub struct LobbySummary {
    /// Stable lobby code used internally and for private invites.
    pub lobby_code: String,
    /// Host display name.
    pub host_name: String,
}

/// Every message a client sends to the server.
pub enum ClientMessage {
    /// Introduce yourself to the server.
    Join {
        /// Display name of the player.
        name: String,
        /// Client metadata for diagnostics and compatibility.
        client: ClientInfo,
    },
    /// Request to be placed into the matchmaking queue.
    StartMatchmaking,
    /// Request to leave the matchmaking queue.
    LeaveMatchmaking,
    /// Subscribe to and fetch the current public lobby list.
    RequestLobbyList,
    /// Create a lobby. Public lobbies appear in the browser; private ones require a code.
    CreateLobby {
        /// Whether the lobby should be private.
        private_lobby: bool,
    },
    /// Leave a private lobby that was previously created.
    LeaveLobby,
    /// Join a lobby by code. Public lobbies use the same code internally.
    JoinLobby {
        /// The case-insensitive lobby code.
        lobby_code: String,
    },
    /// Make a move in an active game.
    MakeMove {
        /// The game this move belongs to.
        game_id: String,
        /// Source square (0-63).
        from: u8,
        /// Destination square (0-63).
        to: u8,
    },
    /// Forfeit the active game.
    Resign {
        /// The game to resign from.
        game_id: String,
    },
    /// Ask for a rematch after the game ended.
    RequestRematch {
        /// The finished game to base the rematch on.
        game_id: String,
    },
    /// Accept a pending rematch request from the opponent.
    AcceptRematch {
        /// The finished game id that the request is tied to.
        game_id: String,
    },
    /// Decline a pending rematch request from the opponent.
    DeclineRematch {
        /// The finished game id that the request is tied to.
        game_id: String,
    },
    /// Send a chat message to both players in a match.
    SendChat {
        /// The active or recently finished game id that the chat belongs to.
        game_id: String,
        /// Chat message body.
        message: String,
    },
    /// Gracefully disconnect from the websocket session.
    Disconnect {
        /// Optional human-readable reason.
        reason: Option<String>,
    },
}

/// Every message the server sends to a client.
pub enum ServerMessage {
    /// Confirmation that the client was accepted.
    Joined {
        /// Unique id assigned to this player by the server.
        player_id: String,
    },
    /// Confirmation that matchmaking has started.
    MatchmakingStarted,
    /// Confirmation that the client left the matchmaking queue.
    MatchmakingLeft,
    /// Current list of public lobbies available to join.
    LobbyList {
        /// Public lobbies currently open.
        lobbies: Vec<LobbySummary>,
    },
    /// A push update for the public lobby browser after the lobby set changes.
    LobbyListUpdated {
        /// Public lobbies currently open.
        lobbies: Vec<LobbySummary>,
    },
    /// Confirmation that a lobby was created.
    LobbyCreated {
        /// The short lobby code other players can join.
        lobby_code: String,
        /// Whether the lobby is private.
        private_lobby: bool,
    },
    /// Confirmation that a lobby was left.
    LobbyLeft,
    /// The server found an opponent and created a game.
    MatchFound {
        /// Unique id for the newly created game.
        game_id: String,
        /// Display name of the opponent.
        opponent_name: String,
        /// Colour assigned to *this* client ("white" or "black").
        your_color: String,
    },
    /// The opponent made a move.
    OpponentMove {
        /// The game this move belongs to.
        game_id: String,
        /// Source square.
        from: u8,
        /// Destination square.
        to: u8,
    },
    /// The game has ended.
    GameOver {
        /// The game that ended.
        game_id: String,
        /// Why the game ended ("resign", "disconnect", "decline_rematch").
        reason: String,
        /// Whether this client won ("win"), lost ("loss"), or it was a draw
        /// ("draw" - currently unused but reserved).
        result: Option<String>,
    },
    /// The opponent is asking for a rematch.
    RematchRequested {
        /// The finished game the request belongs to.
        game_id: String,
    },
    /// The opponent accepted the rematch; a new game has started.
    RematchAccepted {
        /// The previous (finished) game id.
        old_game_id: String,
        /// The new game id.
        new_game_id: String,
        /// Colour assigned to *this* client ("white" or "black").
        your_color: String,
    },
    /// The opponent declined the rematch.
    RematchDeclined {
        /// The finished game id.
        game_id: String,
    },
    /// The opponent disconnected during the game; the match is over.
    OpponentDisconnected {
        /// The game that was abandoned.
        game_id: String,
    },
    /// A chat message in the current match.
    ChatMessage {
        /// The game this chat belongs to.
        game_id: String,
        /// Display name of the sender.
        sender_name: String,
        /// Chat message body.
        message: String,
    },
    /// A generic error in response to a malformed or illegal request.
    Error {
        /// Human-readable explanation of what went wrong.
        message: String,
    },
}

/// A server message with its strings taken as character sequences.
pub enum MessageView {
    Joined { player_id: Seq<char> },
    MatchmakingStarted,
    MatchmakingLeft,
    LobbyList { lobbies: Seq<(Seq<char>, Seq<char>)> },
    LobbyListUpdated { lobbies: Seq<(Seq<char>, Seq<char>)> },
    LobbyCreated { lobby_code: Seq<char>, private_lobby: bool },
    LobbyLeft,
    MatchFound { game_id: Seq<char>, opponent_name: Seq<char>, your_color: Seq<char> },
    OpponentMove { game_id: Seq<char>, from: u8, to: u8 },
    GameOver { game_id: Seq<char>, reason: Seq<char>, result: Option<Seq<char>> },
    RematchRequested { game_id: Seq<char> },
    RematchAccepted { old_game_id: Seq<char>, new_game_id: Seq<char>, your_color: Seq<char> },
    RematchDeclined { game_id: Seq<char> },
    OpponentDisconnected { game_id: Seq<char> },
    ChatMessage { game_id: Seq<char>, sender_name: Seq<char>, message: Seq<char> },
    Error { message: Seq<char> },
}

pub open spec fn lobbies_view(lobbies: Seq<LobbySummary>) -> Seq<(Seq<char>, Seq<char>)> {
    lobbies.map_values(|l: LobbySummary| (l.lobby_code@, l.host_name@))
}

impl View for ServerMessage {
    type V = MessageView;

    open spec fn view(&self) -> MessageView {
        match self {
            ServerMessage::Joined { player_id } => MessageView::Joined { player_id: player_id@ },
            ServerMessage::MatchmakingStarted => MessageView::MatchmakingStarted,
            ServerMessage::MatchmakingLeft => MessageView::MatchmakingLeft,
            ServerMessage::LobbyList { lobbies } => MessageView::LobbyList {
                lobbies: lobbies_view(lobbies@),
            },
            ServerMessage::LobbyListUpdated { lobbies } => MessageView::LobbyListUpdated {
                lobbies: lobbies_view(lobbies@),
            },
            ServerMessage::LobbyCreated { lobby_code, private_lobby } => MessageView::LobbyCreated {
                lobby_code: lobby_code@,
                private_lobby: *private_lobby,
            },
            ServerMessage::LobbyLeft => MessageView::LobbyLeft,
            ServerMessage::MatchFound { game_id, opponent_name, your_color } => MessageView::MatchFound {
                game_id: game_id@,
                opponent_name: opponent_name@,
                your_color: your_color@,
            },
            ServerMessage::OpponentMove { game_id, from, to } => MessageView::OpponentMove {
                game_id: game_id@,
                from: *from,
                to: *to,
            },
            ServerMessage::GameOver { game_id, reason, result } => MessageView::GameOver {
                game_id: game_id@,
                reason: reason@,
                result: match result {
                    Some(r) => Some(r@),
                    None => None,
                },
            },
            ServerMessage::RematchRequested { game_id } => MessageView::RematchRequested {
                game_id: game_id@,
            },
            ServerMessage::RematchAccepted { old_game_id, new_game_id, your_color } =>
                MessageView::RematchAccepted {
                old_game_id: old_game_id@,
                new_game_id: new_game_id@,
                your_color: your_color@,
            },
            ServerMessage::RematchDeclined { game_id } => MessageView::RematchDeclined {
                game_id: game_id@,
            },
            ServerMessage::OpponentDisconnected { game_id } => MessageView::OpponentDisconnected {
                game_id: game_id@,
            },
            ServerMessage::ChatMessage { game_id, sender_name, message } => MessageView::ChatMessage {
                game_id: game_id@,
                sender_name: sender_name@,
                message: message@,
            },
            ServerMessage::Error { message } => MessageView::Error { message: message@ },
        }
    }
}

} // verus!
