use antarian_chess::client::{ConnectFailure, JoinStep, OnlineClient, OnlineIntent, Screen};
use antarian_chess::protocol::{ClientMessage, LobbySummary, ServerMessage};
use antarian_chess::release::{powershell_escape, release_asset_name_for};
use antarian_chess::update_check::{newer_release, trim_leading_v};
use antarian_chess::search::SearchResult;
use antarian_chess::session::{GameMode, GameSession, RematchState, Sound};
use antarian_chess::{Color, Move, PieceKind};

fn online_session(color: Color) -> GameSession {
    let mut s = GameSession::new();
    s.game_id = Some("g1".to_string());
    s.start_game(GameMode::Online, color, "bob");
    s
}

#[test]
fn a_fresh_session() {
    let s = GameSession::new();
    assert_eq!(s.status_message, "White to move");
    assert!(s.is_our_turn);
    assert_eq!(s.game_mode, GameMode::Local);
    assert_eq!(s.move_count, 0);
    assert!(!s.is_game_over());
}

#[test]
fn starting_a_game_sets_the_status() {
    let mut s = GameSession::new();
    s.start_game(GameMode::Bot, Color::White, "Bot");
    assert_eq!(s.status_message, "Your turn (White)");
    assert!(s.is_our_turn);
    assert_eq!(s.opponent_name, "Bot");
    let mut t = GameSession::new();
    t.start_game(GameMode::Online, Color::Black, "alice");
    assert_eq!(t.status_message, "White to move");
    assert!(!t.is_our_turn);
}

#[test]
fn clicking_selects_then_moves() {
    let mut s = GameSession::new();
    s.start_game(GameMode::Bot, Color::White, "Bot");
    // An empty square clears the selection.
    assert!(s.handle_square_click(27).is_none());
    assert_eq!(s.selected_square, None);
    // Our Knight on e2 is selected with its two targets.
    assert!(s.handle_square_click(12).is_none());
    assert_eq!(s.selected_square, Some(12));
    assert_eq!(s.legal_targets, vec![20, 28]);
    // An enemy piece does not select.
    assert!(s.handle_square_click(52).is_none());
    assert_eq!(s.selected_square, None);
    assert!(s.legal_targets.is_empty());
    s.handle_square_click(12);
    let before = s.game_state.clone();
    let effects = s.handle_square_click(28).expect("a move");
    assert!(before.generate_legal_moves(Color::White).contains(&Move::new(12, 28, false)));
    assert_eq!(effects.sound, Sound::Move);
    assert!(effects.outgoing.is_none());
    assert!(effects.start_bot);
    assert_eq!(s.last_move, Some(Move::new(12, 28, false)));
    assert_eq!(s.move_count, 1);
    assert_eq!(s.game_state.get(28), Some((Color::White, PieceKind::Knight)));
    assert_eq!(s.selected_square, None);
    assert_eq!(s.status_message, "Black to move");
    assert!(!s.is_our_turn);
    // Not our turn: clicks are ignored.
    assert!(s.handle_square_click(52).is_none());
    assert_eq!(s.selected_square, None);
}

#[test]
fn an_online_move_is_sent_to_the_server() {
    let mut s = online_session(Color::White);
    s.handle_square_click(11);
    let effects = s.handle_square_click(19).expect("a move");
    assert!(!effects.start_bot);
    assert!(matches!(effects.outgoing,
        Some(ClientMessage::MakeMove { ref game_id, from: 11, to: 19 }) if game_id == "g1"));
}

#[test]
fn opponent_and_bot_moves() {
    let mut s = online_session(Color::Black);
    let sound = s.apply_opponent_move(Move::new(12, 28, false));
    assert_eq!(sound, Sound::Move);
    assert_eq!(s.status_message, "Your turn (Black)");
    assert!(s.is_our_turn);
    let mut b = GameSession::new();
    b.start_game(GameMode::Bot, Color::Black, "Bot");
    let sound = b.exec_bot_move(SearchResult { best_move: Move::new(8, 16, false), score: 35, depth: 6 });
    assert_eq!(sound, Sound::Move);
    assert_eq!(b.bot_score, Some(35));
    assert_eq!(b.bot_depth, Some(6));
    assert_eq!(b.move_count, 1);
}

#[test]
fn rematch_offers() {
    let mut s = online_session(Color::White);
    // The game is not over: no offer.
    s.enable_rematch_offer();
    assert_eq!(s.rematch_state, RematchState::Hidden);
    s.record_time_forfeit(Color::White);
    assert_eq!(s.status_message, "Time forfeit — you lose");
    assert!(!s.is_our_turn);
    assert!(s.can_offer_rematch());
    s.enable_rematch_offer();
    assert_eq!(s.rematch_state, RematchState::Available);
    let msg = s.request_rematch();
    assert!(matches!(msg, Some(ClientMessage::RequestRematch { ref game_id }) if game_id == "g1"));
    assert_eq!(s.rematch_state, RematchState::Requesting);
    let msg = s.decline_rematch();
    assert!(matches!(msg, Some(ClientMessage::DeclineRematch { .. })));
    assert_eq!(s.rematch_state, RematchState::Declined);
    let msg = s.accept_rematch();
    assert!(matches!(msg, Some(ClientMessage::AcceptRematch { .. })));
    assert_eq!(s.rematch_state, RematchState::Starting);
    let mut local = GameSession::new();
    assert!(local.request_rematch().is_none());
    assert_eq!(local.rematch_state, RematchState::Hidden);
}

#[test]
fn forfeit_on_the_opponents_clock() {
    let mut s = online_session(Color::White);
    s.record_time_forfeit(Color::Black);
    assert_eq!(s.status_message, "Time forfeit — you win!");
}

#[test]
fn chat_lines() {
    let mut s = online_session(Color::White);
    s.push_chat_message("You".to_string(), "hello".to_string());
    s.push_chat_message("bob".to_string(), "hi".to_string());
    s.push_system_chat_message("Rematch declined.".to_string());
    assert_eq!(s.chat_messages.len(), 3);
    assert!(s.chat_messages[0].is_ours);
    assert!(!s.chat_messages[1].is_ours);
    assert_eq!(s.chat_messages[2].sender_name, "System");
    assert!(s.pending_chat_scroll);
    assert!(matches!(s.chat_message_to_send("  gg  "),
        Some(ClientMessage::SendChat { ref game_id, ref message }) if game_id == "g1" && message == "gg"));
    assert!(s.chat_message_to_send("   ").is_none());
    let local = GameSession::new();
    assert!(local.chat_message_to_send("hi").is_none());
}

#[test]
fn joined_asks_for_the_intent() {
    let mut c = OnlineClient::new();
    c.begin_connect(OnlineIntent::CreatePrivateLobby);
    assert_eq!(c.screen, Screen::OnlineWaiting);
    assert_eq!(c.online_status, "Creating private lobby...");
    let r = c.handle_server_message(ServerMessage::Joined { player_id: "p".to_string() });
    assert!(matches!(r.send, Some(ClientMessage::CreateLobby { private_lobby: true })));
    let r = c.handle_server_message(ServerMessage::LobbyCreated { lobby_code: "ABCD".to_string(), private_lobby: true });
    assert!(r.send.is_none());
    assert_eq!(c.active_lobby_code.as_deref(), Some("ABCD"));
    assert_eq!(c.online_status, "Private lobby created. Share the code below.");
}

#[test]
fn browsing_lobbies() {
    let mut c = OnlineClient::new();
    c.begin_connect(OnlineIntent::BrowseLobbies);
    assert_eq!(c.screen, Screen::LobbyBrowser);
    c.handle_server_message(ServerMessage::LobbyList { lobbies: Vec::new() });
    assert_eq!(c.online_status, "No public lobbies yet.");
    let lobby = LobbySummary { lobby_code: "XYZ1".to_string(), host_name: "alice".to_string() };
    c.handle_server_message(ServerMessage::LobbyListUpdated { lobbies: vec![lobby] });
    assert_eq!(c.online_status, "Select a public lobby to join.");
    assert_eq!(c.public_lobbies.len(), 1);
}

#[test]
fn a_match_starts_an_online_game() {
    let mut c = OnlineClient::new();
    c.begin_connect(OnlineIntent::RandomMatchmaking);
    c.handle_server_message(ServerMessage::MatchmakingStarted);
    assert_eq!(c.online_status, "Looking for a random opponent...");
    let r = c.handle_server_message(ServerMessage::MatchFound {
        game_id: "g7".to_string(),
        opponent_name: "bob".to_string(),
        your_color: "black".to_string(),
    });
    assert!(r.game_started);
    assert_eq!(c.screen, Screen::Playing);
    assert!(c.online_intent.is_none());
    assert!(c.online_status.is_empty());
    assert_eq!(c.board.game_id.as_deref(), Some("g7"));
    assert_eq!(c.board.player_color, Color::Black);
    assert_eq!(c.board.game_mode, GameMode::Online);
    assert_eq!(c.board.opponent_name, "bob");
    let r = c.handle_server_message(ServerMessage::OpponentMove { game_id: "g7".to_string(), from: 12, to: 28 });
    assert_eq!(r.sound, Some(Sound::Move));
    assert_eq!(c.board.status_message, "Your turn (Black)");
    c.handle_server_message(ServerMessage::ChatMessage {
        game_id: "g7".to_string(),
        sender_name: "bob".to_string(),
        message: "hi".to_string(),
    });
    c.handle_server_message(ServerMessage::ChatMessage {
        game_id: "g7".to_string(),
        sender_name: "me".to_string(),
        message: "hello".to_string(),
    });
    c.handle_server_message(ServerMessage::ChatMessage {
        game_id: "other".to_string(),
        sender_name: "bob".to_string(),
        message: "ignored".to_string(),
    });
    assert_eq!(c.board.chat_messages.len(), 2);
    assert_eq!(c.board.chat_messages[0].sender_name, "bob");
    assert!(!c.board.chat_messages[0].is_ours);
    assert_eq!(c.board.chat_messages[1].sender_name, "You");
    assert!(c.board.chat_messages[1].is_ours);
}

#[test]
fn game_over_and_rematch_messages() {
    let mut c = OnlineClient::new();
    c.handle_server_message(ServerMessage::MatchFound {
        game_id: "g1".to_string(),
        opponent_name: "bob".to_string(),
        your_color: "white".to_string(),
    });
    c.handle_server_message(ServerMessage::GameOver {
        game_id: "g1".to_string(),
        reason: "resign".to_string(),
        result: Some("win".to_string()),
    });
    assert_eq!(c.board.status_message, "You win!");
    assert!(!c.board.is_our_turn);
    // The board itself is not over and no clock ran out: no offer.
    assert_eq!(c.board.rematch_state, RematchState::Hidden);
    c.handle_server_message(ServerMessage::GameOver {
        game_id: "g1".to_string(),
        reason: "disconnect".to_string(),
        result: None,
    });
    assert_eq!(c.board.status_message, "Game over: disconnect");
    c.handle_server_message(ServerMessage::RematchDeclined { game_id: "g1".to_string() });
    assert_eq!(c.board.rematch_state, RematchState::Declined);
    assert_eq!(c.board.chat_messages.last().map(|e| e.message.as_str()), Some("Rematch declined."));
    let r = c.handle_server_message(ServerMessage::RematchAccepted {
        old_game_id: "g1".to_string(),
        new_game_id: "g2".to_string(),
        your_color: "black".to_string(),
    });
    assert!(r.game_started);
    assert_eq!(c.board.game_id.as_deref(), Some("g2"));
    assert_eq!(c.board.player_color, Color::Black);
    assert_eq!(c.board.opponent_name, "bob");
    assert_eq!(c.board.rematch_state, RematchState::Hidden);
    assert_eq!(c.board.chat_messages.len(), 1);
    assert_eq!(c.board.chat_messages[0].message, "Rematch started.");
    let r = c.handle_server_message(ServerMessage::RematchAccepted {
        old_game_id: "stale".to_string(),
        new_game_id: "g3".to_string(),
        your_color: "white".to_string(),
    });
    assert!(!r.game_started);
    assert_eq!(c.board.game_id.as_deref(), Some("g2"));
    assert_eq!(c.screen, Screen::Playing);
}

#[test]
fn server_errors_and_disconnects() {
    let mut c = OnlineClient::new();
    c.begin_connect(OnlineIntent::RandomMatchmaking);
    c.handle_server_message(ServerMessage::Error { message: "full".to_string() });
    assert_eq!(c.online_status, "Server error: full");
    c.handle_server_message(ServerMessage::MatchFound {
        game_id: "g1".to_string(),
        opponent_name: "bob".to_string(),
        your_color: "white".to_string(),
    });
    c.handle_server_message(ServerMessage::Error { message: "bad move".to_string() });
    assert_eq!(c.board.chat_messages.last().map(|e| e.message.as_str()), Some("Server error: bad move"));
    c.handle_server_message(ServerMessage::OpponentDisconnected { game_id: "g1".to_string() });
    assert_eq!(c.board.status_message, "Opponent disconnected");
    assert!(!c.board.is_our_turn);
}

#[test]
fn leaving_and_closing_the_connection() {
    let mut c = OnlineClient::new();
    c.begin_connect(OnlineIntent::RandomMatchmaking);
    let msgs = c.cancel_matchmaking();
    assert_eq!(msgs.len(), 2);
    assert!(matches!(msgs[0], ClientMessage::LeaveMatchmaking));
    assert!(matches!(&msgs[1], ClientMessage::Disconnect { reason: Some(r) } if r == "cancel_waiting"));
    assert_eq!(c.screen, Screen::Menu);
    assert!(!c.connected);
    assert!(c.disconnect_online("again".to_string()).is_empty());
    c.begin_connect(OnlineIntent::BrowseLobbies);
    c.connection_closed();
    assert_eq!(c.screen, Screen::Menu);
    assert!(!c.connected);
    c.begin_connect(OnlineIntent::CreatePublicLobby);
    c.connection_failed(ConnectFailure::Connect);
    assert_eq!(c.online_status, "Failed to connect to server.");
    assert_eq!(c.screen, Screen::Menu);
}

#[test]
fn joining_a_lobby_by_code() {
    let mut c = OnlineClient::new();
    assert!(matches!(c.join_lobby_from_current_session("   "), JoinStep::Nothing));
    assert_eq!(c.online_status, "Lobby code is required.");
    assert!(matches!(c.join_lobby_from_current_session(" ab12 "), JoinStep::Connect));
    assert_eq!(c.online_status, "Joining lobby AB12...");
    assert!(matches!(&c.online_intent, Some(OnlineIntent::JoinLobby(code)) if code == "AB12"));
    let r = c.handle_server_message(ServerMessage::Joined { player_id: "p".to_string() });
    assert!(matches!(&r.send, Some(ClientMessage::JoinLobby { lobby_code }) if lobby_code == "AB12"));
    let step = c.join_lobby_from_current_session("zz9");
    assert!(matches!(&step, JoinStep::Send(ClientMessage::JoinLobby { lobby_code }) if lobby_code == "ZZ9"));
    assert_eq!(c.online_status, "Joining lobby ZZ9...");
}

#[test]
fn joining_with_a_normalised_code() {
    let mut c = OnlineClient::new();
    assert!(matches!(c.join_lobby_code(String::new()), JoinStep::Nothing));
    assert!(matches!(c.join_lobby_code("Q7".to_string()), JoinStep::Connect));
    assert_eq!(c.online_status, "Joining lobby Q7...");
    let step = c.join_lobby_code("R8".to_string());
    assert!(matches!(&step, JoinStep::Send(ClientMessage::JoinLobby { lobby_code }) if lobby_code == "R8"));
    assert_eq!(c.online_status, "Joining lobby R8...");
}

#[test]
fn clicks_when_it_is_not_our_turn_are_ignored_anywhere() {
    let mut s = GameSession::new();
    s.start_game(GameMode::Online, Color::Black, "bob");
    assert!(s.handle_square_click(200).is_none());
    assert_eq!(s.selected_square, None);
}

#[test]
fn chooses_expected_release_asset_names() {
    let version = semver::Version::parse("0.1.5").expect("a version").to_string();
    assert_eq!(
        release_asset_name_for("linux", "x86_64", &version).ok(),
        Some("antarian-chess-rs-0.1.5-linux-x86_64".to_string())
    );
    assert_eq!(
        release_asset_name_for("macos", "aarch64", &version).ok(),
        Some("antarian-chess-rs-0.1.5-macos-aarch64".to_string())
    );
    assert_eq!(
        release_asset_name_for("windows", "x86_64", &version).ok(),
        Some("antarian-chess-rs-0.1.5-windows-x86_64.exe".to_string())
    );
}

#[test]
fn rejects_unsupported_targets() {
    let version = semver::Version::parse("0.1.5").expect("a version").to_string();
    let err = release_asset_name_for("macos", "x86_64", &version).err().expect("unsupported");
    assert_eq!(err.message(), "Auto-update is not supported on macos-x86_64");
}

#[test]
fn powershell_paths_double_their_quotes() {
    assert_eq!(powershell_escape(r"C:\Users\O'Brien\chess.exe"), r"C:\Users\O''Brien\chess.exe");
    assert_eq!(powershell_escape("plain"), "plain");
    assert_eq!(powershell_escape("''"), "''''");
    assert_eq!(powershell_escape(""), "");
}

#[test]
fn update_check_needs_a_newer_version_and_its_asset() {
    let assets = vec![
        "antarian-chess-rs-0.1.5-windows-x86_64.exe".to_string(),
        "antarian-chess-rs-0.1.5-linux-x86_64".to_string(),
    ];
    assert_eq!(
        newer_release("0.1.0", "v0.1.5", &assets, "linux", "x86_64"),
        Some(("0.1.5".to_string(), 1))
    );
    assert_eq!(
        newer_release("0.1.0", "0.1.5", &assets, "windows", "x86_64"),
        Some(("0.1.5".to_string(), 0))
    );
    // Not newer.
    assert_eq!(newer_release("0.1.5", "v0.1.5", &assets, "linux", "x86_64"), None);
    assert_eq!(newer_release("0.2.0", "v0.1.5", &assets, "linux", "x86_64"), None);
    // A pre-release is older than its release.
    assert_eq!(newer_release("0.1.5", "v0.1.5-beta", &assets, "linux", "x86_64"), None);
    // Not a version.
    assert_eq!(newer_release("0.1.0", "latest", &assets, "linux", "x86_64"), None);
    assert_eq!(newer_release("dev", "v0.1.5", &assets, "linux", "x86_64"), None);
    // No asset for this target.
    assert_eq!(newer_release("0.1.0", "v0.1.5", &assets, "macos", "aarch64"), None);
    assert_eq!(newer_release("0.1.0", "v0.1.5", &assets, "linux", "arm"), None);
    assert_eq!(trim_leading_v("vv1.2.3"), "1.2.3");
    assert_eq!(trim_leading_v("1.2.3"), "1.2.3");
}
