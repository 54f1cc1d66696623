use antarian_chess::protocol::{ClientInfo, ClientMessage, ServerMessage};
use antarian_chess::server::{Outgoing, PlayerState, ServerState};

fn info() -> ClientInfo {
    ClientInfo {
        client_version: "0.1.5".to_string(),
        machine_id: "test".to_string(),
        os: "linux".to_string(),
        arch: "x86_64".to_string(),
        debug: true,
        app_name: "antarian-chess-rs".to_string(),
        protocol_version: 1,
    }
}

fn recipients(outs: &[Outgoing]) -> Vec<String> {
    outs.iter().map(|o| o.to.clone()).collect()
}

/// Two players matched into a game; returns (server, white id, black id, game id).
fn matched() -> (ServerState, String, String, String) {
    let mut s = ServerState::new();
    let a = s.register_player("alice".to_string());
    let b = s.register_player("bob".to_string());
    let (m1, _) = s.start_matchmaking(&a);
    assert!(!m1);
    let (m2, outs) = s.start_matchmaking(&b);
    assert!(m2);
    let gid = match &outs[0].message {
        ServerMessage::MatchFound { game_id, .. } => game_id.clone(),
        _ => panic!("expected MatchFound"),
    };
    // The player who completed the pair plays White.
    (s, b, a, gid)
}

#[test]
fn first_message_must_be_join() {
    let mut s = ServerState::new();
    let mut session: Option<String> = None;
    let (replies, outs) = s.handle_client_message(&mut session, ClientMessage::StartMatchmaking);
    assert!(session.is_none());
    assert!(outs.is_empty());
    assert_eq!(replies.len(), 1);
    assert!(matches!(&replies[0], ServerMessage::Error { message } if message == "first message must be Join"));
}

#[test]
fn join_registers_the_player_once() {
    let mut s = ServerState::new();
    let mut session: Option<String> = None;
    let (replies, outs) =
        s.handle_client_message(&mut session, ClientMessage::Join { name: "alice".to_string(), client: info() });
    let id = session.clone().expect("joined");
    assert!(!id.is_empty());
    assert!(outs.is_empty());
    assert!(matches!(&replies[..], [ServerMessage::Joined { player_id }] if *player_id == id));
    assert_eq!(s.players.len(), 1);
    assert_eq!(s.players[0].name, "alice");
    let (replies, _) =
        s.handle_client_message(&mut session, ClientMessage::Join { name: "again".to_string(), client: info() });
    assert!(matches!(&replies[..], [ServerMessage::Error { message }] if message == "already joined"));
    assert_eq!(s.players.len(), 1);
}

#[test]
fn fresh_ids_differ() {
    let mut s = ServerState::new();
    let a = s.register_player("alice".to_string());
    let b = s.register_player("bob".to_string());
    assert_ne!(a, b);
    for id in [&a, &b] {
        assert_eq!(id.len(), 36);
        for (i, c) in id.chars().enumerate() {
            if [8, 13, 18, 23].contains(&i) {
                assert_eq!(c, '-');
            } else {
                assert!(c.is_ascii_hexdigit() && !c.is_ascii_uppercase());
            }
        }
        assert_eq!(id.chars().nth(14), Some('4'));
        assert!(matches!(id.chars().nth(19), Some('8' | '9' | 'a' | 'b')));
    }
    assert_eq!(s.player_pos(&a), Some(0));
    assert_eq!(s.player_pos(&b), Some(1));
}

#[test]
fn two_waiting_players_are_paired() {
    let mut s = ServerState::new();
    let a = s.register_player("alice".to_string());
    let b = s.register_player("bob".to_string());
    let (m1, outs) = s.start_matchmaking(&a);
    assert!(!m1);
    assert_eq!(recipients(&outs), vec![a.clone()]);
    assert!(matches!(outs[0].message, ServerMessage::MatchmakingStarted));
    assert_eq!(s.matchmaking, vec![a.clone()]);
    let (m2, outs) = s.start_matchmaking(&b);
    assert!(m2);
    assert!(s.matchmaking.is_empty());
    assert_eq!(recipients(&outs), vec![b.clone(), a.clone()]);
    assert!(matches!(&outs[0].message,
        ServerMessage::MatchFound { opponent_name, your_color, .. } if opponent_name == "alice" && your_color == "white"));
    assert!(matches!(&outs[1].message,
        ServerMessage::MatchFound { opponent_name, your_color, .. } if opponent_name == "bob" && your_color == "black"));
    assert_eq!(s.games.len(), 1);
    assert_eq!(s.games[0].white_id, b);
    assert_eq!(s.games[0].black_id, a);
    assert!(matches!(&s.players[0].state, PlayerState::InGame(g) if *g == s.games[0].id));
}

#[test]
fn a_player_in_a_game_cannot_queue() {
    let (mut s, white, _, _) = matched();
    let (m, outs) = s.start_matchmaking(&white);
    assert!(!m);
    assert!(outs.is_empty());
    assert!(s.matchmaking.is_empty());
}

#[test]
fn leaving_the_queue() {
    let mut s = ServerState::new();
    let a = s.register_player("alice".to_string());
    s.start_matchmaking(&a);
    s.leave_matchmaking(&a);
    assert!(s.matchmaking.is_empty());
    assert!(matches!(s.players[0].state, PlayerState::Idle));
}

#[test]
fn a_move_goes_to_the_opponent() {
    let (s, white, black, gid) = matched();
    let outs = s.handle_move(&white, &gid, 12, 28);
    assert_eq!(recipients(&outs), vec![black.clone()]);
    assert!(matches!(&outs[0].message,
        ServerMessage::OpponentMove { game_id, from: 12, to: 28 } if *game_id == gid));
    assert!(s.handle_move("stranger", &gid, 12, 28).is_empty());
    assert!(s.handle_move(&white, "no-such-game", 12, 28).is_empty());
}

#[test]
fn chat_is_trimmed_and_bounded() {
    let (s, white, black, gid) = matched();
    let outs = s.send_chat(&black, &gid, "  good luck \n");
    assert_eq!(recipients(&outs), vec![white.clone(), black.clone()]);
    for o in &outs {
        assert!(matches!(&o.message,
            ServerMessage::ChatMessage { sender_name, message, .. } if sender_name == "alice" && message == "good luck"));
    }
    assert!(s.send_chat(&black, &gid, "   ").is_empty());
    assert_eq!(s.send_chat(&black, &gid, &"x".repeat(280)).len(), 2);
    assert!(s.send_chat(&black, &gid, &"x".repeat(281)).is_empty());
    // 140 two-byte characters are 280 bytes; one more is too long.
    assert_eq!(s.send_chat(&black, &gid, &"é".repeat(140)).len(), 2);
    assert!(s.send_chat(&black, &gid, &"é".repeat(141)).is_empty());
    assert!(s.send_chat("stranger", &gid, "hi").is_empty());
}

#[test]
fn resigning_ends_the_game() {
    let (mut s, white, black, gid) = matched();
    let outs = s.resign(&black, &gid);
    assert_eq!(recipients(&outs), vec![white.clone(), black.clone()]);
    assert!(matches!(&outs[0].message,
        ServerMessage::GameOver { reason, result: Some(r), .. } if reason == "resign" && r == "win"));
    assert!(matches!(&outs[1].message,
        ServerMessage::GameOver { reason, result: Some(r), .. } if reason == "resign" && r == "loss"));
    assert!(s.games[0].over);
    assert!(matches!(&s.players[0].state, PlayerState::GameOver(g) if *g == gid));
    // A finished game cannot be resigned again.
    assert!(s.resign(&white, &gid).is_empty());
}

#[test]
fn a_stranger_cannot_resign_a_game() {
    let (mut s, _, _, gid) = matched();
    let c = s.register_player("carol".to_string());
    assert!(s.resign(&c, &gid).is_empty());
    assert!(!s.games[0].over);
    assert!(matches!(&s.players[0].state, PlayerState::InGame(g) if *g == gid));
}

#[test]
fn rematch_swaps_the_colours() {
    let (mut s, white, black, gid) = matched();
    s.resign(&black, &gid);
    // White asks; in the rematch White plays Black.
    s.request_rematch(&white, &gid);
    let outs = s.accept_rematch_with(&black, &gid, "g3".to_string());
    assert_eq!(recipients(&outs), vec![black.clone(), white.clone()]);
    assert!(matches!(&outs[1].message, ServerMessage::RematchAccepted { your_color, .. } if your_color == "black"));
    assert_eq!(s.games[0].white_id, black);
    assert_eq!(s.games[0].black_id, white);
}

#[test]
fn rematch_accepted_starts_a_new_game() {
    let (mut s, white, black, gid) = matched();
    s.resign(&white, &gid);
    let outs = s.request_rematch(&black, &gid);
    assert_eq!(recipients(&outs), vec![white.clone()]);
    assert!(matches!(&outs[0].message, ServerMessage::RematchRequested { game_id } if *game_id == gid));
    // The requester cannot accept its own request.
    assert!(s.accept_rematch(&black, &gid).is_empty());
    let outs = s.accept_rematch_with(&white, &gid, "g2".to_string());
    assert_eq!(recipients(&outs), vec![black.clone(), white.clone()]);
    assert!(matches!(&outs[0].message,
        ServerMessage::RematchAccepted { old_game_id, new_game_id, your_color }
            if *old_game_id == gid && new_game_id == "g2" && your_color == "white"));
    assert!(matches!(&outs[1].message,
        ServerMessage::RematchAccepted { your_color, .. } if your_color == "black"));
    assert_eq!(s.games.len(), 1);
    assert_eq!(s.games[0].id, "g2");
    assert_eq!(s.games[0].white_id, black);
    assert_eq!(s.games[0].black_id, white);
    assert!(!s.games[0].over);
}

#[test]
fn rematch_declined_frees_both_players() {
    let (mut s, white, black, gid) = matched();
    s.resign(&white, &gid);
    s.request_rematch(&white, &gid);
    let outs = s.decline_rematch(&black, &gid);
    assert_eq!(recipients(&outs), vec![white.clone(), black.clone()]);
    assert!(outs.iter().all(|o| matches!(&o.message, ServerMessage::RematchDeclined { game_id } if *game_id == gid)));
    assert!(s.games.is_empty());
    assert!(s.players.iter().all(|p| matches!(p.state, PlayerState::Idle)));
}

#[test]
fn no_rematch_before_the_game_ends() {
    let (mut s, white, _, gid) = matched();
    assert!(s.request_rematch(&white, &gid).is_empty());
    assert!(s.games[0].rematch_requester.is_none());
}

#[test]
fn leaving_mid_game_tells_the_opponent() {
    let (mut s, white, black, gid) = matched();
    let outs = s.remove_player(&white);
    assert_eq!(recipients(&outs), vec![black.clone()]);
    assert!(matches!(&outs[0].message, ServerMessage::OpponentDisconnected { game_id } if *game_id == gid));
    assert!(s.games.is_empty());
    assert_eq!(s.players.len(), 1);
    assert!(matches!(s.players[0].state, PlayerState::Idle));
}

#[test]
fn leaving_after_the_game_ends() {
    let (mut s, white, black, gid) = matched();
    s.resign(&white, &gid);
    let outs = s.remove_player(&black);
    assert_eq!(recipients(&outs), vec![white.clone()]);
    assert!(matches!(&outs[0].message,
        ServerMessage::GameOver { reason, result: None, .. } if reason == "disconnect"));
}

fn uuid_shaped(s: &str) -> bool {
    let b = s.as_bytes();
    b.len() == 36
        && [8, 13, 18, 23].iter().all(|&i| b[i] == b'-')
        && b[14] == b'4'
        && matches!(b[19], b'8' | b'9' | b'a' | b'b')
        && s.chars().all(|c| c == '-' || c.is_ascii_digit() || ('a'..='f').contains(&c))
}

#[test]
fn new_games_get_fresh_random_ids() {
    let (mut s, white, black, gid) = matched();
    assert!(uuid_shaped(&gid));
    // A second pair gets a game of its own; the first game stays.
    let c = s.register_player("carol".to_string());
    let d = s.register_player("dave".to_string());
    s.start_matchmaking(&c);
    let (m, _) = s.start_matchmaking(&d);
    assert!(m);
    assert_eq!(s.games.len(), 2);
    assert_ne!(s.games[0].id, s.games[1].id);
    assert!(s.games.iter().all(|g| uuid_shaped(&g.id)));
    // An accepted rematch replaces the finished game under a new id.
    s.resign(&white, &gid);
    s.request_rematch(&black, &gid);
    s.accept_rematch(&white, &gid);
    assert_eq!(s.games.len(), 2);
    assert!(s.games.iter().all(|g| g.id != gid && uuid_shaped(&g.id)));
}
