//! A game as one player's client sees it: the board, whose turn it is, the
//! status line, the selected piece and its targets, captured pieces, the
//! rematch offer and the chat. Drawing, clocks and sounds are the caller's;
//! this module decides what they show and play.

use vstd::prelude::*;
use crate::board::{cells_after_move, in_check, initial_cells, moves_for, result_of, Board, Cell};
use crate::protocol::ClientMessage;
use crate::search::SearchResult;
use crate::server::{trim_spec, trim_text};
use crate::types::{Color, GameResult, Move, PieceKind};

verus! {

/// Who the player is playing against.
#[derive(Clone, Copy, Debug, PartialEq, Eq, Structural)]
pub enum GameMode {
    Bot,
    Online,
    Local,
}

/// One line of the chat.
pub struct ChatEntry {
    pub sender_name: String,
    pub message: String,
    pub is_ours: bool,
}

/// Where the rematch offer of a finished online game stands.
#[derive(Clone, Copy, Debug, PartialEq, Eq, Structural)]
pub enum RematchState {
    Hidden,
    Available,
    Requesting,
    RequestedByOpponent,
    Starting,
    Declined,
}

/// The sound that goes with a move.
#[derive(Clone, Copy, Debug, PartialEq, Eq, Structural)]
pub enum Sound {
    Move,
    Capture,
    Check,
    GameEnd,
}

/// What the caller does after a move of the player: play `sound`, send
/// `outgoing` to the server when connected, and let the bot answer when
/// `start_bot` is set.
pub struct MoveEffects {
    pub sound: Sound,
    pub outgoing: Option<ClientMessage>,
    pub start_bot: bool,
}

pub struct GameSession {
    pub game_state: Board,
    pub player_color: Color,
    pub selected_square: Option<usize>,
    pub legal_targets: Vec<u8>,
    pub game_mode: GameMode,
    pub is_our_turn: bool,
    pub status_message: String,
    pub move_count: u32,
    /// Our pieces the opponent has taken.
    pub captured_us: Vec<PieceKind>,
    /// The opponent's pieces we have taken.
    pub captured_opp: Vec<PieceKind>,
    pub time_forfeit: bool,
    pub game_id: Option<String>,
    pub opponent_name: String,
    pub leave_requested: bool,
    pub rematch_state: RematchState,
    pub bot_score: Option<i32>,
    pub bot_depth: Option<u32>,
    pub last_move: Option<Move>,
    pub chat_messages: Vec<ChatEntry>,
    /// The chat list should scroll to its newest line.
    pub pending_chat_scroll: bool,
}

/// The model of a `GameSession`: strings by their characters, vectors by
/// their contents.
pub struct SessionView {
    pub cells: Seq<Cell>,
    pub turn: Color,
    pub player: Color,
    pub selected: Option<usize>,
    pub targets: Seq<u8>,
    pub mode: GameMode,
    pub our_turn: bool,
    pub status: Seq<char>,
    pub move_count: u32,
    pub captured_us: Seq<PieceKind>,
    pub captured_opp: Seq<PieceKind>,
    pub time_forfeit: bool,
    pub game_id: Option<Seq<char>>,
    pub opponent: Seq<char>,
    pub leave_requested: bool,
    pub rematch: RematchState,
    pub bot_score: Option<i32>,
    pub bot_depth: Option<u32>,
    pub last_move: Option<Move>,
    /// Each line as (sender, message, ours).
    pub chat: Seq<(Seq<char>, Seq<char>, bool)>,
    pub pending_scroll: bool,
}

pub open spec fn opt_view(s: Option<String>) -> Option<Seq<char>> {
    match s {
        Some(t) => Some(t@),
        None => None,
    }
}

pub open spec fn chat_view(e: ChatEntry) -> (Seq<char>, Seq<char>, bool) {
    (e.sender_name@, e.message@, e.is_ours)
}

impl View for GameSession {
    type V = SessionView;

    open spec fn view(&self) -> SessionView {
        SessionView {
            cells: self.game_state.cells(),
            turn: self.game_state.turn,
            player: self.player_color,
            selected: self.selected_square,
            targets: self.legal_targets@,
            mode: self.game_mode,
            our_turn: self.is_our_turn,
            status: self.status_message@,
            move_count: self.move_count,
            captured_us: self.captured_us@,
            captured_opp: self.captured_opp@,
            time_forfeit: self.time_forfeit,
            game_id: opt_view(self.game_id),
            opponent: self.opponent_name@,
            leave_requested: self.leave_requested,
            rematch: self.rematch_state,
            bot_score: self.bot_score,
            bot_depth: self.bot_depth,
            last_move: self.last_move,
            chat: self.chat_messages@.map_values(|e: ChatEntry| chat_view(e)),
            pending_scroll: self.pending_chat_scroll,
        }
    }
}

/// The name of a side in the status line.
pub open spec fn turn_name(c: Color) -> Seq<char> {
    if c == Color::White {
        "White"@
    } else {
        "Black"@
    }
}

pub open spec fn check_suffix(check: bool) -> Seq<char> {
    if check {
        " — check!"@
    } else {
        Seq::empty()
    }
}

/// The status line and whether the player may move, for a position.
pub open spec fn status_after(cells: Seq<Cell>, turn: Color, player: Color) -> (Seq<char>, bool) {
    match result_of(cells, turn) {
        GameResult::Checkmate { winner } => (
            if winner == player {
                "Checkmate — you win!"@
            } else {
                "Checkmate — you lose"@
            },
            false,
        ),
        GameResult::Stalemate => ("Stalemate — draw"@, false),
        GameResult::Ongoing => if turn == player {
            ("Your turn ("@ + turn_name(turn) + ")"@ + check_suffix(in_check(cells, turn)), true)
        } else {
            (turn_name(turn) + " to move"@ + check_suffix(in_check(cells, turn)), false)
        },
    }
}

/// The model with the status line recomputed for its position.
pub open spec fn with_status(v: SessionView) -> SessionView {
    SessionView { status: status_after(v.cells, v.turn, v.player).0, our_turn: status_after(v.cells, v.turn, v.player).1, ..v }
}

/// The squares the piece on `sq` may move to without leaving the player's
/// Emperor in check, in generation order.
pub open spec fn targets_of(cells: Seq<Cell>, sq: int, player: Color) -> Seq<u8> {
    moves_for(cells, sq, false).filter(
        |m: Move| !in_check(cells_after_move(cells, m.from as int, m.to as int), player),
    ).map_values(|m: Move| m.to)
}

/// The sound of a move that led to `cells` with `turn` to move: the end of
/// the game, a check, a capture, or a plain move.
pub open spec fn sound_for(cells: Seq<Cell>, turn: Color, was_capture: bool) -> Sound {
    match result_of(cells, turn) {
        GameResult::Ongoing => if in_check(cells, turn) {
            Sound::Check
        } else if was_capture {
            Sound::Capture
        } else {
            Sound::Move
        },
        _ => Sound::GameEnd,
    }
}

/// The model after `mv` is played: the board moves on, `mv` is the last
/// move, one more move is counted, and the status line is recomputed.
pub open spec fn after_move(v: SessionView, mv: Move) -> SessionView {
    with_status(
        SessionView {
            cells: cells_after_move(v.cells, mv.from as int, mv.to as int),
            turn: v.turn.spec_opposite(),
            last_move: Some(mv),
            move_count: (v.move_count + 1) as u32,
            ..v
        },
    )
}

/// The piece a capture by `mv` takes on `cells`, if it takes one.
pub open spec fn taken(cells: Seq<Cell>, mv: Move) -> Option<PieceKind> {
    if mv.capture {
        match cells[mv.to as int] {
            Some((_, k)) => Some(k),
            None => None,
        }
    } else {
        None
    }
}

pub open spec fn push_taken(list: Seq<PieceKind>, t: Option<PieceKind>) -> Seq<PieceKind> {
    match t {
        Some(k) => list.push(k),
        None => list,
    }
}

/// The model after the player's own move `mv`: the piece it takes joins the
/// opponent's captured pieces and the selection is cleared.
pub open spec fn after_own_move(v: SessionView, mv: Move) -> SessionView {
    after_move(
        SessionView {
            captured_opp: push_taken(v.captured_opp, taken(v.cells, mv)),
            selected: None,
            targets: Seq::empty(),
            ..v
        },
        mv,
    )
}

/// The model after the opponent's move `mv`: the piece it takes joins our
/// captured pieces.
pub open spec fn after_opponent_move(v: SessionView, mv: Move) -> SessionView {
    after_move(SessionView { captured_us: push_taken(v.captured_us, taken(v.cells, mv)), ..v }, mv)
}

/// The message telling the server about our move `mv` in an online game.
pub open spec fn move_message_ok(m: Option<ClientMessage>, v: SessionView, mv: Move) -> bool {
    if v.mode == GameMode::Online {
        m matches Some(ClientMessage::MakeMove { game_id, from, to }) && from == mv.from && to == mv.to
            && game_id@ == match v.game_id {
            Some(g) => g,
            None => Seq::<char>::empty(),
        }
    } else {
        m is None
    }
}

/// A message of a rematch kind naming `gid`.
pub open spec fn rematch_message(m: ClientMessage, gid: Seq<char>, r: RematchState) -> bool {
    match r {
        RematchState::Requesting => m matches ClientMessage::RequestRematch { game_id } && game_id@ == gid,
        RematchState::Starting => m matches ClientMessage::AcceptRematch { game_id } && game_id@ == gid,
        RematchState::Declined => m matches ClientMessage::DeclineRematch { game_id } && game_id@ == gid,
        _ => false,
    }
}


/// The model of a fresh session: the starting position, White to move and
/// to play, a local game, and nothing else set.
pub open spec fn fresh_session() -> SessionView {
    SessionView {
        cells: initial_cells(),
        turn: Color::White,
        player: Color::White,
        selected: None,
        targets: Seq::empty(),
        mode: GameMode::Local,
        our_turn: true,
        status: "White to move"@,
        move_count: 0,
        captured_us: Seq::empty(),
        captured_opp: Seq::empty(),
        time_forfeit: false,
        game_id: None,
        opponent: Seq::empty(),
        leave_requested: false,
        rematch: RematchState::Hidden,
        bot_score: None,
        bot_depth: None,
        last_move: None,
        chat: Seq::empty(),
        pending_scroll: false,
    }
}

/// The model after a new game is started with the given mode, side and
/// opponent: the starting position with everything of the previous game
/// cleared; the game id stays.
pub open spec fn started(v: SessionView, mode: GameMode, color: Color, opponent: Seq<char>) -> SessionView {
    with_status(
        SessionView {
            cells: initial_cells(),
            turn: Color::White,
            player: color,
            selected: None,
            targets: Seq::empty(),
            mode: mode,
            move_count: 0,
            captured_us: Seq::empty(),
            captured_opp: Seq::empty(),
            time_forfeit: false,
            opponent: opponent,
            leave_requested: false,
            rematch: RematchState::Hidden,
            bot_score: None,
            bot_depth: None,
            last_move: None,
            chat: Seq::empty(),
            pending_scroll: false,
            ..v
        },
    )
}

/// A rematch can be offered in an online game with a known id that is
/// over, on the board or on the clock.
pub open spec fn rematch_possible_view(v: SessionView) -> bool {
    v.mode == GameMode::Online && v.game_id is Some && (result_of(v.cells, v.turn) != GameResult::Ongoing
        || v.time_forfeit)
}

/// The model with a chat line added.
pub open spec fn with_chat_line(v: SessionView, sender: Seq<char>, message: Seq<char>) -> SessionView {
    SessionView { chat: v.chat.push((sender, message, sender == "You"@)), pending_scroll: true, ..v }
}

/// The model with a line from "System" added to the chat.
pub open spec fn with_system_line(v: SessionView, message: Seq<char>) -> SessionView {
    SessionView { chat: v.chat.push(("System"@, message, false)), pending_scroll: true, ..v }
}

/// What a click on `square` does: nothing when it is not the player's turn
/// or the game is over; a move when a piece is selected and `square` is one
/// of its targets; a new selection when `square` holds a piece of the
/// player; otherwise the selection is cleared.
pub open spec fn click_result(v: SessionView, square: int) -> (SessionView, Option<Move>) {
    if !v.our_turn || result_of(v.cells, v.turn) != GameResult::Ongoing {
        (v, None)
    } else if v.selected is Some && v.targets.contains(square as u8) {
        let mv = Move { from: v.selected->Some_0 as u8, to: square as u8, capture: v.cells[square] is Some };
        (after_own_move(v, mv), Some(mv))
    } else if v.cells[square] matches Some((c, _)) && c == v.player {
        (SessionView { selected: Some(square as usize), targets: targets_of(v.cells, square, v.player), ..v }, None)
    } else {
        (SessionView { selected: None, targets: Seq::empty(), ..v }, None)
    }
}

/// The effects of the player's move `mv`, which led from `before` to `after`.
pub open spec fn effects_ok(e: MoveEffects, before: SessionView, after: SessionView, mv: Move) -> bool {
    &&& e.sound == sound_for(after.cells, after.turn, mv.capture)
    &&& move_message_ok(e.outgoing, before, mv)
    &&& e.start_bot == (before.mode == GameMode::Bot && result_of(after.cells, after.turn) == GameResult::Ongoing)
}

/// The chat message to send for the text typed by the player: in an online
/// game with a known id, the trimmed text when it is not empty.
pub open spec fn chat_to_send(v: SessionView, input: Seq<char>) -> Option<(Seq<char>, Seq<char>)> {
    if v.mode == GameMode::Online && v.game_id is Some && trim_spec(input).len() > 0 {
        Some((v.game_id->Some_0, trim_spec(input)))
    } else {
        None
    }
}

/// The status line when the clock of `loser` runs out.
pub open spec fn forfeit_status(loser: Color, player: Color) -> Seq<char> {
    if loser == player {
        "Time forfeit — you lose"@
    } else {
        "Time forfeit — you win!"@
    }
}

/// Whether `x` is among `v`.
fn contains_square(v: &Vec<u8>, x: u8) -> (r: bool)
    ensures
        r == v@.contains(x),
{
    let mut i: usize = 0;
    while i < v.len()
        invariant
            0 <= i <= v@.len(),
            forall|k: int| 0 <= k < i ==> v@[k] != x,
        decreases v@.len() - i,
    {
        if v[i] == x {
            return true;
        }
        i += 1;
    }
    false
}

impl GameSession {
    /// The selection is on the board and the stored hash matches the board.
    pub open spec fn wf(&self) -> bool {
        &&& self.game_state.hash_consistent()
        &&& self.selected_square matches Some(s) ==> s < 64
    }

    pub open spec fn game_over(&self) -> bool {
        result_of(self.game_state.cells(), self.game_state.turn) != GameResult::Ongoing
    }

    pub open spec fn rematch_possible(&self) -> bool {
        rematch_possible_view(self@)
    }

    /// A fresh session: the starting position, White to move, a local game.
    pub fn new() -> (s: Self)
        ensures
            s.wf(),
            s@ == fresh_session(),
            s@.cells == initial_cells(),
            s@.turn == Color::White,
            s@.player == Color::White,
            s@.selected is None,
            s@.targets.len() == 0,
            s@.mode == GameMode::Local,
            s@.our_turn,
            s@.status == "White to move"@,
            s@.move_count == 0,
            s@.captured_us.len() == 0,
            s@.captured_opp.len() == 0,
            !s@.time_forfeit,
            s@.game_id is None,
            s@.opponent.len() == 0,
            !s@.leave_requested,
            s@.rematch == RematchState::Hidden,
            s@.bot_score is None,
            s@.bot_depth is None,
            s@.last_move is None,
            s@.chat.len() == 0,
            !s@.pending_scroll,
    {
        let s = GameSession {
            game_state: Board::initial(),
            player_color: Color::White,
            selected_square: None,
            legal_targets: Vec::new(),
            game_mode: GameMode::Local,
            is_our_turn: true,
            status_message: String::from_str("White to move"),
            move_count: 0,
            captured_us: Vec::new(),
            captured_opp: Vec::new(),
            time_forfeit: false,
            game_id: None,
            opponent_name: String::new(),
            leave_requested: false,
            rematch_state: RematchState::Hidden,
            bot_score: None,
            bot_depth: None,
            last_move: None,
            chat_messages: Vec::new(),
            pending_chat_scroll: false,
        };
        proof {
            assert(s@.chat =~= Seq::empty());
        }
        s
    }

    /// Recompute the status line and whether the player may move.
    pub fn refresh_status(&mut self)
        ensures
            final(self)@ == with_status(old(self)@),
            final(self).game_state == old(self).game_state,
            final(self).game_id == old(self).game_id,
    {
        let turn = self.game_state.turn;
        match self.game_state.game_result() {
            GameResult::Checkmate { winner } => {
                self.status_message = if winner == self.player_color {
                    String::from_str("Checkmate — you win!")
                } else {
                    String::from_str("Checkmate — you lose")
                };
                self.is_our_turn = false;
                return;
            },
            GameResult::Stalemate => {
                self.status_message = String::from_str("Stalemate — draw");
                self.is_our_turn = false;
                return;
            },
            GameResult::Ongoing => {},
        }
        let in_check = self.game_state.is_in_check(turn);
        let name = if turn == Color::White {
            "White"
        } else {
            "Black"
        };
        if turn == self.player_color {
            let mut msg = String::from_str("Your turn (");
            msg.append(name);
            msg.append(")");
            if in_check {
                msg.append(" — check!");
            }
            self.status_message = msg;
            self.is_our_turn = true;
        } else {
            let mut msg = String::from_str(name);
            msg.append(" to move");
            if in_check {
                msg.append(" — check!");
            }
            self.status_message = msg;
            self.is_our_turn = false;
        }
    }

    /// Start a new game: the starting position, the given mode, side and
    /// opponent, and everything of the previous game cleared (the game id
    /// stays until the caller sets it).
    pub fn start_game(&mut self, mode: GameMode, color: Color, opponent: &str)
        ensures
            final(self).wf(),
            final(self)@ == started(old(self)@, mode, color, opponent@),
    {
        self.game_state = Board::initial();
        self.player_color = color;
        self.game_mode = mode;
        self.is_our_turn = color == Color::White;
        self.selected_square = None;
        self.legal_targets = Vec::new();
        self.move_count = 0;
        self.captured_us = Vec::new();
        self.captured_opp = Vec::new();
        self.opponent_name = String::from_str(opponent);
        self.time_forfeit = false;
        self.leave_requested = false;
        self.rematch_state = RematchState::Hidden;
        self.bot_score = None;
        self.bot_depth = None;
        self.last_move = None;
        self.chat_messages = Vec::new();
        self.pending_chat_scroll = false;
        proof {
            assert(self.chat_messages@.map_values(|e: ChatEntry| chat_view(e)) =~= Seq::empty());
        }
        self.refresh_status();
    }

    pub fn is_game_over(&self) -> (r: bool)
        ensures
            r == self.game_over(),
    {
        match self.game_state.game_result() {
            GameResult::Ongoing => false,
            _ => true,
        }
    }

    pub fn can_offer_rematch(&self) -> (r: bool)
        ensures
            r == self.rematch_possible(),
    {
        match self.game_mode {
            GameMode::Online => self.game_id.is_some() && (self.is_game_over() || self.time_forfeit),
            _ => false,
        }
    }

    /// Show the rematch offer when a rematch is possible.
    pub fn enable_rematch_offer(&mut self)
        ensures
            final(self)@ == (if old(self).rematch_possible() {
                SessionView { rematch: RematchState::Available, ..old(self)@ }
            } else {
                old(self)@
            }),
            final(self).game_state == old(self).game_state,
    {
        if self.can_offer_rematch() {
            self.rematch_state = RematchState::Available;
        }
    }

    /// The opponent asks for a rematch; shown when a rematch is possible.
    pub fn note_rematch_requested(&mut self)
        ensures
            final(self)@ == (if old(self).rematch_possible() {
                SessionView { rematch: RematchState::RequestedByOpponent, ..old(self)@ }
            } else {
                old(self)@
            }),
            final(self).game_state == old(self).game_state,
    {
        if self.can_offer_rematch() {
            self.rematch_state = RematchState::RequestedByOpponent;
        }
    }

    pub fn note_rematch_declined(&mut self)
        ensures
            final(self)@ == (SessionView { rematch: RematchState::Declined, ..old(self)@ }),
            final(self).game_state == old(self).game_state,
    {
        self.rematch_state = RematchState::Declined;
    }

    pub fn note_rematch_starting(&mut self)
        ensures
            final(self)@ == (SessionView { rematch: RematchState::Starting, ..old(self)@ }),
            final(self).game_state == old(self).game_state,
    {
        self.rematch_state = RematchState::Starting;
    }

    /// Set the rematch state to `next` and give the message for the server,
    /// when the game id is known; otherwise change nothing.
    fn rematch_step(&mut self, next: RematchState) -> (m: Option<ClientMessage>)
        requires
            next == RematchState::Requesting || next == RematchState::Starting || next == RematchState::Declined,
        ensures
            final(self).game_state == old(self).game_state,
            match old(self)@.game_id {
                Some(gid) => final(self)@ == (SessionView { rematch: next, ..old(self)@ })
                    && (m matches Some(msg) && rematch_message(msg, gid, next)),
                None => final(self)@ == old(self)@ && m is None,
            },
    {
        let game_id = match &self.game_id {
            Some(g) => g.clone(),
            None => {
                return None;
            },
        };
        self.rematch_state = next;
        match next {
            RematchState::Requesting => Some(ClientMessage::RequestRematch { game_id }),
            RematchState::Starting => Some(ClientMessage::AcceptRematch { game_id }),
            _ => Some(ClientMessage::DeclineRematch { game_id }),
        }
    }

    /// Ask for a rematch: the message for the server, when the game id is known.
    pub fn request_rematch(&mut self) -> (m: Option<ClientMessage>)
        ensures
            final(self).game_state == old(self).game_state,
            match old(self)@.game_id {
                Some(gid) => final(self)@ == (SessionView { rematch: RematchState::Requesting, ..old(self)@ })
                    && (m matches Some(msg) && rematch_message(msg, gid, RematchState::Requesting)),
                None => final(self)@ == old(self)@ && m is None,
            },
    {
        self.rematch_step(RematchState::Requesting)
    }

    /// Accept the opponent's rematch request.
    pub fn accept_rematch(&mut self) -> (m: Option<ClientMessage>)
        ensures
            final(self).game_state == old(self).game_state,
            match old(self)@.game_id {
                Some(gid) => final(self)@ == (SessionView { rematch: RematchState::Starting, ..old(self)@ })
                    && (m matches Some(msg) && rematch_message(msg, gid, RematchState::Starting)),
                None => final(self)@ == old(self)@ && m is None,
            },
    {
        self.rematch_step(RematchState::Starting)
    }

    /// Decline the opponent's rematch request.
    pub fn decline_rematch(&mut self) -> (m: Option<ClientMessage>)
        ensures
            final(self).game_state == old(self).game_state,
            match old(self)@.game_id {
                Some(gid) => final(self)@ == (SessionView { rematch: RematchState::Declined, ..old(self)@ })
                    && (m matches Some(msg) && rematch_message(msg, gid, RematchState::Declined)),
                None => final(self)@ == old(self)@ && m is None,
            },
    {
        self.rematch_step(RematchState::Declined)
    }

    /// The sound for a move that led to the current position.
    pub fn sound_after_move(&self, was_capture: bool) -> (s: Sound)
        ensures
            s == sound_for(self.game_state.cells(), self.game_state.turn, was_capture),
    {
        match self.game_state.game_result() {
            GameResult::Ongoing => {
                if self.game_state.is_in_check(self.game_state.turn) {
                    Sound::Check
                } else if was_capture {
                    Sound::Capture
                } else {
                    Sound::Move
                }
            },
            _ => Sound::GameEnd,
        }
    }

    /// The squares the piece on `square` may move to.
    fn targets_for(&self, square: usize) -> (t: Vec<u8>)
        requires
            square < 64,
        ensures
            t@ == targets_of(self.game_state.cells(), square as int, self.player_color),
    {
        let ghost cells = self.game_state.cells();
        let ghost p = |m: Move| !in_check(cells_after_move(cells, m.from as int, m.to as int), self.player_color);
        let moves = self.game_state.generate_moves_for(square, false);
        proof {
            crate::move_facts::lemma_moves_for(cells, square as int, false);
        }
        let mut t: Vec<u8> = Vec::new();
        let n = moves.len();
        let mut i: usize = 0;
        proof {
            reveal(Seq::filter);
            assert(moves@.take(0) =~= Seq::<Move>::empty());
            assert(t@ =~= moves@.take(0).filter(p).map_values(|m: Move| m.to));
        }
        while i < n
            invariant
                n == moves@.len(),
                0 <= i <= n,
                cells == self.game_state.cells(),
                square < 64,
                moves@ == moves_for(cells, square as int, false),
                cells[square as int] matches Some((c, _)) ==> crate::move_facts::all_sound(cells, square as int, c, moves@),
                cells[square as int] is None ==> moves@.len() == 0,
                p == (|m: Move| !in_check(cells_after_move(cells, m.from as int, m.to as int), self.player_color)),
                t@ == moves@.take(i as int).filter(p).map_values(|m: Move| m.to),
            decreases n - i,
        {
            let mv = moves[i];
            proof {
                assert(moves@.take(i + 1).drop_last() =~= moves@.take(i as int));
                assert(moves@.take(i + 1).last() == mv);
                reveal(Seq::filter);
                assert(crate::move_facts::sound_move(cells, square as int, cells[square as int]->Some_0.0, moves@[i as int]));
            }
            let child = self.game_state.make_move(&mv);
            if !child.is_in_check(self.player_color) {
                t.push(mv.to);
                proof {
                    assert(moves@.take(i + 1).filter(p) == moves@.take(i as int).filter(p).push(mv));
                    assert(t@ =~= moves@.take(i + 1).filter(p).map_values(|m: Move| m.to));
                }
            } else {
                proof {
                    assert(moves@.take(i + 1).filter(p) == moves@.take(i as int).filter(p));
                }
            }
            i += 1;
        }
        proof {
            assert(moves@.take(n as int) =~= moves@);
        }
        t
    }

    /// Play the player's move `mv`.
    fn exec_move(&mut self, mv: Move) -> (e: MoveEffects)
        requires
            old(self).wf(),
            mv.from < 64,
            mv.to < 64,
            old(self).move_count < u32::MAX,
        ensures
            final(self).wf(),
            final(self)@ == after_own_move(old(self)@, mv),
            effects_ok(e, old(self)@, final(self)@, mv),
    {
        let was_capture = mv.capture;
        if was_capture {
            match self.game_state.get(mv.to as usize) {
                Some((_, kind)) => {
                    self.captured_opp.push(kind);
                },
                None => {},
            }
        }
        self.last_move = Some(mv);
        self.game_state = self.game_state.make_move(&mv);
        self.selected_square = None;
        self.legal_targets = Vec::new();
        self.move_count = self.move_count + 1;
        self.refresh_status();
        let sound = self.sound_after_move(was_capture);
        let outgoing = match self.game_mode {
            GameMode::Online => {
                let game_id = match &self.game_id {
                    Some(g) => g.clone(),
                    None => String::new(),
                };
                Some(ClientMessage::MakeMove { game_id, from: mv.from, to: mv.to })
            },
            _ => None,
        };
        let start_bot = self.game_mode == GameMode::Bot && !self.is_game_over();
        MoveEffects { sound, outgoing, start_bot }
    }

    /// A click on `square` of the board: select one of the player's pieces,
    /// play the selected piece to one of its targets, or clear the selection.
    /// Returns what the caller does next when a move was played.
    pub fn handle_square_click(&mut self, square: usize) -> (r: Option<MoveEffects>)
        requires
            old(self).wf(),
            old(self).is_our_turn && !old(self).game_over() ==> square < 64,
            click_result(old(self)@, square as int).1 is Some ==> old(self).move_count < u32::MAX,
        ensures
            final(self).wf(),
            final(self)@ == click_result(old(self)@, square as int).0,
            match click_result(old(self)@, square as int).1 {
                Some(mv) => r matches Some(e) && effects_ok(e, old(self)@, final(self)@, mv),
                None => r is None,
            },
    {
        if !self.is_our_turn || self.is_game_over() {
            return None;
        }
        match self.selected_square {
            Some(selected) => {
                if contains_square(&self.legal_targets, square as u8) {
                    let capture = self.game_state.get(square).is_some();
                    let mv = Move::new(selected as u8, square as u8, capture);
                    let e = self.exec_move(mv);
                    return Some(e);
                }
            },
            None => {},
        }
        match self.game_state.get(square) {
            Some((color, _)) => {
                if color == self.player_color {
                    self.selected_square = Some(square);
                    self.legal_targets = self.targets_for(square);
                    return None;
                }
            },
            None => {},
        }
        self.selected_square = None;
        self.legal_targets = Vec::new();
        None
    }

    /// Play the opponent's move `mv` and give its sound.
    pub fn apply_opponent_move(&mut self, mv: Move) -> (s: Sound)
        requires
            old(self).wf(),
            mv.from < 64,
            mv.to < 64,
            old(self).move_count < u32::MAX,
        ensures
            final(self).wf(),
            final(self)@ == after_opponent_move(old(self)@, mv),
            s == sound_for(final(self)@.cells, final(self)@.turn, mv.capture),
    {
        let was_capture = mv.capture;
        if was_capture {
            match self.game_state.get(mv.to as usize) {
                Some((_, kind)) => {
                    self.captured_us.push(kind);
                },
                None => {},
            }
        }
        self.last_move = Some(mv);
        self.game_state = self.game_state.make_move(&mv);
        self.move_count = self.move_count + 1;
        self.refresh_status();
        self.sound_after_move(was_capture)
    }

    /// Play the bot's answer, remember its score and depth, and give the
    /// move's sound.
    pub fn exec_bot_move(&mut self, result: SearchResult) -> (s: Sound)
        requires
            old(self).wf(),
            result.best_move.from < 64,
            result.best_move.to < 64,
            old(self).move_count < u32::MAX,
        ensures
            final(self).wf(),
            final(self)@ == after_move(
                SessionView {
                    captured_us: push_taken(old(self)@.captured_us, taken(old(self)@.cells, result.best_move)),
                    bot_score: Some(result.score),
                    bot_depth: Some(result.depth),
                    selected: None,
                    targets: Seq::empty(),
                    ..old(self)@
                },
                result.best_move,
            ),
            s == sound_for(final(self)@.cells, final(self)@.turn, result.best_move.capture),
    {
        let mv = result.best_move;
        let was_capture = mv.capture;
        if was_capture {
            match self.game_state.get(mv.to as usize) {
                Some((_, kind)) => {
                    self.captured_us.push(kind);
                },
                None => {},
            }
        }
        self.last_move = Some(mv);
        self.bot_score = Some(result.score);
        self.bot_depth = Some(result.depth);
        self.game_state = self.game_state.make_move(&mv);
        self.selected_square = None;
        self.legal_targets = Vec::new();
        self.move_count = self.move_count + 1;
        self.refresh_status();
        self.sound_after_move(was_capture)
    }

    /// Add a chat line; it is ours when the sender is "You".
    pub fn push_chat_message(&mut self, sender_name: String, message: String)
        ensures
            final(self)@ == with_chat_line(old(self)@, sender_name@, message@),
            final(self).game_state == old(self).game_state,
    {
        let you = String::from_str("You");
        let is_ours = sender_name == you;
        let ghost before = self.chat_messages@;
        self.chat_messages.push(ChatEntry { sender_name, message, is_ours });
        self.pending_chat_scroll = true;
        proof {
            assert(self.chat_messages@.map_values(|e: ChatEntry| chat_view(e)) =~= before.map_values(
                |e: ChatEntry| chat_view(e),
            ).push((sender_name@, message@, sender_name@ == "You"@)));
        }
    }

    /// Add a chat line from "System".
    pub fn push_system_chat_message(&mut self, message: String)
        ensures
            final(self)@ == with_system_line(old(self)@, message@),
            final(self).game_state == old(self).game_state,
    {
        let ghost before = self.chat_messages@;
        let sender_name = String::from_str("System");
        self.chat_messages.push(ChatEntry { sender_name, message, is_ours: false });
        self.pending_chat_scroll = true;
        proof {
            assert(self.chat_messages@.map_values(|e: ChatEntry| chat_view(e)) =~= before.map_values(
                |e: ChatEntry| chat_view(e),
            ).push(("System"@, message@, false)));
        }
    }

    /// The chat message to send for the typed `input`, if any.
    pub fn chat_message_to_send(&self, input: &str) -> (m: Option<ClientMessage>)
        ensures
            match chat_to_send(self@, input@) {
                Some((gid, text)) => m matches Some(ClientMessage::SendChat { game_id, message })
                    && game_id@ == gid && message@ == text,
                None => m is None,
            },
    {
        match self.game_mode {
            GameMode::Online => {},
            _ => {
                return None;
            },
        }
        let game_id = match &self.game_id {
            Some(g) => g.clone(),
            None => {
                return None;
            },
        };
        let text = trim_text(input);
        if text.is_empty() {
            return None;
        }
        Some(ClientMessage::SendChat { game_id, message: String::from_str(text) })
    }

    /// The clock of `loser` ran out: the game ends on time.
    pub fn record_time_forfeit(&mut self, loser: Color)
        ensures
            final(self)@ == (SessionView {
                time_forfeit: true,
                status: forfeit_status(loser, old(self)@.player),
                our_turn: false,
                ..old(self)@
            }),
            final(self).game_state == old(self).game_state,
    {
        self.time_forfeit = true;
        self.status_message = if loser == self.player_color {
            String::from_str("Time forfeit — you lose")
        } else {
            String::from_str("Time forfeit — you win!")
        };
        self.is_our_turn = false;
    }
}

} // verus!
