use vstd::prelude::*;

use crate::book::{BookConfig, BookResponse, clone_opt};
use crate::engine_info::{
    AnalysisSnapshot, EngineAnalysisStore, EngineAnalyzeResult, clone_strings, is_board_move,
    uci_xiangqi_best_ready,
};
use crate::engine_setup::{move_human_from_fen, spec_side_to_move_is_red};
use crate::panel::{
    format_score, format_time_ms, format_win_rate, red_black_winrate_pct_from_wdl, score_text, time_text,
    wdl_shares, win_text,
};
use crate::xqb::{percent_one_decimal, percent_text};
use crate::engine_setup::opt_view;
use crate::command::SlashCommand;
use crate::history::{HistoryView, MoveHistory};
use crate::screens::BattleButton;
use crate::rules::{has_legal_move, has_legal_move_exec, spec_try_apply, try_apply_fully_legal_uci};
use crate::text::{
    is_prefix, push_str,
    ascii_lower, chars_of, lower, lower_chars, owned, push_char, string_from_chars, trim, trim_chars, trim_str,
};
use crate::xiangqi::{
    Board90, STARTPOS_FEN, Side, parse_uci_coords, spec_from_fen, spec_parse_uci_coords,
    spec_to_fen, square_label, uci_from_coords,
};

verus! {

/// An arrow on the board from one cell to another (file from `a`, rank as
/// row from the top).
#[derive(Clone, Copy, Debug, PartialEq, Eq, Structural)]
pub struct BoardArrow {
    pub from_file: u8,
    pub from_rank: u8,
    pub to_file: u8,
    pub to_rank: u8,
}

/// The arrow of a move text, when it reads as a board move.
pub open spec fn spec_arrow(uci: Seq<char>) -> Option<BoardArrow> {
    match spec_parse_uci_coords(uci) {
        Some((r1, c1, r2, c2)) => Some(
            BoardArrow { from_file: c1 as u8, from_rank: r1 as u8, to_file: c2 as u8, to_rank: r2 as u8 },
        ),
        None => None,
    }
}

/// The arrow of a move text.
pub fn arrow_from_uci(uci: &str) -> (r: Option<BoardArrow>)
    ensures
        r == spec_arrow(uci@),
{
    match parse_uci_coords(uci) {
        Some((r1, c1, r2, c2)) => Some(
            BoardArrow { from_file: c1 as u8, from_rank: r1 as u8, to_file: c2 as u8, to_rank: r2 as u8 },
        ),
        None => None,
    }
}

/// The arrow of a move text that is a board move `[a-i][0-9][a-i][0-9]`.
pub fn board_arrow_from_uci(uci: &str) -> (r: Option<BoardArrow>)
    ensures
        r == (if is_board_move(uci@) { spec_arrow(uci@) } else { None }),
{
    if !uci_xiangqi_best_ready(uci) {
        return None;
    }
    arrow_from_uci(uci)
}

/// The state of a game on screen: its record, the board shown, the side to
/// move, which sides the engine plays, the analysis modes, and what is
/// highlighted.
#[derive(Debug)]
pub struct GameState {
    pub history: MoveHistory,
    pub board: Board90,
    pub side_to_move: Side,
    pub red_ai: bool,
    pub black_ai: bool,
    pub query_mode: bool,
    pub realtime_eval: bool,
    pub rotated: bool,
    pub last_move_uci: Option<String>,
    pub last_move_arrow: Option<BoardArrow>,
    pub pending_arrow: Option<BoardArrow>,
    pub selected_cell: Option<(u8, u8)>,
    pub analysis: AnalysisSnapshot,
}

impl GameState {
    /// A well-formed record and board, and a selected cell (if any) on the board.
    pub open spec fn wf(&self) -> bool {
        &&& self.history.wf()
        &&& self.board.wf()
        &&& self.history@.fens.len() < usize::MAX
        &&& (self.selected_cell matches Some((f, r)) ==> f < 9 && r < 10)
    }
}

impl Default for GameState {
    fn default() -> (g: GameState)
        ensures
            g.wf(),
            g.history@.fens == seq![STARTPOS_FEN@],
            g.history@.moves.len() == 0,
            g.history@.index == 0,
            g.board.cells@ == Board90::start_cells(),
            g.side_to_move == Side::Red,
            !g.red_ai && !g.black_ai && !g.query_mode && !g.realtime_eval && !g.rotated,
            g.last_move_uci is None,
            g.last_move_arrow is None,
            g.pending_arrow is None,
            g.selected_cell is None,
            g.analysis.source@ == "idle"@,
    {
        GameState {
            history: MoveHistory::new_game(),
            board: Board90::startpos(),
            side_to_move: Side::Red,
            red_ai: false,
            black_ai: false,
            query_mode: false,
            realtime_eval: false,
            rotated: false,
            last_move_uci: None,
            last_move_arrow: None,
            pending_arrow: None,
            selected_cell: None,
            analysis: AnalysisSnapshot::idle(),
        }
    }
}


impl GameState {
    /// The game is over when the side to move has no legal move.
    pub open spec fn spec_game_over(&self) -> bool {
        !has_legal_move(self.board.cells@, self.side_to_move)
    }

    /// The game is over exactly when no move from any cell to any cell is
    /// legal for the side to move (checkmate or stalemate).
    pub proof fn lemma_game_over(&self)
        ensures
            self.spec_game_over() == forall|fr: int, fc: int, tr: int, tc: int|
                !#[trigger] crate::rules::legal(self.board.cells@, self.side_to_move, fr, fc, tr, tc),
    {
        crate::rules::lemma_has_legal_move(self.board.cells@, self.side_to_move);
    }

    /// Whether the side to move has no legal move left.
    pub fn is_game_over(&self) -> (r: bool)
        requires
            self.wf(),
        ensures
            r == self.spec_game_over(),
    {
        !has_legal_move_exec(&self.board.cells, self.side_to_move)
    }

    /// How many of the four modes (red engine, black engine, query, real-time
    /// evaluation) are on.
    pub fn active_mode_count(&self) -> (r: usize)
        ensures
            r == (if self.red_ai { 1int } else { 0int }) + (if self.black_ai { 1int } else { 0int }) + (
            if self.query_mode { 1int } else { 0int }) + (if self.realtime_eval { 1int } else { 0int }),
    {
        let mut n: usize = 0;
        if self.red_ai {
            n = n + 1;
        }
        if self.black_ai {
            n = n + 1;
        }
        if self.query_mode {
            n = n + 1;
        }
        if self.realtime_eval {
            n = n + 1;
        }
        n
    }

    /// Starts a new game (as [`GameService::reset`]).
    pub fn reset(&mut self)
        ensures
            final(self).wf(),
            reset_done(&*final(self)),
            final(self).red_ai == old(self).red_ai,
            final(self).black_ai == old(self).black_ai,
            final(self).query_mode == old(self).query_mode,
            final(self).realtime_eval == old(self).realtime_eval,
            final(self).rotated == old(self).rotated,
    {
        GameService::reset(self);
    }
}

/// A move that the game refused.
#[derive(Debug, Clone, PartialEq, Eq)]
pub enum ApplyMoveError {
    /// The move is not legal here.
    IllegalMove(String),
    /// An earlier position is being viewed.
    BrowseOnly,
}

impl ApplyMoveError {
    pub open spec fn spec_message(&self) -> Seq<char> {
        match self {
            ApplyMoveError::IllegalMove(uci) => "非法着法："@ + uci@ + "。"@,
            ApplyMoveError::BrowseOnly => "正在浏览历史，请 /next 回到最新步或走新着以截断。"@,
        }
    }

    /// The message shown for the refusal.
    pub fn message(&self) -> (r: String)
        ensures
            r@ == self.spec_message(),
    {
        match self {
            ApplyMoveError::IllegalMove(uci) => {
                let mut s = owned("非法着法：");
                crate::text::push_str(&mut s, uci.as_str());
                crate::text::push_str(&mut s, "。");
                s
            },
            ApplyMoveError::BrowseOnly => owned("正在浏览历史，请 /next 回到最新步或走新着以截断。"),
        }
    }
}

/// The game after a new game started: the start position with red to move,
/// nothing highlighted, and the analysis panel idle on the start position.
pub open spec fn reset_done(g: &GameState) -> bool {
    &&& g.history@.fens == seq![STARTPOS_FEN@]
    &&& g.history@.moves.len() == 0
    &&& g.history@.index == 0
    &&& g.board.cells@ == Board90::start_cells()
    &&& g.side_to_move == Side::Red
    &&& g.last_move_uci is None
    &&& g.last_move_arrow is None
    &&& g.pending_arrow is None
    &&& g.selected_cell is None
    &&& g.analysis.source@ == STARTPOS_FEN@
    &&& g.analysis.best_move@ == "--"@
    &&& g.analysis.pv@.len() == 0
}

/// The board and side shown after syncing with the record: those of the
/// viewed position when its FEN reads, else the previous ones.
pub open spec fn synced_board(old_cells: Seq<u8>, old_side: Side, h: HistoryView) -> (Seq<u8>, Side) {
    match spec_from_fen(h.fens[h.index]) {
        Some(x) => x,
        None => (old_cells, old_side),
    }
}

/// The move that led to the viewed position, if any.
pub open spec fn view_last_move(h: HistoryView) -> Option<Seq<char>> {
    if h.index == 0 {
        None
    } else {
        Some(h.moves[h.index - 1])
    }
}

/// `g` shows the viewed position of its record: the board and side (when the
/// FEN reads, else those of `before`), and the last move with its arrow.
pub open spec fn shows_view(g: &GameState, before: &GameState) -> bool {
    &&& (g.board.cells@, g.side_to_move) == synced_board(before.board.cells@, before.side_to_move, g.history@)
    &&& opt_view(g.last_move_uci) == view_last_move(g.history@)
    &&& g.last_move_arrow == match view_last_move(g.history@) {
        Some(m) => spec_arrow(m),
        None => None,
    }
}

/// The settings that a game move leaves alone.
pub open spec fn same_settings(a: &GameState, b: &GameState) -> bool {
    &&& a.red_ai == b.red_ai
    &&& a.black_ai == b.black_ai
    &&& a.query_mode == b.query_mode
    &&& a.realtime_eval == b.realtime_eval
    &&& a.rotated == b.rotated
}

/// Playing a move at the newest position and then taking it back (which
/// [`GameService::undo`] then does, the newest position being viewed and not
/// the first) gives back the positions and moves of the record with the same
/// position viewed, and shows that position's board, side and last move
/// again.
pub proof fn lemma_apply_then_undo(
    h: HistoryView,
    next: Seq<char>,
    u: Seq<char>,
    pv: Seq<Seq<char>>,
    cells: Seq<u8>,
    side: Side,
)
    requires
        h.wf(),
        h.at_head(),
    ensures
        h.push(next, u, pv).at_head(),
        h.push(next, u, pv).fens.len() > 1,
        h.push(next, u, pv).undo().fens == h.fens,
        h.push(next, u, pv).undo().moves == h.moves,
        h.push(next, u, pv).undo().index == h.index,
        synced_board(cells, side, h.push(next, u, pv).undo()) == synced_board(cells, side, h),
        view_last_move(h.push(next, u, pv).undo()) == view_last_move(h),
{
    crate::history::lemma_push_reaches_head(h, next, u, pv);
    crate::history::lemma_push_then_undo(h, next, u, pv);
}

/// The position shown is unchanged: record, board, side, last move, arrows
/// and selection.
pub open spec fn same_view_state(a: &GameState, b: &GameState) -> bool {
    &&& a.history@ == b.history@
    &&& a.board == b.board
    &&& a.side_to_move == b.side_to_move
    &&& a.last_move_uci == b.last_move_uci
    &&& a.last_move_arrow == b.last_move_arrow
    &&& a.pending_arrow == b.pending_arrow
    &&& a.selected_cell == b.selected_cell
}

/// `g` is `before` after [`GameService::undo`] answered `r`: the newest move
/// taken back when the newest of several positions is viewed, else nothing.
pub open spec fn undo_done(g: &GameState, before: &GameState, r: bool) -> bool {
    &&& r == (before.history@.at_head() && before.history@.fens.len() > 1)
    &&& r ==> g.history@ == before.history@.undo() && shows_view(g, before) && g.pending_arrow is None
        && g.selected_cell is None
    &&& !r ==> *g == *before
}

/// `g` is `before` after moving the view by `delta` (1 or -1) answered `r`:
/// moved when that position exists, else nothing.
pub open spec fn browse_done(g: &GameState, before: &GameState, delta: int, r: bool) -> bool {
    &&& r == (0 <= before.history@.index + delta < before.history@.fens.len())
    &&& r ==> g.history@ == before.history@.browse(delta) && shows_view(g, before) && g.pending_arrow is None
        && g.selected_cell is None
    &&& !r ==> *g == *before
}

/// `g` is `before` after loading the position `fen` (trimmed) as a new
/// record; the whole game unchanged when it does not read.
pub open spec fn load_done(g: &GameState, before: &GameState, fen: Seq<char>) -> bool {
    match spec_from_fen(trim(fen)) {
        None => *g == *before,
        Some((cells, side)) => {
            &&& g.history@.fens == seq![spec_to_fen(cells, side)]
            &&& g.history@.moves.len() == 0
            &&& g.history@.index == 0
            &&& g.board.cells@ == cells
            &&& g.side_to_move == side
            &&& g.last_move_uci is None
            &&& g.last_move_arrow is None
            &&& g.pending_arrow is None
            &&& g.selected_cell is None
        },
    }
}

/// The services of the game: moves, browsing, loading and clicks.
#[derive(Debug, Default, Clone, Copy)]
pub struct GameService;

impl GameService {
    /// Shows the viewed position of the record.
    pub fn sync_from_history(game: &mut GameState)
        requires
            old(game).wf(),
        ensures
            final(game).wf(),
            final(game).history@ == old(game).history@,
            shows_view(&*final(game), &*old(game)),
            same_settings(&*final(game), &*old(game)),
            final(game).pending_arrow == old(game).pending_arrow,
            final(game).selected_cell == old(game).selected_cell,
    {
        if let Some((board, side)) = game.history.load_current() {
            game.board = board;
            game.side_to_move = side;
        }
        GameService::sync_last_move_from_history(game);
    }

    /// Shows the move that led to the viewed position (and its arrow).
    fn sync_last_move_from_history(game: &mut GameState)
        requires
            old(game).wf(),
        ensures
            final(game).wf(),
            final(game).history == old(game).history,
            final(game).board == old(game).board,
            final(game).side_to_move == old(game).side_to_move,
            opt_view(final(game).last_move_uci) == view_last_move(final(game).history@),
            final(game).last_move_arrow == match view_last_move(final(game).history@) {
                Some(m) => spec_arrow(m),
                None => None,
            },
            same_settings(&*final(game), &*old(game)),
            final(game).pending_arrow == old(game).pending_arrow,
            final(game).selected_cell == old(game).selected_cell,
    {
        match game.history.last_move_uci_at_view() {
            Some(uci) => {
                let arrow = arrow_from_uci(uci);
                game.last_move_uci = Some(owned(uci));
                game.last_move_arrow = arrow;
            },
            None => {
                game.last_move_uci = None;
                game.last_move_arrow = None;
            },
        }
    }

    /// Plays `uci` (trimmed, in lower case) at the newest position: refused
    /// while an earlier position is viewed, or when the move is not legal.
    pub fn apply_uci(game: &mut GameState, uci: &str) -> (r: Result<(), ApplyMoveError>)
        requires
            old(game).wf(),
            old(game).history@.fens.len() + 1 < usize::MAX,
        ensures
            final(game).wf(),
            same_settings(&*final(game), &*old(game)),
            ({
                let u = lower(trim(uci@));
                let h = old(game).history@;
                if !h.at_head() {
                    r == Err::<(), ApplyMoveError>(ApplyMoveError::BrowseOnly) && *final(game) == *old(game)
                } else {
                    match spec_try_apply(h.fens[h.index], u) {
                        None => (r matches Err(ApplyMoveError::IllegalMove(m)) && m@ == u)
                            && *final(game) == *old(game),
                        Some(next) => {
                            &&& r is Ok
                            &&& final(game).history@ == h.push(next, u, old(game).analysis.pv.deep_view())
                            &&& shows_view(&*final(game), &*old(game))
                            &&& final(game).pending_arrow is None
                            &&& final(game).selected_cell is None
                        },
                    }
                }
            }),
    {
        let uc = chars_of(uci);
        let tc = trim_chars(uc.as_slice());
        let lc = lower_chars(tc.as_slice());
        let u = string_from_chars(lc.as_slice());
        if !game.history.at_head() {
            return Err(ApplyMoveError::BrowseOnly);
        }
        let next = match try_apply_fully_legal_uci(game.history.current_fen(), u.as_str()) {
            Some(f) => f,
            None => {
                return Err(ApplyMoveError::IllegalMove(u));
            },
        };
        let pv = crate::engine_info::clone_strings(&game.analysis.pv);
        game.history.push_move(next, u, pv);
        GameService::sync_from_history(game);
        game.pending_arrow = None;
        game.selected_cell = None;
        Ok(())
    }

    /// Starts a new game at the start position.
    pub fn reset(game: &mut GameState)
        ensures
            final(game).wf(),
            reset_done(&*final(game)),
            same_settings(&*final(game), &*old(game)),
    {
        game.history = MoveHistory::new_game();
        game.board = Board90::startpos();
        game.side_to_move = Side::Red;
        game.last_move_uci = None;
        game.last_move_arrow = None;
        game.pending_arrow = None;
        game.selected_cell = None;
        let mut a = AnalysisSnapshot::idle();
        a.source = owned(STARTPOS_FEN);
        game.analysis = a;
    }

    /// Loads the position `fen` (trimmed) as a new record, written back in
    /// the normal FEN form; an unreadable FEN is refused and changes nothing.
    pub fn load_fen(game: &mut GameState, fen: &str) -> (r: Result<(), String>)
        requires
            old(game).wf(),
        ensures
            final(game).wf(),
            same_settings(&*final(game), &*old(game)),
            load_done(&*final(game), &*old(game), fen@),
            match spec_from_fen(trim(fen@)) {
                None => r matches Err(e) && e@ == "无法解析 FEN。"@,
                Some(_) => r is Ok,
            },
    {
        let fc = chars_of(fen);
        let tc = trim_chars(fc.as_slice());
        let t = string_from_chars(tc.as_slice());
        let (board, side) = match Board90::from_fen_with_side(t.as_str()) {
            Some(x) => x,
            None => {
                return Err(owned("无法解析 FEN。"));
            },
        };
        let normalized = board.to_fen(side);
        game.history.reset_to_fen(normalized);
        game.board = board;
        game.side_to_move = side;
        game.last_move_uci = None;
        game.last_move_arrow = None;
        game.pending_arrow = None;
        game.selected_cell = None;
        Ok(())
    }

    /// Takes back the newest move.
    pub fn undo(game: &mut GameState) -> (r: bool)
        requires
            old(game).wf(),
        ensures
            final(game).wf(),
            same_settings(&*final(game), &*old(game)),
            undo_done(&*final(game), &*old(game), r),
    {
        if !game.history.undo() {
            return false;
        }
        GameService::sync_from_history(game);
        game.pending_arrow = None;
        game.selected_cell = None;
        true
    }

    /// Views the previous position.
    pub fn go_prev(game: &mut GameState) -> (r: bool)
        requires
            old(game).wf(),
        ensures
            final(game).wf(),
            same_settings(&*final(game), &*old(game)),
            browse_done(&*final(game), &*old(game), -1, r),
    {
        if !game.history.go_prev() {
            return false;
        }
        GameService::sync_from_history(game);
        game.pending_arrow = None;
        game.selected_cell = None;
        true
    }

    /// Views the next position.
    pub fn go_next(game: &mut GameState) -> (r: bool)
        requires
            old(game).wf(),
        ensures
            final(game).wf(),
            same_settings(&*final(game), &*old(game)),
            browse_done(&*final(game), &*old(game), 1, r),
    {
        if !game.history.go_next() {
            return false;
        }
        GameService::sync_from_history(game);
        game.pending_arrow = None;
        game.selected_cell = None;
        true
    }

    /// The FEN handed to the engine: the shown board and side to move.
    pub fn engine_fen(game: &GameState) -> (r: String)
        requires
            game.wf(),
        ensures
            r@ == spec_to_fen(game.board.cells@, game.side_to_move),
    {
        game.board.to_fen(game.side_to_move)
    }

    /// The status line after a move was played: the move and the side to move.
    pub fn moved_status(uci: &str, side: Side) -> (r: String)
        ensures
            r@ == "已走 "@ + uci@ + "，轮到"@ + (if side == Side::Red {
                "红"@
            } else {
                "黑"@
            }) + "方。"@,
    {
        let mut s = String::from_str("已走 ");
        push_str(&mut s, uci);
        push_str(&mut s, "，轮到");
        match side {
            Side::Red => push_str(&mut s, "红"),
            Side::Black => push_str(&mut s, "黑"),
        }
        push_str(&mut s, "方。");
        s
    }

    /// The status line after a click on cell `file`, `rank` gave no move:
    /// the cell that is now selected, that a past position is shown, or that
    /// a piece of one's own is to be picked first.
    pub fn pick_status(game: &GameState, file: u8, rank: u8) -> (r: String)
        requires
            game.wf(),
            file < 9,
            rank < 10,
        ensures
            r@ == if game.selected_cell == Some((file, rank)) {
                "已选 "@ + square_label(file as int, rank as int) + "，请点目标格。"@
            } else if !game.history@.at_head() {
                "浏览历史中，请 /next 回到最新步再走子。"@
            } else {
                "请先选择己方棋子。"@
            },
    {
        let selected = match game.selected_cell {
            Some((f, k)) => f == file && k == rank,
            None => false,
        };
        if selected {
            let mut s = String::from_str("已选 ");
            let label = crate::xiangqi::uci_cell_label(file, rank);
            push_str(&mut s, label.as_str());
            push_str(&mut s, "，请点目标格。");
            s
        } else if !game.history.at_head() {
            String::from_str("浏览历史中，请 /next 回到最新步再走子。")
        } else {
            String::from_str("请先选择己方棋子。")
        }
    }

    /// A click on the cell `file`, `rank` at the newest position: a piece of
    /// the side to move is selected (or selected instead); a click on an empty
    /// cell or on an enemy piece with a piece selected gives that move (a
    /// capture on an enemy piece) and clears the selection; without a
    /// selection such a click does nothing.
    pub fn try_click_cell(game: &mut GameState, file: u8, rank: u8) -> (r: Option<String>)
        requires
            old(game).wf(),
            file < 9,
            rank < 10,
        ensures
            final(game).wf(),
            final(game).history@ == old(game).history@,
            final(game).board.cells@ == old(game).board.cells@,
            final(game).side_to_move == old(game).side_to_move,
            same_settings(&*final(game), &*old(game)),
            ({
                let g = old(game);
                let p = g.board.at(rank as int, file as int);
                if !g.history@.at_head() {
                    r is None && final(game).selected_cell == g.selected_cell
                } else if p == 0 {
                    match g.selected_cell {
                        None => r is None && final(game).selected_cell is None,
                        Some((ff, fr)) => (r matches Some(m) && m@ == square_label(ff as int, fr as int)
                            + square_label(file as int, rank as int)) && final(game).selected_cell is None,
                    }
                } else if (1 <= p <= 7) != (g.side_to_move == Side::Red) {
                    match g.selected_cell {
                        None => r is None && final(game).selected_cell is None,
                        Some((ff, fr)) => (r matches Some(m) && m@ == square_label(ff as int, fr as int)
                            + square_label(file as int, rank as int)) && final(game).selected_cell is None,
                    }
                } else {
                    r is None && final(game).selected_cell == Some((file, rank))
                }
            }),
    {
        if !game.history.at_head() {
            return None;
        }
        if game.board.is_empty(file, rank) {
            let (from_file, from_rank) = match game.selected_cell {
                Some(x) => x,
                None => {
                    return None;
                },
            };
            let uci = uci_from_coords(from_rank as usize, from_file as usize, rank as usize, file as usize);
            game.selected_cell = None;
            return Some(uci);
        }
        if game.board.is_red_piece(file, rank) != game.side_to_move.is_red() {
            let (from_file, from_rank) = match game.selected_cell {
                Some(x) => x,
                None => {
                    return None;
                },
            };
            let uci = uci_from_coords(from_rank as usize, from_file as usize, rank as usize, file as usize);
            game.selected_cell = None;
            return Some(uci);
        }
        game.selected_cell = Some((file, rank));
        None
    }
}

/// Whether the shared `go infinite` stream is wanted: only in query mode or
/// with real-time evaluation, and not for real-time evaluation alone while the
/// engine plays both sides.
pub open spec fn spec_wants_infinite(game: &GameState) -> bool {
    (game.query_mode || game.realtime_eval) && !(game.realtime_eval && game.red_ai && game.black_ai
        && !game.query_mode)
}

/// Whether the shared `go infinite` stream is wanted.
pub fn wants_shared_infinite_stream(game: &GameState) -> (r: bool)
    ensures
        r == spec_wants_infinite(game),
{
    let analysis = game.query_mode;
    let auto_eval = game.realtime_eval;
    if !analysis && !auto_eval {
        return false;
    }
    let both_ai = game.red_ai && game.black_ai;
    if auto_eval && both_ai && !analysis {
        return false;
    }
    true
}

/// A book setting that can answer: the local book set and enabled, or the cloud enabled.
pub open spec fn spec_book_usable(cfg: &BookConfig) -> bool {
    (cfg.local_enabled && trim(cfg.local_path@).len() > 0) || cfg.cloud_enabled
}

/// Whether the book settings can answer.
pub fn book_config_usable(cfg: &BookConfig) -> (r: bool)
    ensures
        r == spec_book_usable(cfg),
{
    let p = chars_of(cfg.local_path.as_str());
    let local = cfg.local_enabled && trim_chars(p.as_slice()).len() > 0;
    local || cfg.cloud_enabled
}

/// Whether to ask the book for moves to show.
pub fn should_query_book_for_display(cfg: &BookConfig) -> (r: bool)
    ensures
        r == spec_book_usable(cfg),
{
    book_config_usable(cfg)
}

/// Whether to look for a book move before the engine plays: the book can
/// answer, no analysis mode is on, the newest position is viewed, and fewer
/// moves than the book's limit (a limit of 0 turns it off) have been played.
pub open spec fn spec_try_book_for_autoplay(game: &GameState, cfg: &BookConfig) -> bool {
    &&& spec_book_usable(cfg)
    &&& !game.query_mode
    &&& !game.realtime_eval
    &&& game.history@.at_head()
    &&& cfg.max_halfmoves > 0
    &&& game.history@.moves.len() < cfg.max_halfmoves
}

/// Whether to look for a book move before the engine plays.
pub fn should_try_book_for_autoplay(game: &GameState, cfg: &BookConfig) -> (r: bool)
    requires
        game.wf(),
    ensures
        r == spec_try_book_for_autoplay(game, cfg),
{
    if !book_config_usable(cfg) {
        return false;
    }
    if game.query_mode || game.realtime_eval {
        return false;
    }
    if !game.history.at_head() {
        return false;
    }
    let max = cfg.max_halfmoves as usize;
    if max == 0 {
        return false;
    }
    game.history.halfmove_count() < max
}

/// Whether the engine plays the side to move now: the game is not over, the
/// newest position is viewed, and the engine is on for that side.
pub fn ai_enabled_for_side(game: &GameState) -> (r: bool)
    requires
        game.wf(),
    ensures
        r == (!game.spec_game_over() && game.history@.at_head() && match game.side_to_move {
            Side::Red => game.red_ai,
            Side::Black => game.black_ai,
        }),
{
    if game.is_game_over() || !game.history.at_head() {
        return false;
    }
    match game.side_to_move {
        Side::Red => game.red_ai,
        Side::Black => game.black_ai,
    }
}

/// The move a book answer suggests: its best move, else the move it names.
pub open spec fn suggested_move(r: crate::book::ResponseView) -> Seq<char> {
    match r.best_move {
        Some(m) => m,
        None => match r.move_uci {
            Some(m) => m,
            None => Seq::empty(),
        },
    }
}

/// Whether a book answer has moves and suggests a board move.
pub fn book_has_preview(response: &BookResponse) -> (r: bool)
    ensures
        r == (response@.candidates.len() > 0 && is_board_move(suggested_move(response@))),
{
    if response.candidates.len() == 0 {
        return false;
    }
    let m: &str = match &response.best_move {
        Some(m) => m.as_str(),
        None => match &response.move_uci {
            Some(m) => m.as_str(),
            None => "",
        },
    };
    proof {
        reveal_strlit("");
    }
    uci_xiangqi_best_ready(m)
}

/// The board move a book answer suggests, when it has a preview.
pub fn best_uci_from_book(response: &BookResponse) -> (r: Option<String>)
    ensures
        match r {
            Some(m) => response@.candidates.len() > 0 && is_board_move(suggested_move(response@)) && m@
                == suggested_move(response@),
            None => !(response@.candidates.len() > 0 && is_board_move(suggested_move(response@))),
        },
{
    if !book_has_preview(response) {
        return None;
    }
    let m = match &response.best_move {
        Some(m) => m.clone(),
        None => match &response.move_uci {
            Some(m) => m.clone(),
            None => String::new(),
        },
    };
    Some(m)
}

/// The engine's autoplay and the book's part in it.
pub struct AutoplayService;

impl AutoplayService {
    /// Shows `uci` as the pending arrow when it reads as a board move.
    pub fn set_pending_arrow(game: &mut GameState, uci: &str)
        ensures
            final(game).pending_arrow == match spec_arrow(uci@) {
                Some(a) => Some(a),
                None => old(game).pending_arrow,
            },
            final(game).history == old(game).history,
            final(game).board == old(game).board,
            final(game).side_to_move == old(game).side_to_move,
            final(game).selected_cell == old(game).selected_cell,
            final(game).last_move_uci == old(game).last_move_uci,
            final(game).last_move_arrow == old(game).last_move_arrow,
            final(game).analysis == old(game).analysis,
            same_settings(&*final(game), &*old(game)),
    {
        if let Some(arrow) = arrow_from_uci(uci) {
            game.pending_arrow = Some(arrow);
        }
    }
}

impl AutoplayService {
    /// Shows a book answer for display when it has a preview (moves and a
    /// suggested board move): in the panel and, when `set_query_arrow`, as
    /// the pending arrow. Answers whether it was shown; the game is left as
    /// it was otherwise.
    pub fn show_book_answer(
        analysis: &AnalysisService,
        game: &mut GameState,
        response: &BookResponse,
        set_query_arrow: bool,
    ) -> (r: bool)
        requires
            crate::book::opt_ratio_wf(response@.best_winrate),
        ensures
            r == (response@.candidates.len() > 0 && is_board_move(suggested_move(response@))),
            r ==> shows_book_answer(&final(game).analysis, &old(game).analysis, response@),
            !r ==> final(game).analysis == old(game).analysis,
            final(game).pending_arrow == if r && set_query_arrow {
                match spec_arrow(suggested_move(response@)) {
                    Some(a) => Some(a),
                    None => old(game).pending_arrow,
                }
            } else {
                old(game).pending_arrow
            },
            final(game).history == old(game).history,
            final(game).board == old(game).board,
            final(game).side_to_move == old(game).side_to_move,
            final(game).selected_cell == old(game).selected_cell,
            final(game).last_move_uci == old(game).last_move_uci,
            final(game).last_move_arrow == old(game).last_move_arrow,
            same_settings(&*final(game), &*old(game)),
    {
        if !book_has_preview(response) {
            return false;
        }
        analysis.apply_book_response(&mut game.analysis, response);
        if set_query_arrow {
            if let Some(uci) = best_uci_from_book(response) {
                AutoplayService::set_pending_arrow(game, uci.as_str());
            }
        }
        true
    }

    /// Shows the book's `response` to the display query of this position,
    /// when the book settings allow asking it (see [`Self::show_book_answer`]);
    /// with no usable book nothing is shown and the game is left as it was.
    pub fn query_book_display(
        analysis: &AnalysisService,
        game: &mut GameState,
        cfg: &BookConfig,
        response: &BookResponse,
        set_query_arrow: bool,
    ) -> (r: bool)
        requires
            crate::book::opt_ratio_wf(response@.best_winrate),
        ensures
            r == (spec_book_usable(cfg) && response@.candidates.len() > 0 && is_board_move(
                suggested_move(response@),
            )),
            r ==> shows_book_answer(&final(game).analysis, &old(game).analysis, response@),
            !r ==> final(game).analysis == old(game).analysis,
            final(game).pending_arrow == if r && set_query_arrow {
                match spec_arrow(suggested_move(response@)) {
                    Some(a) => Some(a),
                    None => old(game).pending_arrow,
                }
            } else {
                old(game).pending_arrow
            },
            final(game).history == old(game).history,
            final(game).board == old(game).board,
            final(game).side_to_move == old(game).side_to_move,
            final(game).selected_cell == old(game).selected_cell,
            final(game).last_move_uci == old(game).last_move_uci,
            final(game).last_move_arrow == old(game).last_move_arrow,
            same_settings(&*final(game), &*old(game)),
    {
        if !should_query_book_for_display(cfg) {
            return false;
        }
        AutoplayService::show_book_answer(analysis, game, response, set_query_arrow)
    }

    /// The book move for the side to move, from the book's `response` to
    /// this position: none when the book is not to be tried (see
    /// [`should_try_book_for_autoplay`]), else the move it suggests.
    pub fn try_book_autoplay_move_for_game(game: &GameState, cfg: &BookConfig, response: &BookResponse) -> (r:
        Option<String>)
        requires
            game.wf(),
        ensures
            match r {
                Some(m) => spec_try_book_for_autoplay(game, cfg) && response@.candidates.len() > 0
                    && is_board_move(suggested_move(response@)) && m@ == suggested_move(response@),
                None => !(spec_try_book_for_autoplay(game, cfg) && response@.candidates.len() > 0
                    && is_board_move(suggested_move(response@))),
            },
    {
        if !should_try_book_for_autoplay(game, cfg) {
            return None;
        }
        best_uci_from_book(response)
    }
}

/// The analysis panel's service.
#[derive(Debug, Default, Clone, Copy)]
pub struct AnalysisService;

impl AnalysisService {
    /// The panel before any analysis.
    pub fn idle_snapshot(&self) -> (r: AnalysisSnapshot)
        ensures
            r.source@ == "idle"@,
            r.best_move@ == "--"@,
            r.pv@.len() == 0,
    {
        AnalysisSnapshot::idle()
    }

    /// In query mode, shows the engine's best move as the pending arrow when
    /// it is a board move.
    pub fn sync_query_arrow(&self, uci_best: &str, query_mode: bool, pending_arrow: &mut Option<BoardArrow>)
        ensures
            *final(pending_arrow) == if query_mode && is_board_move(uci_best@) {
                match spec_arrow(uci_best@) {
                    Some(a) => Some(a),
                    None => *old(pending_arrow),
                }
            } else {
                *old(pending_arrow)
            },
    {
        if query_mode {
            if uci_xiangqi_best_ready(uci_best) {
                if let Some(arrow) = arrow_from_uci(uci_best) {
                    *pending_arrow = Some(arrow);
                }
            }
        }
    }
}


/// The move of an engine result when it is a board move.
pub fn best_uci_from_engine(result: &EngineAnalyzeResult) -> (r: Option<String>)
    ensures
        match r {
            Some(m) => is_board_move(trim(result.best_move@)) && m@ == trim(result.best_move@),
            None => !is_board_move(trim(result.best_move@)),
        },
{
    let uci = trim_str(result.best_move.as_str());
    if uci_xiangqi_best_ready(uci.as_str()) {
        Some(uci)
    } else {
        None
    }
}

/// The moves that the candidates name, in order.
pub open spec fn named_moves(c: Seq<crate::book::CandidateView>) -> Seq<Seq<char>>
    decreases c.len(),
{
    if c.len() == 0 {
        Seq::empty()
    } else {
        let rest = named_moves(c.drop_last());
        match c.last().move_uci {
            Some(m) => rest.push(m),
            None => rest,
        }
    }
}

/// At most the first `n` items of `s`.
pub open spec fn at_most<T>(s: Seq<T>, n: int) -> Seq<T> {
    if s.len() <= n {
        s
    } else {
        s.take(n)
    }
}

/// How many moves of a book answer the panel lists.
pub const BOOK_PV_LEN: usize = 16;

/// The panel text of an optional win rate in percent: one decimal, `--`
/// when there is none.
pub open spec fn book_rate_text(rate: Option<crate::book::Ratio>) -> Seq<char> {
    match rate {
        Some(r) => percent_text(r.num as int, r.den as int),
        None => seq!['-', '-'],
    }
}

/// The panel's win rate text of a book answer: the rate of the side to move
/// and `--` for the other one.
pub open spec fn book_win_text(rate: Option<crate::book::Ratio>) -> Seq<char> {
    match rate {
        Some(r) => percent_text(r.num as int, r.den as int) + seq!['/', '-', '-'],
        None => seq!['-', '-'],
    }
}

/// The variation the panel shows for an engine result: its own, else that of
/// its first candidate.
pub open spec fn shown_pv(r: &EngineAnalyzeResult) -> Seq<Seq<char>> {
    if r.pv@.len() > 0 {
        r.pv.deep_view()
    } else if r.candidates@.len() > 0 {
        r.candidates@[0]@.pv
    } else {
        Seq::empty()
    }
}

/// What an engine result makes of the panel.
pub open spec fn shows_engine_result(
    s: &AnalysisSnapshot,
    result: &EngineAnalyzeResult,
    fen: Seq<char>,
) -> bool {
    &&& s.source@ == "engine"@
    &&& s.depth == (match result.depth {
        Some(d) => if d < 0 {
            0i32
        } else {
            d
        },
        None => 0i32,
    }) as u16
    &&& s.nps == (match result.nps {
        Some(n) => n,
        None => 0u64,
    })
    &&& s.nodes == (match result.nodes {
        Some(n) => n,
        None => 0u64,
    })
    &&& s.time_text@ == time_text(result.search_time_ms)
    &&& s.score_text@ == score_text(result.mate, result.score_cp, result.score)
    &&& s.best_move@ == trim(result.best_move@)
    &&& s.win_rate_text@ == {
        let (red, black) = wdl_shares(spec_side_to_move_is_red(fen), result.wdl);
        win_text(red, black)
    }
    &&& s.pv.deep_view() == shown_pv(result)
}

/// The panel `s` shows the book answer `response` over `before`: its source
/// and best move, its win rate, and the first sixteen moves it names; the
/// search counters and time stay.
pub open spec fn shows_book_answer(
    s: &AnalysisSnapshot,
    before: &AnalysisSnapshot,
    response: crate::book::ResponseView,
) -> bool {
    &&& s.source@ == response.source
    &&& s.best_move@ == match response.best_move {
        Some(m) => m,
        None => "--"@,
    }
    &&& s.score_text@ == book_rate_text(response.best_winrate)
    &&& s.win_rate_text@ == book_win_text(response.best_winrate)
    &&& s.pv.deep_view() == at_most(named_moves(response.candidates), 16)
    &&& s.time_text == before.time_text
    &&& s.depth == before.depth
    &&& s.nps == before.nps
    &&& s.nodes == before.nodes
}

impl AnalysisService {
    /// Shows a book answer in the panel: its source and best move, its win
    /// rate, and the first sixteen moves it names; the search counters and
    /// time stay.
    pub fn apply_book_response(&self, snapshot: &mut AnalysisSnapshot, response: &BookResponse)
        requires
            crate::book::opt_ratio_wf(response@.best_winrate),
        ensures
            shows_book_answer(&*final(snapshot), &*old(snapshot), response@),
    {
        snapshot.source = response.source.clone();
        snapshot.best_move = match &response.best_move {
            Some(m) => m.clone(),
            None => String::from_str("--"),
        };
        match response.best_winrate {
            Some(rate) => {
                let text = percent_one_decimal(rate.num, rate.den);
                let mut with_other = percent_one_decimal(rate.num, rate.den);
                push_char(&mut with_other, '/');
                push_char(&mut with_other, '-');
                push_char(&mut with_other, '-');
                assert(with_other@ =~= book_win_text(response@.best_winrate));
                snapshot.score_text = text;
                snapshot.win_rate_text = with_other;
            },
            None => {
                snapshot.score_text = String::from_str("--");
                snapshot.win_rate_text = String::from_str("--");
                proof {
                    reveal_strlit("--");
                }
                assert(snapshot.score_text@ =~= book_rate_text(response@.best_winrate));
                assert(snapshot.win_rate_text@ =~= book_win_text(response@.best_winrate));
            },
        }
        let ghost cands = response@.candidates;
        let mut pv: Vec<String> = Vec::new();
        let mut i: usize = 0;
        while i < response.candidates.len()
            invariant
                i <= response.candidates@.len(),
                cands == crate::book::cand_views(response.candidates@),
                pv.deep_view() == at_most(named_moves(cands.take(i as int)), 16),
            decreases response.candidates@.len() - i,
        {
            let ghost before = pv.deep_view();
            assert(cands.take(i as int + 1).drop_last() =~= cands.take(i as int));
            assert(cands.take(i as int + 1).last() == response.candidates@[i as int]@);
            if pv.len() < BOOK_PV_LEN {
                match &response.candidates[i].move_uci {
                    Some(m) => {
                        pv.push(m.clone());
                        assert(pv.deep_view() =~= before.push(m@));
                    },
                    None => {},
                }
            } else {
                let ghost prev = named_moves(cands.take(i as int));
                let ghost next = named_moves(cands.take(i as int + 1));
                assert(prev.len() >= 16);
                assert(next.take(16) =~= prev.take(16));
            }
            i = i + 1;
        }
        assert(cands.take(response.candidates@.len() as int) =~= cands);
        snapshot.pv = pv;
    }

    /// Shows an engine result for the position `fen` in the panel.
    pub fn apply_engine_result(&self, snapshot: &mut AnalysisSnapshot, result: &EngineAnalyzeResult, fen: &str)
        ensures
            shows_engine_result(&*final(snapshot), result, fen@),
    {
        snapshot.source = String::from_str("engine");
        let depth: i32 = match result.depth {
            Some(d) => if d < 0 {
                0
            } else {
                d
            },
            None => 0,
        };
        snapshot.depth = depth as u16;
        snapshot.nps = match result.nps {
            Some(n) => n,
            None => 0,
        };
        snapshot.nodes = match result.nodes {
            Some(n) => n,
            None => 0,
        };
        snapshot.time_text = format_time_ms(result.search_time_ms);
        snapshot.score_text = format_score(result);
        let uci = trim_str(result.best_move.as_str());
        snapshot.best_move = if uci_xiangqi_best_ready(uci.as_str()) {
            move_human_from_fen(fen, uci.as_str())
        } else {
            uci
        };
        let (red, black) = red_black_winrate_pct_from_wdl(fen, result.wdl);
        snapshot.win_rate_text = format_win_rate(red, black);
        snapshot.pv = if result.pv.len() == 0 {
            if result.candidates.len() > 0 {
                clone_strings(&result.candidates[0].pv)
            } else {
                Vec::new()
            }
        } else {
            clone_strings(&result.pv)
        };
        proof {
            reveal_strlit("engine");
            if result.pv@.len() == 0 && result.candidates@.len() == 0 {
                assert(snapshot.pv.deep_view() =~= Seq::<Seq<char>>::empty());
            }
        }
    }

    /// Shows a streaming store in the panel and, in query mode, its best move
    /// as the pending arrow.
    pub fn apply_engine_store(
        &self,
        snapshot: &mut AnalysisSnapshot,
        store: &EngineAnalysisStore,
        query_mode: bool,
        pending_arrow: &mut Option<BoardArrow>,
    )
        ensures
            shows_engine_result(&*final(snapshot), &store.result, store.fen@),
            *final(pending_arrow) == if query_mode && is_board_move(store.result.best_move@) {
                match spec_arrow(store.result.best_move@) {
                    Some(a) => Some(a),
                    None => *old(pending_arrow),
                }
            } else {
                *old(pending_arrow)
            },
    {
        self.apply_engine_result(snapshot, &store.result, store.fen.as_str());
        self.sync_query_arrow(store.result.best_move.as_str(), query_mode, pending_arrow);
    }
}

/// What the client still has to do after a command changed the game.
#[derive(Clone, Copy, Debug, PartialEq, Eq, Structural)]
pub enum GameAction {
    /// Nothing more.
    Nothing,
    /// Another position is shown: its analysis starts again.
    PositionChanged,
    /// The analysis modes changed: the analysis starts or stops (and reports it).
    ModesChanged,
    /// The program ends.
    Quit,
    /// The help text is shown.
    ShowHelp,
}

/// The effect of a command: what the client does next, and the status line
/// shown after that (none when the analysis step reports it).
#[derive(Debug)]
pub struct CommandOutcome {
    pub action: GameAction,
    pub status: Option<String>,
}

/// `on` or `off` as the status line says it.
pub open spec fn on_off(on: bool) -> Seq<char> {
    if on {
        "开启"@
    } else {
        "关闭"@
    }
}

/// Which side is drawn at the bottom.
pub open spec fn bottom_side_text(rotated: bool) -> Seq<char> {
    if rotated {
        "黑方在下"@
    } else {
        "红方在下"@
    }
}

/// The FEN given after `/pastefen`: the trimmed rest of the line, when it is
/// not empty.
pub open spec fn pasted_fen(raw: Seq<char>) -> Option<Seq<char>> {
    if is_prefix("/pastefen"@, raw) {
        let t = trim(raw.skip(9));
        if t.len() > 0 {
            Some(t)
        } else {
            None
        }
    } else {
        None
    }
}

/// `g` is `before` with the modes flipped as the flags say and nothing else
/// changed.
pub open spec fn flipped(
    g: &GameState,
    before: &GameState,
    red: bool,
    black: bool,
    query: bool,
    eval: bool,
    rotate: bool,
) -> bool {
    &&& same_view_state(g, before)
    &&& g.analysis == before.analysis
    &&& g.red_ai == (before.red_ai != red)
    &&& g.black_ai == (before.black_ai != black)
    &&& g.query_mode == (before.query_mode != query)
    &&& g.realtime_eval == (before.realtime_eval != eval)
    &&& g.rotated == (before.rotated != rotate)
}

/// The outcome says `action` and the status `status`.
pub open spec fn outcome_is(r: &CommandOutcome, action: GameAction, status: Option<Seq<char>>) -> bool {
    r.action == action && opt_view(r.status) == status
}

/// The status after viewing the previous position.
pub open spec fn prev_status(g: &GameState) -> Seq<char> {
    match opt_view(g.last_move_uci) {
        Some(m) => "浏览历史；当前局面上一手 "@ + m + "。"@,
        None => "浏览历史；当前为初始局面。"@,
    }
}

/// The game after a slash command, and the outcome `r`.
pub open spec fn slash_done(g: &GameState, before: &GameState, command: SlashCommand, raw: Seq<char>, r: &CommandOutcome) -> bool {
    match command {
        SlashCommand::New => {
            &&& reset_done(g)
            &&& !g.red_ai && !g.black_ai && !g.query_mode && !g.realtime_eval
            &&& g.rotated == before.rotated
            &&& outcome_is(r, GameAction::ModesChanged, Some("已执行 /new，新游戏。"@))
        },
        SlashCommand::Stop => {
            &&& same_view_state(g, before)
            &&& g.analysis == before.analysis
            &&& !g.red_ai && !g.black_ai && !g.query_mode && !g.realtime_eval
            &&& g.rotated == before.rotated
            &&& outcome_is(r, GameAction::ModesChanged, Some("已停止电脑、查询与实时评估；棋谱不变。"@))
        },
        SlashCommand::Help => flipped(g, before, false, false, false, false, false) && outcome_is(
            r,
            GameAction::ShowHelp,
            None,
        ),
        SlashCommand::Undo => {
            let ok = r.action == GameAction::PositionChanged;
            &&& undo_done(g, before, ok)
            &&& same_settings(g, before)
            &&& outcome_is(
                r,
                if ok { GameAction::PositionChanged } else { GameAction::Nothing },
                Some(if ok { "已悔棋。"@ } else { "无法悔棋（已在初始局面）。"@ }),
            )
        },
        SlashCommand::Prev => {
            let ok = r.action == GameAction::PositionChanged;
            &&& browse_done(g, before, -1, ok)
            &&& same_settings(g, before)
            &&& outcome_is(
                r,
                if ok { GameAction::PositionChanged } else { GameAction::Nothing },
                Some(if ok { prev_status(g) } else { "已在第一步。"@ }),
            )
        },
        SlashCommand::Next => {
            let ok = r.action == GameAction::PositionChanged;
            &&& browse_done(g, before, 1, ok)
            &&& same_settings(g, before)
            &&& outcome_is(
                r,
                if ok { GameAction::PositionChanged } else { GameAction::Nothing },
                Some(if ok { "浏览下一步。"@ } else { "已在最新步。"@ }),
            )
        },
        SlashCommand::RedAi => flipped(g, before, true, false, false, false, false) && outcome_is(
            r,
            GameAction::Nothing,
            Some("红AI："@ + on_off(g.red_ai)),
        ),
        SlashCommand::BlackAi => flipped(g, before, false, true, false, false, false) && outcome_is(
            r,
            GameAction::Nothing,
            Some("黑AI："@ + on_off(g.black_ai)),
        ),
        SlashCommand::Query => flipped(g, before, false, false, true, false, false) && outcome_is(
            r,
            GameAction::ModesChanged,
            None,
        ),
        SlashCommand::Eval => flipped(g, before, false, false, false, true, false) && outcome_is(
            r,
            GameAction::ModesChanged,
            None,
        ),
        SlashCommand::Rotate => flipped(g, before, false, false, false, false, true) && outcome_is(
            r,
            GameAction::Nothing,
            Some("棋盘方向："@ + bottom_side_text(g.rotated)),
        ),
        SlashCommand::CopyFen => flipped(g, before, false, false, false, false, false) && outcome_is(
            r,
            GameAction::Nothing,
            Some("当前 FEN："@ + spec_to_fen(before.board.cells@, before.side_to_move)),
        ),
        SlashCommand::PasteFen => match pasted_fen(raw) {
            None => flipped(g, before, false, false, false, false, false) && outcome_is(
                r,
                GameAction::Nothing,
                Some("用法：/pastefen <FEN>"@),
            ),
            Some(t) => {
                &&& load_done(g, before, t)
                &&& same_settings(g, before)
                &&& if spec_from_fen(trim(t)) is Some {
                    outcome_is(r, GameAction::PositionChanged, Some("已载入 FEN。"@))
                } else {
                    outcome_is(r, GameAction::Nothing, Some("无法解析 FEN。"@))
                }
            },
        },
        SlashCommand::Exit | SlashCommand::Quit => flipped(g, before, false, false, false, false, false)
            && outcome_is(r, GameAction::Quit, Some("正在退出。"@)),
    }
}

/// The game after a board button, and the outcome `r`.
pub open spec fn button_done(g: &GameState, before: &GameState, button: BattleButton, r: &CommandOutcome) -> bool {
    match button {
        BattleButton::RedAi => flipped(g, before, true, false, false, false, false) && outcome_is(
            r,
            GameAction::Nothing,
            Some("红AI："@ + on_off(g.red_ai)),
        ),
        BattleButton::BlackAi => flipped(g, before, false, true, false, false, false) && outcome_is(
            r,
            GameAction::Nothing,
            Some("黑AI："@ + on_off(g.black_ai)),
        ),
        BattleButton::QueryMode => flipped(g, before, false, false, true, false, false) && outcome_is(
            r,
            GameAction::ModesChanged,
            None,
        ),
        BattleButton::RealtimeEval => flipped(g, before, false, false, false, true, false) && outcome_is(
            r,
            GameAction::ModesChanged,
            None,
        ),
        BattleButton::NewGame => {
            &&& reset_done(g)
            &&& same_settings(g, before)
            &&& outcome_is(r, GameAction::ModesChanged, Some("已重置到初始局面。"@))
        },
        BattleButton::Undo => {
            let ok = r.action == GameAction::PositionChanged;
            &&& undo_done(g, before, ok)
            &&& same_settings(g, before)
            &&& outcome_is(
                r,
                if ok { GameAction::PositionChanged } else { GameAction::Nothing },
                Some(if ok { "已悔棋。"@ } else { "无法悔棋。"@ }),
            )
        },
        BattleButton::RotateBoard => flipped(g, before, false, false, false, false, true) && outcome_is(
            r,
            GameAction::Nothing,
            Some("棋盘方向："@ + bottom_side_text(g.rotated)),
        ),
        BattleButton::PrevMove => {
            let ok = r.action == GameAction::PositionChanged;
            &&& browse_done(g, before, -1, ok)
            &&& same_settings(g, before)
            &&& outcome_is(
                r,
                if ok { GameAction::PositionChanged } else { GameAction::Nothing },
                Some(if ok { "浏览上一步。"@ } else { "已在第一步。"@ }),
            )
        },
        BattleButton::NextMove => {
            let ok = r.action == GameAction::PositionChanged;
            &&& browse_done(g, before, 1, ok)
            &&& same_settings(g, before)
            &&& outcome_is(
                r,
                if ok { GameAction::PositionChanged } else { GameAction::Nothing },
                Some(if ok { "浏览下一步。"@ } else { "已在最新步。"@ }),
            )
        },
        BattleButton::CopyFen => flipped(g, before, false, false, false, false, false) && outcome_is(
            r,
            GameAction::Nothing,
            Some("当前 FEN："@ + spec_to_fen(before.board.cells@, before.side_to_move)),
        ),
        BattleButton::PasteFen => flipped(g, before, false, false, false, false, false) && outcome_is(
            r,
            GameAction::Nothing,
            Some("在 C 区输入：/pastefen <FEN>"@),
        ),
    }
}

fn status(text: &str) -> (r: Option<String>)
    ensures
        opt_view(r) == Some(text@),
{
    Some(owned(text))
}

fn joined(a: &str, b: &str) -> (r: Option<String>)
    ensures
        opt_view(r) == Some(a@ + b@),
{
    let mut s = owned(a);
    push_str(&mut s, b);
    Some(s)
}

fn on_off_text(on: bool) -> (r: &'static str)
    ensures
        r@ == on_off(on),
{
    if on {
        "开启"
    } else {
        "关闭"
    }
}

fn bottom_side(rotated: bool) -> (r: &'static str)
    ensures
        r@ == bottom_side_text(rotated),
{
    if rotated {
        "黑方在下"
    } else {
        "红方在下"
    }
}

/// The FEN after `/pastefen` in `raw`, as [`pasted_fen`] gives it.
fn pasted_fen_exec(raw: &str) -> (r: Option<String>)
    ensures
        opt_view(r) == pasted_fen(raw@),
{
    let v = chars_of(raw);
    let p = chars_of("/pastefen");
    proof {
        reveal_strlit("/pastefen");
    }
    if !crate::text::starts_with_chars(v.as_slice(), p.as_slice()) {
        return None;
    }
    let mut rest: Vec<char> = Vec::new();
    let mut i: usize = 9;
    while i < v.len()
        invariant
            9 <= i <= v@.len(),
            rest@ == v@.subrange(9, i as int),
        decreases v.len() - i,
    {
        rest.push(v[i]);
        i = i + 1;
        assert(rest@ =~= v@.subrange(9, i as int));
    }
    assert(v@.skip(9) =~= rest@);
    let t = trim_chars(rest.as_slice());
    if t.len() == 0 {
        None
    } else {
        Some(string_from_chars(t.as_slice()))
    }
}

impl GameService {
    /// Runs a slash command on the game (`raw` is the line typed, for
    /// `/pastefen`): `/new` also turns every mode off; `/stop` turns every
    /// mode off and keeps the game; `/help` asks for the help text.
    pub fn execute_slash_command(game: &mut GameState, command: SlashCommand, raw: &str) -> (r: CommandOutcome)
        requires
            old(game).wf(),
        ensures
            final(game).wf(),
            slash_done(&*final(game), &*old(game), command, raw@, &r),
    {
        match command {
            SlashCommand::New => {
                GameService::reset(game);
                game.red_ai = false;
                game.black_ai = false;
                game.query_mode = false;
                game.realtime_eval = false;
                proof {
                    reveal_strlit("已执行 /new，新游戏。");
                }
                CommandOutcome { action: GameAction::ModesChanged, status: status("已执行 /new，新游戏。") }
            },
            SlashCommand::Stop => {
                game.red_ai = false;
                game.black_ai = false;
                game.query_mode = false;
                game.realtime_eval = false;
                CommandOutcome {
                    action: GameAction::ModesChanged,
                    status: status("已停止电脑、查询与实时评估；棋谱不变。"),
                }
            },
            SlashCommand::Help => CommandOutcome { action: GameAction::ShowHelp, status: None },
            SlashCommand::Undo => {
                if GameService::undo(game) {
                    CommandOutcome { action: GameAction::PositionChanged, status: status("已悔棋。") }
                } else {
                    CommandOutcome { action: GameAction::Nothing, status: status("无法悔棋（已在初始局面）。") }
                }
            },
            SlashCommand::Prev => {
                if GameService::go_prev(game) {
                    let text = match &game.last_move_uci {
                        Some(m) => {
                            let mut s = owned("浏览历史；当前局面上一手 ");
                            push_str(&mut s, m.as_str());
                            push_str(&mut s, "。");
                            s
                        },
                        None => owned("浏览历史；当前为初始局面。"),
                    };
                    CommandOutcome { action: GameAction::PositionChanged, status: Some(text) }
                } else {
                    CommandOutcome { action: GameAction::Nothing, status: status("已在第一步。") }
                }
            },
            SlashCommand::Next => {
                if GameService::go_next(game) {
                    CommandOutcome { action: GameAction::PositionChanged, status: status("浏览下一步。") }
                } else {
                    CommandOutcome { action: GameAction::Nothing, status: status("已在最新步。") }
                }
            },
            SlashCommand::RedAi => {
                game.red_ai = !game.red_ai;
                CommandOutcome { action: GameAction::Nothing, status: joined("红AI：", on_off_text(game.red_ai)) }
            },
            SlashCommand::BlackAi => {
                game.black_ai = !game.black_ai;
                CommandOutcome { action: GameAction::Nothing, status: joined("黑AI：", on_off_text(game.black_ai)) }
            },
            SlashCommand::Query => {
                game.query_mode = !game.query_mode;
                CommandOutcome { action: GameAction::ModesChanged, status: None }
            },
            SlashCommand::Eval => {
                game.realtime_eval = !game.realtime_eval;
                CommandOutcome { action: GameAction::ModesChanged, status: None }
            },
            SlashCommand::Rotate => {
                game.rotated = !game.rotated;
                CommandOutcome { action: GameAction::Nothing, status: joined("棋盘方向：", bottom_side(game.rotated)) }
            },
            SlashCommand::CopyFen => {
                let fen = GameService::engine_fen(game);
                CommandOutcome { action: GameAction::Nothing, status: joined("当前 FEN：", fen.as_str()) }
            },
            SlashCommand::PasteFen => match pasted_fen_exec(raw) {
                None => CommandOutcome { action: GameAction::Nothing, status: status("用法：/pastefen <FEN>") },
                Some(fen) => match GameService::load_fen(game, fen.as_str()) {
                    Ok(()) => CommandOutcome { action: GameAction::PositionChanged, status: status("已载入 FEN。") },
                    Err(msg) => CommandOutcome { action: GameAction::Nothing, status: Some(msg) },
                },
            },
            SlashCommand::Exit | SlashCommand::Quit => {
                CommandOutcome { action: GameAction::Quit, status: status("正在退出。") }
            },
        }
    }

    /// Runs a board button on the game.
    pub fn activate_battle_button(game: &mut GameState, button: BattleButton) -> (r: CommandOutcome)
        requires
            old(game).wf(),
        ensures
            final(game).wf(),
            button_done(&*final(game), &*old(game), button, &r),
    {
        match button {
            BattleButton::RedAi => {
                game.red_ai = !game.red_ai;
                CommandOutcome { action: GameAction::Nothing, status: joined("红AI：", on_off_text(game.red_ai)) }
            },
            BattleButton::BlackAi => {
                game.black_ai = !game.black_ai;
                CommandOutcome { action: GameAction::Nothing, status: joined("黑AI：", on_off_text(game.black_ai)) }
            },
            BattleButton::QueryMode => {
                game.query_mode = !game.query_mode;
                CommandOutcome { action: GameAction::ModesChanged, status: None }
            },
            BattleButton::RealtimeEval => {
                game.realtime_eval = !game.realtime_eval;
                CommandOutcome { action: GameAction::ModesChanged, status: None }
            },
            BattleButton::NewGame => {
                GameService::reset(game);
                CommandOutcome { action: GameAction::ModesChanged, status: status("已重置到初始局面。") }
            },
            BattleButton::Undo => {
                if GameService::undo(game) {
                    CommandOutcome { action: GameAction::PositionChanged, status: status("已悔棋。") }
                } else {
                    CommandOutcome { action: GameAction::Nothing, status: status("无法悔棋。") }
                }
            },
            BattleButton::RotateBoard => {
                game.rotated = !game.rotated;
                CommandOutcome { action: GameAction::Nothing, status: joined("棋盘方向：", bottom_side(game.rotated)) }
            },
            BattleButton::PrevMove => {
                if GameService::go_prev(game) {
                    CommandOutcome { action: GameAction::PositionChanged, status: status("浏览上一步。") }
                } else {
                    CommandOutcome { action: GameAction::Nothing, status: status("已在第一步。") }
                }
            },
            BattleButton::NextMove => {
                if GameService::go_next(game) {
                    CommandOutcome { action: GameAction::PositionChanged, status: status("浏览下一步。") }
                } else {
                    CommandOutcome { action: GameAction::Nothing, status: status("已在最新步。") }
                }
            },
            BattleButton::CopyFen => {
                let fen = GameService::engine_fen(game);
                CommandOutcome { action: GameAction::Nothing, status: joined("当前 FEN：", fen.as_str()) }
            },
            BattleButton::PasteFen => {
                CommandOutcome { action: GameAction::Nothing, status: status("在 C 区输入：/pastefen <FEN>") }
            },
        }
    }

    /// At the end of a game (the side to move has no legal move) every mode
    /// is turned off; otherwise nothing changes. Answers whether the game is over.
    pub fn stop_modes_at_game_end(game: &mut GameState) -> (r: bool)
        requires
            old(game).wf(),
        ensures
            final(game).wf(),
            r == old(game).spec_game_over(),
            same_view_state(&*final(game), &*old(game)),
            final(game).analysis == old(game).analysis,
            final(game).rotated == old(game).rotated,
            r ==> !final(game).red_ai && !final(game).black_ai && !final(game).query_mode
                && !final(game).realtime_eval,
            !r ==> same_settings(&*final(game), &*old(game)),
    {
        if !game.is_game_over() {
            return false;
        }
        game.red_ai = false;
        game.black_ai = false;
        game.query_mode = false;
        game.realtime_eval = false;
        true
    }
}

} // verus!
