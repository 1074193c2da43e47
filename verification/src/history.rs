use vstd::prelude::*;

use crate::text::owned;
use crate::xiangqi::{Board90, STARTPOS_FEN, Side, spec_from_fen};

verus! {

/// The characters of [`STARTPOS_FEN`].
pub open spec fn spec_startpos() -> Seq<char> {
    STARTPOS_FEN@
}

/// A fresh owned copy of the start position.
pub fn startpos_fen() -> (r: String)
    ensures
        r@ == spec_startpos(),
{
    owned(STARTPOS_FEN)
}

/// Abstract game record: the positions played, the moves between them,
/// the principal variation remembered for each position, and the viewed position.
#[verifier::ext_equal]
pub struct HistoryView {
    pub fens: Seq<Seq<char>>,
    pub moves: Seq<Seq<char>>,
    pub pvs: Seq<Seq<Seq<char>>>,
    pub index: int,
}

impl HistoryView {
    /// At least one position, one move between consecutive positions, one
    /// remembered variation per position, and the cursor on a position.
    pub open spec fn wf(self) -> bool {
        &&& self.fens.len() >= 1
        &&& self.moves.len() + 1 == self.fens.len()
        &&& self.pvs.len() == self.fens.len()
        &&& 0 <= self.index < self.fens.len()
    }

    pub open spec fn at_head(self) -> bool {
        self.index + 1 == self.fens.len()
    }

    /// The record after playing `uci` (reaching `fen`) from the viewed position.
    pub open spec fn push(self, fen: Seq<char>, uci: Seq<char>, pv: Seq<Seq<char>>) -> HistoryView {
        HistoryView {
            fens: self.fens.take(self.index + 1).push(fen),
            moves: self.moves.take(self.index).push(uci),
            pvs: self.pvs.take(self.index).push(pv).push(Seq::<Seq<char>>::empty()),
            index: self.index + 1,
        }
    }

    /// The record with its newest move taken back.
    pub open spec fn undo(self) -> HistoryView {
        HistoryView {
            fens: self.fens.drop_last(),
            moves: self.moves.drop_last(),
            pvs: self.pvs.drop_last(),
            index: self.index - 1,
        }
    }

    /// The record with the cursor moved by `delta` positions.
    pub open spec fn browse(self, delta: int) -> HistoryView {
        HistoryView { index: self.index + delta, ..self }
    }
}

/// Playing a move keeps the record well formed and puts the cursor on the newest position.
pub proof fn lemma_push_reaches_head(v: HistoryView, fen: Seq<char>, uci: Seq<char>, pv: Seq<Seq<char>>)
    requires
        v.wf(),
    ensures
        v.push(fen, uci, pv).wf(),
        v.push(fen, uci, pv).at_head(),
        v.push(fen, uci, pv).fens.last() == fen,
        v.push(fen, uci, pv).fens[v.push(fen, uci, pv).index] == fen,
        v.push(fen, uci, pv).moves.last() == uci,
{
}

/// Taking back a move just played returns to the positions and moves before it
/// (later positions that were browsed past stay dropped), at the newest
/// position, with the move's variation kept for the position it was played from.
pub proof fn lemma_push_then_undo(v: HistoryView, fen: Seq<char>, uci: Seq<char>, pv: Seq<Seq<char>>)
    requires
        v.wf(),
    ensures
        v.push(fen, uci, pv).undo().fens == v.fens.take(v.index + 1),
        v.push(fen, uci, pv).undo().moves == v.moves.take(v.index),
        v.push(fen, uci, pv).undo().index == v.index,
        v.push(fen, uci, pv).undo().pvs == v.pvs.take(v.index).push(pv),
        v.push(fen, uci, pv).undo().wf(),
        v.push(fen, uci, pv).undo().at_head(),
        v.at_head() ==> v.push(fen, uci, pv).undo().fens == v.fens,
        v.at_head() ==> v.push(fen, uci, pv).undo().moves == v.moves,
        v.at_head() ==> v.push(fen, uci, pv).undo().pvs == v.pvs.update(v.index, pv),
{
    assert(v.push(fen, uci, pv).undo().fens =~= v.fens.take(v.index + 1));
    assert(v.push(fen, uci, pv).undo().moves =~= v.moves.take(v.index));
    assert(v.push(fen, uci, pv).undo().pvs =~= v.pvs.take(v.index).push(pv));
    if v.at_head() {
        assert(v.pvs.take(v.index).push(pv) =~= v.pvs.update(v.index, pv));
        assert(v.fens.take(v.index + 1) =~= v.fens);
        assert(v.moves.take(v.index) =~= v.moves);
    }
}

/// Browsing back and then forward (or forward then back) returns to the same
/// view; browsing never changes the positions, moves or variations.
pub proof fn lemma_browse_round_trip(v: HistoryView)
    ensures
        v.browse(-1).browse(1) == v,
        v.browse(1).browse(-1) == v,
        forall|d: int|
            #![trigger v.browse(d)]
            v.browse(d).fens == v.fens && v.browse(d).moves == v.moves && v.browse(d).pvs == v.pvs,
{
    assert(v.browse(-1).browse(1) =~= v);
    assert(v.browse(1).browse(-1) =~= v);
}

/// Positions of a game with a browse cursor.
#[derive(Debug, Clone)]
pub struct MoveHistory {
    fens: Vec<String>,
    /// `moves[i]` leads from `fens[i]` to `fens[i + 1]`.
    moves: Vec<String>,
    /// `pv_by_fen[i]`: the last variation shown while `fens[i]` was left.
    pv_by_fen: Vec<Vec<String>>,
    index: usize,
}

impl View for MoveHistory {
    type V = HistoryView;

    closed spec fn view(&self) -> HistoryView {
        HistoryView {
            fens: self.fens.deep_view(),
            moves: self.moves.deep_view(),
            pvs: self.pv_by_fen.deep_view(),
            index: self.index as int,
        }
    }
}

impl Default for MoveHistory {
    fn default() -> (h: MoveHistory)
        ensures
            h.wf(),
            h@.fens == seq![spec_startpos()],
            h@.moves.len() == 0,
            h@.index == 0,
    {
        MoveHistory::new_game()
    }
}

impl MoveHistory {
    /// At least one position, one move between consecutive positions, one
    /// remembered variation per position, and the cursor on a position.
    pub open spec fn wf(&self) -> bool {
        self@.wf()
    }

    pub open spec fn spec_at_head(&self) -> bool {
        self@.index + 1 == self@.fens.len()
    }

    pub open spec fn spec_current_fen(&self) -> Seq<char> {
        self@.fens[self@.index]
    }

    pub open spec fn spec_last_move(&self) -> Option<Seq<char>> {
        if self@.index == 0 {
            None
        } else {
            Some(self@.moves[self@.index - 1])
        }
    }

    /// A new game at the start position.
    pub fn new_game() -> (h: MoveHistory)
        ensures
            h.wf(),
            h@.fens == seq![spec_startpos()],
            h@.moves.len() == 0,
            h@.pvs == seq![Seq::<Seq<char>>::empty()],
            h@.index == 0,
    {
        let mut fens: Vec<String> = Vec::new();
        fens.push(startpos_fen());
        let mut pvs: Vec<Vec<String>> = Vec::new();
        pvs.push(Vec::new());
        let h = MoveHistory { fens, moves: Vec::new(), pv_by_fen: pvs, index: 0 };
        assert(h.pv_by_fen@[0].deep_view() =~= Seq::<Seq<char>>::empty());
        assert(h@.fens =~= seq![spec_startpos()]);
        assert(h@.pvs =~= seq![Seq::<Seq<char>>::empty()]);
        h
    }

    /// The viewed position.
    pub fn current_fen(&self) -> (r: &str)
        requires
            self.wf(),
        ensures
            r@ == self.spec_current_fen(),
    {
        self.fens[self.index].as_str()
    }

    /// The move that led to the viewed position, if any.
    pub fn last_move_uci_at_view(&self) -> (r: Option<&str>)
        requires
            self.wf(),
        ensures
            r.is_some() == self.spec_last_move().is_some(),
            r.is_some() ==> r.unwrap()@ == self.spec_last_move().unwrap(),
    {
        if self.index == 0 {
            return None;
        }
        Some(self.moves[self.index - 1].as_str())
    }

    /// Undo is possible at the newest position after at least one move.
    pub fn can_undo(&self) -> (r: bool)
        requires
            self.wf(),
        ensures
            r == (self.spec_at_head() && self@.fens.len() > 1),
    {
        self.at_head() && self.fens.len() > 1
    }

    /// There is an earlier position to browse to.
    pub fn can_go_prev(&self) -> (r: bool)
        requires
            self.wf(),
        ensures
            r == (self@.index > 0),
    {
        self.index > 0
    }

    /// There is a later position to browse to.
    pub fn can_go_next(&self) -> (r: bool)
        requires
            self.wf(),
        ensures
            r == (self@.index + 1 < self@.fens.len()),
    {
        let n: usize = self.fens.len();
        self.index + 1 < n
    }

    /// The viewed position is the newest one.
    pub fn at_head(&self) -> (r: bool)
        requires
            self.wf(),
        ensures
            r == self.spec_at_head(),
    {
        let n: usize = self.fens.len();
        self.index + 1 == n
    }

    /// Number of positions recorded.
    pub fn position_count(&self) -> (r: usize)
        ensures
            r == self@.fens.len(),
    {
        self.fens.len()
    }

    /// Number of moves recorded.
    pub fn halfmove_count(&self) -> (r: usize)
        requires
            self.wf(),
        ensures
            r == self@.moves.len(),
    {
        self.moves.len()
    }

    /// The variation remembered for the viewed position.
    pub fn pv_at_view(&self) -> (r: &[String])
        requires
            self.wf(),
        ensures
            r.deep_view() == self@.pvs[self@.index],
    {
        self.pv_by_fen[self.index].as_slice()
    }

    /// Records a move from the viewed position: later positions are dropped,
    /// the variation in force is remembered for the position left, and the
    /// new position becomes the viewed, newest one.
    pub fn push_move(&mut self, fen_after: String, uci: String, pv_snapshot: Vec<String>)
        requires
            old(self).wf(),
            old(self)@.fens.len() < usize::MAX,
        ensures
            final(self).wf(),
            final(self)@ == old(self)@.push(fen_after@, uci@, pv_snapshot.deep_view()),
    {
        if self.index + 1 < self.fens.len() {
            self.fens.truncate(self.index + 1);
            self.moves.truncate(self.index);
            self.pv_by_fen.truncate(self.index + 1);
        }
        self.ensure_pv_len();
        let i = self.index;
        self.pv_by_fen.set(i, pv_snapshot);
        self.moves.push(uci);
        self.fens.push(fen_after);
        self.pv_by_fen.push(Vec::new());
        self.index = self.fens.len() - 1;
        assert(self.pv_by_fen@[self.pv_by_fen.len() - 1].deep_view() =~= Seq::<Seq<char>>::empty());
        assert(self@.fens =~= old(self)@.fens.take(old(self)@.index + 1).push(fen_after@));
        assert(self@.moves =~= old(self)@.moves.take(old(self)@.index).push(uci@));
        assert(self@.pvs =~= old(self)@.pvs.take(old(self)@.index).push(pv_snapshot.deep_view()).push(
            Seq::<Seq<char>>::empty(),
        ));
    }

    fn ensure_pv_len(&mut self)
        requires
            old(self).pv_by_fen.len() <= old(self).fens.len(),
        ensures
            final(self).fens == old(self).fens,
            final(self).moves == old(self).moves,
            final(self).index == old(self).index,
            final(self).pv_by_fen.len() == old(self).fens.len(),
            forall|i: int|
                0 <= i < old(self).pv_by_fen.len() ==> #[trigger] final(self).pv_by_fen@[i] == old(self).pv_by_fen@[i],
            forall|i: int|
                old(self).pv_by_fen.len() <= i < old(self).fens.len() ==> #[trigger] final(self).pv_by_fen@[i]@.len() == 0,
    {
        while self.pv_by_fen.len() < self.fens.len()
            invariant
                self.fens == old(self).fens,
                self.moves == old(self).moves,
                self.index == old(self).index,
                old(self).pv_by_fen.len() <= self.pv_by_fen.len() <= self.fens.len(),
                forall|i: int|
                    0 <= i < old(self).pv_by_fen.len() ==> #[trigger] self.pv_by_fen@[i] == old(self).pv_by_fen@[i],
                forall|i: int|
                    old(self).pv_by_fen.len() <= i < self.pv_by_fen.len() ==> #[trigger] self.pv_by_fen@[i]@.len()
                        == 0,
            decreases self.fens.len() - self.pv_by_fen.len(),
        {
            self.pv_by_fen.push(Vec::new());
        }
    }

    /// Takes back the newest move; only possible at the newest position.
    pub fn undo(&mut self) -> (r: bool)
        requires
            old(self).wf(),
        ensures
            final(self).wf(),
            r == (old(self).spec_at_head() && old(self)@.fens.len() > 1),
            r ==> final(self)@ == old(self)@.undo(),
            !r ==> *final(self) == *old(self),
    {
        if !self.can_undo() {
            return false;
        }
        self.fens.pop();
        self.moves.pop();
        if self.pv_by_fen.len() > self.fens.len() {
            self.pv_by_fen.pop();
        }
        self.index = self.fens.len() - 1;
        assert(self@.fens =~= old(self)@.fens.drop_last());
        assert(self@.moves =~= old(self)@.moves.drop_last());
        assert(self@.pvs =~= old(self)@.pvs.drop_last());
        true
    }

    /// Browses to the previous position without dropping later ones.
    pub fn go_prev(&mut self) -> (r: bool)
        requires
            old(self).wf(),
        ensures
            final(self).wf(),
            r == (old(self)@.index > 0),
            final(self)@ == old(self)@.browse(if r { -1 } else { 0 }),
            !r ==> *final(self) == *old(self),
    {
        if !self.can_go_prev() {
            return false;
        }
        self.index -= 1;
        true
    }

    /// Browses to the next position.
    pub fn go_next(&mut self) -> (r: bool)
        requires
            old(self).wf(),
        ensures
            final(self).wf(),
            r == (old(self)@.index + 1 < old(self)@.fens.len()),
            final(self)@ == old(self)@.browse(if r { 1 } else { 0 }),
            !r ==> *final(self) == *old(self),
    {
        if !self.can_go_next() {
            return false;
        }
        let n: usize = self.fens.len();
        assert(self.index + 1 < n);
        self.index += 1;
        true
    }

    /// The board and side to move of the viewed position, when its FEN reads.
    pub fn load_current(&self) -> (r: Option<(Board90, Side)>)
        requires
            self.wf(),
        ensures
            match r {
                Some((b, side)) => b.wf() && spec_from_fen(self.spec_current_fen()) == Some((b.cells@, side)),
                None => spec_from_fen(self.spec_current_fen()) is None,
            },
    {
        Board90::from_fen_with_side(self.current_fen())
    }

    /// Starts a new record at `fen`.
    pub fn reset_to_fen(&mut self, fen: String)
        ensures
            final(self).wf(),
            final(self)@.fens == seq![fen@],
            final(self)@.moves.len() == 0,
            final(self)@.pvs == seq![Seq::<Seq<char>>::empty()],
            final(self)@.index == 0,
    {
        let mut fens: Vec<String> = Vec::new();
        fens.push(fen);
        let mut pvs: Vec<Vec<String>> = Vec::new();
        pvs.push(Vec::new());
        self.fens = fens;
        self.moves = Vec::new();
        self.pv_by_fen = pvs;
        self.index = 0;
        assert(self.pv_by_fen@[0].deep_view() =~= Seq::<Seq<char>>::empty());
        assert(self@.fens =~= seq![fen@]);
        assert(self@.pvs =~= seq![Seq::<Seq<char>>::empty()]);
    }
}

} // verus!
