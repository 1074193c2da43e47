//! The symmetries of the opening-book key, proved from the FEN text: the
//! ranks are read cell by cell, and mirrored or turned ranks are shown to
//! fill the mirrored or turned cell array that the key is taken from.
use vstd::prelude::*;

use crate::xqb::{
    EMPTY_CELL, count_slashes, fill_cells, find_char, initial_cells, piece_code, rank_width,
    spec_map_piece, turn_case,
};

verus! {

/// A FEN digit: that many empty cells.
pub open spec fn is_fen_digit(ch: char) -> bool {
    '0' <= ch && ch <= '9'
}

/// The cells one character of a rank text stands for: a digit that many
/// empty cells, any other character one cell holding it.
pub open spec fn token_cells(ch: char) -> Seq<Option<char>> {
    if is_fen_digit(ch) {
        Seq::new((ch as int - '0' as int) as nat, |i: int| None)
    } else {
        seq![Some(ch)]
    }
}

/// The cells of a rank text, left to right.
pub open spec fn rank_cells(s: Seq<char>) -> Seq<Option<char>>
    decreases s.len(),
{
    if s.len() == 0 {
        Seq::empty()
    } else {
        rank_cells(s.drop_last()) + token_cells(s.last())
    }
}

/// Every character of the rank is a digit or a piece letter known from the side `turn`.
pub open spec fn rank_ok(s: Seq<char>, turn: char) -> bool {
    forall|i: int| 0 <= i < s.len() ==> is_fen_digit(#[trigger] s[i]) || spec_map_piece(turn, s[i]) is Some
}

/// The key code of one cell seen from `turn`.
pub open spec fn cell_code(o: Option<char>, turn: char) -> u8 {
    match o {
        Some(ch) => match spec_map_piece(turn, ch) {
            Some(v) => v,
            None => 0,
        },
        None => EMPTY_CELL,
    }
}

/// `ary` with the pieces of `e` written from cell `idx` on; empty cells of `e`
/// leave `ary` as it was.
pub open spec fn written(ary: Seq<u8>, idx: int, e: Seq<Option<char>>, turn: char) -> Seq<u8> {
    Seq::new(
        ary.len(),
        |i: int|
            if idx <= i < idx + e.len() && e[i - idx] is Some {
                cell_code(e[i - idx], turn)
            } else {
                ary[i]
            },
    )
}

/// A letter's case swapped, as seen from black.
pub open spec fn swap_cell(o: Option<char>) -> Option<char> {
    match o {
        Some(ch) => Some(turn_case('b', ch)),
        None => None,
    }
}

/// A rank has as many cells as its width.
proof fn lemma_rank_cells_len(s: Seq<char>)
    ensures
        rank_cells(s).len() == rank_width(s),
    decreases s.len(),
{
    if s.len() > 0 {
        lemma_rank_cells_len(s.drop_last());
    }
}

/// The cells of two texts one after the other.
proof fn lemma_rank_cells_concat(a: Seq<char>, b: Seq<char>)
    ensures
        rank_cells(a + b) == rank_cells(a) + rank_cells(b),
    decreases b.len(),
{
    if b.len() == 0 {
        assert(a + b =~= a);
        assert(rank_cells(a) + rank_cells(b) =~= rank_cells(a));
    } else {
        assert((a + b).drop_last() =~= a + b.drop_last());
        assert((a + b).last() == b.last());
        lemma_rank_cells_concat(a, b.drop_last());
        assert(rank_cells(a + b) =~= rank_cells(a) + rank_cells(b));
    }
}

/// The cells of a rank read from its first character.
proof fn lemma_rank_cells_front(s: Seq<char>)
    requires
        s.len() > 0,
    ensures
        rank_cells(s) == token_cells(s[0]) + rank_cells(s.drop_first()),
{
    let one = seq![s[0]];
    assert(s =~= one + s.drop_first());
    lemma_rank_cells_concat(one, s.drop_first());
    assert(one.drop_last() =~= Seq::<char>::empty());
    assert(one.last() == s[0]);
    assert(rank_cells(one.drop_last()) =~= Seq::<Option<char>>::empty());
    assert(rank_cells(one) =~= token_cells(s[0]));
}

/// Reversing two sequences one after the other.
proof fn lemma_reverse_concat<A>(a: Seq<A>, b: Seq<A>)
    ensures
        (a + b).reverse() == b.reverse() + a.reverse(),
{
    let l = a + b;
    if l.len() == 0 {
        assert(a.len() == 0 && b.len() == 0);
        assert(a.reverse() =~= a);
        assert(b.reverse() =~= b);
        assert(l.reverse() =~= b.reverse() + a.reverse());
    } else {
        let ra = a.reverse();
        let rb = b.reverse();
        assert(ra.len() == a.len()) by {
            if a.len() > 0 {
            }
        }
        assert(rb.len() == b.len()) by {
            if b.len() > 0 {
            }
        }
        assert forall|i: int| 0 <= i < l.len() implies #[trigger] l.reverse()[i] == (rb + ra)[i] by {
            assert(l.reverse()[i] == l[l.len() - 1 - i]);
            if i < b.len() {
                assert(rb[i] == b[b.len() - 1 - i]);
            } else {
                assert(ra[i - b.len()] == a[a.len() - 1 - (i - b.len())]);
            }
        }
        assert(l.reverse() =~= rb + ra);
    }
}

/// A letter's case swapped is a letter again, and swapping twice gives it back.
proof fn lemma_turn_case_letter(ch: char)
    requires
        ('a' <= ch && ch <= 'z') || ('A' <= ch && ch <= 'Z'),
    ensures
        ('a' <= turn_case('b', ch) && turn_case('b', ch) <= 'z') || ('A' <= turn_case('b', ch) && turn_case(
            'b',
            ch,
        ) <= 'Z'),
        turn_case('b', turn_case('b', ch)) == ch,
{
    let x = ch as u8;
    assert(ch as int == x as int);
    assert((x >= 65 && x <= 90) ==> ((x ^ 0x20u8) >= 97 && (x ^ 0x20u8) <= 122 && ((x ^ 0x20u8) ^ 0x20u8) == x)) by (bit_vector);
    assert((x >= 97 && x <= 122) ==> ((x ^ 0x20u8) >= 65 && (x ^ 0x20u8) <= 90 && ((x ^ 0x20u8) ^ 0x20u8) == x)) by (bit_vector);
}

/// A reversed rank holds its cells in reverse order.
proof fn lemma_rank_cells_reverse(s: Seq<char>)
    ensures
        rank_cells(s.reverse()) == rank_cells(s).reverse(),
    decreases s.len(),
{
    if s.len() == 0 {
        assert(s.reverse() =~= s);
        assert(rank_cells(s).reverse() =~= rank_cells(s));
    } else {
        let t = s.drop_last();
        let x = s.last();
        lemma_rank_cells_reverse(t);
        assert(s.reverse() =~= seq![x] + t.reverse());
        lemma_rank_cells_front(seq![x] + t.reverse());
        assert((seq![x] + t.reverse()).drop_first() =~= t.reverse());
        let tc = token_cells(x);
        assert(tc.reverse() =~= tc) by {
            if tc.len() > 0 {
                assert forall|i: int| 0 <= i < tc.len() implies #[trigger] tc.reverse()[i] == tc[i] by {
                    assert(tc.reverse()[i] == tc[tc.len() - 1 - i]);
                }
            }
        }
        lemma_reverse_concat(rank_cells(t), tc);
    }
}

/// A rank with its letters' case swapped holds the swapped cells.
proof fn lemma_rank_cells_swap(s: Seq<char>)
    ensures
        rank_cells(s.map_values(|c: char| turn_case('b', c))) == rank_cells(s).map_values(
            |o: Option<char>| swap_cell(o),
        ),
    decreases s.len(),
{
    let m = s.map_values(|c: char| turn_case('b', c));
    if s.len() == 0 {
        assert(rank_cells(s).map_values(|o: Option<char>| swap_cell(o)) =~= Seq::<Option<char>>::empty());
    } else {
        assert(m.drop_last() =~= s.drop_last().map_values(|c: char| turn_case('b', c)));
        lemma_rank_cells_swap(s.drop_last());
        let x = s.last();
        assert(m.last() == turn_case('b', x));
        if ('a' <= x && x <= 'z') || ('A' <= x && x <= 'Z') {
            lemma_turn_case_letter(x);
        }
        assert(token_cells(turn_case('b', x)) =~= token_cells(x).map_values(|o: Option<char>| swap_cell(o)));
        assert(rank_cells(m) =~= rank_cells(s).map_values(|o: Option<char>| swap_cell(o)));
    }
}

/// Writing two runs of cells one after the other.
proof fn lemma_written_compose(ary: Seq<u8>, idx: int, e1: Seq<Option<char>>, e2: Seq<Option<char>>, turn: char)
    ensures
        written(written(ary, idx, e1, turn), idx + e1.len(), e2, turn) == written(ary, idx, e1 + e2, turn),
{
    assert(written(written(ary, idx, e1, turn), idx + e1.len(), e2, turn) =~= written(ary, idx, e1 + e2, turn));
}

/// Filling a rank text writes its cells and moves on past its width.
proof fn lemma_fill_rank(row: Seq<char>, t: Seq<char>, turn: char, size: int, idx: int, ary: Seq<u8>)
    requires
        rank_ok(row, turn),
        0 <= idx,
        idx + rank_width(row) <= size,
        ary.len() == size,
    ensures
        fill_cells(row + t, turn, size, idx, ary) == fill_cells(
            t,
            turn,
            size,
            idx + rank_width(row),
            written(ary, idx, rank_cells(row), turn),
        ),
    decreases row.len(),
{
    if row.len() == 0 {
        assert(row + t =~= t);
        assert(written(ary, idx, rank_cells(row), turn) =~= ary);
    } else {
        let x = row[0];
        let rest = row.drop_first();
        assert((row + t).drop_first() =~= rest + t);
        assert((row + t)[0] == x);
        lemma_rank_cells_front(row);
        lemma_rank_cells_len(row);
        lemma_rank_cells_len(rest);
        assert(rank_ok(rest, turn)) by {
            assert forall|i: int| 0 <= i < rest.len() implies is_fen_digit(#[trigger] rest[i]) || spec_map_piece(
                turn,
                rest[i],
            ) is Some by {
                assert(rest[i] == row[i + 1]);
            }
        }
        let tc = token_cells(x);
        lemma_written_compose(ary, idx, tc, rank_cells(rest), turn);
        if is_fen_digit(x) {
            assert(x != '/');
            assert(written(ary, idx, tc, turn) =~= ary);
            lemma_fill_rank(rest, t, turn, size, idx + tc.len(), ary);
        } else {
            assert(spec_map_piece(turn, x) is Some);
            let v = spec_map_piece(turn, x)->0;
            assert(x != '/') by {
                assert(turn_case(turn, '/') == '/');
            }
            assert(written(ary, idx, tc, turn) =~= ary.update(idx, v));
            lemma_fill_rank(rest, t, turn, size, idx + 1, ary.update(idx, v));
        }
    }
}

/// A board text from its ranks, top to bottom, separated by `/`.
pub open spec fn join_ranks(rs: Seq<Seq<char>>) -> Seq<char>
    decreases rs.len(),
{
    if rs.len() == 0 {
        Seq::empty()
    } else if rs.len() == 1 {
        rs[0]
    } else {
        rs[0] + seq!['/'] + join_ranks(rs.drop_first())
    }
}

/// The cells of the ranks, row after row.
pub open spec fn grid_cells(rs: Seq<Seq<char>>) -> Seq<Option<char>>
    decreases rs.len(),
{
    if rs.len() == 0 {
        Seq::empty()
    } else {
        rank_cells(rs[0]) + grid_cells(rs.drop_first())
    }
}

/// Every rank is `cols` cells wide and holds only digits and piece letters known from `turn`.
pub open spec fn ranks_ok(rs: Seq<Seq<char>>, turn: char, cols: nat) -> bool {
    forall|r: int| 0 <= r < rs.len() ==> rank_ok(#[trigger] rs[r], turn) && rank_width(rs[r]) == cols
}

/// The key codes of the cells, seen from `turn`.
pub open spec fn board_cells(e: Seq<Option<char>>, turn: char) -> Seq<u8> {
    Seq::new(e.len(), |i: int| cell_code(e[i], turn))
}

/// The ranks mirrored left to right: each rank text reversed.
pub open spec fn mirror_ranks(rs: Seq<Seq<char>>) -> Seq<Seq<char>> {
    rs.map_values(|s: Seq<char>| s.reverse())
}

/// The ranks turned half a circle with the colours swapped: the ranks in
/// reverse order, each reversed, every letter's case swapped.
pub open spec fn turned_ranks(rs: Seq<Seq<char>>) -> Seq<Seq<char>> {
    rs.reverse().map_values(|s: Seq<char>| s.reverse().map_values(|c: char| turn_case('b', c)))
}

/// The ranks after the first are ranks too.
proof fn lemma_ranks_ok_rest(rs: Seq<Seq<char>>, turn: char, cols: nat)
    requires
        rs.len() > 0,
        ranks_ok(rs, turn, cols),
    ensures
        ranks_ok(rs.drop_first(), turn, cols),
{
    assert forall|r: int| 0 <= r < rs.drop_first().len() implies rank_ok(#[trigger] rs.drop_first()[r], turn)
        && rank_width(rs.drop_first()[r]) == cols by {
        assert(rs.drop_first()[r] == rs[r + 1]);
    }
}

/// The ranks hold `cols` cells each.
proof fn lemma_grid_len(rs: Seq<Seq<char>>, turn: char, cols: nat)
    requires
        ranks_ok(rs, turn, cols),
    ensures
        grid_cells(rs).len() == (rs.len() * cols) as int,
    decreases rs.len(),
{
    if rs.len() > 0 {
        lemma_ranks_ok_rest(rs, turn, cols);
        lemma_grid_len(rs.drop_first(), turn, cols);
        lemma_rank_cells_len(rs[0]);
        assert(rs.len() * cols == cols + (rs.len() - 1) * cols) by (nonlinear_arith);
    }
}

/// Cell (`r`, `c`) of the ranks is cell `c` of rank `r`.
proof fn lemma_grid_index(rs: Seq<Seq<char>>, turn: char, cols: nat, r: int, c: int)
    requires
        ranks_ok(rs, turn, cols),
        0 <= r < rs.len(),
        0 <= c < cols,
    ensures
        grid_cells(rs)[r * cols + c] == rank_cells(rs[r])[c],
    decreases r,
{
    lemma_rank_cells_len(rs[0]);
    assert(rank_width(rs[0]) == cols);
    lemma_grid_len(rs, turn, cols);
    if r == 0 {
        assert(r * cols + c == c);
    } else {
        lemma_ranks_ok_rest(rs, turn, cols);
        lemma_grid_len(rs.drop_first(), turn, cols);
        assert(r * cols + c < rs.len() * cols) by (nonlinear_arith)
            requires
                r < rs.len(),
                c < cols,
        ;
        lemma_grid_index(rs.drop_first(), turn, cols, r - 1, c);
        assert(rs.drop_first()[r - 1] == rs[r]);
        assert(r * cols + c == cols + ((r - 1) * cols + c)) by (nonlinear_arith);
        assert((r - 1) * cols + c >= 0) by (nonlinear_arith)
            requires
                r >= 1,
                c >= 0,
        ;
    }
}

/// Filling the board text of the ranks writes their cells one after another.
proof fn lemma_fill_ranks(rs: Seq<Seq<char>>, turn: char, cols: nat, size: int, idx: int, ary: Seq<u8>)
    requires
        rs.len() >= 1,
        ranks_ok(rs, turn, cols),
        0 <= idx,
        idx + rs.len() * cols <= size,
        ary.len() == size,
    ensures
        fill_cells(join_ranks(rs), turn, size, idx, ary) == Some(written(ary, idx, grid_cells(rs), turn)),
    decreases rs.len(),
{
    let r0 = rs[0];
    lemma_rank_cells_len(r0);
    assert(rs.len() * cols == cols + (rs.len() - 1) * cols) by (nonlinear_arith);
    assert((rs.len() - 1) * cols >= 0) by (nonlinear_arith)
        requires
            rs.len() >= 1,
    ;
    if rs.len() == 1 {
        assert(grid_cells(rs.drop_first()) =~= Seq::<Option<char>>::empty());
        assert(grid_cells(rs) =~= rank_cells(r0));
        assert(r0 + Seq::<char>::empty() =~= r0);
        lemma_fill_rank(r0, Seq::<char>::empty(), turn, size, idx, ary);
    } else {
        let rest = rs.drop_first();
        lemma_ranks_ok_rest(rs, turn, cols);
        let t = seq!['/'] + join_ranks(rest);
        assert(join_ranks(rs) =~= r0 + t);
        lemma_fill_rank(r0, t, turn, size, idx, ary);
        let ary1 = written(ary, idx, rank_cells(r0), turn);
        assert(t.drop_first() =~= join_ranks(rest));
        assert(t[0] == '/');
        lemma_fill_ranks(rest, turn, cols, size, idx + cols, ary1);
        lemma_written_compose(ary, idx, rank_cells(r0), grid_cells(rest), turn);
    }
}

/// The cells of a rank, where they hold a letter, hold a piece known from `turn`.
proof fn lemma_rank_pieces(s: Seq<char>, turn: char)
    requires
        rank_ok(s, turn),
    ensures
        forall|k: int|
            0 <= k < rank_cells(s).len() && #[trigger] rank_cells(s)[k] is Some ==> !is_fen_digit(
                rank_cells(s)[k]->0,
            ) && spec_map_piece(turn, rank_cells(s)[k]->0) is Some,
    decreases s.len(),
{
    if s.len() > 0 {
        let t = s.drop_last();
        assert(rank_ok(t, turn)) by {
            assert forall|i: int| 0 <= i < t.len() implies is_fen_digit(#[trigger] t[i]) || spec_map_piece(
                turn,
                t[i],
            ) is Some by {
                assert(t[i] == s[i]);
            }
        }
        lemma_rank_pieces(t, turn);
        assert(s.last() == s[s.len() - 1]);
    }
}

/// A text without `c` from `i` up to `j`, where `c` stands.
proof fn lemma_find_char_at(s: Seq<char>, c: char, i: int, j: int)
    requires
        0 <= i <= j < s.len(),
        s[j] == c,
        forall|k: int| i <= k < j ==> s[k] != c,
    ensures
        find_char(s, c, i) == Some(j),
    decreases j - i,
{
    if i < j {
        lemma_find_char_at(s, c, i + 1, j);
    }
}

/// A text without `c` from `i` on.
proof fn lemma_find_char_absent(s: Seq<char>, c: char, i: int)
    requires
        0 <= i,
        forall|k: int| i <= k < s.len() ==> s[k] != c,
    ensures
        find_char(s, c, i) is None,
    decreases s.len() - i,
{
    if i < s.len() {
        lemma_find_char_absent(s, c, i + 1);
    }
}

/// The `/` of two texts one after the other.
proof fn lemma_count_slashes_concat(a: Seq<char>, b: Seq<char>)
    ensures
        count_slashes(a + b) == count_slashes(a) + count_slashes(b),
    decreases b.len(),
{
    if b.len() == 0 {
        assert(a + b =~= a);
    } else {
        assert((a + b).drop_last() =~= a + b.drop_last());
        assert((a + b).last() == b.last());
        lemma_count_slashes_concat(a, b.drop_last());
    }
}

/// A rank holds neither `/` nor a space.
proof fn lemma_rank_plain(s: Seq<char>, turn: char)
    requires
        rank_ok(s, turn),
    ensures
        forall|k: int| 0 <= k < s.len() ==> #[trigger] s[k] != '/' && s[k] != ' ',
        count_slashes(s) == 0,
    decreases s.len(),
{
    assert forall|k: int| 0 <= k < s.len() implies #[trigger] s[k] != '/' && s[k] != ' ' by {
        assert(is_fen_digit(s[k]) || spec_map_piece(turn, s[k]) is Some);
        assert(turn_case(turn, '/') == '/');
        assert(turn_case(turn, ' ') == ' ');
    }
    if s.len() > 0 {
        let t = s.drop_last();
        assert(rank_ok(t, turn)) by {
            assert forall|i: int| 0 <= i < t.len() implies is_fen_digit(#[trigger] t[i]) || spec_map_piece(
                turn,
                t[i],
            ) is Some by {
                assert(t[i] == s[i]);
            }
        }
        lemma_rank_plain(t, turn);
        assert(s.last() == s[s.len() - 1]);
    }
}

/// The board text of the ranks: no space, one `/` fewer than ranks, and the
/// first rank up to the first `/`.
proof fn lemma_join_text(rs: Seq<Seq<char>>, turn: char, cols: nat)
    requires
        rs.len() >= 1,
        ranks_ok(rs, turn, cols),
    ensures
        forall|k: int| 0 <= k < join_ranks(rs).len() ==> #[trigger] join_ranks(rs)[k] != ' ',
        count_slashes(join_ranks(rs)) + 1 == rs.len(),
        (match find_char(join_ranks(rs), '/', 0) {
            Some(i) => join_ranks(rs).take(i),
            None => join_ranks(rs),
        }) == rs[0],
    decreases rs.len(),
{
    let r0 = rs[0];
    lemma_rank_plain(r0, turn);
    if rs.len() == 1 {
        lemma_find_char_absent(r0, '/', 0);
    } else {
        let rest = rs.drop_first();
        lemma_ranks_ok_rest(rs, turn, cols);
        lemma_join_text(rest, turn, cols);
        let j = join_ranks(rs);
        let jr = join_ranks(rest);
        assert(j =~= r0 + (seq!['/'] + jr));
        assert forall|k: int| 0 <= k < j.len() implies #[trigger] j[k] != ' ' by {
            if k < r0.len() {
                assert(j[k] == r0[k]);
            } else if k > r0.len() {
                assert(j[k] == jr[k - r0.len() - 1]);
            }
        }
        lemma_count_slashes_concat(r0, seq!['/'] + jr);
        lemma_count_slashes_concat(seq!['/'], jr);
        assert(seq!['/'].drop_last() =~= Seq::<char>::empty());
        assert(seq!['/'].last() == '/');
        assert(count_slashes(Seq::<char>::empty()) == 0);
        assert(count_slashes(seq!['/']) == 1);
        assert forall|k: int| 0 <= k < r0.len() implies j[k] != '/' by {
            assert(j[k] == r0[k]);
        }
        lemma_find_char_at(j, '/', 0, r0.len() as int);
        assert(j.take(r0.len() as int) =~= r0);
    }
}

/// A FEN made of the board text of the ranks and a side to move: that side,
/// as many rows as ranks, `cols` columns, and the cells of the ranks.
proof fn lemma_fen_of_ranks(rs: Seq<Seq<char>>, turn: char, cols: nat)
    requires
        rs.len() >= 1,
        turn != ' ',
        ranks_ok(rs, turn, cols),
    ensures
        ({
            let fen = join_ranks(rs) + seq![' ', turn];
            &&& crate::xqb::fen_turn(fen) == Some(turn)
            &&& crate::xqb::spec_rows_cols(fen) == (rs.len(), cols)
            &&& fill_cells(
                crate::xqb::fen_board(fen),
                turn,
                (rs.len() * cols) as int,
                0,
                initial_cells((rs.len() * cols) as int),
            ) == Some(board_cells(grid_cells(rs), turn))
        }),
{
    let j = join_ranks(rs);
    let fen = j + seq![' ', turn];
    lemma_join_text(rs, turn, cols);
    assert forall|k: int| 0 <= k < j.len() implies fen[k] != ' ' by {
        assert(fen[k] == j[k]);
    }
    lemma_find_char_at(fen, ' ', 0, j.len() as int);
    assert(fen.take(j.len() as int) =~= j);
    assert(rank_width(rs[0]) == cols);
    assert(rs.len() * cols >= 0) by (nonlinear_arith);
    lemma_grid_len(rs, turn, cols);
    lemma_fill_ranks(rs, turn, cols, (rs.len() * cols) as int, 0, initial_cells((rs.len() * cols) as int));
    assert(written(initial_cells((rs.len() * cols) as int), 0, grid_cells(rs), turn) =~= board_cells(grid_cells(rs), turn));
}

/// The row and column of cell `i` of a board `cols` wide.
proof fn lemma_split_index(i: int, rows: int, cols: int)
    requires
        cols > 0,
        0 <= i < rows * cols,
    ensures
        i == (i / cols) * cols + i % cols,
        0 <= i / cols < rows,
        0 <= i % cols < cols,
{
    vstd::arithmetic::div_mod::lemma_fundamental_div_mod(i, cols);
    vstd::arithmetic::div_mod::lemma_mod_bound(i, cols);
    vstd::arithmetic::div_mod::lemma_div_pos_is_pos(i, cols);
    let r = i / cols;
    let c = i % cols;
    assert(i == r * cols + c) by (nonlinear_arith)
        requires
            i == cols * r + c,
    ;
    assert(r < rows) by (nonlinear_arith)
        requires
            i == r * cols + c,
            0 <= c,
            i < rows * cols,
            cols > 0,
    ;
}

/// A rank reversed, and reversed with its letters' case swapped, keeps its
/// width; the first is still a rank seen from white, the second one seen from black.
proof fn lemma_rank_flips(s: Seq<char>)
    requires
        rank_ok(s, 'w'),
    ensures
        rank_ok(s.reverse(), 'w'),
        rank_width(s.reverse()) == rank_width(s),
        rank_ok(s.reverse().map_values(|c: char| turn_case('b', c)), 'b'),
        rank_width(s.reverse().map_values(|c: char| turn_case('b', c))) == rank_width(s),
{
    let v = s.reverse();
    let m = v.map_values(|c: char| turn_case('b', c));
    assert(v.len() == s.len()) by {
        if s.len() > 0 {
        }
    }
    assert forall|i: int| 0 <= i < v.len() implies #[trigger] v[i] == s[s.len() - 1 - i] by {}
    assert forall|i: int| 0 <= i < v.len() implies is_fen_digit(#[trigger] v[i]) || spec_map_piece('w', v[i]) is Some by {
        assert(v[i] == s[s.len() - 1 - i]);
    }
    assert forall|i: int| 0 <= i < m.len() implies is_fen_digit(#[trigger] m[i]) || spec_map_piece('b', m[i]) is Some by {
        let ch = v[i];
        assert(v[i] == s[s.len() - 1 - i]);
        assert(m[i] == turn_case('b', ch));
        if !is_fen_digit(ch) {
            assert(piece_code(ch) is Some);
            lemma_turn_case_letter(ch);
        }
    }
    lemma_rank_cells_len(s);
    lemma_rank_cells_len(v);
    lemma_rank_cells_len(m);
    lemma_rank_cells_reverse(s);
    lemma_rank_cells_swap(v);
    assert(rank_cells(s).reverse().len() == rank_cells(s).len()) by {
        if rank_cells(s).len() > 0 {
        }
    }
}

/// Mirrored ranks hold the mirror image of the cells.
proof fn lemma_mirror_cells(rs: Seq<Seq<char>>, cols: nat)
    requires
        cols >= 1,
        ranks_ok(rs, 'w', cols),
        ranks_ok(mirror_ranks(rs), 'w', cols),
    ensures
        board_cells(grid_cells(mirror_ranks(rs)), 'w') == crate::xqb::mirrored(
            board_cells(grid_cells(rs), 'w'),
            rs.len() as int,
            cols as int,
        ),
{
    let ms = mirror_ranks(rs);
    let a = board_cells(grid_cells(rs), 'w');
    let al = board_cells(grid_cells(ms), 'w');
    let rows = rs.len() as int;
    let c0 = cols as int;
    lemma_grid_len(rs, 'w', cols);
    lemma_grid_len(ms, 'w', cols);
    assert forall|i: int| 0 <= i < al.len() implies #[trigger] al[i] == crate::xqb::mirrored(a, rows, c0)[i] by {
        lemma_split_index(i, rows, c0);
        let r = i / c0;
        let c = i % c0;
        let c2 = c0 - 1 - c;
        let e = rank_cells(rs[r]);
        assert(ms[r] == rs[r].reverse());
        lemma_rank_cells_reverse(rs[r]);
        lemma_rank_cells_len(rs[r]);
        lemma_grid_index(ms, 'w', cols, r, c);
        lemma_grid_index(rs, 'w', cols, r, c2);
        assert(e.reverse()[c] == e[e.len() - 1 - c]);
        crate::xqb::lemma_cell_in_range(r, c2, rows, c0);
        assert(i == r * c0 + c);
    }
    assert(al =~= crate::xqb::mirrored(a, rows, c0));
}

/// Turned ranks, seen from black and turned back, hold the cells seen from white.
proof fn lemma_turn_cells(rs: Seq<Seq<char>>, cols: nat)
    requires
        cols >= 1,
        rs.len() % 2 == 0,
        ranks_ok(rs, 'w', cols),
        ranks_ok(turned_ranks(rs), 'b', cols),
    ensures
        crate::xqb::rotated(board_cells(grid_cells(turned_ranks(rs)), 'b'), rs.len() as int, cols as int)
            == board_cells(grid_cells(rs), 'w'),
{
    let ts = turned_ranks(rs);
    let a = board_cells(grid_cells(rs), 'w');
    let at = board_cells(grid_cells(ts), 'b');
    let rows = rs.len() as int;
    let c0 = cols as int;
    lemma_grid_len(rs, 'w', cols);
    lemma_grid_len(ts, 'b', cols);
    assert forall|i: int| 0 <= i < a.len() implies #[trigger] crate::xqb::rotated(at, rows, c0)[i] == a[i] by {
        lemma_split_index(i, rows, c0);
        let r = i / c0;
        let c = i % c0;
        let r2 = rows - 1 - r;
        let c2 = c0 - 1 - c;
        let s = rs[r];
        let v = s.reverse();
        assert(rs.reverse()[r2] == s);
        assert(ts[r2] == v.map_values(|ch: char| turn_case('b', ch)));
        lemma_rank_cells_reverse(s);
        lemma_rank_cells_swap(v);
        lemma_rank_cells_len(s);
        lemma_rank_pieces(s, 'w');
        lemma_grid_index(ts, 'b', cols, r2, c2);
        lemma_grid_index(rs, 'w', cols, r, c);
        let e = rank_cells(s);
        assert(e.reverse()[c2] == e[c]);
        crate::xqb::lemma_cell_in_range(r2, c2, rows, c0);
        assert(r2 * c0 + c2 == (rows - 1 - r) * c0 + (c0 - 1 - c));
        if e[c] is Some {
            let ch = e[c]->0;
            assert(piece_code(ch) is Some);
            lemma_turn_case_letter(ch);
        }
        assert(i == r * c0 + c);
    }
    assert(crate::xqb::rotated(at, rows, c0) =~= a);
}

/// A board, its left-right mirror image, and the board turned half a circle
/// with the colours swapped and black to move give one key: the same cells,
/// rows and columns, with the half turn recorded for the turned board. The
/// mirror image records the other left-right choice whenever its cells differ
/// from the board's. Boards with an even number of ranks (a middle rank is
/// left in place by the half turn).
pub proof fn lemma_key_symmetry(rs: Seq<Seq<char>>, cols: nat)
    requires
        rs.len() >= 2,
        rs.len() % 2 == 0,
        cols >= 1,
        ranks_ok(rs, 'w', cols),
    ensures
        ({
            let b = join_ranks(rs) + seq![' ', 'w'];
            let l = join_ranks(mirror_ranks(rs)) + seq![' ', 'w'];
            let s = join_ranks(turned_ranks(rs)) + seq![' ', 'b'];
            &&& crate::xqb::key_cells(b) is Some
            &&& crate::xqb::key_cells(l) is Some
            &&& crate::xqb::key_cells(s) is Some
            &&& crate::xqb::spec_rows_cols(l) == crate::xqb::spec_rows_cols(b)
            &&& crate::xqb::spec_rows_cols(s) == crate::xqb::spec_rows_cols(b)
            &&& (crate::xqb::key_cells(l)->0).0 == (crate::xqb::key_cells(b)->0).0
            &&& (crate::xqb::key_cells(s)->0).0 == (crate::xqb::key_cells(b)->0).0
            &&& !(crate::xqb::key_cells(b)->0).1
            &&& !(crate::xqb::key_cells(l)->0).1
            &&& (crate::xqb::key_cells(s)->0).1
            &&& (crate::xqb::key_cells(s)->0).2 == (crate::xqb::key_cells(b)->0).2
            &&& board_cells(grid_cells(mirror_ranks(rs)), 'w') != board_cells(grid_cells(rs), 'w')
                ==> (crate::xqb::key_cells(l)->0).2 != (crate::xqb::key_cells(b)->0).2
        }),
{
    let ms = mirror_ranks(rs);
    let ts = turned_ranks(rs);
    let n = rs.len() as int;
    assert(ranks_ok(ms, 'w', cols)) by {
        assert forall|r: int| 0 <= r < ms.len() implies rank_ok(#[trigger] ms[r], 'w') && rank_width(ms[r]) == cols by {
            lemma_rank_flips(rs[r]);
        }
    }
    assert(ranks_ok(ts, 'b', cols)) by {
        assert forall|r: int| 0 <= r < ts.len() implies rank_ok(#[trigger] ts[r], 'b') && rank_width(ts[r]) == cols by {
            assert(rs.reverse()[r] == rs[n - 1 - r]);
            lemma_rank_flips(rs[n - 1 - r]);
        }
    }
    assert(ts.len() == rs.len());
    lemma_fen_of_ranks(rs, 'w', cols);
    lemma_fen_of_ranks(ms, 'w', cols);
    lemma_fen_of_ranks(ts, 'b', cols);
    lemma_mirror_cells(rs, cols);
    lemma_turn_cells(rs, cols);
    let a = board_cells(grid_cells(rs), 'w');
    lemma_grid_len(rs, 'w', cols);
    assert(a.len() == n * cols);
    crate::xqb::lemma_mirror_same_key_cells(a, n, cols as int);
    crate::xqb::lemma_lr_scan_of_mirror(a, n, cols as int, 0, 0);
    crate::xqb::lemma_mirrored_facts(a, n, cols as int);
}

} // verus!
