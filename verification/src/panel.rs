//! Texts of the analysis panel: search time, score and win rates.
use vstd::prelude::*;

use crate::engine_info::EngineAnalyzeResult;
use crate::engine_setup::{side_to_move_is_red, spec_side_to_move_is_red};
use crate::text::{decimal, decimal_nat, push_char, push_decimal_i64, push_decimal_u128, push_decimal_u64};
use crate::xqb::{percent_text, round_half_even};
use vstd::arithmetic::power2::{
    lemma2_to64, lemma2_to64_rest, lemma_pow2_adds, lemma_pow2_strictly_increases, lemma_pow2_unfold, pow2,
};

verus! {

/// The digit character of `d % 10`.
pub open spec fn digit_char(d: nat) -> char {
    ((d % 10) + 48) as char
}

/// Hundredths `t` written as a number with two decimals.
pub open spec fn hundredths_text(t: nat) -> Seq<char> {
    decimal_nat(t / 100) + seq!['.', digit_char(t / 10), digit_char(t)]
}

/// Appends [`hundredths_text`].
fn push_hundredths(s: &mut String, t: u128)
    ensures
        final(s)@ == old(s)@ + hundredths_text(t as nat),
{
    push_decimal_u128(s, t / 100);
    let tens: u8 = ((t / 10) % 10) as u8;
    let ones: u8 = (t % 10) as u8;
    push_char(s, '.');
    push_char(s, (tens + 48) as char);
    push_char(s, (ones + 48) as char);
    assert((tens + 48) as char == digit_char((t / 10) as nat));
    assert((ones + 48) as char == digit_char(t as nat));
    assert(final(s)@ =~= old(s)@ + hundredths_text(t as nat)) by {
        assert(hundredths_text(t as nat) =~= decimal_nat((t / 100) as nat) + seq![
            '.',
            digit_char((t / 10) as nat),
            digit_char(t as nat),
        ]);
    }
}

/// A search time as the panel shows it: whole milliseconds below a second,
/// else seconds with two decimals, `--` when unknown. The seconds are the
/// double nearest to the milliseconds (themselves taken as a double) over a
/// thousand, that double's exact value rounded half to even.
pub open spec fn time_text(ms: Option<u64>) -> Seq<char> {
    match ms {
        None => seq!['-', '-'],
        Some(v) => if v < 1000 {
            decimal_nat(v as nat) + seq!['m', 's']
        } else {
            let f = nearest_double(v as nat, 1);
            let k = nearest_double(f.0 / f.1, 1000);
            hundredths_text(round_half_even(100 * k.0, k.1)) + seq!['s']
        },
    }
}

/// The text of [`time_text`].
pub fn format_time_ms(ms: Option<u64>) -> (r: String)
    ensures
        r@ == time_text(ms),
{
    let mut s = String::new();
    match ms {
        None => {
            push_char(&mut s, '-');
            push_char(&mut s, '-');
            assert(s@ =~= time_text(ms));
        },
        Some(v) => {
            if v < 1000 {
                push_decimal_u64(&mut s, v);
                push_char(&mut s, 'm');
                push_char(&mut s, 's');
                assert(s@ =~= time_text(ms));
            } else {
                let f = nearest_double_exec(v as u128, 1);
                let fv: u128 = f.0 / f.1;
                proof {
                    if v < 0x20_0000_0000_0000 {
                        lemma_nearest_double_exact(v as nat);
                    }
                }
                let k = nearest_double_exec(fv, 1000);
                let t = round_half_even_u128(100 * k.0, k.1);
                push_hundredths(&mut s, t);
                push_char(&mut s, 's');
                assert(s@ =~= time_text(ms));
            }
        },
    }
    s
}

/// Hundredths of a pawn as a signed number with two decimals: `+` before a
/// positive value, `0.00` for zero.
pub open spec fn signed_hundredths(v: int) -> Seq<char> {
    if v > 0 {
        seq!['+'] + hundredths_text(v as nat)
    } else if v < 0 {
        seq!['-'] + hundredths_text((-v) as nat)
    } else {
        hundredths_text(0)
    }
}

/// Hundredths of a pawn shown for `m` centipawns: `m` itself below a pawn;
/// from a pawn on, the double nearest to `m` (itself taken as a double) over
/// a hundred, that double's exact value rounded half to even.
pub open spec fn cp_hundredths(m: nat) -> nat {
    if m < 100 {
        m
    } else {
        let f = nearest_double(m, 1);
        let k = nearest_double(f.0 / f.1, 100);
        round_half_even(100 * k.0, k.1)
    }
}

/// Centipawns written in pawns with two decimals: `+` before a positive value.
pub open spec fn pawns_text(cp: i64) -> Seq<char> {
    if cp > 0 {
        seq!['+'] + hundredths_text(cp_hundredths(cp as nat))
    } else if cp < 0 {
        seq!['-'] + hundredths_text(cp_hundredths((-cp) as nat))
    } else {
        hundredths_text(0)
    }
}

/// The score as the panel shows it: `M` and the mate distance, else the
/// engine's centipawns in pawns, else the score in pawns (`0` when it is zero).
pub open spec fn score_text(mate: Option<i32>, score_cp: Option<i64>, score: i64) -> Seq<char> {
    match mate {
        Some(m) => seq!['M'] + decimal(m as int),
        None => match score_cp {
            Some(cp) => pawns_text(cp),
            None => if score == 0 {
                seq!['0']
            } else {
                signed_hundredths(score as int)
            },
        },
    }
}

/// Appends [`signed_hundredths`].
fn push_signed_hundredths(s: &mut String, v: i64)
    ensures
        final(s)@ == old(s)@ + signed_hundredths(v as int),
{
    if v > 0 {
        push_char(s, '+');
        push_hundredths(s, v as u128);
        assert(final(s)@ =~= old(s)@ + signed_hundredths(v as int));
    } else if v < 0 {
        push_char(s, '-');
        let m: u64 = if v == i64::MIN { 9223372036854775808u64 } else { (-v) as u64 };
        push_hundredths(s, m as u128);
        assert(final(s)@ =~= old(s)@ + signed_hundredths(v as int));
    } else {
        push_hundredths(s, 0);
    }
}

/// [`cp_hundredths`] of `m`.
fn cp_hundredths_exec(m: u64) -> (r: u128)
    ensures
        r as nat == cp_hundredths(m as nat),
{
    if m < 100 {
        return m as u128;
    }
    let f = nearest_double_exec(m as u128, 1);
    let fv: u128 = f.0 / f.1;
    proof {
        if m < 0x20_0000_0000_0000 {
            lemma_nearest_double_exact(m as nat);
        }
    }
    let k = nearest_double_exec(fv, 100);
    round_half_even_u128(100 * k.0, k.1)
}

/// Appends [`pawns_text`].
fn push_pawns(s: &mut String, cp: i64)
    ensures
        final(s)@ == old(s)@ + pawns_text(cp),
{
    if cp > 0 {
        push_char(s, '+');
        let t = cp_hundredths_exec(cp as u64);
        push_hundredths(s, t);
        assert(final(s)@ =~= old(s)@ + pawns_text(cp));
    } else if cp < 0 {
        push_char(s, '-');
        let m: u64 = if cp == i64::MIN { 9223372036854775808u64 } else { (-cp) as u64 };
        let t = cp_hundredths_exec(m);
        push_hundredths(s, t);
        assert(final(s)@ =~= old(s)@ + pawns_text(cp));
    } else {
        push_hundredths(s, 0);
    }
}

/// The text of [`score_text`] for a search result.
pub fn format_score(result: &EngineAnalyzeResult) -> (r: String)
    ensures
        r@ == score_text(result.mate, result.score_cp, result.score),
{
    let mut s = String::new();
    if let Some(m) = result.mate {
        push_char(&mut s, 'M');
        push_decimal_i64(&mut s, m as i64);
        assert(s@ =~= score_text(result.mate, result.score_cp, result.score));
        return s;
    }
    match result.score_cp {
        Some(cp) => {
            push_pawns(&mut s, cp);
            assert(s@ =~= score_text(result.mate, result.score_cp, result.score));
        },
        None => {
            if result.score == 0 {
                push_char(&mut s, '0');
                assert(s@ =~= score_text(result.mate, result.score_cp, result.score));
            } else {
                push_signed_hundredths(&mut s, result.score);
                assert(s@ =~= score_text(result.mate, result.score_cp, result.score));
            }
        },
    }
    s
}

/// A share in percent: `num / den`.
#[derive(Clone, Copy, Debug, PartialEq, Eq, Structural)]
pub struct Percent {
    pub num: u128,
    pub den: u128,
}

/// Whether an optional share has a positive denominator.
pub open spec fn percent_ok(p: Option<Percent>) -> bool {
    match p {
        Some(x) => x.den > 0,
        None => true,
    }
}

/// Red's and black's winning chances in percent from a win/draw/loss count
/// given for the side to move, a draw counting half; none without counts.
pub open spec fn wdl_shares(red_to_move: bool, wdl: Option<[u64; 3]>) -> (Option<Percent>, Option<Percent>) {
    match wdl {
        None => (None, None),
        Some(a) => {
            let total = a[0] + a[1] + a[2];
            if total == 0 {
                (None, None)
            } else {
                let den = (2 * total) as u128;
                let mover = Percent { num: (100 * (2 * a[0] + a[1])) as u128, den };
                let other = Percent { num: (100 * (2 * a[2] + a[1])) as u128, den };
                if red_to_move {
                    (Some(mover), Some(other))
                } else {
                    (Some(other), Some(mover))
                }
            }
        },
    }
}

/// Red's and black's winning chances for the position `fen` from the
/// engine's win/draw/loss count.
pub fn red_black_winrate_pct_from_wdl(fen: &str, wdl: Option<[u64; 3]>) -> (r: (
    Option<Percent>,
    Option<Percent>,
))
    ensures
        r == wdl_shares(spec_side_to_move_is_red(fen@), wdl),
        percent_ok(r.0),
        percent_ok(r.1),
{
    match wdl {
        None => (None, None),
        Some(a) => {
            let w: u128 = a[0] as u128;
            let d: u128 = a[1] as u128;
            let l: u128 = a[2] as u128;
            let total: u128 = w + d + l;
            if total == 0 {
                return (None, None);
            }
            let den: u128 = 2 * total;
            let mover = Percent { num: 100 * (2 * w + d), den };
            let other = Percent { num: 100 * (2 * l + d), den };
            if side_to_move_is_red(fen) {
                (Some(mover), Some(other))
            } else {
                (Some(other), Some(mover))
            }
        },
    }
}

/// Appends [`percent_text`] of a share.
fn push_percent(s: &mut String, num: u128, den: u128)
    requires
        0 < den,
        num <= 0x1_0000_0000_0000_0000_0000_0000,
    ensures
        final(s)@ == old(s)@ + percent_text(num as int, den as int),
{
    let n: u128 = 10 * num;
    let q: u128 = n / den;
    let rem: u128 = n % den;
    assert(q <= n) by (nonlinear_arith)
        requires
            q == n / den,
            den > 0,
    ;
    let rest: u128 = den - rem;
    let t: u128 = if rem > rest {
        q + 1
    } else if rem < rest {
        q
    } else if q % 2 == 0 {
        q
    } else {
        q + 1
    };
    assert(t == round_half_even((10 * num) as nat, den as nat));
    let digit: u8 = (t % 10) as u8;
    push_decimal_u128(s, t / 10);
    push_char(s, '.');
    push_char(s, (digit + 48) as char);
    push_char(s, '%');
    assert((digit + 48) as char == ((t % 10) + 48) as char);
    assert(final(s)@ =~= old(s)@ + percent_text(num as int, den as int));
}

/// The win rates as the panel shows them: `red%/black%` with one decimal,
/// `--/--` unless both are known.
pub open spec fn win_text(red: Option<Percent>, black: Option<Percent>) -> Seq<char> {
    match (red, black) {
        (Some(r), Some(b)) => percent_text(r.num as int, r.den as int) + seq!['/'] + percent_text(
            b.num as int,
            b.den as int,
        ),
        _ => seq!['-', '-', '/', '-', '-'],
    }
}

/// The text of [`win_text`].
pub fn format_win_rate(red: Option<Percent>, black: Option<Percent>) -> (r: String)
    requires
        percent_ok(red),
        percent_ok(black),
        match red {
            Some(p) => p.num <= 0x1_0000_0000_0000_0000_0000_0000,
            None => true,
        },
        match black {
            Some(p) => p.num <= 0x1_0000_0000_0000_0000_0000_0000,
            None => true,
        },
    ensures
        r@ == win_text(red, black),
{
    let mut s = String::new();
    match (red, black) {
        (Some(r), Some(b)) => {
            push_percent(&mut s, r.num, r.den);
            push_char(&mut s, '/');
            push_percent(&mut s, b.num, b.den);
            assert(s@ =~= win_text(red, black));
        },
        _ => {
            push_char(&mut s, '-');
            push_char(&mut s, '-');
            push_char(&mut s, '/');
            push_char(&mut s, '-');
            push_char(&mut s, '-');
            assert(s@ =~= win_text(red, black));
        },
    }
    s
}

/// The largest `e` with `d * 2^e <= n` (0 when `n < 2 * d`).
pub open spec fn log2_ratio(n: nat, d: nat) -> nat
    decreases n - d,
{
    if d == 0 || n < 2 * d {
        0
    } else {
        1 + log2_ratio(n, 2 * d)
    }
}

/// The double nearest to `n / d` (for `n >= d >= 1`), as a fraction
/// `(numerator, denominator)`: 53 significant bits, a tie going to the even
/// significand.
pub open spec fn nearest_double(n: nat, d: nat) -> (nat, nat) {
    let e = log2_ratio(n, d);
    if e <= 52 {
        let s = pow2((52 - e) as nat);
        (round_half_even(n * s, d), s)
    } else {
        let s = pow2((e - 52) as nat);
        (round_half_even(n, d * s) * s, 1)
    }
}

/// A node count as the panel shows it: below a thousand as it is, else the
/// double nearest to the count (itself taken as a double) over a thousand,
/// with a `k` — with one decimal below a hundred thousand, none from there
/// on, the double's exact value rounded half to even.
pub open spec fn count_k_text(v: u64) -> Seq<char> {
    if v < 1000 {
        decimal_nat(v as nat)
    } else if v >= 100_000 {
        let f = nearest_double(v as nat, 1);
        let k = nearest_double(f.0 / f.1, 1000);
        decimal_nat(round_half_even(k.0, k.1)) + seq!['k']
    } else {
        let k = nearest_double(v as nat, 1000);
        let t = round_half_even(10 * k.0, k.1);
        decimal_nat(t / 10) + seq!['.', digit_char(t), 'k']
    }
}

/// A whole number below `2^53` is its own double.
proof fn lemma_nearest_double_exact(n: nat)
    requires
        1 <= n < 0x20_0000_0000_0000,
    ensures
        nearest_double(n, 1).1 >= 1,
        nearest_double(n, 1).0 / nearest_double(n, 1).1 == n,
{
    lemma_log2_ratio(n, 1);
    lemma2_to64();
    let e = log2_ratio(n, 1);
    assert(pow2(e) <= n);
    lemma2_to64_rest();
    if e > 53 {
        lemma_pow2_strictly_increases(53, e);
    }
    assert(e <= 52);
    let s = pow2((52 - e) as nat);
    vstd::arithmetic::power2::lemma_pow2_pos((52 - e) as nat);
    assert(round_half_even(n * s, 1) == n * s) by {
        assert((n * s) / 1 == n * s);
        assert((n * s) % 1 == 0);
    }
    assert((n * s) / s == n) by (nonlinear_arith)
        requires
            s > 0,
    ;
}

proof fn lemma_log2_ratio(n: nat, d: nat)
    requires
        1 <= d <= n,
    ensures
        d * pow2(log2_ratio(n, d)) <= n < d * pow2(log2_ratio(n, d) + 1),
    decreases n - d,
{
    lemma_pow2_unfold(1);
    lemma2_to64();
    if n < 2 * d {
        assert(log2_ratio(n, d) == 0);
        assert(d * pow2(0) == d && d * pow2(1) == 2 * d) by (nonlinear_arith)
            requires
                pow2(0) == 1,
                pow2(1) == 2,
        ;
    } else {
        lemma_log2_ratio(n, 2 * d);
        let e = log2_ratio(n, 2 * d);
        assert(log2_ratio(n, d) == e + 1);
        lemma_pow2_unfold(e + 1);
        lemma_pow2_unfold(e + 2);
        assert(2 * d * pow2(e) == d * pow2(e + 1)) by (nonlinear_arith)
            requires
                pow2(e + 1) == 2 * pow2(e),
        ;
        assert(2 * d * pow2(e + 1) == d * pow2(e + 2)) by (nonlinear_arith)
            requires
                pow2(e + 2) == 2 * pow2(e + 1),
        ;
    }
}

proof fn lemma_round_half_even_bounds(n: nat, d: nat)
    requires
        d >= 1,
    ensures
        n / d <= round_half_even(n, d) <= n / d + 1,
        (n / d) * d <= n < (n / d + 1) * d,
{
    assert((n / d) * d <= n < (n / d + 1) * d) by (nonlinear_arith)
        requires
            d >= 1,
    ;
}

/// `n / d` rounded half to even.
fn round_half_even_u128(n: u128, d: u128) -> (r: u128)
    requires
        d >= 1,
    ensures
        r == round_half_even(n as nat, d as nat),
{
    let q = n / d;
    let rem = n % d;
    if d >= 2 {
        assert(q < 0xffff_ffff_ffff_ffff_ffff_ffff_ffff_ffff) by (nonlinear_arith)
            requires
                q == n / d,
                d >= 2,
        ;
    }
    if rem > d - rem {
        q + 1
    } else if rem < d - rem {
        q
    } else if q % 2 == 0 {
        q
    } else {
        q + 1
    }
}

/// `2^k` for `k` up to 64.
fn pow2_u128(k: u32) -> (r: u128)
    requires
        k <= 64,
    ensures
        r == pow2(k as nat),
        r <= 0x1_0000_0000_0000_0000,
{
    proof {
        lemma2_to64();
    }
    let mut r: u128 = 1;
    let mut i: u32 = 0;
    while i < k
        invariant
            i <= k <= 64,
            r == pow2(i as nat),
            r <= 0x1_0000_0000_0000_0000,
        decreases k - i,
    {
        proof {
            lemma_pow2_unfold((i + 1) as nat);
            lemma2_to64();
            if i + 1 < 64 {
                lemma_pow2_strictly_increases((i + 1) as nat, 64);
            }
        }
        r = r * 2;
        i = i + 1;
    }
    r
}

/// The double nearest to `n / d`, as [`nearest_double`] gives it.
fn nearest_double_exec(n: u128, d: u128) -> (r: (u128, u128))
    requires
        1 <= d <= 1000,
        d <= n,
        n < 0x4_0000_0000_0000_0000,
    ensures
        (r.0 as nat, r.1 as nat) == nearest_double(n as nat, d as nat),
        r.1 >= 1,
        r.0 < 0x1_0000_0000_0000_0000_0000,
        d == 1 ==> n - 16384 <= r.0 / r.1 <= n + 16384,
{
    proof {
        lemma2_to64();
        lemma2_to64_rest();
        lemma_pow2_unfold(65);
        lemma_pow2_unfold(66);
    }
    let mut dd: u128 = d;
    let mut e: u32 = 0;
    while dd <= n / 2
        invariant
            1 <= d <= 1000,
            d <= dd <= n,
            n < 0x4_0000_0000_0000_0000,
            dd == d * pow2(e as nat),
            e < 66,
            pow2(66) == 0x4_0000_0000_0000_0000,
            log2_ratio(n as nat, d as nat) == e + log2_ratio(n as nat, dd as nat),
        decreases n - dd,
    {
        proof {
            lemma_pow2_unfold((e + 1) as nat);
            assert(d * pow2((e + 1) as nat) == 2 * dd) by (nonlinear_arith)
                requires
                    dd == d * pow2(e as nat),
                    pow2((e + 1) as nat) == 2 * pow2(e as nat),
            ;
            if e + 1 >= 66 {
                if e + 1 > 66 {
                    lemma_pow2_strictly_increases(66, (e + 1) as nat);
                }
                assert(d * pow2((e + 1) as nat) >= pow2((e + 1) as nat)) by (nonlinear_arith)
                    requires
                        d >= 1,
                ;
            }
        }
        dd = dd * 2;
        e = e + 1;
    }
    proof {
        lemma_log2_ratio(n as nat, d as nat);
    }
    assert(log2_ratio(n as nat, d as nat) == e);
    if e <= 52 {
        let s = pow2_u128(52 - e);
        proof {
            lemma_pow2_adds((e + 1) as nat, (52 - e) as nat);
            assert(((e + 1) + (52 - e)) as nat == 53nat);
            assert(n * s < d * pow2(53)) by (nonlinear_arith)
                requires
                    n < d * pow2((e + 1) as nat),
                    s == pow2((52 - e) as nat),
                    pow2(53) == pow2((e + 1) as nat) * pow2((52 - e) as nat),
                    s > 0,
            ;
            assert(d * pow2(53) <= 1000 * 0x20_0000_0000_0000) by (nonlinear_arith)
                requires
                    d <= 1000,
                    pow2(53) == 0x20_0000_0000_0000,
            ;
        }
        let m = round_half_even_u128(n * s, d);
        proof {
            lemma_round_half_even_bounds((n * s) as nat, d as nat);
            if d == 1 {
                assert(m == n * s);
                assert(((n as int) * (s as int)) / (s as int) == n as int) by (nonlinear_arith)
                    requires
                        s > 0,
                ;
            }
        }
        (m, s)
    } else {
        let s = pow2_u128(e - 52);
        proof {
            if e - 52 < 14 {
                lemma_pow2_strictly_increases((e - 52) as nat, 14);
            }
            assert(pow2(14) == 16384);
            vstd::arithmetic::power2::lemma_pow2_pos((e - 52) as nat);
            assert(d * s >= 1 && d * s <= 16384000) by (nonlinear_arith)
                requires
                    1 <= d <= 1000,
                    1 <= s <= 16384,
            ;
        }
        let m = round_half_even_u128(n, d * s);
        proof {
            let ni = n as int;
            let ds = (d * s) as int;
            let mi = m as int;
            let si = s as int;
            lemma_round_half_even_bounds(n as nat, (d * s) as nat);
            let q = ni / ds;
            assert(q >= 0) by (nonlinear_arith)
                requires
                    ni >= 0,
                    ds >= 1,
                    q == ni / ds,
            ;
            assert(q * si <= q * ds) by (nonlinear_arith)
                requires
                    q >= 0,
                    ds == (d as int) * si,
                    d >= 1,
                    si >= 1,
            ;
            assert(mi * si <= q * si + si) by (nonlinear_arith)
                requires
                    mi <= q + 1,
                    si >= 1,
            ;
            if d == 1 {
                assert(mi * si + si > ni) by (nonlinear_arith)
                    requires
                        mi >= ni / ds,
                        ni < (ni / ds + 1) * ds,
                        ds == si,
                        si >= 1,
                ;
            }
        }
        (m * s, 1)
    }
}

/// The text of [`count_k_text`].
pub fn format_count_k(value: u64) -> (r: String)
    ensures
        r@ == count_k_text(value),
{
    let mut s = String::new();
    if value < 1000 {
        push_decimal_u64(&mut s, value);
        assert(s@ =~= count_k_text(value));
    } else if value >= 100_000 {
        let f = nearest_double_exec(value as u128, 1);
        let fv = f.0 / f.1;
        let k = nearest_double_exec(fv, 1000);
        let t = round_half_even_u128(k.0, k.1);
        push_decimal_u128(&mut s, t);
        push_char(&mut s, 'k');
        assert(s@ =~= count_k_text(value));
    } else {
        let k = nearest_double_exec(value as u128, 1000);
        let t = round_half_even_u128(10 * k.0, k.1);
        let digit: u8 = (t % 10) as u8;
        push_decimal_u128(&mut s, t / 10);
        push_char(&mut s, '.');
        push_char(&mut s, (digit + 48) as char);
        push_char(&mut s, 'k');
        assert((digit + 48) as char == digit_char(t as nat));
        assert(s@ =~= count_k_text(value));
    }
    s
}

} // verus!
