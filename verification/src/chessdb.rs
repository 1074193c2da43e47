use vstd::prelude::*;

use crate::book::{
    BookCandidate, BookResponse, CandidateView, Ratio, ResponseView, all_wf, cand_views,
    clone_opt, empty_view, find_move_from, move_key, move_key_of,
};
use crate::engine_setup::opt_view;
use crate::input::byte_len;
use crate::text::{
    chars_eq, chars_of, contains_seq, contains_str, digit_value, digits_value, is_digit, parse_i64, push_str,
    signed_value, split_char, split_char_chars, string_from_chars, trim, trim_chars,
};
use crate::xqb::{find_char, find_char_exec, lemma_find_char_bounds, round_half_even};

verus! {

/// The UTF-8 bytes of one character.
pub open spec fn utf8_bytes(c: char) -> Seq<u8> {
    let n = c as int;
    if n < 0x80 {
        seq![n as u8]
    } else if n < 0x800 {
        seq![(0xC0 + n / 64) as u8, (0x80 + n % 64) as u8]
    } else if n < 0x10000 {
        seq![(0xE0 + n / 4096) as u8, (0x80 + (n / 64) % 64) as u8, (0x80 + n % 64) as u8]
    } else {
        seq![
            (0xF0 + n / 262144) as u8,
            (0x80 + (n / 4096) % 64) as u8,
            (0x80 + (n / 64) % 64) as u8,
            (0x80 + n % 64) as u8,
        ]
    }
}

/// An upper-case hexadecimal digit.
pub open spec fn hex_digit(d: int) -> char {
    if d < 10 {
        (48 + d) as char
    } else {
        (55 + d) as char
    }
}

/// Bytes kept as they are in a URL: ASCII letters and digits, `-`, `.`, `_`, `~`.
pub open spec fn url_safe(b: u8) -> bool {
    ||| (48 <= b && b <= 57)
    ||| (65 <= b && b <= 90)
    ||| (97 <= b && b <= 122)
    ||| b == 45
    ||| b == 46
    ||| b == 95
    ||| b == 126
}

/// One byte as it appears in a URL: itself when safe, else `%` and two
/// upper-case hexadecimal digits.
pub open spec fn url_byte(b: u8) -> Seq<char> {
    if url_safe(b) {
        seq![b as char]
    } else {
        seq!['%', hex_digit(b as int / 16), hex_digit(b as int % 16)]
    }
}

/// The URL form of a sequence of bytes.
pub open spec fn url_bytes(b: Seq<u8>) -> Seq<char>
    decreases b.len(),
{
    if b.len() == 0 {
        Seq::empty()
    } else {
        url_bytes(b.drop_last()) + url_byte(b.last())
    }
}

/// The URL form of a text: each of its UTF-8 bytes in turn.
pub open spec fn url_encoded(s: Seq<char>) -> Seq<char>
    decreases s.len(),
{
    if s.len() == 0 {
        Seq::empty()
    } else {
        url_encoded(s.drop_last()) + url_bytes(utf8_bytes(s.last()))
    }
}

/// `urlencoding::encode`: percent-encodes every UTF-8 byte of `s` except
/// ASCII letters and digits and `-`, `_`, `.`, `~`, with upper-case
/// hexadecimal digits.
#[verifier::external_body]
fn url_encode(s: &str) -> (r: String)
    ensures
        r@ == url_encoded(s@),
{
    urlencoding::encode(s).into_owned()
}

/// Base of the chessdb.cn query URLs.
pub const CHESSDB_BASE: &'static str = "http://www.chessdb.cn/chessdb.php?action=";

/// The chessdb.cn URL that asks for every known move of `fen` (`queryall`)
/// or only for the best one (`querybest`).
pub open spec fn spec_chessdb_url(fen: Seq<char>, all_moves: bool) -> Seq<char> {
    if all_moves {
        CHESSDB_BASE@ + "queryall&board="@ + url_encoded(fen) + "&showall=1&learn=0"@
    } else {
        CHESSDB_BASE@ + "querybest&board="@ + url_encoded(fen)
    }
}

/// The chessdb.cn query URL for `fen`.
pub fn chessdb_url(fen: &str, all_moves: bool) -> (r: String)
    ensures
        r@ == spec_chessdb_url(fen@, all_moves),
{
    let mut s = String::new();
    push_str(&mut s, CHESSDB_BASE);
    if all_moves {
        push_str(&mut s, "queryall&board=");
    } else {
        push_str(&mut s, "querybest&board=");
    }
    let enc = url_encode(fen);
    push_str(&mut s, enc.as_str());
    if all_moves {
        push_str(&mut s, "&showall=1&learn=0");
    }
    assert(s@ =~= spec_chessdb_url(fen@, all_moves));
    s
}

/// Case folding for matching the service's words: ASCII capitals and the
/// Kelvin sign (the one character outside ASCII whose lower case is an ASCII
/// letter) become lower-case ASCII; every other character stays. Against the
/// ASCII words this module looks for, this matches as `str::to_lowercase` does.
pub open spec fn fold_char(c: char) -> char {
    if 'A' <= c && c <= 'Z' {
        crate::text::ascii_lower(c)
    } else if c == '\u{212A}' {
        'k'
    } else {
        c
    }
}

pub open spec fn fold(s: Seq<char>) -> Seq<char> {
    Seq::new(s.len(), |i: int| fold_char(s[i]))
}

fn fold_chars(s: &[char]) -> (r: Vec<char>)
    ensures
        r@ == fold(s@),
{
    let mut r: Vec<char> = Vec::new();
    let mut i: usize = 0;
    while i < s.len()
        invariant
            i <= s@.len(),
            r@ == fold(s@).take(i as int),
        decreases s.len() - i,
    {
        let c = s[i];
        let f: char = if 'A' <= c && c <= 'Z' {
            crate::text::char_lower(c)
        } else if c == '\u{212A}' {
            'k'
        } else {
            c
        };
        r.push(f);
        i = i + 1;
        assert(r@ =~= fold(s@).take(i as int));
    }
    assert(fold(s@).take(s@.len() as int) =~= fold(s@));
    r
}

/// An answer of the service that reports a bad board or no move.
pub open spec fn spec_bad_response(text: Seq<char>) -> bool {
    let t = fold(text);
    contains_seq(t, "invalid board"@) || contains_seq(t, "unknown"@) || contains_seq(t, "nobestmove"@)
}

/// Whether the service's answer reports a bad board or no move.
pub fn bad_response(text: &str) -> (r: bool)
    ensures
        r == spec_bad_response(text@),
{
    let v = chars_of(text);
    let t = fold_chars(v.as_slice());
    contains_str(t.as_slice(), "invalid board") || contains_str(t.as_slice(), "unknown")
        || contains_str(t.as_slice(), "nobestmove")
}

/// The leftmost match of the regular expression `pattern` in `text`.
pub uninterp spec fn leftmost_match(pattern: Seq<char>, text: Seq<char>) -> Option<Seq<char>>;

/// `regex::Regex::find`: the leftmost match of `pattern` in `text`, as text;
/// `None` when there is none or the pattern does not compile.
#[verifier::external_body]
fn regex_find(pattern: &str, text: &str) -> (r: Option<String>)
    ensures
        match r {
            Some(m) => leftmost_match(pattern@, text@) == Some(m@),
            None => leftmost_match(pattern@, text@) is None,
        },
{
    match regex::Regex::new(pattern) {
        Ok(re) => re.find(text).map(|m| m.as_str().to_string()),
        Err(_) => None,
    }
}

/// The number pattern of the service's fields: an optional sign, digits, and
/// an optional fraction.
pub const NUMBER_PATTERN: &'static str = r"[-+]?\d+(?:\.\d+)?";

/// `10^k`.
pub open spec fn pow10(k: nat) -> nat
    decreases k,
{
    if k == 0 {
        1
    } else {
        10 * pow10((k - 1) as nat)
    }
}

/// Every character is an ASCII digit.
pub open spec fn all_digits(s: Seq<char>) -> bool {
    forall|i: int| 0 <= i < s.len() ==> is_digit(s[i])
}

/// The value of a run of ASCII digits (0 for an empty run).
pub open spec fn digit_run_value(s: Seq<char>) -> nat
    decreases s.len(),
{
    if s.len() == 0 {
        0
    } else {
        digit_run_value(s.drop_last()) * 10 + digit_value(s.last()) as nat
    }
}

/// `v` kept to `k` of its `f` decimals: rounded half to even at that place.
pub open spec fn rounded_to(v: nat, f: nat, k: nat) -> nat {
    round_half_even(v, pow10((f - k) as nat))
}

/// The most decimals, from `k` down, with which the rounded value of `v`
/// (having `f` decimals) still fits an `i64`.
pub open spec fn fitting_decimals(v: nat, f: nat, k: nat) -> Option<nat>
    decreases k,
{
    if rounded_to(v, f, k) <= i64::MAX {
        Some(k)
    } else if k == 0 {
        None
    } else {
        fitting_decimals(v, f, (k - 1) as nat)
    }
}

/// The value `v` with `f` decimals (negated when `neg`), kept with as many
/// of them, at most 18, as let the rounded numerator fit an `i64`.
pub open spec fn fitted_ratio(v: nat, f: nat, neg: bool) -> Option<Ratio> {
    match fitting_decimals(v, f, if f < 18 { f } else { 18 }) {
        None => None,
        Some(k) => {
            let rv = rounded_to(v, f, k) as int;
            Some(Ratio { num: (if neg { -rv } else { rv }) as i64, den: pow10(k) as u64 })
        },
    }
}

/// The value of a decimal text: an optional sign, ASCII digits, and an
/// optional `.` followed by ASCII digits; `None` for any other text. The
/// value is kept with all its decimals, at most 18, or with as many as let
/// the numerator fit an `i64` (rounded half to even at the last one kept);
/// `None` when even its whole part does not fit.
pub open spec fn decimal_ratio(m: Seq<char>) -> Option<Ratio> {
    let neg = m.len() > 0 && m[0] == '-';
    let body = if m.len() > 0 && (m[0] == '-' || m[0] == '+') { m.drop_first() } else { m };
    let (int_part, frac) = match crate::xqb::find_char(body, '.', 0) {
        Some(i) => (body.take(i), body.skip(i + 1)),
        None => (body, Seq::<char>::empty()),
    };
    let has_point = crate::xqb::find_char(body, '.', 0) is Some;
    if has_point && frac.len() == 0 {
        None
    } else {
        match digits_value(int_part + frac) {
            None => None,
            Some(v) => {
                fitted_ratio(v as nat, frac.len(), neg)
            },
        }
    }
}

/// `decimal_ratio` of a text whose digits, without the point, read `v`.
proof fn lemma_decimal_ratio_parts(m: Seq<char>, int_part: Seq<char>, frac: Seq<char>, v: nat)
    requires
        ({
            let body = if m.len() > 0 && (m[0] == '-' || m[0] == '+') { m.drop_first() } else { m };
            &&& int_part == match crate::xqb::find_char(body, '.', 0) {
                Some(i) => body.take(i),
                None => body,
            }
            &&& frac == match crate::xqb::find_char(body, '.', 0) {
                Some(i) => body.skip(i + 1),
                None => Seq::<char>::empty(),
            }
            &&& !(crate::xqb::find_char(body, '.', 0) is Some && frac.len() == 0)
        }),
        digits_value(int_part + frac) == Some(v as int),
    ensures
        decimal_ratio(m) == fitted_ratio(v, frac.len(), m.len() > 0 && m[0] == '-'),
{
}

/// A run of digits read with `digits_value` has the value of the run.
proof fn lemma_digits_value_run(s: Seq<char>)
    ensures
        digits_value(s) is Some <==> (s.len() > 0 && all_digits(s)),
        digits_value(s) is Some ==> digits_value(s) == Some(digit_run_value(s) as int),
    decreases s.len(),
{
    if s.len() > 1 {
        lemma_digits_value_run(s.drop_last());
        assert(s.last() == s[s.len() - 1]);
        if all_digits(s) {
            assert(all_digits(s.drop_last()));
            assert(is_digit(s.last()));
        }
        if digits_value(s) is Some {
            assert forall|i: int| 0 <= i < s.len() implies is_digit(s[i]) by {
                if i < s.len() - 1 {
                    assert(s.drop_last()[i] == s[i]);
                }
            }
        }
    } else if s.len() == 1 {
        assert(s.drop_last().len() == 0);
        assert(digit_run_value(s.drop_last()) == 0);
        assert(s.last() == s[0]);
        if digits_value(s) is Some {
            assert forall|i: int| 0 <= i < s.len() implies is_digit(s[i]) by {}
        }
        if all_digits(s) {
            assert(is_digit(s[0]));
        }
    }
}

/// Digits written one after another: the first run shifted by the length of the second.
proof fn lemma_digit_run_concat(a: Seq<char>, b: Seq<char>)
    ensures
        digit_run_value(a + b) == digit_run_value(a) * pow10(b.len()) + digit_run_value(b),
    decreases b.len(),
{
    if b.len() == 0 {
        assert(a + b =~= a);
        assert(pow10(0) == 1);
        assert(digit_run_value(b) == 0);
        assert(digit_run_value(a) * 1 == digit_run_value(a));
    } else {
        assert((a + b).drop_last() =~= a + b.drop_last());
        lemma_digit_run_concat(a, b.drop_last());
        let x = digit_run_value(a);
        let p = pow10(b.drop_last().len());
        let y = digit_run_value(b.drop_last());
        assert((a + b).last() == b.last());
        assert(b.drop_last().len() == b.len() - 1);
        assert(pow10(b.len()) == 10 * p);
        assert(digit_run_value(a + b) == digit_run_value((a + b).drop_last()) * 10 + digit_value(
            (a + b).last(),
        ) as nat);
        assert(digit_run_value(b) == y * 10 + digit_value(b.last()) as nat);
        assert((x * p + y) * 10 == x * (10 * p) + y * 10) by (nonlinear_arith);
        assert(digit_run_value(a + b.drop_last()) == x * p + y);
        assert(digit_run_value(a + b) == (x * p + y) * 10 + digit_value(b.last()) as nat);
        assert(x * pow10(b.len()) == x * (10 * p));
    }
}

/// A run of `n` digits is below `10^n`.
proof fn lemma_digit_run_bound(s: Seq<char>)
    requires
        all_digits(s),
    ensures
        digit_run_value(s) < pow10(s.len()),
    decreases s.len(),
{
    if s.len() > 0 {
        assert(all_digits(s.drop_last()));
        lemma_digit_run_bound(s.drop_last());
        assert(is_digit(s.last()));
    }
}

/// Some digit of the run is not `0`.
pub open spec fn has_nonzero(s: Seq<char>) -> bool {
    exists|i: int| 0 <= i < s.len() && s[i] != '0'
}

/// A run of digits is 0 exactly when every digit is `0`.
proof fn lemma_digit_run_zero(s: Seq<char>)
    requires
        all_digits(s),
    ensures
        (digit_run_value(s) == 0) == !has_nonzero(s),
    decreases s.len(),
{
    if s.len() > 0 {
        assert(all_digits(s.drop_last()));
        lemma_digit_run_zero(s.drop_last());
        if has_nonzero(s.drop_last()) {
            let i = choose|i: int| 0 <= i < s.drop_last().len() && s.drop_last()[i] != '0';
            assert(s[i] != '0');
        }
        if has_nonzero(s) && !has_nonzero(s.drop_last()) {
            let i = choose|i: int| 0 <= i < s.len() && s[i] != '0';
            if i < s.len() - 1 {
                assert(s.drop_last()[i] != '0');
            }
        }
        if s.last() != '0' {
            assert(has_nonzero(s)) by {
                assert(s[s.len() - 1] != '0');
            }
        }
    }
}

/// Whether dropping the digits `rest` rounds the kept number up: more than
/// half, or exactly half and the kept number odd.
pub open spec fn rounds_up(rest: Seq<char>, kept_odd: bool) -> bool {
    rest.len() > 0 && (rest[0] > '5' || (rest[0] == '5' && (has_nonzero(rest.drop_first()) || kept_odd)))
}

/// Rounding a number to drop its last digits, read off those digits.
proof fn lemma_round_by_digits(q: nat, rest: Seq<char>)
    requires
        all_digits(rest),
    ensures
        round_half_even(q * pow10(rest.len()) + digit_run_value(rest), pow10(rest.len())) == q + if rounds_up(
            rest,
            q % 2 == 1,
        ) {
            1nat
        } else {
            0nat
        },
{
    let t = rest.len();
    let pp = pow10(t);
    let r = digit_run_value(rest);
    lemma_digit_run_bound(rest);
    lemma_pow10_pos(t);
    let v = q * pp + r;
    vstd::arithmetic::div_mod::lemma_fundamental_div_mod_converse(v as int, pp as int, q as int, r as int);
    if t > 0 {
        let head = rest.take(1);
        let tail = rest.drop_first();
        assert(head + tail =~= rest);
        lemma_digit_run_concat(head, tail);
        assert(all_digits(tail));
        lemma_digit_run_bound(tail);
        lemma_digit_run_zero(tail);
        assert(head.drop_last().len() == 0);
        assert(digit_run_value(head.drop_last()) == 0);
        assert(head.last() == rest[0]);
        assert(is_digit(rest[0]));
        assert(digit_run_value(head) == digit_value(rest[0]) as nat);
        let p1 = pow10(tail.len());
        assert(pp == 10 * p1);
        let d0 = digit_value(rest[0]);
        let y = digit_run_value(tail);
        assert(0 <= d0 <= 9);
        assert(r == d0 * p1 + y);
        if rest[0] > '5' {
            assert(d0 >= 6);
            assert(2 * r > pp) by (nonlinear_arith)
                requires
                    r == d0 * p1 + y,
                    d0 >= 6,
                    pp == 10 * p1,
                    p1 >= 1,
                    y >= 0,
            ;
        } else if '5' > rest[0] {
            assert(d0 <= 4);
            assert(2 * r < pp) by (nonlinear_arith)
                requires
                    r == d0 * p1 + y,
                    0 <= d0 <= 4,
                    pp == 10 * p1,
                    0 <= y < p1,
            ;
        } else {
            assert(d0 == 5);
            assert(2 * r == pp + 2 * y) by (nonlinear_arith)
                requires
                    r == d0 * p1 + y,
                    d0 == 5,
                    pp == 10 * p1,
            ;
        }
    } else {
        assert(pp == 1);
    }
}

/// A field's number: `None` for an empty field or one of `?`, `??`, `none`,
/// `null` (in any case), else the value of the first number in it.
pub open spec fn spec_extract_number(v: Seq<char>) -> Option<Ratio> {
    let s = trim(v);
    let f = fold(s);
    if s.len() == 0 || f == "?"@ || f == "??"@ || f == "none"@ || f == "null"@ {
        None
    } else {
        match leftmost_match(NUMBER_PATTERN@, s) {
            Some(m) => decimal_ratio(m),
            None => None,
        }
    }
}

proof fn lemma_pow10_mono(a: nat, b: nat)
    requires
        a <= b,
    ensures
        1 <= pow10(a) <= pow10(b),
    decreases b,
{
    if a < b {
        lemma_pow10_mono(a, (b - 1) as nat);
    } else {
        lemma_pow10_pos(a);
    }
}

proof fn lemma_pow10_pos(k: nat)
    ensures
        pow10(k) >= 1,
    decreases k,
{
    if k > 0 {
        lemma_pow10_pos((k - 1) as nat);
    }
}

proof fn lemma_pow10_bound(k: nat)
    requires
        k <= 18,
    ensures
        1 <= pow10(k) <= 1_000_000_000_000_000_000,
{
    lemma_pow10_mono(k, 18);
    assert(pow10(18) == 1_000_000_000_000_000_000) by {
        reveal_with_fuel(pow10, 19);
    }
}

/// The value of a decimal text, as [`decimal_ratio`] reads it.
pub fn parse_decimal(m: &[char]) -> (r: Option<Ratio>)
    ensures
        r == decimal_ratio(m@),
        r matches Some(x) ==> x.wf(),
{
    let neg = m.len() > 0 && m[0] == '-';
    let start: usize = if m.len() > 0 && (m[0] == '-' || m[0] == '+') { 1 } else { 0 };
    let ghost body = if m@.len() > 0 && (m@[0] == '-' || m@[0] == '+') { m@.drop_first() } else { m@ };
    assert(m@.skip(start as int) =~= body);
    let ghost point = crate::xqb::find_char(body, '.', 0);
    proof {
        crate::xqb::lemma_find_char_bounds(body, '.', 0);
    }
    let mut digits: Vec<char> = Vec::new();
    let mut frac_len: usize = 0;
    let mut seen_point = false;
    let mut i: usize = start;
    let ghost mut point_at: int = 0;
    while i < m.len()
        invariant
            start <= i <= m@.len(),
            body == m@.skip(start as int),
            point == crate::xqb::find_char(body, '.', 0),
            point matches Some(p) ==> 0 <= p < body.len() && body[p] == '.' && forall|k: int|
                0 <= k < p ==> body[k] != '.',
            point is None ==> forall|k: int| 0 <= k < body.len() ==> body[k] != '.',
            seen_point == (point matches Some(p) && p < i - start),
            !seen_point ==> digits@ == body.take(i - start) && frac_len == 0,
            seen_point ==> (point matches Some(p) && digits@ == body.take(p) + body.subrange(p + 1, i - start)
                && frac_len == i - start - p - 1),
        decreases m.len() - i,
    {
        let c = m[i];
        if !seen_point && c == '.' {
            seen_point = true;
            assert(point == Some((i - start) as int)) by {
                assert(body[(i - start) as int] == '.');
            }
            assert(body.subrange(i - start + 1, i - start + 1) =~= Seq::<char>::empty());
            assert(digits@ =~= body.take((i - start) as int) + body.subrange(i - start + 1, i - start + 1));
        } else {
            digits.push(c);
            if seen_point {
                frac_len = frac_len + 1;
                assert(digits@ =~= body.take(point->0) + body.subrange(point->0 + 1, i - start + 1));
            } else {
                assert(point is None || point->0 > i - start);
                assert(digits@ =~= body.take(i - start + 1));
            }
        }
        i = i + 1;
    }
    let ghost int_part = match point {
        Some(p) => body.take(p),
        None => body,
    };
    let ghost frac = match point {
        Some(p) => body.skip(p + 1),
        None => Seq::<char>::empty(),
    };
    proof {
        assert(body.take(body.len() as int) =~= body);
        if let Some(p) = point {
            assert(body.subrange(p + 1, body.len() as int) =~= body.skip(p + 1));
        }
        assert(digits@ =~= int_part + frac);
        assert(frac_len == frac.len());
    }
    if seen_point && frac_len == 0 {
        return None;
    }
    proof {
        lemma_digits_value_run(digits@);
    }
    if digits.len() == 0 || !all_digit_chars(digits.as_slice()) {
        return None;
    }
    let ghost v: nat = digit_run_value(digits@);
    let ghost f: nat = frac_len as nat;
    assert(digits_value(int_part + frac) == Some(v as int));
    proof {
        lemma_decimal_ratio_parts(m@, int_part, frac, v);
    }
    let int_len: usize = digits.len() - frac_len;
    let kmax: usize = if frac_len < 18 { frac_len } else { 18 };
    let mut k: usize = kmax;
    loop
        invariant
            k <= kmax,
            kmax <= 18,
            kmax <= frac_len,
            int_len + frac_len == digits@.len(),
            digits@.len() <= usize::MAX,
            all_digits(digits@),
            v == digit_run_value(digits@),
            f == frac_len,
            fitting_decimals(v, f, kmax as nat) == fitting_decimals(v, f, k as nat),
            kmax as nat == (if f < 18 { f } else { 18 }),
            decimal_ratio(m@) == fitted_ratio(v, f, neg),
        decreases k,
    {
        let cut: usize = int_len + k;
        let kept = vstd::slice::slice_subrange(digits.as_slice(), 0, cut);
        let rest = vstd::slice::slice_subrange(digits.as_slice(), cut, digits.len());
        let ghost q_spec: nat = digit_run_value(kept@);
        proof {
            assert(kept@ + rest@ =~= digits@);
            assert(all_digits(kept@));
            assert(all_digits(rest@));
            lemma_digit_run_concat(kept@, rest@);
            lemma_round_by_digits(q_spec, rest@);
            assert((f - k) as nat == rest@.len());
            assert(rounded_to(v, f, k as nat) == q_spec + if rounds_up(rest@, q_spec % 2 == 1) {
                1nat
            } else {
                0nat
            });
            lemma_digits_value_run(kept@);
            if cut > 0 {
                assert(kept@[0] != '+');
                assert(crate::text::unsigned_value(kept@) == Some(q_spec as int));
            }
        }
        let ghost rv_spec: nat = rounded_to(v, f, k as nat);
        let q_opt: Option<u64> = if cut == 0 {
            assert(kept@.len() == 0);
            Some(0)
        } else {
            crate::text::parse_u64(kept)
        };
        if let Some(q) = q_opt {
            if q <= 9223372036854775807 {
                assert(q == q_spec);
                let up = rounds_up_exec(rest, q % 2 == 1);
                let rv: u64 = if up { q + 1 } else { q };
                if rv <= 9223372036854775807 {
                    let mut den: u64 = 1;
                    let mut j: usize = 0;
                    while j < k
                        invariant
                            kmax <= 18,
                            k <= kmax,
                            j <= k,
                            den as nat == pow10(j as nat),
                        decreases k - j,
                    {
                        proof {
                            lemma_pow10_bound((j + 1) as nat);
                        }
                        den = den * 10;
                        j = j + 1;
                    }
                    proof {
                        lemma_pow10_bound(k as nat);
                    }
                    let num: i64 = if neg { -(rv as i64) } else { rv as i64 };
                    proof {
                        assert(rv == rv_spec);
                        assert(fitting_decimals(v, f, k as nat) == Some(k as nat));
                    }
                    return Some(Ratio { num, den });
                }
            }
        }
        assert(rv_spec > i64::MAX);
        if k == 0 {
            proof {
                assert(fitting_decimals(v, f, 0) is None);
            }
            return None;
        }
        assert(fitting_decimals(v, f, k as nat) == fitting_decimals(v, f, (k - 1) as nat));
        k = k - 1;
    }
}

/// Whether every character is an ASCII digit.
fn all_digit_chars(s: &[char]) -> (r: bool)
    ensures
        r == all_digits(s@),
{
    let mut i: usize = 0;
    while i < s.len()
        invariant
            i <= s@.len(),
            forall|j: int| 0 <= j < i ==> is_digit(s@[j]),
        decreases s.len() - i,
    {
        if !('0' <= s[i] && s[i] <= '9') {
            return false;
        }
        i = i + 1;
    }
    true
}

/// Whether dropping the digits `rest` rounds the kept number up (see [`rounds_up`]).
fn rounds_up_exec(rest: &[char], kept_odd: bool) -> (r: bool)
    ensures
        r == rounds_up(rest@, kept_odd),
{
    if rest.len() == 0 {
        return false;
    }
    if rest[0] > '5' {
        return true;
    }
    if '5' > rest[0] {
        return false;
    }
    let mut i: usize = 1;
    while i < rest.len()
        invariant
            1 <= i <= rest@.len(),
            rest@[0] == '5',
            forall|j: int| 1 <= j < i ==> rest@[j] == '0',
        decreases rest.len() - i,
    {
        if rest[i] != '0' {
            proof {
                assert(rest@.drop_first()[i - 1] != '0');
            }
            return true;
        }
        i = i + 1;
    }
    proof {
        if has_nonzero(rest@.drop_first()) {
            let w = choose|w: int| 0 <= w < rest@.drop_first().len() && rest@.drop_first()[w] != '0';
            assert(rest@[w + 1] != '0');
        }
    }
    kept_odd
}


fn is_one_of_blanks(f: &[char]) -> (r: bool)
    ensures
        r == (f@ == "?"@ || f@ == "??"@ || f@ == "none"@ || f@ == "null"@),
{
    let a = chars_of("?");
    let b = chars_of("??");
    let c = chars_of("none");
    let d = chars_of("null");
    chars_eq(f, a.as_slice()) || chars_eq(f, b.as_slice()) || chars_eq(f, c.as_slice()) || chars_eq(
        f,
        d.as_slice(),
    )
}

/// A field's number, as [`spec_extract_number`] reads it.
pub fn extract_number(v: &[char]) -> (r: Option<Ratio>)
    ensures
        r == spec_extract_number(v@),
        r matches Some(x) ==> x.wf(),
{
    let s = trim_chars(v);
    let f = fold_chars(s.as_slice());
    if s.len() == 0 || is_one_of_blanks(f.as_slice()) {
        return None;
    }
    let text = string_from_chars(s.as_slice());
    match regex_find(NUMBER_PATTERN, text.as_str()) {
        Some(m) => {
            let mc = chars_of(m.as_str());
            parse_decimal(mc.as_slice())
        },
        None => None,
    }
}

/// The key and value of one `key:value` field: the key trimmed and folded,
/// the value trimmed; `None` for a field without `:`.
pub open spec fn field_pair(f: Seq<char>) -> Option<(Seq<char>, Seq<char>)> {
    let t = trim(f);
    match find_char(t, ':', 0) {
        Some(i) => Some((fold(trim(t.take(i))), trim(t.skip(i + 1)))),
        None => None,
    }
}

/// The key-value pairs of a list of fields, in order.
pub open spec fn pairs_of(fields: Seq<Seq<char>>) -> Seq<(Seq<char>, Seq<char>)>
    decreases fields.len(),
{
    if fields.len() == 0 {
        Seq::empty()
    } else {
        let p = pairs_of(fields.drop_last());
        match field_pair(fields.last()) {
            Some(x) => p.push(x),
            None => p,
        }
    }
}

/// The value of the last pair with key `key` (a later field overrides an earlier one).
pub open spec fn lookup(pairs: Seq<(Seq<char>, Seq<char>)>, key: Seq<char>) -> Option<Seq<char>>
    decreases pairs.len(),
{
    if pairs.len() == 0 {
        None
    } else if pairs.last().0 == key {
        Some(pairs.last().1)
    } else {
        lookup(pairs.drop_last(), key)
    }
}

/// Keys that hold a win rate.
pub open spec fn is_winrate_key(k: Seq<char>) -> bool {
    contains_seq(k, "winrate"@) || contains_seq(k, "win_rate"@)
}

/// The first key, from pair `i` on, that holds a win rate.
pub open spec fn first_winrate_key(pairs: Seq<(Seq<char>, Seq<char>)>, i: int) -> Option<Seq<char>>
    decreases pairs.len() - i,
{
    if i < 0 || i >= pairs.len() {
        None
    } else if is_winrate_key(pairs[i].0) {
        Some(pairs[i].0)
    } else {
        first_winrate_key(pairs, i + 1)
    }
}

/// The raw win rate of a move's fields: the value of the first key that holds one.
pub open spec fn winrate_raw_of(pairs: Seq<(Seq<char>, Seq<char>)>) -> Option<Seq<char>> {
    match first_winrate_key(pairs, 0) {
        Some(k) => lookup(pairs, k),
        None => None,
    }
}

pub open spec fn or_else(a: Option<Seq<char>>, b: Option<Seq<char>>) -> Option<Seq<char>> {
    if a is Some {
        a
    } else {
        b
    }
}

/// The first four characters of a move text, or all of them.
pub open spec fn first4(m: Seq<char>) -> Seq<char> {
    if m.len() <= 4 {
        m
    } else {
        m.take(4)
    }
}

/// The candidate of one `|`-separated part: its move from `move` (else
/// `egtb`, else `search`) cut to four characters and kept only when those take
/// at least four bytes; its rank, score and win rate read from their fields.
pub open spec fn part_candidate(part: Seq<char>) -> Option<CandidateView> {
    let pairs = pairs_of(split_char(part, ','));
    match or_else(lookup(pairs, "move"@), or_else(lookup(pairs, "egtb"@), lookup(pairs, "search"@))) {
        None => None,
        Some(m) => if byte_len(first4(m)) < 4 {
            None
        } else {
            let raw = winrate_raw_of(pairs);
            Some(
                CandidateView {
                    move_uci: Some(first4(m)),
                    rank: match lookup(pairs, "rank"@) {
                        Some(r) => match signed_value(r) {
                            Some(v) => if i64::MIN <= v <= i64::MAX {
                                Some(v as i64)
                            } else {
                                None
                            },
                            None => None,
                        },
                        None => None,
                    },
                    score: match lookup(pairs, "score"@) {
                        Some(x) => spec_extract_number(x),
                        None => None,
                    },
                    winrate: match raw {
                        Some(w) => spec_extract_number(w),
                        None => None,
                    },
                    winrate_raw: raw,
                },
            )
        },
    }
}

/// The candidates of the parts of an answer, blank parts skipped.
pub open spec fn parts_candidates(parts: Seq<Seq<char>>) -> Seq<CandidateView>
    decreases parts.len(),
{
    if parts.len() == 0 {
        Seq::empty()
    } else {
        let prev = parts_candidates(parts.drop_last());
        let t = trim(parts.last());
        if t.len() == 0 {
            prev
        } else {
            match part_candidate(t) {
                Some(c) => prev.push(c),
                None => prev,
            }
        }
    }
}

/// The candidates of an answer of the service: `|`-separated parts of
/// `,`-separated `key:value` fields.
pub open spec fn spec_parse_candidates(text: Seq<char>) -> Seq<CandidateView> {
    if text.len() == 0 {
        Seq::empty()
    } else {
        parts_candidates(split_char(text, '|'))
    }
}

/// The pair of one field, as [`field_pair`] gives it.
fn field_pair_exec(f: &[char]) -> (r: Option<(Vec<char>, Vec<char>)>)
    ensures
        match r {
            Some((k, v)) => field_pair(f@) == Some((k@, v@)),
            None => field_pair(f@) is None,
        },
{
    let t = trim_chars(f);
    match find_char_exec(t.as_slice(), ':') {
        None => None,
        Some(i) => {
            proof {
                lemma_find_char_bounds(t@, ':', 0);
            }
            let mut before: Vec<char> = Vec::new();
            let mut after: Vec<char> = Vec::new();
            let mut j: usize = 0;
            while j < t.len()
                invariant
                    i < t@.len(),
                    j <= t@.len(),
                    j <= i ==> before@ == t@.take(j as int) && after@.len() == 0,
                    j > i ==> before@ == t@.take(i as int) && after@ == t@.subrange(i + 1, j as int),
                decreases t.len() - j,
            {
                if j < i {
                    before.push(t[j]);
                    assert(before@ =~= t@.take(j + 1));
                } else if j > i {
                    after.push(t[j]);
                    assert(after@ =~= t@.subrange(i + 1, j + 1));
                } else {
                    assert(after@ =~= t@.subrange(i + 1, j + 1));
                }
                j = j + 1;
            }
            assert(t@.subrange(i + 1, t@.len() as int) =~= t@.skip(i + 1));
            let kt = trim_chars(before.as_slice());
            let k = fold_chars(kt.as_slice());
            let v = trim_chars(after.as_slice());
            Some((k, v))
        },
    }
}

/// Keys and values of the pairs of `fields`, side by side.
fn pairs_exec(fields: &Vec<Vec<char>>) -> (r: (Vec<Vec<char>>, Vec<Vec<char>>))
    ensures
        r.0@.len() == r.1@.len(),
        r.0@.len() == pairs_of(fields.deep_view()).len(),
        forall|i: int|
            0 <= i < r.0@.len() ==> (#[trigger] pairs_of(fields.deep_view())[i]) == (
                r.0.deep_view()[i],
                r.1.deep_view()[i],
            ),
{
    let ghost fv = fields.deep_view();
    let mut keys: Vec<Vec<char>> = Vec::new();
    let mut vals: Vec<Vec<char>> = Vec::new();
    let mut i: usize = 0;
    while i < fields.len()
        invariant
            fv == fields.deep_view(),
            i <= fv.len(),
            keys@.len() == vals@.len(),
            keys@.len() == pairs_of(fv.take(i as int)).len(),
            forall|j: int|
                0 <= j < keys@.len() ==> (#[trigger] pairs_of(fv.take(i as int))[j]) == (
                    keys.deep_view()[j],
                    vals.deep_view()[j],
                ),
        decreases fields.len() - i,
    {
        assert(fv.take(i as int + 1).drop_last() =~= fv.take(i as int));
        assert(fv.take(i as int + 1).last() == fields[i as int]@);
        match field_pair_exec(fields[i].as_slice()) {
            Some((k, v)) => {
                let ghost kv = k@;
                let ghost vv = v@;
                keys.push(k);
                vals.push(v);
                assert(keys.deep_view()[keys@.len() - 1] == kv);
                assert(vals.deep_view()[vals@.len() - 1] == vv);
            },
            None => {},
        }
        i = i + 1;
    }
    assert(fv.take(fv.len() as int) =~= fv);
    (keys, vals)
}

/// Pairs read back from keys and values side by side.
pub open spec fn zip_pairs(keys: Seq<Seq<char>>, vals: Seq<Seq<char>>) -> Seq<(Seq<char>, Seq<char>)> {
    Seq::new(keys.len(), |i: int| (keys[i], vals[i]))
}

/// The value of the last pair whose key is `key`.
fn lookup_exec(keys: &Vec<Vec<char>>, vals: &Vec<Vec<char>>, key: &str) -> (r: Option<Vec<char>>)
    requires
        keys@.len() == vals@.len(),
    ensures
        match r {
            Some(v) => lookup(zip_pairs(keys.deep_view(), vals.deep_view()), key@) == Some(v@),
            None => lookup(zip_pairs(keys.deep_view(), vals.deep_view()), key@) is None,
        },
{
    let ghost pairs = zip_pairs(keys.deep_view(), vals.deep_view());
    let kc = chars_of(key);
    let mut i: usize = keys.len();
    assert(pairs.take(i as int) =~= pairs);
    while i > 0
        invariant
            pairs == zip_pairs(keys.deep_view(), vals.deep_view()),
            kc@ == key@,
            keys@.len() == vals@.len(),
            i <= keys@.len(),
            lookup(pairs, key@) == lookup(pairs.take(i as int), key@),
        decreases i,
    {
        assert(pairs.take(i as int).drop_last() =~= pairs.take(i - 1));
        assert(keys.deep_view()[i - 1] == keys@[i - 1]@);
        assert(vals.deep_view()[i - 1] == vals@[i - 1]@);
        assert(pairs.take(i as int).last() == pairs[i - 1]);
        assert(pairs[i - 1] == (keys@[i - 1]@, vals@[i - 1]@));
        if chars_eq(keys[i - 1].as_slice(), kc.as_slice()) {
            let v = crate::xqb::take_chars(vals[i - 1].as_slice(), vals[i - 1].len());
            assert(vals@[i - 1]@.take(vals@[i - 1]@.len() as int) =~= vals@[i - 1]@);
            return Some(v);
        }
        i = i - 1;
    }
    None
}

/// The raw win rate of the pairs, as [`winrate_raw_of`] gives it.
fn winrate_raw_exec(keys: &Vec<Vec<char>>, vals: &Vec<Vec<char>>) -> (r: Option<Vec<char>>)
    requires
        keys@.len() == vals@.len(),
    ensures
        match r {
            Some(v) => winrate_raw_of(zip_pairs(keys.deep_view(), vals.deep_view())) == Some(v@),
            None => winrate_raw_of(zip_pairs(keys.deep_view(), vals.deep_view())) is None,
        },
{
    let ghost pairs = zip_pairs(keys.deep_view(), vals.deep_view());
    let mut i: usize = 0;
    while i < keys.len()
        invariant
            pairs == zip_pairs(keys.deep_view(), vals.deep_view()),
            keys@.len() == vals@.len(),
            i <= keys@.len(),
            first_winrate_key(pairs, 0) == first_winrate_key(pairs, i as int),
        decreases keys.len() - i,
    {
        assert(keys.deep_view()[i as int] == keys@[i as int]@);
        proof {
            reveal_strlit("winrate");
            reveal_strlit("win_rate");
        }
        if contains_str(keys[i].as_slice(), "winrate") || contains_str(keys[i].as_slice(), "win_rate") {
            let k = string_from_chars(keys[i].as_slice());
            return lookup_exec(keys, vals, k.as_str());
        }
        i = i + 1;
    }
    None
}

/// First four characters of `v`, or all of them.
fn first4_exec(v: &[char]) -> (r: Vec<char>)
    ensures
        r@ == first4(v@),
{
    let mut r: Vec<char> = Vec::new();
    let mut i: usize = 0;
    while i < v.len() && i < 4
        invariant
            i <= v@.len(),
            i <= 4,
            r@ == v@.take(i as int),
        decreases v.len() - i,
    {
        r.push(v[i]);
        i = i + 1;
        assert(r@ =~= v@.take(i as int));
    }
    assert(v@.len() <= 4 ==> v@.take(v@.len() as int) =~= v@);
    r
}

/// The candidate of one trimmed, non-blank part, as [`part_candidate`] reads it.
fn part_candidate_exec(part: &[char]) -> (r: Option<BookCandidate>)
    ensures
        match r {
            Some(c) => part_candidate(part@) == Some(c@) && c@.wf(),
            None => part_candidate(part@) is None,
        },
{
    let fields = split_char_chars(part, ',');
    let (keys, vals) = pairs_exec(&fields);
    let ghost pairs = pairs_of(split_char(part@, ','));
    assert(pairs =~= zip_pairs(keys.deep_view(), vals.deep_view()));
    let mv = match lookup_exec(&keys, &vals, "move") {
        Some(m) => Some(m),
        None => match lookup_exec(&keys, &vals, "egtb") {
            Some(m) => Some(m),
            None => lookup_exec(&keys, &vals, "search"),
        },
    };
    let m = match mv {
        None => {
            return None;
        },
        Some(m) => m,
    };
    let m4 = first4_exec(m.as_slice());
    if crate::input::fewer_bytes_than(m4.as_slice(), 4) {
        return None;
    }
    let rank: Option<i64> = match lookup_exec(&keys, &vals, "rank") {
        Some(r) => parse_i64(r.as_slice()),
        None => None,
    };
    let score: Option<Ratio> = match lookup_exec(&keys, &vals, "score") {
        Some(x) => extract_number(x.as_slice()),
        None => None,
    };
    let raw = winrate_raw_exec(&keys, &vals);
    let winrate: Option<Ratio> = match &raw {
        Some(w) => extract_number(w.as_slice()),
        None => None,
    };
    let winrate_raw: Option<String> = match &raw {
        Some(w) => Some(string_from_chars(w.as_slice())),
        None => None,
    };
    Some(
        BookCandidate {
            move_uci: Some(string_from_chars(m4.as_slice())),
            rank,
            score,
            winrate,
            winrate_raw,
        },
    )
}

/// The candidates of an answer of the service, as [`spec_parse_candidates`] reads them.
pub fn parse_candidates(text: &str) -> (r: Vec<BookCandidate>)
    ensures
        crate::book::cand_views(r@) == spec_parse_candidates(text@),
        crate::book::all_wf(crate::book::cand_views(r@)),
{
    let mut out: Vec<BookCandidate> = Vec::new();
    let t = chars_of(text);
    if t.len() == 0 {
        assert(crate::book::cand_views(out@) =~= Seq::<CandidateView>::empty());
        return out;
    }
    let parts = split_char_chars(t.as_slice(), '|');
    let ghost pv = parts.deep_view();
    let mut i: usize = 0;
    assert(crate::book::cand_views(out@) =~= parts_candidates(pv.take(0)));
    while i < parts.len()
        invariant
            pv == parts.deep_view(),
            i <= pv.len(),
            crate::book::cand_views(out@) == parts_candidates(pv.take(i as int)),
            crate::book::all_wf(crate::book::cand_views(out@)),
        decreases parts.len() - i,
    {
        assert(pv.take(i as int + 1).drop_last() =~= pv.take(i as int));
        assert(pv.take(i as int + 1).last() == parts[i as int]@);
        let p = trim_chars(parts[i].as_slice());
        if p.len() > 0 {
            match part_candidate_exec(p.as_slice()) {
                Some(c) => {
                    let ghost prev = out@;
                    let ghost cv = c@;
                    out.push(c);
                    assert(crate::book::cand_views(out@) =~= crate::book::cand_views(prev).push(cv));
                },
                None => {},
            }
        }
        i = i + 1;
    }
    assert(pv.take(pv.len() as int) =~= pv);
    out
}


/// The orders the service's candidates are ranked in.
#[derive(Clone, Copy, Debug, PartialEq, Eq, Structural)]
pub enum RankOrder {
    /// By rank, lowest first.
    Rank,
    /// By win rate, highest first.
    Winrate,
    /// By score, highest first, then by move text.
    ScoreThenMove,
}

pub open spec fn rank_of(c: CandidateView) -> int {
    match c.rank {
        Some(r) => r as int,
        None => 0,
    }
}

pub open spec fn winrate_of(c: CandidateView) -> Ratio {
    match c.winrate {
        Some(w) => w,
        None => Ratio { num: 0, den: 1 },
    }
}

pub open spec fn score_of(c: CandidateView) -> Ratio {
    match c.score {
        Some(w) => w,
        None => Ratio { num: 0, den: 1 },
    }
}

pub open spec fn move_of(c: CandidateView) -> Seq<char> {
    match c.move_uci {
        Some(m) => m,
        None => Seq::empty(),
    }
}

/// Lexicographic order of texts by character (the byte order of their UTF-8).
pub open spec fn text_less(a: Seq<char>, b: Seq<char>) -> bool
    decreases a.len(),
{
    if a.len() == 0 {
        b.len() > 0
    } else if b.len() == 0 {
        false
    } else if a[0] != b[0] {
        (a[0] as u32) < (b[0] as u32)
    } else {
        text_less(a.drop_first(), b.drop_first())
    }
}

/// Whether `a` ranks strictly before `b` in `order`.
pub open spec fn ranks_before(order: RankOrder, a: CandidateView, b: CandidateView) -> bool {
    match order {
        RankOrder::Rank => rank_of(a) < rank_of(b),
        RankOrder::Winrate => winrate_of(b).spec_less(winrate_of(a)),
        RankOrder::ScoreThenMove => score_of(b).spec_less(score_of(a)) || (score_of(a).spec_same(
            score_of(b),
        ) && text_less(move_of(a), move_of(b))),
    }
}

/// Where `x` goes into the ranked `s`: before the first candidate it ranks before.
pub open spec fn insert_at(order: RankOrder, s: Seq<CandidateView>, x: CandidateView, i: int) -> int
    decreases s.len() - i,
{
    if i < 0 || i >= s.len() {
        s.len() as int
    } else if ranks_before(order, x, s[i]) {
        i
    } else {
        insert_at(order, s, x, i + 1)
    }
}

/// The candidates ranked in `order`, those that rank alike keeping their order.
pub open spec fn ranked(order: RankOrder, s: Seq<CandidateView>) -> Seq<CandidateView>
    decreases s.len(),
{
    if s.len() == 0 {
        s
    } else {
        let r = ranked(order, s.drop_last());
        r.insert(insert_at(order, r, s.last(), 0), s.last())
    }
}

/// The candidates that have a win rate, in order.
pub open spec fn with_winrate(c: Seq<CandidateView>) -> Seq<CandidateView>
    decreases c.len(),
{
    if c.len() == 0 {
        c
    } else if c.last().winrate is Some {
        with_winrate(c.drop_last()).push(c.last())
    } else {
        with_winrate(c.drop_last())
    }
}

/// The candidates whose move takes at least four bytes, in order.
pub open spec fn with_full_move(c: Seq<CandidateView>) -> Seq<CandidateView>
    decreases c.len(),
{
    if c.len() == 0 {
        c
    } else if c.last().move_uci matches Some(m) && byte_len(m) >= 4 {
        with_full_move(c.drop_last()).push(c.last())
    } else {
        with_full_move(c.drop_last())
    }
}

/// Every candidate has a positive rank.
pub open spec fn all_ranked(c: Seq<CandidateView>) -> bool {
    forall|i: int| 0 <= i < c.len() ==> (#[trigger] c[i].rank matches Some(r) && r > 0)
}

/// The highest win rate among the first `n` candidates (the last one when
/// several are highest).
pub open spec fn best_winrate(c: Seq<CandidateView>, n: int) -> Option<Ratio>
    decreases n,
{
    if n <= 0 {
        None
    } else {
        let prev = best_winrate(c, n - 1);
        match c[n - 1].winrate {
            None => prev,
            Some(w) => match prev {
                None => Some(w),
                Some(p) => if w.spec_less(p) {
                    Some(p)
                } else {
                    Some(w)
                },
            },
        }
    }
}

/// The first five candidates, numbered 1 to 5 in order.
pub open spec fn top5(s: Seq<CandidateView>) -> Seq<CandidateView> {
    let t = if s.len() <= 5 { s } else { s.take(5) };
    Seq::new(t.len(), |i: int| CandidateView { rank: Some((i + 1) as i64), ..t[i] })
}

/// The ranked candidates an answer shows: those with a win rate, by rank when
/// all are ranked, else by win rate; without any win rate, those with a full
/// move, by rank when all are ranked, else by score and move.
pub open spec fn chessdb_top(c: Seq<CandidateView>) -> Seq<CandidateView> {
    let valid = with_winrate(c);
    let loose = with_full_move(c);
    top5(
        if valid.len() > 0 {
            if all_ranked(valid) {
                ranked(RankOrder::Rank, valid)
            } else {
                ranked(RankOrder::Winrate, valid)
            }
        } else if loose.len() > 0 && all_ranked(loose) {
            ranked(RankOrder::Rank, loose)
        } else {
            ranked(RankOrder::ScoreThenMove, loose)
        },
    )
}

/// A cloud answer lists at most five moves, ranked 1, 2, ... in order.
pub proof fn lemma_chessdb_top_ranked(c: Seq<CandidateView>)
    ensures
        chessdb_top(c).len() <= 5,
        forall|i: int| 0 <= i < chessdb_top(c).len() ==> #[trigger] chessdb_top(c)[i].rank == Some((i + 1) as i64),
{
}

/// The answer when the service gave nothing usable: it names the move asked
/// about when that takes exactly four bytes.
pub open spec fn unanswered(key: Seq<char>) -> ResponseView {
    ResponseView {
        move_uci: if key.len() > 0 && byte_len(key) == 4 { Some(key) } else { None },
        ..empty_view("chessdb"@)
    }
}

/// The answer built from the service's candidates `c` for the move asked about `key`.
pub open spec fn spec_chessdb_select(c: Seq<CandidateView>, key: Seq<char>) -> ResponseView {
    if c.len() == 0 {
        unanswered(key)
    } else {
        let top = chessdb_top(c);
        let best_move = if top.len() > 0 { top[0].move_uci } else { None };
        ResponseView {
            move_uci: if key.len() == 0 { best_move } else { Some(key) },
            best_move,
            best_winrate: best_winrate(c, c.len() as int),
            move_eval: if key.len() == 0 { None } else { find_move_from(c, key, 0) },
            candidates: top,
            source: "chessdb"@,
            error: None,
        }
    }
}


fn text_less_exec(a: &[char], b: &[char]) -> (r: bool)
    ensures
        r == text_less(a@, b@),
{
    let mut i: usize = 0;
    assert(a@.skip(0) =~= a@);
    assert(b@.skip(0) =~= b@);
    while i < a.len() && i < b.len() && a[i] == b[i]
        invariant
            i <= a@.len(),
            i <= b@.len(),
            text_less(a@, b@) == text_less(a@.skip(i as int), b@.skip(i as int)),
        decreases a.len() - i,
    {
        assert(a@.skip(i as int).drop_first() =~= a@.skip(i as int + 1));
        assert(b@.skip(i as int).drop_first() =~= b@.skip(i as int + 1));
        i = i + 1;
    }
    if i == a.len() {
        i < b.len()
    } else if i == b.len() {
        false
    } else {
        (a[i] as u32) < (b[i] as u32)
    }
}

fn opt_or_zero(o: Option<Ratio>) -> (r: Ratio)
    ensures
        r == (match o {
            Some(w) => w,
            None => Ratio { num: 0, den: 1 },
        }),
{
    match o {
        Some(w) => w,
        None => Ratio { num: 0, den: 1 },
    }
}

/// Whether `a` ranks strictly before `b` in `order`.
fn ranks_before_exec(order: RankOrder, a: &BookCandidate, b: &BookCandidate) -> (r: bool)
    ensures
        r == ranks_before(order, a@, b@),
{
    match order {
        RankOrder::Rank => {
            let ra: i64 = match a.rank {
                Some(r) => r,
                None => 0,
            };
            let rb: i64 = match b.rank {
                Some(r) => r,
                None => 0,
            };
            ra < rb
        },
        RankOrder::Winrate => opt_or_zero(b.winrate).less(opt_or_zero(a.winrate)),
        RankOrder::ScoreThenMove => {
            let sa = opt_or_zero(a.score);
            let sb = opt_or_zero(b.score);
            if sb.less(sa) {
                return true;
            }
            if !sa.same(sb) {
                return false;
            }
            let ma: Vec<char> = match &a.move_uci {
                Some(m) => chars_of(m.as_str()),
                None => Vec::new(),
            };
            let mb: Vec<char> = match &b.move_uci {
                Some(m) => chars_of(m.as_str()),
                None => Vec::new(),
            };
            assert(ma@ == move_of(a@));
            assert(mb@ == move_of(b@));
            text_less_exec(ma.as_slice(), mb.as_slice())
        },
    }
}

/// The candidates ranked in `order`, as [`ranked`] says.
pub fn rank_candidates(order: RankOrder, cands: Vec<BookCandidate>) -> (r: Vec<BookCandidate>)
    ensures
        cand_views(r@) == ranked(order, cand_views(cands@)),
{
    let ghost orig = cand_views(cands@);
    let n = cands.len();
    let mut src = cands;
    let mut out: Vec<BookCandidate> = Vec::new();
    let mut k: usize = 0;
    assert(cand_views(out@) =~= ranked(order, orig.take(0)));
    while src.len() > 0
        invariant
            n == orig.len(),
            k <= orig.len(),
            cand_views(src@) == orig.skip(k as int),
            cand_views(out@) == ranked(order, orig.take(k as int)),
        decreases src.len(),
    {
        assert(cand_views(src@).len() == src@.len());
        let ghost srcv = cand_views(src@);
        let ghost old_src = src@;
        let x = src.remove(0);
        assert(src@ =~= old_src.subrange(1, old_src.len() as int));
        assert(cand_views(src@) =~= srcv.skip(1));
        assert(x@ == srcv[0]);
        assert(x@ == orig[k as int]);
        let ghost before = cand_views(out@);
        let mut j: usize = 0;
        while j < out.len() && !ranks_before_exec(order, &x, &out[j])
            invariant
                before == cand_views(out@),
                j <= out@.len(),
                insert_at(order, before, x@, 0) == insert_at(order, before, x@, j as int),
            decreases out.len() - j,
        {
            assert(before[j as int] == out@[j as int]@);
            j = j + 1;
        }
        proof {
            if j < out@.len() {
                assert(before[j as int] == out@[j as int]@);
            }
        }
        assert(insert_at(order, before, x@, 0) == j as int);
        let ghost xv = x@;
        let ghost old_out = out@;
        out.insert(j, x);
        assert(cand_views(out@) =~= before.insert(j as int, xv)) by {
            assert(out@ == old_out.insert(j as int, x));
        }
        proof {
            assert(orig.take(k as int + 1).drop_last() =~= orig.take(k as int));
            assert(orig.take(k as int + 1).last() == xv);
            assert(cand_views(src@) =~= orig.skip(k as int + 1));
        }
        k = k + 1;
    }
    assert(k == orig.len());
    assert(orig.take(orig.len() as int) =~= orig);
    out
}

/// Copies of the candidates that have a win rate, in order.
fn with_winrate_exec(c: &Vec<BookCandidate>) -> (r: Vec<BookCandidate>)
    ensures
        cand_views(r@) == with_winrate(cand_views(c@)),
{
    let ghost cv = cand_views(c@);
    let mut out: Vec<BookCandidate> = Vec::new();
    let mut i: usize = 0;
    assert(cand_views(out@) =~= with_winrate(cv.take(0)));
    while i < c.len()
        invariant
            cv == cand_views(c@),
            i <= cv.len(),
            cand_views(out@) == with_winrate(cv.take(i as int)),
        decreases c.len() - i,
    {
        assert(cv.take(i as int + 1).drop_last() =~= cv.take(i as int));
        assert(cv.take(i as int + 1).last() == c@[i as int]@);
        if c[i].winrate.is_some() {
            let ghost prev = out@;
            let x = c[i].copy();
            out.push(x);
            assert(cand_views(out@) =~= cand_views(prev).push(x@));
        }
        i = i + 1;
    }
    assert(cv.take(cv.len() as int) =~= cv);
    out
}

/// Copies of the candidates whose move takes at least four bytes, in order.
fn with_full_move_exec(c: &Vec<BookCandidate>) -> (r: Vec<BookCandidate>)
    ensures
        cand_views(r@) == with_full_move(cand_views(c@)),
{
    let ghost cv = cand_views(c@);
    let mut out: Vec<BookCandidate> = Vec::new();
    let mut i: usize = 0;
    assert(cand_views(out@) =~= with_full_move(cv.take(0)));
    while i < c.len()
        invariant
            cv == cand_views(c@),
            i <= cv.len(),
            cand_views(out@) == with_full_move(cv.take(i as int)),
        decreases c.len() - i,
    {
        assert(cv.take(i as int + 1).drop_last() =~= cv.take(i as int));
        assert(cv.take(i as int + 1).last() == c@[i as int]@);
        let keep = match &c[i].move_uci {
            Some(m) => {
                let mc = chars_of(m.as_str());
                !crate::input::fewer_bytes_than(mc.as_slice(), 4)
            },
            None => false,
        };
        if keep {
            let ghost prev = out@;
            let x = c[i].copy();
            out.push(x);
            assert(cand_views(out@) =~= cand_views(prev).push(x@));
        }
        i = i + 1;
    }
    assert(cv.take(cv.len() as int) =~= cv);
    out
}

/// Whether every candidate has a positive rank.
fn all_ranked_exec(c: &Vec<BookCandidate>) -> (r: bool)
    ensures
        r == all_ranked(cand_views(c@)),
{
    let ghost cv = cand_views(c@);
    let mut i: usize = 0;
    while i < c.len()
        invariant
            cv == cand_views(c@),
            i <= cv.len(),
            forall|j: int| 0 <= j < i ==> (#[trigger] cv[j].rank matches Some(r) && r > 0),
        decreases c.len() - i,
    {
        assert(cv[i as int] == c@[i as int]@);
        match c[i].rank {
            Some(r) => {
                if r <= 0 {
                    assert(!all_ranked(cv)) by {
                        assert(!(cv[i as int].rank matches Some(r) && r > 0));
                    }
                    return false;
                }
            },
            None => {
                assert(!all_ranked(cv)) by {
                    assert(!(cv[i as int].rank matches Some(r) && r > 0));
                }
                return false;
            },
        }
        i = i + 1;
    }
    true
}

/// The highest win rate, as [`best_winrate`] picks it.
fn best_winrate_exec(c: &Vec<BookCandidate>) -> (r: Option<Ratio>)
    ensures
        r == best_winrate(cand_views(c@), c@.len() as int),
{
    let ghost cv = cand_views(c@);
    let mut best: Option<Ratio> = None;
    let mut i: usize = 0;
    while i < c.len()
        invariant
            cv == cand_views(c@),
            i <= cv.len(),
            best == best_winrate(cv, i as int),
        decreases c.len() - i,
    {
        assert(cv[i as int] == c@[i as int]@);
        match c[i].winrate {
            None => {},
            Some(w) => {
                best = match best {
                    None => Some(w),
                    Some(p) => if w.less(p) {
                        Some(p)
                    } else {
                        Some(w)
                    },
                };
            },
        }
        i = i + 1;
    }
    best
}

/// The first five candidates, numbered from 1.
fn top5_exec(s: Vec<BookCandidate>) -> (r: Vec<BookCandidate>)
    ensures
        cand_views(r@) == top5(cand_views(s@)),
{
    let ghost sv = cand_views(s@);
    let mut src = s;
    let mut out: Vec<BookCandidate> = Vec::new();
    let mut i: usize = 0;
    assert(cand_views(out@) =~= top5(sv).take(0));
    while src.len() > 0 && i < 5
        invariant
            i <= 5,
            i <= sv.len(),
            cand_views(src@) == sv.skip(i as int),
            cand_views(out@) == top5(sv).take(i as int),
        decreases src.len(),
    {
        assert(cand_views(src@).len() == src@.len());
        let ghost srcv = cand_views(src@);
        let ghost old_src = src@;
        let mut x = src.remove(0);
        assert(src@ =~= old_src.subrange(1, old_src.len() as int));
        assert(cand_views(src@) =~= srcv.skip(1));
        assert(x@ == srcv[0]);
        assert(x@ == sv[i as int]);
        x.rank = Some(i as i64 + 1);
        let ghost prev = out@;
        let ghost xv = x@;
        out.push(x);
        assert(cand_views(out@) =~= cand_views(prev).push(xv));
        assert(cand_views(out@) =~= top5(sv).take(i as int + 1));
        assert(cand_views(src@) =~= sv.skip(i as int + 1));
        i = i + 1;
    }
    assert(top5(sv).len() == i);
    assert(top5(sv).take(i as int) =~= top5(sv));
    out
}

/// The answer built from the service's candidates `cands` for the move asked
/// about `key`, as [`spec_chessdb_select`] says.
pub fn chessdb_select(cands: Vec<BookCandidate>, key: &str) -> (r: BookResponse)
    ensures
        r@ == spec_chessdb_select(cand_views(cands@), key@),
{
    proof {
        reveal_strlit("chessdb");
    }
    let kc = chars_of(key);
    if cands.len() == 0 {
        let mut r = BookResponse::empty("chessdb");
        if kc.len() > 0 && !crate::input::fewer_bytes_than(kc.as_slice(), 4)
            && crate::input::fewer_bytes_than(kc.as_slice(), 5) {
            r.move_uci = Some(string_from_chars(kc.as_slice()));
        }
        return r;
    }
    let best = best_winrate_exec(&cands);
    let valid = with_winrate_exec(&cands);
    let sorted = if valid.len() > 0 {
        if all_ranked_exec(&valid) {
            rank_candidates(RankOrder::Rank, valid)
        } else {
            rank_candidates(RankOrder::Winrate, valid)
        }
    } else {
        let loose = with_full_move_exec(&cands);
        if loose.len() > 0 && all_ranked_exec(&loose) {
            rank_candidates(RankOrder::Rank, loose)
        } else {
            rank_candidates(RankOrder::ScoreThenMove, loose)
        }
    };
    let top = top5_exec(sorted);
    let best_move = if top.len() > 0 {
        clone_opt(&top[0].move_uci)
    } else {
        None
    };
    if kc.len() == 0 {
        return BookResponse {
            move_uci: clone_opt(&best_move),
            best_move,
            best_winrate: best,
            move_eval: None,
            candidates: top,
            source: crate::text::owned("chessdb"),
            error: None,
        };
    }
    let move_eval = crate::book::find_move(&cands, key);
    BookResponse {
        move_uci: Some(crate::text::owned(key)),
        best_move,
        best_winrate: best,
        move_eval,
        candidates: top,
        source: crate::text::owned("chessdb"),
        error: None,
    }
}


/// Where a query to chessdb.cn stands.
#[derive(Clone, Copy, Debug, PartialEq, Eq, Structural)]
pub enum ChessdbStage {
    /// Waiting for every move of the position, to judge the move asked about.
    MoveEval,
    /// Waiting for the best move.
    Best,
    /// The best-move answer had fewer than five moves; waiting for every move.
    BestThenAll,
    /// The answer is known.
    Finished,
}

/// A query to chessdb.cn: it asks for URLs to be fetched and is handed their
/// answers until it knows its own.
pub struct ChessdbQuery {
    pub fen: String,
    /// The move asked about (its first four characters); empty for a plain query.
    pub key: String,
    pub stage: ChessdbStage,
    /// The moves of the best-move answer, kept while every move is fetched.
    pub first: Vec<BookCandidate>,
}

/// What a query needs next.
pub enum ChessdbStep {
    /// The body of this URL (trimmed or not; empty when the fetch failed).
    Fetch(String),
    /// The query's answer.
    Done(BookResponse),
}

/// An answer body that says nothing usable: empty after trimming, or a bad answer.
pub open spec fn unusable(body: Seq<char>) -> bool {
    trim(body).len() == 0 || spec_bad_response(trim(body))
}

/// The step is the answer `v`.
pub open spec fn done_with(r: ChessdbStep, v: ResponseView) -> bool {
    match r {
        ChessdbStep::Done(a) => a@ == v,
        ChessdbStep::Fetch(_) => false,
    }
}

/// The step asks for the URL `url`.
pub open spec fn fetches(r: ChessdbStep, url: Seq<char>) -> bool {
    match r {
        ChessdbStep::Fetch(u) => u@ == url,
        ChessdbStep::Done(_) => false,
    }
}

impl ChessdbQuery {
    /// A query for `fen`, asking about `move_uci` when given; with the URL to fetch first.
    pub fn start(fen: &str, move_uci: Option<String>) -> (r: (ChessdbQuery, String))
        ensures
            r.0.fen@ == fen@,
            r.0.key@ == move_key(opt_view(move_uci)),
            r.0.stage == (if r.0.key@.len() > 0 { ChessdbStage::MoveEval } else { ChessdbStage::Best }),
            r.0.first@.len() == 0,
            r.1@ == spec_chessdb_url(fen@, r.0.key@.len() > 0),
    {
        let key = move_key_of(&move_uci);
        let asks_move = key.as_str().unicode_len() > 0;
        let url = chessdb_url(fen, asks_move);
        let q = ChessdbQuery {
            fen: crate::text::owned(fen),
            key,
            stage: if asks_move { ChessdbStage::MoveEval } else { ChessdbStage::Best },
            first: Vec::new(),
        };
        (q, url)
    }

    /// Takes the body fetched for the last URL and says what comes next.
    pub fn on_answer(&mut self, body: &str) -> (r: ChessdbStep)
        requires
            old(self).stage != ChessdbStage::Finished,
        ensures
            final(self).fen@ == old(self).fen@,
            final(self).key@ == old(self).key@,
            match old(self).stage {
                ChessdbStage::MoveEval => final(self).stage == ChessdbStage::Finished && done_with(
                    r,
                    if unusable(body@) {
                        unanswered(old(self).key@)
                    } else {
                        spec_chessdb_select(spec_parse_candidates(trim(body@)), old(self).key@)
                    },
                ),
                ChessdbStage::Best => if unusable(body@) {
                    final(self).stage == ChessdbStage::Finished && done_with(r, unanswered(old(self).key@))
                } else if spec_parse_candidates(trim(body@)).len() < 5 {
                    &&& final(self).stage == ChessdbStage::BestThenAll
                    &&& cand_views(final(self).first@) == spec_parse_candidates(trim(body@))
                    &&& fetches(r, spec_chessdb_url(old(self).fen@, true))
                } else {
                    final(self).stage == ChessdbStage::Finished && done_with(
                        r,
                        spec_chessdb_select(spec_parse_candidates(trim(body@)), old(self).key@),
                    )
                },
                ChessdbStage::BestThenAll => final(self).stage == ChessdbStage::Finished && done_with(
                    r,
                    spec_chessdb_select(
                        if unusable(body@) {
                            cand_views(old(self).first@)
                        } else {
                            spec_parse_candidates(trim(body@))
                        },
                        old(self).key@,
                    ),
                ),
                ChessdbStage::Finished => true,
            },
    {
        let bc = chars_of(body);
        let tc = trim_chars(bc.as_slice());
        let text = string_from_chars(tc.as_slice());
        let bad = tc.len() == 0 || bad_response(text.as_str());
        match self.stage {
            ChessdbStage::MoveEval => {
                self.stage = ChessdbStage::Finished;
                if bad {
                    ChessdbStep::Done(chessdb_select(Vec::new(), self.key.as_str()))
                } else {
                    let c = parse_candidates(text.as_str());
                    ChessdbStep::Done(chessdb_select(c, self.key.as_str()))
                }
            },
            ChessdbStage::Best => {
                if bad {
                    self.stage = ChessdbStage::Finished;
                    return ChessdbStep::Done(chessdb_select(Vec::new(), self.key.as_str()));
                }
                let c = parse_candidates(text.as_str());
                if c.len() < 5 {
                    self.stage = ChessdbStage::BestThenAll;
                    self.first = c;
                    ChessdbStep::Fetch(chessdb_url(self.fen.as_str(), true))
                } else {
                    self.stage = ChessdbStage::Finished;
                    ChessdbStep::Done(chessdb_select(c, self.key.as_str()))
                }
            },
            ChessdbStage::BestThenAll => {
                self.stage = ChessdbStage::Finished;
                let c = if bad {
                    let mut kept: Vec<BookCandidate> = Vec::new();
                    core::mem::swap(&mut kept, &mut self.first);
                    kept
                } else {
                    parse_candidates(text.as_str())
                };
                ChessdbStep::Done(chessdb_select(c, self.key.as_str()))
            },
            ChessdbStage::Finished => ChessdbStep::Done(BookResponse::empty("chessdb")),
        }
    }
}

} // verus!
