use vstd::prelude::*;

use crate::text::{
    chars_of, is_prefix, parse_i32, parse_u64, signed_value, split_whitespace_chars, split_ws,
    string_from_chars, trim, trim_chars, trim_end_separator_chars, trim_end_separators, unsigned_value,
};

verus! {

/// Scores in this module are kept in hundredths of a pawn; a forced mate counts as this many.
pub const MATE_SCORE: i64 = 999900;

/// The words of an engine output line.
pub open spec fn tokens_of(parts: &[&str]) -> Seq<Seq<char>> {
    Seq::new(parts@.len(), |i: int| parts@[i]@)
}

/// First position at or after `i` where `key` occurs in `toks`.
pub open spec fn find_from(toks: Seq<Seq<char>>, key: Seq<char>, i: int) -> Option<int>
    decreases toks.len() - i,
{
    if i < 0 || i >= toks.len() {
        None
    } else if toks[i] == key {
        Some(i)
    } else {
        find_from(toks, key, i + 1)
    }
}

/// First position of `key` in `toks`.
pub open spec fn find_token(toks: Seq<Seq<char>>, key: Seq<char>) -> Option<int> {
    find_from(toks, key, 0)
}

/// `s` read as a `u64`, if it is one.
pub open spec fn u64_of(s: Seq<char>) -> Option<u64> {
    match unsigned_value(s) {
        Some(v) => if v <= u64::MAX { Some(v as u64) } else { None },
        None => None,
    }
}

/// `s` read as an `i32`, if it is one.
pub open spec fn i32_of(s: Seq<char>) -> Option<i32> {
    match signed_value(s) {
        Some(v) => if i32::MIN <= v <= i32::MAX { Some(v as i32) } else { None },
        None => None,
    }
}

/// A score token read leniently: surrounding whitespace and trailing `,`/`;` are ignored.
pub open spec fn i32_loose(s: Seq<char>) -> Option<i32> {
    if trim(s).len() == 0 {
        None
    } else {
        i32_of(trim_end_separators(trim(s)))
    }
}

/// The `u64` right after the first `key` in `toks` (such as `time`, `nps`, `nodes`).
pub open spec fn u64_after(toks: Seq<Seq<char>>, key: Seq<char>) -> Option<u64> {
    match find_token(toks, key) {
        Some(i) => if i + 1 < toks.len() { u64_of(toks[i + 1]) } else { None },
        None => None,
    }
}

/// Score part of an `info` line: whether a score was read, the score in
/// hundredths of a pawn, the raw centipawns, and the mate distance.
pub open spec fn spec_score(toks: Seq<Seq<char>>) -> (bool, int, Option<i32>, Option<i32>) {
    match find_token(toks, "score"@) {
        Some(i) => if i + 1 < toks.len() {
            let kind = toks[i + 1];
            if kind == "cp"@ || kind == "cp,"@ {
                if i + 2 < toks.len() {
                    match i32_loose(toks[i + 2]) {
                        Some(cp) => (true, cp as int, Some(cp), None),
                        None => (false, 0, None, None),
                    }
                } else {
                    (false, 0, None, None)
                }
            } else if kind == "mate"@ || kind == "mate,"@ {
                if i + 2 < toks.len() {
                    match i32_loose(toks[i + 2]) {
                        Some(m) => (
                            true,
                            if m > 0 { MATE_SCORE as int } else if m < 0 { -MATE_SCORE } else { 0 },
                            None,
                            Some(m),
                        ),
                        None => (false, 0, None, None),
                    }
                } else {
                    (false, 0, None, None)
                }
            } else {
                match i32_loose(kind) {
                    Some(cp) => (true, cp as int, Some(cp), None),
                    None => (false, 0, None, None),
                }
            }
        } else {
            (false, 0, None, None)
        },
        None => (false, 0, None, None),
    }
}

/// The `multipv` rank of an `info` line (1 when absent or unreadable).
pub open spec fn spec_multipv(toks: Seq<Seq<char>>) -> i32 {
    match find_token(toks, "multipv"@) {
        Some(i) => if i + 1 < toks.len() {
            match i32_of(toks[i + 1]) {
                Some(v) => v,
                None => 1,
            }
        } else {
            1
        },
        None => 1,
    }
}

/// The search depth of an `info` line.
pub open spec fn spec_depth(toks: Seq<Seq<char>>) -> Option<i32> {
    match find_token(toks, "depth"@) {
        Some(i) => if i + 1 < toks.len() { i32_of(toks[i + 1]) } else { None },
        None => None,
    }
}

/// The principal variation of an `info` line: every word after `pv`.
pub open spec fn spec_pv(toks: Seq<Seq<char>>) -> Seq<Seq<char>> {
    match find_token(toks, "pv"@) {
        Some(i) => toks.skip(i + 1),
        None => Seq::empty(),
    }
}

/// The word at `j`, read as a `u64`, if there is one.
pub open spec fn u64_at(toks: Seq<Seq<char>>, j: int) -> Option<u64> {
    if 0 <= j < toks.len() {
        u64_of(toks[j])
    } else {
        None
    }
}

/// The win/draw/loss triple after `wdl`, when all three are readable.
pub open spec fn spec_wdl(toks: Seq<Seq<char>>) -> Option<[u64; 3]> {
    match find_token(toks, "wdl"@) {
        Some(i) => match (u64_at(toks, i + 1), u64_at(toks, i + 2), u64_at(toks, i + 3)) {
            (Some(w), Some(d), Some(l)) => Some([w, d, l]),
            _ => None,
        },
        None => None,
    }
}

/// One parsed `info` line.
pub struct ParsedUciStyleInfo {
    pub multipv: i32,
    /// Score in hundredths of a pawn (mate scores are `±MATE_SCORE`).
    pub cand_score: i64,
    /// Raw `score cp` centipawns; `None` when the score is not given in centipawns.
    pub cp_centipawns: Option<i32>,
    pub has_score: bool,
    pub mate: Option<i32>,
    pub pv_tok: Vec<String>,
    pub depth: Option<i32>,
    pub search_time_ms: Option<u64>,
    pub nps: Option<u64>,
    pub nodes: Option<u64>,
    pub wdl: Option<[u64; 3]>,
}

impl ParsedUciStyleInfo {
    /// Every field is what the words `toks` say.
    pub open spec fn matches_tokens(&self, toks: Seq<Seq<char>>) -> bool {
        let (has, score, cp, mate) = spec_score(toks);
        &&& self.multipv == spec_multipv(toks)
        &&& self.has_score == has
        &&& self.cand_score as int == score
        &&& self.cp_centipawns == cp
        &&& self.mate == mate
        &&& self.pv_tok.deep_view() == spec_pv(toks)
        &&& self.depth == spec_depth(toks)
        &&& self.search_time_ms == u64_after(toks, "time"@)
        &&& self.nps == u64_after(toks, "nps"@)
        &&& self.nodes == u64_after(toks, "nodes"@)
        &&& self.wdl == spec_wdl(toks)
    }
}

/// `key` first occurs among the words `toks` at `i`.
pub open spec fn first_at(toks: Seq<Seq<char>>, key: Seq<char>, i: int) -> bool {
    0 <= i < toks.len() && toks[i] == key && forall|k: int| 0 <= k < i ==> toks[k] != key
}

proof fn lemma_find_first(toks: Seq<Seq<char>>, key: Seq<char>, i: int, j: int)
    requires
        first_at(toks, key, i),
        0 <= j <= i,
    ensures
        find_from(toks, key, j) == Some(i),
    decreases i - j,
{
    if j < i {
        lemma_find_first(toks, key, i, j + 1);
    }
}

/// The score of an `info` line, read after its first `score`: `cp v` is `v`
/// hundredths of a pawn and `v` centipawns; `mate m` is a mate with the sign
/// of `m` (the mover mates for `m > 0`, is mated for `m < 0`), scored
/// `MATE_SCORE` with that sign.
pub proof fn lemma_info_score(p: ParsedUciStyleInfo, toks: Seq<Seq<char>>, i: int, v: i32)
    requires
        p.matches_tokens(toks),
        first_at(toks, "score"@, i),
        i + 2 < toks.len(),
        i32_loose(toks[i + 2]) == Some(v),
    ensures
        toks[i + 1] == "mate"@ ==> {
            &&& p.has_score
            &&& p.mate == Some(v)
            &&& p.cp_centipawns is None
            &&& v > 0 ==> p.cand_score == MATE_SCORE
            &&& v < 0 ==> p.cand_score == -MATE_SCORE
            &&& v == 0 ==> p.cand_score == 0
        },
        toks[i + 1] == "cp"@ ==> {
            &&& p.has_score
            &&& p.cand_score == v as i64
            &&& p.cp_centipawns == Some(v)
            &&& p.mate is None
        },
{
    lemma_find_first(toks, "score"@, i, 0);
    reveal_strlit("mate");
    reveal_strlit("mate,");
    reveal_strlit("cp");
    reveal_strlit("cp,");
    assert("mate"@.len() == 4 && "cp"@.len() == 2 && "cp,"@.len() == 3 && "mate,"@.len() == 5);
    assert("mate"@ != "cp"@ && "mate"@ != "cp,"@ && "cp"@ != "mate"@ && "cp"@ != "mate,"@);
}

/// The other fields of an `info` line, each read from the word after the
/// first occurrence of its key: `depth d`, `multipv k`, `time t`, `nodes n`,
/// `nps s`; the principal variation is every word after the first `pv`.
pub proof fn lemma_info_fields(p: ParsedUciStyleInfo, toks: Seq<Seq<char>>)
    requires
        p.matches_tokens(toks),
    ensures
        forall|i: int| #[trigger] first_at(toks, "depth"@, i) && i + 1 < toks.len() ==> p.depth == i32_of(toks[i + 1]),
        forall|i: int|
            #[trigger] first_at(toks, "multipv"@, i) && i + 1 < toks.len() && i32_of(toks[i + 1]) is Some ==> p.multipv
                == i32_of(toks[i + 1])->0,
        forall|i: int| #[trigger] first_at(toks, "time"@, i) && i + 1 < toks.len() ==> p.search_time_ms == u64_of(toks[i + 1]),
        forall|i: int| #[trigger] first_at(toks, "nodes"@, i) && i + 1 < toks.len() ==> p.nodes == u64_of(toks[i + 1]),
        forall|i: int| #[trigger] first_at(toks, "nps"@, i) && i + 1 < toks.len() ==> p.nps == u64_of(toks[i + 1]),
        forall|i: int| #[trigger] first_at(toks, "pv"@, i) ==> p.pv_tok.deep_view() == toks.skip(i + 1),
        forall|i: int|
            #[trigger] first_at(toks, "wdl"@, i) && i + 3 < toks.len() && u64_of(toks[i + 1]) is Some && u64_of(
                toks[i + 2],
            ) is Some && u64_of(toks[i + 3]) is Some ==> p.wdl == Some(
                [u64_of(toks[i + 1])->0, u64_of(toks[i + 2])->0, u64_of(toks[i + 3])->0],
            ),
        (forall|k: int| 0 <= k < toks.len() ==> toks[k] != "score"@) ==> !p.has_score && p.mate is None,
        (forall|k: int| 0 <= k < toks.len() ==> toks[k] != "multipv"@) ==> p.multipv == 1,
{
    assert forall|i: int| #[trigger] first_at(toks, "depth"@, i) && i + 1 < toks.len() implies p.depth == i32_of(toks[i + 1]) by {
        lemma_find_first(toks, "depth"@, i, 0);
    }
    assert forall|i: int|
        #[trigger] first_at(toks, "multipv"@, i) && i + 1 < toks.len() && i32_of(toks[i + 1]) is Some implies p.multipv
            == i32_of(toks[i + 1])->0 by {
        lemma_find_first(toks, "multipv"@, i, 0);
    }
    assert forall|i: int| #[trigger] first_at(toks, "time"@, i) && i + 1 < toks.len() implies p.search_time_ms == u64_of(toks[i + 1]) by {
        lemma_find_first(toks, "time"@, i, 0);
    }
    assert forall|i: int| #[trigger] first_at(toks, "nodes"@, i) && i + 1 < toks.len() implies p.nodes == u64_of(toks[i + 1]) by {
        lemma_find_first(toks, "nodes"@, i, 0);
    }
    assert forall|i: int| #[trigger] first_at(toks, "nps"@, i) && i + 1 < toks.len() implies p.nps == u64_of(toks[i + 1]) by {
        lemma_find_first(toks, "nps"@, i, 0);
    }
    assert forall|i: int| #[trigger] first_at(toks, "pv"@, i) implies p.pv_tok.deep_view() == toks.skip(i + 1) by {
        lemma_find_first(toks, "pv"@, i, 0);
    }
    assert forall|i: int|
        #[trigger] first_at(toks, "wdl"@, i) && i + 3 < toks.len() && u64_of(toks[i + 1]) is Some && u64_of(
            toks[i + 2],
        ) is Some && u64_of(toks[i + 3]) is Some implies p.wdl == Some(
            [u64_of(toks[i + 1])->0, u64_of(toks[i + 2])->0, u64_of(toks[i + 3])->0],
        ) by {
        lemma_find_first(toks, "wdl"@, i, 0);
    }
    if forall|k: int| 0 <= k < toks.len() ==> toks[k] != "score"@ {
        lemma_find_absent(toks, "score"@, 0);
    }
    if forall|k: int| 0 <= k < toks.len() ==> toks[k] != "multipv"@ {
        lemma_find_absent(toks, "multipv"@, 0);
    }
}

proof fn lemma_find_absent(toks: Seq<Seq<char>>, key: Seq<char>, j: int)
    requires
        0 <= j,
        forall|k: int| 0 <= k < toks.len() ==> toks[k] != key,
    ensures
        find_from(toks, key, j) is None,
    decreases toks.len() - j,
{
    if j < toks.len() {
        lemma_find_absent(toks, key, j + 1);
    }
}

/// Characters of each word.
fn words_of(parts: &[&str]) -> (r: Vec<Vec<char>>)
    ensures
        r.deep_view() == tokens_of(parts),
{
    let mut r: Vec<Vec<char>> = Vec::new();
    let mut i: usize = 0;
    while i < parts.len()
        invariant
            i <= parts@.len(),
            r.deep_view() == tokens_of(parts).take(i as int),
        decreases parts.len() - i,
    {
        let w = chars_of(parts[i]);
        let ghost old_r = r.deep_view();
        let ghost wv = w@;
        r.push(w);
        assert(r@.last().deep_view() =~= wv);
        assert(r.deep_view() =~= old_r.push(wv));
        assert(wv == tokens_of(parts)[i as int]);
        assert(tokens_of(parts).take(i as int + 1) =~= tokens_of(parts).take(i as int).push(wv));
        i = i + 1;
    }
    assert(tokens_of(parts).take(parts@.len() as int) =~= tokens_of(parts));
    r
}

/// First position of `key` among `toks`.
fn find_word(toks: &Vec<Vec<char>>, key: &str) -> (r: Option<usize>)
    ensures
        r matches Some(i) ==> find_token(toks.deep_view(), key@) == Some(i as int) && i < toks@.len(),
        r is None ==> find_token(toks.deep_view(), key@) is None,
{
    let k = chars_of(key);
    let mut i: usize = 0;
    while i < toks.len()
        invariant
            i <= toks@.len(),
            k@ == key@,
            find_token(toks.deep_view(), key@) == find_from(toks.deep_view(), key@, i as int),
        decreases toks.len() - i,
    {
        if crate::text::chars_eq(toks[i].as_slice(), k.as_slice()) {
            assert(toks@[i as int]@ =~= toks.deep_view()[i as int]);
            return Some(i);
        }
        assert(toks@[i as int]@ =~= toks.deep_view()[i as int]);
        i = i + 1;
    }
    None
}

fn is_word(w: &Vec<char>, lit: &str) -> (r: bool)
    ensures
        r == (w@ == lit@),
{
    let k = chars_of(lit);
    crate::text::chars_eq(w.as_slice(), k.as_slice())
}

fn u64_word_after(toks: &Vec<Vec<char>>, key: &str) -> (r: Option<u64>)
    ensures
        r == u64_after(toks.deep_view(), key@),
{
    match find_word(toks, key) {
        Some(i) => {
            let n: usize = toks.len();
            if i + 1 < n {
                assert(toks@[i + 1]@ =~= toks.deep_view()[i + 1]);
                parse_u64(toks[i + 1].as_slice())
            } else {
                None
            }
        },
        None => None,
    }
}

fn u64_word_at(toks: &Vec<Vec<char>>, j: usize) -> (r: Option<u64>)
    ensures
        r == u64_at(toks.deep_view(), j as int),
{
    if j < toks.len() {
        assert(toks@[j as int]@ =~= toks.deep_view()[j as int]);
        parse_u64(toks[j].as_slice())
    } else {
        None
    }
}

/// A score token read leniently (`trim`, then trailing `,`/`;` dropped, then `i32`).
pub fn parse_i32_token_loose(token: &[char]) -> (r: Option<i32>)
    ensures
        r == i32_loose(token@),
{
    let t = trim_chars(token);
    if t.len() == 0 {
        return None;
    }
    let t2 = trim_end_separator_chars(t.as_slice());
    parse_i32(t2.as_slice())
}

/// The `u64` right after the first `key` in `parts` (such as `time` or `nps`).
pub fn uci_info_u64_after(parts: &[&str], key: &str) -> (r: Option<u64>)
    ensures
        r == u64_after(tokens_of(parts), key@),
{
    let toks = words_of(parts);
    u64_word_after(&toks, key)
}

fn score_of(toks: &Vec<Vec<char>>) -> (r: (bool, i64, Option<i32>, Option<i32>))
    ensures
        ({
            let (has, score, cp, mate) = spec_score(toks.deep_view());
            r.0 == has && r.1 as int == score && r.2 == cp && r.3 == mate
        }),
{
    let none = (false, 0i64, None, None);
    let i = match find_word(toks, "score") {
        Some(i) => i,
        None => return none,
    };
    let n: usize = toks.len();
    if i + 1 >= n {
        return none;
    }
    let ghost tv = toks.deep_view();
    assert(toks@[i + 1]@ =~= tv[i + 1]);
    let kind = &toks[i + 1];
    if is_word(kind, "cp") || is_word(kind, "cp,") {
        if i + 2 < toks.len() {
            assert(toks@[i + 2]@ =~= tv[i + 2]);
            match parse_i32_token_loose(toks[i + 2].as_slice()) {
                Some(cp) => (true, cp as i64, Some(cp), None),
                None => none,
            }
        } else {
            none
        }
    } else if is_word(kind, "mate") || is_word(kind, "mate,") {
        if i + 2 < toks.len() {
            assert(toks@[i + 2]@ =~= tv[i + 2]);
            match parse_i32_token_loose(toks[i + 2].as_slice()) {
                Some(m) => {
                    let s: i64 = if m > 0 {
                        MATE_SCORE
                    } else if m < 0 {
                        -MATE_SCORE
                    } else {
                        0
                    };
                    (true, s, None, Some(m))
                },
                None => none,
            }
        } else {
            none
        }
    } else {
        match parse_i32_token_loose(kind.as_slice()) {
            Some(cp) => (true, cp as i64, Some(cp), None),
            None => none,
        }
    }
}

/// Parses the words of an engine `info` line; `None` unless the first word is `info`.
pub fn parse_uci_style_info_tokens(parts: &[&str]) -> (r: Option<ParsedUciStyleInfo>)
    ensures
        r is None <==> (tokens_of(parts).len() == 0 || tokens_of(parts)[0] != "info"@),
        r matches Some(p) ==> p.matches_tokens(tokens_of(parts)),
{
    let toks = words_of(parts);
    parse_info_words(&toks)
}

/// Parses an `info` line given as words of characters.
pub fn parse_info_words(toks: &Vec<Vec<char>>) -> (r: Option<ParsedUciStyleInfo>)
    ensures
        r is None <==> (toks.deep_view().len() == 0 || toks.deep_view()[0] != "info"@),
        r matches Some(p) ==> p.matches_tokens(toks.deep_view()),
{
    let ghost tv = toks.deep_view();
    if toks.len() == 0 {
        return None;
    }
    assert(toks@[0]@ =~= tv[0]);
    if !is_word(&toks[0], "info") {
        return None;
    }
    let search_time_ms = u64_word_after(toks, "time");
    let nps = u64_word_after(toks, "nps");
    let nodes = u64_word_after(toks, "nodes");
    let mut multipv: i32 = 1;
    match find_word(toks, "multipv") {
        Some(i) => {
            if i + 1 < toks.len() {
                assert(toks@[i + 1]@ =~= tv[i + 1]);
                multipv = match parse_i32(toks[i + 1].as_slice()) {
                    Some(v) => v,
                    None => 1,
                };
            }
        },
        None => {},
    }
    let (has_score, cand_score, cp_centipawns, mate) = score_of(toks);
    let mut pv_tok: Vec<String> = Vec::new();
    match find_word(toks, "pv") {
        Some(i) => {
            let mut j: usize = i + 1;
            assert(tv.skip(i + 1).take(0) =~= Seq::<Seq<char>>::empty());
            assert(pv_tok.deep_view() =~= Seq::<Seq<char>>::empty());
            while j < toks.len()
                invariant
                    i + 1 <= j <= toks@.len(),
                    tv == toks.deep_view(),
                    pv_tok.deep_view() == tv.skip(i + 1).take(j - (i + 1)),
                decreases toks.len() - j,
            {
                let s = string_from_chars(toks[j].as_slice());
                let ghost old_pv = pv_tok.deep_view();
                let ghost sv = s@;
                pv_tok.push(s);
                assert(toks@[j as int]@ =~= tv[j as int]);
                assert(sv == tv[j as int]);
                assert(pv_tok.deep_view() =~= old_pv.push(sv));
                assert(tv.skip(i + 1).take(j + 1 - (i + 1)) =~= tv.skip(i + 1).take(j - (i + 1)).push(sv));
                j = j + 1;
            }
            assert(tv.skip(i + 1).take(toks@.len() - (i + 1)) =~= tv.skip(i + 1));
        },
        None => {
            assert(pv_tok.deep_view() =~= Seq::<Seq<char>>::empty());
        },
    }
    let mut depth: Option<i32> = None;
    match find_word(toks, "depth") {
        Some(i) => {
            if i + 1 < toks.len() {
                assert(toks@[i + 1]@ =~= tv[i + 1]);
                depth = parse_i32(toks[i + 1].as_slice());
            }
        },
        None => {},
    }
    let wdl = match find_word(toks, "wdl") {
        Some(i) => {
            let w = if i < usize::MAX { u64_word_at(toks, i + 1) } else { None };
            let d = if i < usize::MAX - 1 { u64_word_at(toks, i + 2) } else { None };
            let l = if i < usize::MAX - 2 { u64_word_at(toks, i + 3) } else { None };
            match (w, d, l) {
                (Some(w), Some(d), Some(l)) => Some([w, d, l]),
                _ => None,
            }
        },
        None => None,
    };
    Some(
        ParsedUciStyleInfo {
            multipv,
            cand_score,
            cp_centipawns,
            has_score,
            mate,
            pv_tok,
            depth,
            search_time_ms,
            nps,
            nodes,
            wdl,
        },
    )
}

/// A copy of a list of strings.
pub fn clone_strings(v: &Vec<String>) -> (r: Vec<String>)
    ensures
        r.deep_view() == v.deep_view(),
{
    let mut r: Vec<String> = Vec::new();
    let mut i: usize = 0;
    while i < v.len()
        invariant
            i <= v@.len(),
            r.deep_view() == v.deep_view().take(i as int),
        decreases v.len() - i,
    {
        let ghost old_r = r.deep_view();
        let s = v[i].clone();
        r.push(s);
        assert(r.deep_view() =~= old_r.push(v@[i as int]@));
        assert(v.deep_view().take(i as int + 1) =~= v.deep_view().take(i as int).push(v@[i as int]@));
        i = i + 1;
    }
    assert(v.deep_view().take(v@.len() as int) =~= v.deep_view());
    r
}

/// Abstract engine line: rank, first move, score in hundredths of a pawn, raw
/// centipawns, mate distance, variation, depth, node count and win/draw/loss.
pub struct CandidateView {
    pub rank: i32,
    pub best_move: Seq<char>,
    pub score: i64,
    pub score_cp: Option<i32>,
    pub mate: Option<i32>,
    pub pv: Seq<Seq<char>>,
    pub depth: Option<i32>,
    pub nodes: Option<u64>,
    pub wdl: Option<[u64; 3]>,
}

/// One MultiPV line reported by the engine.
#[derive(Debug, Default)]
pub struct EngineInfoCandidate {
    pub rank: i32,
    pub best_move: String,
    /// Score in hundredths of a pawn (mate scores are `±MATE_SCORE`).
    pub score: i64,
    pub score_cp: Option<i32>,
    pub mate: Option<i32>,
    pub pv: Vec<String>,
    pub depth: Option<i32>,
    pub nodes: Option<u64>,
    pub wdl: Option<[u64; 3]>,
}

impl View for EngineInfoCandidate {
    type V = CandidateView;

    open spec fn view(&self) -> CandidateView {
        CandidateView {
            rank: self.rank,
            best_move: self.best_move@,
            score: self.score,
            score_cp: self.score_cp,
            mate: self.mate,
            pv: self.pv.deep_view(),
            depth: self.depth,
            nodes: self.nodes,
            wdl: self.wdl,
        }
    }
}

impl EngineInfoCandidate {
    /// A field-by-field copy.
    pub fn copy(&self) -> (r: EngineInfoCandidate)
        ensures
            r@ == self@,
    {
        EngineInfoCandidate {
            rank: self.rank,
            best_move: self.best_move.clone(),
            score: self.score,
            score_cp: self.score_cp,
            mate: self.mate,
            pv: clone_strings(&self.pv),
            depth: self.depth,
            nodes: self.nodes,
            wdl: self.wdl,
        }
    }
}

pub open spec fn or_else<T>(a: Option<T>, b: Option<T>) -> Option<T> {
    match a {
        Some(x) => Some(x),
        None => b,
    }
}

/// The line after merging a parsed `info` into the previous line of the same
/// rank: what the new `info` gives replaces the old, what it omits is kept.
pub open spec fn merged_candidate(
    p: &ParsedUciStyleInfo,
    fallback: Seq<char>,
    prev: Option<CandidateView>,
) -> CandidateView {
    let prev_move = match prev {
        Some(c) => c.best_move,
        None => fallback,
    };
    CandidateView {
        rank: p.multipv,
        best_move: if p.pv_tok.deep_view().len() > 0 { p.pv_tok.deep_view()[0] } else { prev_move },
        score: if p.has_score {
            p.cand_score
        } else {
            match prev {
                Some(c) => c.score,
                None => 0,
            }
        },
        score_cp: p.cp_centipawns,
        mate: if p.has_score {
            p.mate
        } else {
            or_else(p.mate, match prev { Some(c) => c.mate, None => None })
        },
        pv: if p.pv_tok.deep_view().len() > 0 {
            p.pv_tok.deep_view()
        } else {
            match prev {
                Some(c) => c.pv,
                None => Seq::empty(),
            }
        },
        depth: or_else(p.depth, match prev { Some(c) => c.depth, None => None }),
        nodes: or_else(p.nodes, match prev { Some(c) => c.nodes, None => None }),
        wdl: or_else(p.wdl, match prev { Some(c) => c.wdl, None => None }),
    }
}

/// Merges a parsed `info` line into the previous line of its rank.
pub fn candidate_from_parsed(
    parsed: &ParsedUciStyleInfo,
    best_move_fallback: &str,
    previous: Option<&EngineInfoCandidate>,
) -> (r: EngineInfoCandidate)
    ensures
        r@ == merged_candidate(
            parsed,
            best_move_fallback@,
            match previous {
                Some(c) => Some(c@),
                None => None,
            },
        ),
{
    let move0 = if parsed.pv_tok.len() > 0 {
        parsed.pv_tok[0].clone()
    } else {
        match previous {
            Some(c) => c.best_move.clone(),
            None => String::from_str(best_move_fallback),
        }
    };
    let score: i64 = if parsed.has_score {
        parsed.cand_score
    } else {
        match previous {
            Some(c) => c.score,
            None => 0,
        }
    };
    let pv = if parsed.pv_tok.len() > 0 {
        clone_strings(&parsed.pv_tok)
    } else {
        match previous {
            Some(c) => clone_strings(&c.pv),
            None => Vec::new(),
        }
    };
    let prev_depth = match previous { Some(c) => c.depth, None => None };
    let prev_nodes = match previous { Some(c) => c.nodes, None => None };
    let prev_wdl = match previous { Some(c) => c.wdl, None => None };
    let prev_mate = match previous { Some(c) => c.mate, None => None };
    let depth = match parsed.depth { Some(d) => Some(d), None => prev_depth };
    let nodes = match parsed.nodes { Some(n) => Some(n), None => prev_nodes };
    let wdl = match parsed.wdl { Some(w) => Some(w), None => prev_wdl };
    let mate = if parsed.has_score {
        parsed.mate
    } else {
        match parsed.mate { Some(m) => Some(m), None => prev_mate }
    };
    let r = EngineInfoCandidate {
        rank: parsed.multipv,
        best_move: move0,
        score,
        score_cp: parsed.cp_centipawns,
        mate,
        pv,
        depth,
        nodes,
        wdl,
    };
    assert(parsed.pv_tok.deep_view().len() > 0 ==> parsed.pv_tok@[0]@ == parsed.pv_tok.deep_view()[0]);
    assert(previous is None && parsed.pv_tok.deep_view().len() == 0 ==> r.pv.deep_view() =~= Seq::<Seq<char>>::empty());
    r
}

/// The ranks of `cands` are strictly increasing.
pub open spec fn ranks_sorted(cands: Seq<CandidateView>) -> bool {
    forall|i: int, j: int| 0 <= i < j < cands.len() ==> cands[i].rank < cands[j].rank
}

/// The line of rank `rank` in `cands`.
pub open spec fn lookup_rank(cands: Seq<CandidateView>, rank: i32) -> Option<CandidateView> {
    if exists|i: int| 0 <= i < cands.len() && cands[i].rank == rank {
        let i = choose|i: int| 0 <= i < cands.len() && cands[i].rank == rank;
        Some(cands[i])
    } else {
        None
    }
}

/// Views of a list of lines.
pub open spec fn cand_views(v: Seq<EngineInfoCandidate>) -> Seq<CandidateView> {
    Seq::new(v.len(), |i: int| v[i]@)
}

/// Abstract streaming state.
pub struct InfoStateView {
    pub best_move: Seq<char>,
    pub score: i64,
    pub pv: Seq<Seq<char>>,
    pub depth_seen: Option<i32>,
    pub cands: Seq<CandidateView>,
    pub search_time_ms: Option<u64>,
    pub nps: Option<u64>,
    pub nodes: Option<u64>,
    pub wdl: Option<[u64; 3]>,
    pub mate: Option<i32>,
}

/// What the engine has reported so far during one search.
pub struct EngineInfoState {
    pub best_move: String,
    /// Score of the latest `info` line, in hundredths of a pawn.
    pub score: i64,
    pub pv: Vec<String>,
    pub depth_seen: Option<i32>,
    /// One line per MultiPV rank, in increasing rank order.
    cands_by_rank: Vec<EngineInfoCandidate>,
    pub search_time_ms: Option<u64>,
    pub nps: Option<u64>,
    pub nodes: Option<u64>,
    pub wdl: Option<[u64; 3]>,
    pub mate: Option<i32>,
}

impl View for EngineInfoState {
    type V = InfoStateView;

    closed spec fn view(&self) -> InfoStateView {
        InfoStateView {
            best_move: self.best_move@,
            score: self.score,
            pv: self.pv.deep_view(),
            depth_seen: self.depth_seen,
            cands: cand_views(self.cands_by_rank@),
            search_time_ms: self.search_time_ms,
            nps: self.nps,
            nodes: self.nodes,
            wdl: self.wdl,
            mate: self.mate,
        }
    }
}

/// Placeholder best move before the engine reports one.
pub open spec fn stub_move() -> Seq<char> {
    "stub_move"@
}

impl EngineInfoState {
    /// Lines are kept in strictly increasing rank order.
    pub open spec fn wf(&self) -> bool {
        ranks_sorted(self@.cands)
    }

    /// The state before any output: best move `stub_move`, nothing else known.
    pub fn new() -> (r: EngineInfoState)
        ensures
            r.wf(),
            r@.best_move == stub_move(),
            r@.score == 0,
            r@.pv.len() == 0,
            r@.depth_seen is None,
            r@.cands.len() == 0,
            r@.search_time_ms is None,
            r@.nps is None,
            r@.nodes is None,
            r@.wdl is None,
            r@.mate is None,
    {
        let r = EngineInfoState {
            best_move: String::from_str("stub_move"),
            score: 0,
            pv: Vec::new(),
            depth_seen: None,
            cands_by_rank: Vec::new(),
            search_time_ms: None,
            nps: None,
            nodes: None,
            wdl: None,
            mate: None,
        };
        assert(r@.cands =~= Seq::<CandidateView>::empty());
        r
    }

    /// The lines reported so far, in increasing rank order.
    pub fn candidates(&self) -> (r: Vec<EngineInfoCandidate>)
        ensures
            cand_views(r@) == self@.cands,
    {
        let mut r: Vec<EngineInfoCandidate> = Vec::new();
        let mut i: usize = 0;
        while i < self.cands_by_rank.len()
            invariant
                i <= self.cands_by_rank@.len(),
                cand_views(r@) == cand_views(self.cands_by_rank@).take(i as int),
            decreases self.cands_by_rank.len() - i,
        {
            let ghost old_r = cand_views(r@);
            let c = self.cands_by_rank[i].copy();
            r.push(c);
            assert(cand_views(r@) =~= old_r.push(self.cands_by_rank@[i as int]@));
            assert(cand_views(r@) =~= cand_views(self.cands_by_rank@).take(i as int + 1));
            i = i + 1;
        }
        assert(cand_views(self.cands_by_rank@).take(self.cands_by_rank@.len() as int) =~= cand_views(
            self.cands_by_rank@,
        ));
        r
    }

    /// Position of the line of `rank`, or where it would be inserted.
    fn rank_slot(&self, rank: i32) -> (r: (usize, bool))
        requires
            self.wf(),
        ensures
            r.0 <= self@.cands.len(),
            forall|j: int| 0 <= j < r.0 ==> self@.cands[j].rank < rank,
            r.1 ==> r.0 < self@.cands.len() && self@.cands[r.0 as int].rank == rank,
            !r.1 ==> forall|j: int| r.0 <= j < self@.cands.len() ==> self@.cands[j].rank > rank,
    {
        let mut i: usize = 0;
        while i < self.cands_by_rank.len()
            invariant
                self.wf(),
                i <= self@.cands.len(),
                self@.cands.len() == self.cands_by_rank@.len(),
                forall|j: int| 0 <= j < i ==> self@.cands[j].rank < rank,
            decreases self.cands_by_rank.len() - i,
        {
            let rr = self.cands_by_rank[i].rank;
            assert(self@.cands[i as int].rank == rr);
            if rr == rank {
                return (i, true);
            }
            if rr > rank {
                return (i, false);
            }
            i = i + 1;
        }
        (i, false)
    }
}

/// In a rank-sorted list, looking up the rank of an entry finds that entry.
pub proof fn lemma_lookup_sorted(s: Seq<CandidateView>, i: int)
    requires
        ranks_sorted(s),
        0 <= i < s.len(),
    ensures
        lookup_rank(s, s[i].rank) == Some(s[i]),
{
    let j = choose|j: int| 0 <= j < s.len() && s[j].rank == s[i].rank;
    if j < i {
        assert(s[j].rank < s[i].rank);
    } else if j > i {
        assert(s[i].rank < s[j].rank);
    }
}

/// The lines after recording `c`: the line of its rank is replaced, or `c` is
/// added; the list stays in increasing rank order.
pub open spec fn upserted(old: Seq<CandidateView>, new: Seq<CandidateView>, c: CandidateView) -> bool {
    &&& ranks_sorted(new)
    &&& lookup_rank(new, c.rank) == Some(c)
    &&& forall|k: i32| k != c.rank ==> #[trigger] lookup_rank(new, k) == lookup_rank(old, k)
    &&& new.len() == old.len() + if lookup_rank(old, c.rank) is Some { 0int } else { 1int }
}

proof fn lemma_upsert_replace(old: Seq<CandidateView>, i: int, c: CandidateView)
    requires
        ranks_sorted(old),
        0 <= i < old.len(),
        old[i].rank == c.rank,
    ensures
        upserted(old, old.update(i, c), c),
{
    let new = old.update(i, c);
    assert(ranks_sorted(new));
    lemma_lookup_sorted(new, i);
    lemma_lookup_sorted(old, i);
    assert forall|k: i32| k != c.rank implies #[trigger] lookup_rank(new, k) == lookup_rank(old, k) by {
        if exists|j: int| 0 <= j < old.len() && old[j].rank == k {
            let j = choose|j: int| 0 <= j < old.len() && old[j].rank == k;
            lemma_lookup_sorted(old, j);
            assert(new[j] == old[j]);
            lemma_lookup_sorted(new, j);
        } else {
            assert(!exists|j: int| 0 <= j < new.len() && new[j].rank == k);
        }
    }
}

proof fn lemma_upsert_insert(old: Seq<CandidateView>, i: int, c: CandidateView)
    requires
        ranks_sorted(old),
        0 <= i <= old.len(),
        forall|j: int| 0 <= j < i ==> old[j].rank < c.rank,
        forall|j: int| i <= j < old.len() ==> old[j].rank > c.rank,
    ensures
        upserted(old, old.insert(i, c), c),
{
    let new = old.insert(i, c);
    assert(ranks_sorted(new));
    lemma_lookup_sorted(new, i);
    assert(!exists|j: int| 0 <= j < old.len() && old[j].rank == c.rank);
    assert forall|k: i32| k != c.rank implies #[trigger] lookup_rank(new, k) == lookup_rank(old, k) by {
        if exists|j: int| 0 <= j < old.len() && old[j].rank == k {
            let j = choose|j: int| 0 <= j < old.len() && old[j].rank == k;
            lemma_lookup_sorted(old, j);
            if j < i {
                assert(new[j] == old[j]);
                lemma_lookup_sorted(new, j);
            } else {
                assert(new[j + 1] == old[j]);
                lemma_lookup_sorted(new, j + 1);
            }
        } else {
            assert forall|j: int| 0 <= j < new.len() implies new[j].rank != k by {
                if j < i {
                    assert(new[j] == old[j]);
                } else if j > i {
                    assert(new[j] == old[j - 1]);
                }
            }
        }
    }
}

impl EngineInfoState {
    /// The state after one parsed `info` line: counters the line gives replace
    /// the old ones, the score and depth are taken as given, the variation is
    /// replaced when the line has one, and the line of its MultiPV rank is merged.
    pub open spec fn after_info(old: InfoStateView, p: &ParsedUciStyleInfo, new: InfoStateView) -> bool {
        &&& new.best_move == old.best_move
        &&& new.search_time_ms == or_else(p.search_time_ms, old.search_time_ms)
        &&& new.nps == or_else(p.nps, old.nps)
        &&& new.nodes == or_else(p.nodes, old.nodes)
        &&& new.wdl == or_else(p.wdl, old.wdl)
        &&& new.mate == if p.has_score { p.mate } else { old.mate }
        &&& new.score == p.cand_score
        &&& new.pv == if p.pv_tok.deep_view().len() > 0 { p.pv_tok.deep_view() } else { old.pv }
        &&& new.depth_seen == p.depth
        &&& upserted(
            old.cands,
            new.cands,
            merged_candidate(p, old.best_move, lookup_rank(old.cands, p.multipv)),
        )
    }
}

/// Folding an `info` line with a score into the state: the state and the
/// line's candidate (found by its MultiPV rank) take that score, a mate with
/// the sign of the mate distance; the line's depth becomes the state's depth.
pub proof fn lemma_info_line_state(
    old: InfoStateView,
    p: ParsedUciStyleInfo,
    new: InfoStateView,
    toks: Seq<Seq<char>>,
    i: int,
    v: i32,
)
    requires
        p.matches_tokens(toks),
        EngineInfoState::after_info(old, &p, new),
        first_at(toks, "score"@, i),
        i + 2 < toks.len(),
        i32_loose(toks[i + 2]) == Some(v),
        toks[i + 1] == "mate"@ || toks[i + 1] == "cp"@,
    ensures
        lookup_rank(new.cands, p.multipv) is Some,
        lookup_rank(new.cands, p.multipv)->0.score == new.score,
        lookup_rank(new.cands, p.multipv)->0.mate == new.mate,
        toks[i + 1] == "mate"@ ==> {
            &&& new.mate == Some(v)
            &&& v > 0 ==> new.score == MATE_SCORE
            &&& v < 0 ==> new.score == -MATE_SCORE
        },
        toks[i + 1] == "cp"@ ==> new.score == v as i64 && new.mate is None,
        new.depth_seen == p.depth,
{
    lemma_info_score(p, toks, i, v);
}

impl EngineInfoState {
    fn record_candidate(&mut self, parsed: &ParsedUciStyleInfo)
        requires
            old(self).wf(),
        ensures
            final(self).wf(),
            final(self)@ == (InfoStateView { cands: final(self)@.cands, ..old(self)@ }),
            upserted(
                old(self)@.cands,
                final(self)@.cands,
                merged_candidate(parsed, old(self)@.best_move, lookup_rank(old(self)@.cands, parsed.multipv)),
            ),
    {
        let (slot, found) = self.rank_slot(parsed.multipv);
        let ghost old_cands = self@.cands;
        if found {
            proof {
                lemma_lookup_sorted(old_cands, slot as int);
            }
            let c = candidate_from_parsed(parsed, self.best_move.as_str(), Some(&self.cands_by_rank[slot]));
            let ghost cv = c@;
            self.cands_by_rank.set(slot, c);
            proof {
                assert(cand_views(self.cands_by_rank@) =~= old_cands.update(slot as int, cv));
                lemma_upsert_replace(old_cands, slot as int, cv);
            }
        } else {
            proof {
                assert(!exists|j: int| 0 <= j < old_cands.len() && old_cands[j].rank == parsed.multipv);
            }
            let c = candidate_from_parsed(parsed, self.best_move.as_str(), None);
            let ghost cv = c@;
            self.cands_by_rank.insert(slot, c);
            proof {
                assert(cand_views(self.cands_by_rank@) =~= old_cands.insert(slot as int, cv));
                lemma_upsert_insert(old_cands, slot as int, cv);
            }
        }
    }
}

/// Folds one parsed `info` line into the streaming state.
pub fn apply_parsed_info_to_state(parsed: &ParsedUciStyleInfo, st: &mut EngineInfoState)
    requires
        old(st).wf(),
    ensures
        final(st).wf(),
        EngineInfoState::after_info(old(st)@, parsed, final(st)@),
{
    if let Some(t) = parsed.search_time_ms {
        st.search_time_ms = Some(t);
    }
    if let Some(n) = parsed.nps {
        st.nps = Some(n);
    }
    if let Some(n) = parsed.nodes {
        st.nodes = Some(n);
    }
    if let Some(w) = parsed.wdl {
        st.wdl = Some(w);
    }
    if parsed.has_score {
        st.mate = parsed.mate;
    }
    st.score = parsed.cand_score;
    if parsed.pv_tok.len() > 0 {
        st.pv = clone_strings(&parsed.pv_tok);
    }
    st.depth_seen = parsed.depth;
    st.record_candidate(parsed);
}

/// Most half-moves of a variation shown in the panel.
pub const ENGINE_PV_UI_MAX_STEPS: usize = 16;

/// Moves of `pv` that are board moves `[a-i][0-9][a-i][0-9]`, in order.
pub open spec fn board_moves(pv: Seq<Seq<char>>) -> Seq<Seq<char>>
    decreases pv.len(),
{
    if pv.len() == 0 {
        Seq::empty()
    } else if is_board_move(pv.last()) {
        board_moves(pv.drop_last()).push(pv.last())
    } else {
        board_moves(pv.drop_last())
    }
}

/// The variation as shown: only board moves are kept, in order, and at most
/// `ENGINE_PV_UI_MAX_STEPS` of them.
pub open spec fn ui_pv(pv: Seq<Seq<char>>) -> Seq<Seq<char>> {
    let l = board_moves(pv);
    if l.len() <= 16 {
        l
    } else {
        l.take(16)
    }
}

proof fn lemma_board_moves_len(pv: Seq<Seq<char>>)
    ensures
        board_moves(pv).len() <= pv.len(),
    decreases pv.len(),
{
    if pv.len() > 0 {
        lemma_board_moves_len(pv.drop_last());
    }
}

/// Shortens a variation for display.
pub fn truncate_engine_pv_for_ui(pv: &[String]) -> (r: Vec<String>)
    ensures
        r.deep_view() == ui_pv(pv.deep_view()),
{
    let mut out: Vec<String> = Vec::new();
    let mut i: usize = 0;
    assert(out.deep_view() =~= Seq::<Seq<char>>::empty());
    while i < pv.len()
        invariant
            i <= pv@.len(),
            out.deep_view() == ui_pv(pv.deep_view().take(i as int)),
            out@.len() <= 16,
        decreases pv.len() - i,
    {
        proof {
            assert(pv.deep_view().take(i as int + 1).drop_last() =~= pv.deep_view().take(i as int));
            assert(pv.deep_view().take(i as int + 1).last() == pv@[i as int]@);
        }
        if out.len() >= ENGINE_PV_UI_MAX_STEPS {
            proof {
                lemma_ui_pv_full(pv.deep_view(), i as int);
            }
            return out;
        }
        let keep = uci_xiangqi_best_ready(pv[i].as_str());
        proof {
            lemma_board_moves_len(pv.deep_view().take(i as int));
            assert(ui_pv(pv.deep_view().take(i as int)) == board_moves(pv.deep_view().take(i as int)));
        }
        if keep {
            let ghost old_out = out.deep_view();
            let s = pv[i].clone();
            out.push(s);
            assert(out.deep_view() =~= old_out.push(pv@[i as int]@));
        }
        i = i + 1;
    }
    assert(pv.deep_view().take(pv@.len() as int) =~= pv.deep_view());
    out
}

/// Once sixteen moves are kept, later moves change nothing.
proof fn lemma_ui_pv_full(pv: Seq<Seq<char>>, i: int)
    requires
        0 <= i <= pv.len(),
        ui_pv(pv.take(i)).len() >= 16,
    ensures
        ui_pv(pv) == ui_pv(pv.take(i)),
    decreases pv.len() - i,
{
    if i < pv.len() {
        assert(pv.take(i + 1).drop_last() =~= pv.take(i));
        lemma_board_moves_len(pv.take(i));
        assert(ui_pv(pv.take(i + 1)) =~= ui_pv(pv.take(i)));
        lemma_ui_pv_full(pv, i + 1);
    } else {
        assert(pv.take(i) =~= pv);
    }
}

/// `s` has the shape `[a-i][0-9][a-i][0-9]` of a board move.
pub open spec fn is_board_move(s: Seq<char>) -> bool {
    &&& s.len() == 4
    &&& 'a' <= s[0] && s[0] <= 'i'
    &&& '0' <= s[1] && s[1] <= '9'
    &&& 'a' <= s[2] && s[2] <= 'i'
    &&& '0' <= s[3] && s[3] <= '9'
}

/// Whether `s` is a board move `[a-i][0-9][a-i][0-9]` (so not the placeholder `stub_move`).
pub fn uci_xiangqi_best_ready(s: &str) -> (r: bool)
    ensures
        r == is_board_move(s@),
{
    let b = chars_of(s);
    b.len() == 4 && ('a' <= b[0] && b[0] <= 'i') && ('0' <= b[1] && b[1] <= '9') && ('a' <= b[2]
        && b[2] <= 'i') && ('0' <= b[3] && b[3] <= '9')
}

/// The main line: the first (lowest-rank) candidate, or the fallback values when there is none.
pub fn select_main_line_from_candidates(
    cand_list: &[EngineInfoCandidate],
    fallback_best_move: &str,
    fallback_score: i64,
    fallback_pv: &[String],
    fallback_depth: Option<i32>,
    fallback_mate: Option<i32>,
) -> (r: (String, i64, Vec<String>, Option<i32>, Option<i32>))
    ensures
        cand_list@.len() > 0 ==> r.0@ == cand_list@[0].best_move@ && r.1 == cand_list@[0].score
            && r.2.deep_view() == cand_list@[0].pv.deep_view() && r.3 == cand_list@[0].depth && r.4
            == cand_list@[0].mate,
        cand_list@.len() == 0 ==> r.0@ == fallback_best_move@ && r.1 == fallback_score
            && r.2.deep_view() == fallback_pv.deep_view() && r.3 == fallback_depth && r.4
            == fallback_mate,
{
    if cand_list.len() > 0 {
        let first = &cand_list[0];
        return (first.best_move.clone(), first.score, clone_strings(&first.pv), first.depth, first.mate);
    }
    let mut pv: Vec<String> = Vec::new();
    let mut i: usize = 0;
    while i < fallback_pv.len()
        invariant
            i <= fallback_pv@.len(),
            pv.deep_view() == fallback_pv.deep_view().take(i as int),
        decreases fallback_pv.len() - i,
    {
        let ghost old_pv = pv.deep_view();
        pv.push(fallback_pv[i].clone());
        assert(pv.deep_view() =~= old_pv.push(fallback_pv@[i as int]@));
        assert(fallback_pv.deep_view().take(i as int + 1) =~= old_pv.push(fallback_pv@[i as int]@));
        i = i + 1;
    }
    assert(fallback_pv.deep_view().take(fallback_pv@.len() as int) =~= fallback_pv.deep_view());
    (String::from_str(fallback_best_move), fallback_score, pv, fallback_depth, fallback_mate)
}

/// Result of one engine search.
#[derive(Debug, Default)]
pub struct EngineAnalyzeResult {
    pub best_move: String,
    /// Score in hundredths of a pawn (mate scores are `±MATE_SCORE`).
    pub score: i64,
    pub score_cp: Option<i64>,
    pub pv: Vec<String>,
    pub depth: Option<i32>,
    pub candidates: Vec<EngineInfoCandidate>,
    pub search_time_ms: Option<u64>,
    pub nps: Option<u64>,
    pub nodes: Option<u64>,
    pub wdl: Option<[u64; 3]>,
    pub mate: Option<i32>,
}

impl EngineAnalyzeResult {
    /// The result used before or instead of a search: no move, zero counters.
    pub fn stub() -> (r: EngineAnalyzeResult)
        ensures
            r.best_move@.len() == 0,
            r.score == 0,
            r.score_cp is None,
            r.pv@.len() == 0,
            r.depth == Some(0i32),
            r.candidates@.len() == 0,
            r.search_time_ms == Some(0u64),
            r.nps == Some(0u64),
            r.nodes == Some(0u64),
            r.wdl is None,
            r.mate is None,
    {
        EngineAnalyzeResult {
            best_move: String::new(),
            score: 0,
            score_cp: None,
            pv: Vec::new(),
            depth: Some(0),
            candidates: Vec::new(),
            search_time_ms: Some(0),
            nps: Some(0),
            nodes: Some(0),
            wdl: None,
            mate: None,
        }
    }
}

/// The result as it reads from a streaming state: the main line is the
/// lowest-rank candidate (or the state's own values when there is none), its
/// variation shortened for display.
pub open spec fn result_matches_state(r: &EngineAnalyzeResult, st: InfoStateView) -> bool {
    &&& cand_views(r.candidates@) == st.cands
    &&& if st.cands.len() > 0 {
        let c = st.cands[0];
        &&& r.best_move@ == c.best_move
        &&& r.score == c.score
        &&& r.pv.deep_view() == ui_pv(c.pv)
        &&& r.depth == c.depth
        &&& r.mate == c.mate
        &&& r.score_cp == match c.score_cp {
            Some(cp) => Some(cp as i64),
            None => None,
        }
    } else {
        &&& r.best_move@ == st.best_move
        &&& r.score == st.score
        &&& r.pv.deep_view() == ui_pv(st.pv)
        &&& r.depth == st.depth_seen
        &&& r.mate == st.mate
        &&& r.score_cp is None
    }
    &&& r.search_time_ms == st.search_time_ms
    &&& r.nps == st.nps
    &&& r.nodes == st.nodes
    &&& r.wdl == st.wdl
}

/// The panel shows the main line: the line with the lowest MultiPV rank
/// (its move, score, mate and depth), or the state's own fields while no line
/// has come; the counters are the state's.
pub proof fn lemma_result_main_line(r: EngineAnalyzeResult, st: InfoStateView)
    requires
        result_matches_state(&r, st),
        ranks_sorted(st.cands),
    ensures
        st.cands.len() > 0 ==> exists|i: int|
            0 <= i < st.cands.len() && (forall|j: int| 0 <= j < st.cands.len() ==> st.cands[i].rank <= #[trigger] st.cands[j].rank)
                && r.best_move@ == #[trigger] st.cands[i].best_move && r.score == st.cands[i].score && r.mate
                == st.cands[i].mate && r.depth == st.cands[i].depth,
        st.cands.len() == 0 ==> r.best_move@ == st.best_move && r.score == st.score && r.mate == st.mate,
        r.nodes == st.nodes && r.nps == st.nps && r.search_time_ms == st.search_time_ms && r.wdl == st.wdl,
{
    if st.cands.len() > 0 {
        assert(forall|j: int| 0 <= j < st.cands.len() ==> st.cands[0].rank <= #[trigger] st.cands[j].rank) by {
            assert forall|j: int| 0 <= j < st.cands.len() implies st.cands[0].rank <= #[trigger] st.cands[j].rank by {
                if j > 0 {
                    assert(st.cands[0].rank < st.cands[j].rank);
                }
            }
        }
        assert(r.best_move@ == st.cands[0].best_move);
    }
}

/// Builds the shared analysis result from the streaming state.
pub fn analyze_result_from_info_state(st: &EngineInfoState) -> (r: EngineAnalyzeResult)
    ensures
        result_matches_state(&r, st@),
{
    let candidates = st.candidates();
    let (best_move, score, pv, depth, mate) = select_main_line_from_candidates(
        candidates.as_slice(),
        st.best_move.as_str(),
        st.score,
        st.pv.as_slice(),
        st.depth_seen,
        st.mate,
    );
    let score_cp: Option<i64> = if candidates.len() > 0 {
        match candidates[0].score_cp {
            Some(cp) => Some(cp as i64),
            None => None,
        }
    } else {
        None
    };
    let shown = truncate_engine_pv_for_ui(pv.as_slice());
    EngineAnalyzeResult {
        best_move,
        score,
        score_cp,
        pv: shown,
        depth,
        candidates,
        search_time_ms: st.search_time_ms,
        nps: st.nps,
        nodes: st.nodes,
        wdl: st.wdl,
        mate,
    }
}

/// The shared snapshot of a streaming search.
#[derive(Debug)]
pub struct EngineAnalysisStore {
    pub fen: String,
    pub result: EngineAnalyzeResult,
    /// Raised by every patch so that readers can skip unchanged frames.
    pub revision: u64,
}

/// `true` exactly when the result has the contents of `EngineAnalyzeResult::stub`.
pub open spec fn is_stub(r: &EngineAnalyzeResult) -> bool {
    &&& r.best_move@.len() == 0
    &&& r.score == 0
    &&& r.score_cp is None
    &&& r.pv@.len() == 0
    &&& r.depth == Some(0i32)
    &&& r.candidates@.len() == 0
    &&& r.search_time_ms == Some(0u64)
    &&& r.nps == Some(0u64)
    &&& r.nodes == Some(0u64)
    &&& r.wdl is None
    &&& r.mate is None
}

/// `revision + 1`, staying at the largest value.
pub open spec fn bumped(revision: u64) -> u64 {
    if revision < u64::MAX {
        (revision + 1) as u64
    } else {
        revision
    }
}

impl EngineAnalysisStore {
    /// An empty snapshot for position `fen` (trimmed), at revision 0.
    pub fn empty_for_fen(fen: &str) -> (r: EngineAnalysisStore)
        ensures
            r.fen@ == trim(fen@),
            is_stub(&r.result),
            r.revision == 0,
    {
        EngineAnalysisStore {
            fen: crate::text::trim_str(fen),
            result: EngineAnalyzeResult::stub(),
            revision: 0,
        }
    }

    /// Starts over for a new stream on `fen`.
    pub fn reset_for_stream(&mut self, fen: &str)
        ensures
            final(self).fen@ == trim(fen@),
            is_stub(&final(self).result),
            final(self).revision == 0,
    {
        *self = EngineAnalysisStore::empty_for_fen(fen);
    }

    /// Publishes the streaming state for `fen` and raises the revision.
    pub fn patch_from_info_state(&mut self, fen: &str, st: &EngineInfoState)
        ensures
            final(self).fen@ == trim(fen@),
            result_matches_state(&final(self).result, st@),
            final(self).revision == bumped(old(self).revision),
    {
        self.fen = crate::text::trim_str(fen);
        self.result = analyze_result_from_info_state(st);
        self.bump_revision();
    }

    /// Publishes the final best move and raises the revision.
    pub fn patch_best_move(&mut self, best_move: String)
        ensures
            final(self).fen == old(self).fen,
            final(self).result.best_move == best_move,
            final(self).result.score == old(self).result.score,
            final(self).result.pv == old(self).result.pv,
            final(self).result.depth == old(self).result.depth,
            final(self).revision == bumped(old(self).revision),
    {
        self.result.best_move = best_move;
        self.bump_revision();
    }

    fn bump_revision(&mut self)
        ensures
            final(self).revision == bumped(old(self).revision),
            final(self).fen == old(self).fen,
            final(self).result == old(self).result,
    {
        if self.revision < u64::MAX {
            self.revision = self.revision + 1;
        }
    }
}

/// What a line of `go infinite` output means for the stream.
#[derive(Debug, Clone, Copy, PartialEq, Eq, Structural)]
pub enum InfiniteLineOutcome {
    Continue,
    GotBestmove,
}

/// The line (trimmed) is an `info` line.
pub open spec fn is_info_line(line: Seq<char>) -> bool {
    is_prefix("info "@, trim(line))
}

/// The line (trimmed) is a `bestmove` line.
pub open spec fn is_bestmove_line(line: Seq<char>) -> bool {
    is_prefix("bestmove"@, trim(line))
}

/// The state `after` is `before` with one line of engine output folded in:
/// an `info` line's fields merged, a `bestmove` line's move recorded, any
/// other line ignored.
pub open spec fn line_applied(before: InfoStateView, line: Seq<char>, after: InfoStateView) -> bool {
    &&& is_info_line(line) ==> ({
        let words = split_ws(trim(line));
        if words.len() > 0 && words[0] == "info"@ {
            exists|p: ParsedUciStyleInfo| #[trigger] p.matches_tokens(words) && EngineInfoState::after_info(before, &p, after)
        } else {
            after == before
        }
    })
    &&& !is_info_line(line) && is_bestmove_line(line) ==> ({
        let words = split_ws(trim(line));
        after == (InfoStateView { best_move: if words.len() >= 2 { words[1] } else { before.best_move }, ..before })
    })
    &&& !is_info_line(line) && !is_bestmove_line(line) ==> after == before
}

/// Folds one line of engine output into the streaming state: `info` lines are
/// parsed and merged, a `bestmove` line records its move and ends the stream,
/// any other line is ignored.
pub fn apply_infinite_stdout_line(line: &str, fen: &str, st: &mut EngineInfoState) -> (r: InfiniteLineOutcome)
    requires
        old(st).wf(),
    ensures
        final(st).wf(),
        r == if !is_info_line(line@) && is_bestmove_line(line@) {
            InfiniteLineOutcome::GotBestmove
        } else {
            InfiniteLineOutcome::Continue
        },
        line_applied(old(st)@, line@, final(st)@),
{
    let raw = chars_of(line);
    let t = trim_chars(raw.as_slice());
    let info = chars_of("info ");
    let bm = chars_of("bestmove");
    if crate::text::starts_with_chars(t.as_slice(), info.as_slice()) {
        let words = split_whitespace_chars(t.as_slice());
        match parse_info_words(&words) {
            Some(parsed) => {
                apply_parsed_info_to_state(&parsed, st);
            },
            None => {},
        }
        InfiniteLineOutcome::Continue
    } else if crate::text::starts_with_chars(t.as_slice(), bm.as_slice()) {
        let words = split_whitespace_chars(t.as_slice());
        if words.len() >= 2 {
            assert(words@[1]@ =~= words.deep_view()[1]);
            st.set_best_move(string_from_chars(words[1].as_slice()));
        }
        InfiniteLineOutcome::GotBestmove
    } else {
        InfiniteLineOutcome::Continue
    }
}

/// What a search waiting for its `bestmove` learned since its last step.
pub enum AnalysisEvent {
    /// The time allowed for the search is over.
    DeadlinePassed,
    /// The caller asked to stop.
    Cancelled,
    /// The engine's output closed.
    Disconnected,
    /// Nothing arrived in the polling interval.
    Tick,
    /// One line of engine output.
    Line(String),
}

/// What the search loop does next.
#[derive(Clone, Copy, Debug, PartialEq, Eq, Structural)]
pub enum AnalysisAction {
    /// Keep waiting for output.
    Wait,
    /// The search is over: send `stop` first when `stop_engine`;
    /// `got_bestmove` tells whether the engine ended it with its move.
    Finish { stop_engine: bool, got_bestmove: bool },
}

/// One step of a search that waits for the engine's `bestmove`: the time
/// running out, a cancel or a closed output end it and stop the engine; a
/// line of output is folded into the state, and a `bestmove` line ends the
/// search with the engine's move.
pub fn analysis_step(st: &mut EngineInfoState, fen: &str, event: &AnalysisEvent) -> (r: AnalysisAction)
    requires
        old(st).wf(),
    ensures
        final(st).wf(),
        match event {
            AnalysisEvent::Line(line) => {
                &&& line_applied(old(st)@, line@, final(st)@)
                &&& r == if !is_info_line(line@) && is_bestmove_line(line@) {
                    AnalysisAction::Finish { stop_engine: false, got_bestmove: true }
                } else {
                    AnalysisAction::Wait
                }
            },
            AnalysisEvent::Tick => r == AnalysisAction::Wait && final(st)@ == old(st)@,
            _ => r == (AnalysisAction::Finish { stop_engine: true, got_bestmove: false }) && final(st)@ == old(
                st,
            )@,
        },
{
    match event {
        AnalysisEvent::Line(line) => {
            match apply_infinite_stdout_line(line.as_str(), fen, st) {
                InfiniteLineOutcome::GotBestmove => AnalysisAction::Finish { stop_engine: false, got_bestmove: true },
                InfiniteLineOutcome::Continue => AnalysisAction::Wait,
            }
        },
        AnalysisEvent::Tick => AnalysisAction::Wait,
        _ => AnalysisAction::Finish { stop_engine: true, got_bestmove: false },
    }
}

impl EngineInfoState {
    /// Records the best move reported by `bestmove`.
    pub fn set_best_move(&mut self, m: String)
        ensures
            final(self)@ == (InfoStateView { best_move: m@, ..old(self)@ }),
            final(self).wf() == old(self).wf(),
    {
        self.best_move = m;
    }
}

/// Evaluation panel contents.
#[derive(Debug, Default)]
pub struct AnalysisSnapshot {
    pub time_text: String,
    pub depth: u16,
    pub nps: u64,
    pub nodes: u64,
    pub score_text: String,
    pub best_move: String,
    pub win_rate_text: String,
    pub pv: Vec<String>,
    pub source: String,
}

impl AnalysisSnapshot {
    /// The panel before any analysis: `--` everywhere, source `idle`.
    pub fn idle() -> (r: AnalysisSnapshot)
        ensures
            r.time_text@ == "--"@,
            r.depth == 0,
            r.nps == 0,
            r.nodes == 0,
            r.score_text@ == "--"@,
            r.best_move@ == "--"@,
            r.win_rate_text@ == "--"@,
            r.pv@.len() == 0,
            r.source@ == "idle"@,
    {
        AnalysisSnapshot {
            time_text: String::from_str("--"),
            depth: 0,
            nps: 0,
            nodes: 0,
            score_text: String::from_str("--"),
            best_move: String::from_str("--"),
            win_rate_text: String::from_str("--"),
            pv: Vec::new(),
            source: String::from_str("idle"),
        }
    }
}

} // verus!
