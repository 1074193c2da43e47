use vstd::prelude::*;

use crate::text::{
    chars_of, is_prefix, is_ws, push_str, starts_with_chars, string_from_chars, trim, trim_chars, trim_end,
    trim_start,
};

verus! {

/// The line `cur` as `str::lines` yields it: a `\r` before the `\n` is dropped.
pub open spec fn finish_line(cur: Seq<char>) -> Seq<char> {
    if cur.len() > 0 && cur.last() == '\r' {
        cur.drop_last()
    } else {
        cur
    }
}

/// Lines of `s` continuing from the partial line `cur` and the lines `acc` found so far.
pub open spec fn lines_from(s: Seq<char>, cur: Seq<char>, acc: Seq<Seq<char>>) -> Seq<Seq<char>>
    decreases s.len(),
{
    if s.len() == 0 {
        if cur.len() > 0 {
            acc.push(cur)
        } else {
            acc
        }
    } else if s[0] == '\n' {
        lines_from(s.drop_first(), Seq::empty(), acc.push(finish_line(cur)))
    } else {
        lines_from(s.drop_first(), cur.push(s[0]), acc)
    }
}

/// The lines of `s` (`str::lines`).
pub open spec fn lines_of(s: Seq<char>) -> Seq<Seq<char>> {
    lines_from(s, Seq::empty(), Seq::empty())
}

/// The lines of a text.
pub fn split_lines(s: &[char]) -> (r: Vec<Vec<char>>)
    ensures
        r.deep_view() == lines_of(s@),
{
    let mut acc: Vec<Vec<char>> = Vec::new();
    let mut cur: Vec<char> = Vec::new();
    let mut i: usize = 0;
    assert(s@.skip(0) =~= s@);
    assert(acc.deep_view() =~= Seq::<Seq<char>>::empty());
    assert(cur@ =~= Seq::<char>::empty());
    while i < s.len()
        invariant
            i <= s@.len(),
            lines_of(s@) == lines_from(s@.skip(i as int), cur@, acc.deep_view()),
        decreases s.len() - i,
    {
        assert(s@.skip(i as int).drop_first() =~= s@.skip(i as int + 1));
        if s[i] == '\n' {
            let ghost old_acc = acc.deep_view();
            let ghost fl = finish_line(cur@);
            if cur.len() > 0 && cur[cur.len() - 1] == '\r' {
                cur.pop();
            }
            assert(cur@ =~= fl);
            acc.push(cur);
            assert(acc@.last().deep_view() =~= fl);
            assert(acc.deep_view() =~= old_acc.push(fl));
            cur = Vec::new();
            assert(cur@ =~= Seq::<char>::empty());
        } else {
            cur.push(s[i]);
        }
        i = i + 1;
    }
    if cur.len() > 0 {
        let ghost old_acc = acc.deep_view();
        let ghost cv = cur@;
        acc.push(cur);
        assert(acc@.last().deep_view() =~= cv);
        assert(acc.deep_view() =~= old_acc.push(cv));
    }
    acc
}

/// First line index at or after `i` whose trimmed text starts with `prefix`.
pub open spec fn find_prefixed(lines: Seq<Seq<char>>, prefix: Seq<char>, i: int) -> Option<int>
    decreases lines.len() - i,
{
    if i < 0 || i >= lines.len() {
        None
    } else if is_prefix(prefix, trim(lines[i])) {
        Some(i)
    } else {
        find_prefixed(lines, prefix, i + 1)
    }
}

/// The value stored under `key` in a `key=value` text: the rest of the first
/// trimmed line that starts with `key=`.
pub open spec fn spec_parse_key(text: Seq<char>, key: Seq<char>) -> Option<Seq<char>> {
    let prefix = key + "="@;
    match find_prefixed(lines_of(text), prefix, 0) {
        Some(i) => Some(trim(lines_of(text)[i]).skip(prefix.len() as int)),
        None => None,
    }
}

fn key_prefix(key: &str) -> (r: Vec<char>)
    ensures
        r@ == key@ + "="@,
{
    let mut p = String::from_str(key);
    push_str(&mut p, "=");
    chars_of(p.as_str())
}

fn find_prefixed_line(lines: &Vec<Vec<char>>, prefix: &[char]) -> (r: Option<usize>)
    ensures
        r matches Some(i) ==> find_prefixed(lines.deep_view(), prefix@, 0) == Some(i as int) && i < lines@.len()
            && is_prefix(prefix@, trim(lines.deep_view()[i as int])),
        r is None ==> find_prefixed(lines.deep_view(), prefix@, 0) is None,
{
    let mut i: usize = 0;
    while i < lines.len()
        invariant
            i <= lines@.len(),
            find_prefixed(lines.deep_view(), prefix@, 0) == find_prefixed(lines.deep_view(), prefix@, i as int),
        decreases lines.len() - i,
    {
        assert(lines@[i as int]@ =~= lines.deep_view()[i as int]);
        let t = trim_chars(lines[i].as_slice());
        if starts_with_chars(t.as_slice(), prefix) {
            return Some(i);
        }
        i = i + 1;
    }
    None
}

/// Reads `key` from a `key=value` settings text.
pub fn parse_key(text: &str, key: &str) -> (r: Option<String>)
    ensures
        opt_chars(r) == spec_parse_key(text@, key@),
{
    let prefix = key_prefix(key);
    let chars = chars_of(text);
    let lines = split_lines(chars.as_slice());
    match find_prefixed_line(&lines, prefix.as_slice()) {
        Some(i) => {
            assert(lines@[i as int]@ =~= lines.deep_view()[i as int]);
            let t = trim_chars(lines[i].as_slice());
            assert(t@.len() >= prefix@.len());
            assert(Seq::<char>::empty() =~= t@.subrange(prefix@.len() as int, prefix@.len() as int));
            let mut rest: Vec<char> = Vec::new();
            let mut j: usize = prefix.len();
            while j < t.len()
                invariant
                    prefix@.len() <= j <= t@.len(),
                    rest@ == t@.subrange(prefix@.len() as int, j as int),
                decreases t.len() - j,
            {
                rest.push(t[j]);
                j = j + 1;
                assert(rest@ =~= t@.subrange(prefix@.len() as int, j as int));
            }
            assert(t@.skip(prefix@.len() as int) =~= t@.subrange(prefix@.len() as int, t@.len() as int));
            Some(string_from_chars(rest.as_slice()))
        },
        None => None,
    }
}

pub open spec fn opt_chars(o: Option<String>) -> Option<Seq<char>> {
    match o {
        Some(s) => Some(s@),
        None => None,
    }
}

/// `key=value`.
pub open spec fn kv_line(key: Seq<char>, value: Seq<char>) -> Seq<char> {
    key + "="@ + value
}

/// Sets `key` in a list of settings lines: the first line whose trimmed text
/// starts with `key=` is replaced by `key=value`, or the line is appended.
pub fn set_config_kv(lines: &mut Vec<String>, key: &str, value: &str)
    ensures
        ({
            let prefix = key@ + "="@;
            match find_prefixed(old(lines).deep_view(), prefix, 0) {
                Some(i) => final(lines).deep_view() == old(lines).deep_view().update(i, kv_line(key@, value@)),
                None => final(lines).deep_view() == old(lines).deep_view().push(kv_line(key@, value@)),
            }
        }),
{
    let prefix = key_prefix(key);
    let mut line = String::from_str(key);
    push_str(&mut line, "=");
    push_str(&mut line, value);
    let ghost lv = line@;
    let mut views: Vec<Vec<char>> = Vec::new();
    let mut i: usize = 0;
    while i < lines.len()
        invariant
            i <= lines@.len(),
            views.deep_view() == lines.deep_view().take(i as int),
        decreases lines.len() - i,
    {
        let v = chars_of(lines[i].as_str());
        let ghost old_v = views.deep_view();
        let ghost vv = v@;
        views.push(v);
        assert(views@.last().deep_view() =~= vv);
        assert(views.deep_view() =~= old_v.push(vv));
        assert(lines.deep_view().take(i as int + 1) =~= lines.deep_view().take(i as int).push(lines@[i as int]@));
        i = i + 1;
    }
    assert(lines.deep_view().take(lines@.len() as int) =~= lines.deep_view());
    let ghost old_lines = lines.deep_view();
    match find_prefixed_line(&views, prefix.as_slice()) {
        Some(i) => {
            lines.set(i, line);
            assert(lines.deep_view() =~= old_lines.update(i as int, lv));
        },
        None => {
            lines.push(line);
            assert(lines.deep_view() =~= old_lines.push(lv));
        },
    }
}

/// Sets `key` in the lines of the settings file: as [`set_config_kv`] does.
pub fn set_line(lines: &mut Vec<String>, key: &str, value: &str)
    ensures
        final(lines).deep_view() == set_lines(old(lines).deep_view(), key@, value@),
{
    set_config_kv(lines, key, value);
}

/// The lines joined by `\n`, each followed by one (empty when there are no lines).
pub open spec fn config_text(lines: Seq<Seq<char>>) -> Seq<char>
    decreases lines.len(),
{
    if lines.len() == 0 {
        Seq::empty()
    } else {
        config_text(lines.drop_last()) + lines.last() + "\n"@
    }
}

/// The file body for a list of settings lines.
pub fn config_body(lines: &Vec<String>) -> (r: String)
    ensures
        r@ == config_text(lines.deep_view()),
{
    let mut s = String::new();
    let mut i: usize = 0;
    while i < lines.len()
        invariant
            i <= lines@.len(),
            s@ == config_text(lines.deep_view().take(i as int)),
        decreases lines.len() - i,
    {
        assert(lines.deep_view().take(i as int + 1).drop_last() =~= lines.deep_view().take(i as int));
        push_str(&mut s, lines[i].as_str());
        push_str(&mut s, "\n");
        i = i + 1;
    }
    assert(lines.deep_view().take(lines@.len() as int) =~= lines.deep_view());
    s
}

/// The lines that are not blank, in order.
pub open spec fn keep_nonblank(lines: Seq<Seq<char>>) -> Seq<Seq<char>>
    decreases lines.len(),
{
    if lines.len() == 0 {
        Seq::empty()
    } else if trim(lines.last()).len() > 0 {
        keep_nonblank(lines.drop_last()).push(lines.last())
    } else {
        keep_nonblank(lines.drop_last())
    }
}

/// Keeps the lines that are not blank.
pub fn nonblank_lines(text: &str) -> (r: Vec<String>)
    ensures
        r.deep_view() == keep_nonblank(lines_of(text@)),
{
    let chars = chars_of(text);
    let lines = split_lines(chars.as_slice());
    let ghost all = lines.deep_view();
    let mut r: Vec<String> = Vec::new();
    let mut i: usize = 0;
    while i < lines.len()
        invariant
            i <= lines@.len(),
            all == lines.deep_view(),
            r.deep_view() == keep_nonblank(all.take(i as int)),
        decreases lines.len() - i,
    {
        assert(lines@[i as int]@ =~= all[i as int]);
        assert(all.take(i as int + 1).drop_last() =~= all.take(i as int));
        let t = trim_chars(lines[i].as_slice());
        if t.len() > 0 {
            let ghost old_r = r.deep_view();
            let s = string_from_chars(lines[i].as_slice());
            r.push(s);
            assert(r.deep_view() =~= old_r.push(all[i as int]));
        }
        i = i + 1;
    }
    assert(all.take(all.len() as int) =~= all);
    r
}

/// Name of the engine-path setting.
pub const KEY_ENGINE_PATH: &'static str = "engine_path";

/// Name of the remembered protocol setting.
pub const KEY_PROTOCOL: &'static str = "engine_protocol_detected";

/// Name of the engine path the remembered protocol belongs to.
pub const KEY_PROTOCOL_PATH: &'static str = "engine_protocol_detected_for_path";

/// Settings file of the client.
pub const CONFIG_FILE: &'static str = "xiangqi_tui.conf";

/// The settings file body after storing `path` (trimmed) as the engine path,
/// given the current file body (`None` when there is no file yet).
pub fn engine_path_config_text(current: Option<&str>, path: &str) -> (r: String)
    ensures
        ({
            let old_lines = match current {
                Some(t) => keep_nonblank(lines_of(t@)),
                None => Seq::empty(),
            };
            let p = "engine_path"@ + "="@;
            let new_lines = match find_prefixed(old_lines, p, 0) {
                Some(i) => old_lines.update(i, kv_line("engine_path"@, trim(path@))),
                None => old_lines.push(kv_line("engine_path"@, trim(path@))),
            };
            r@ == config_text(new_lines)
        }),
{
    let mut lines = match current {
        Some(t) => nonblank_lines(t),
        None => Vec::new(),
    };
    assert(current is None ==> lines.deep_view() =~= Seq::<Seq<char>>::empty());
    let v = crate::text::trim_str(path);
    set_config_kv(&mut lines, "engine_path", v.as_str());
    config_body(&lines)
}

/// The settings file body after remembering protocol `proto_id` for `engine_path`.
pub fn protocol_cue_config_text(current: Option<&str>, proto_id: &str, engine_path: &str) -> (r: String)
    ensures
        ({
            let l0 = match current {
                Some(t) => keep_nonblank(lines_of(t@)),
                None => Seq::empty(),
            };
            let p1 = "engine_protocol_detected"@ + "="@;
            let l1 = match find_prefixed(l0, p1, 0) {
                Some(i) => l0.update(i, kv_line("engine_protocol_detected"@, proto_id@)),
                None => l0.push(kv_line("engine_protocol_detected"@, proto_id@)),
            };
            let p2 = "engine_protocol_detected_for_path"@ + "="@;
            let l2 = match find_prefixed(l1, p2, 0) {
                Some(i) => l1.update(i, kv_line("engine_protocol_detected_for_path"@, engine_path@)),
                None => l1.push(kv_line("engine_protocol_detected_for_path"@, engine_path@)),
            };
            r@ == config_text(l2)
        }),
{
    let mut lines = match current {
        Some(t) => nonblank_lines(t),
        None => Vec::new(),
    };
    assert(current is None ==> lines.deep_view() =~= Seq::<Seq<char>>::empty());
    set_config_kv(&mut lines, "engine_protocol_detected", proto_id);
    set_config_kv(&mut lines, "engine_protocol_detected_for_path", engine_path);
    config_body(&lines)
}

/// Path of the key-index file kept beside an opening book.
pub fn idx_path_for_source(path: &str) -> (r: String)
    ensures
        r@ == path@ + ".idx"@,
{
    let mut s = String::from_str(path);
    push_str(&mut s, ".idx");
    s
}

/// The settings lines after [`set_config_kv`] stores `value` under `key`.
pub open spec fn set_lines(lines: Seq<Seq<char>>, key: Seq<char>, value: Seq<char>) -> Seq<Seq<char>> {
    match find_prefixed(lines, key + "="@, 0) {
        Some(i) => lines.update(i, kv_line(key, value)),
        None => lines.push(kv_line(key, value)),
    }
}

/// A line as [`lines_of`] gives it back: no line break in it and no `\r` at
/// its end.
pub open spec fn plain_line(l: Seq<char>) -> bool {
    &&& forall|j: int| 0 <= j < l.len() ==> l[j] != '\n'
    &&& !(l.len() > 0 && l.last() == '\r')
}

proof fn lemma_line_piece(a: Seq<char>, rest: Seq<char>, cur: Seq<char>, acc: Seq<Seq<char>>)
    requires
        forall|j: int| 0 <= j < a.len() ==> a[j] != '\n',
    ensures
        lines_from(a + rest, cur, acc) == lines_from(rest, cur + a, acc),
    decreases a.len(),
{
    if a.len() == 0 {
        assert(a + rest =~= rest);
        assert(cur + a =~= cur);
    } else {
        assert((a + rest).drop_first() =~= a.drop_first() + rest);
        assert((a + rest)[0] == a[0]);
        lemma_line_piece(a.drop_first(), rest, cur.push(a[0]), acc);
        assert(cur.push(a[0]) + a.drop_first() =~= cur + a);
    }
}

/// Reading the written lines, followed by any text, finds those lines first.
proof fn lemma_read_written_lines(lines: Seq<Seq<char>>, rest: Seq<char>, acc: Seq<Seq<char>>)
    requires
        forall|i: int| 0 <= i < lines.len() ==> plain_line(#[trigger] lines[i]),
    ensures
        lines_from(config_text(lines) + rest, Seq::empty(), acc) == lines_from(rest, Seq::empty(), acc + lines),
    decreases lines.len(),
{
    reveal_strlit("\n");
    if lines.len() == 0 {
        assert(config_text(lines) + rest =~= rest);
        assert(acc + lines =~= acc);
    } else {
        let front = lines.drop_last();
        let last = lines.last();
        assert(plain_line(lines[lines.len() - 1]));
        let nl_rest = seq!['\n'] + rest;
        let tail = last + nl_rest;
        assert("\n"@ =~= seq!['\n']);
        assert(config_text(lines) + rest =~= config_text(front) + tail);
        lemma_read_written_lines(front, tail, acc);
        lemma_line_piece(last, nl_rest, Seq::empty(), acc + front);
        assert(Seq::<char>::empty() + last =~= last);
        assert(nl_rest.len() > 0 && nl_rest[0] == '\n');
        assert(nl_rest.drop_first() =~= rest);
        assert(lines_from(nl_rest, last, acc + front) == lines_from(rest, Seq::empty(), (acc + front).push(
            finish_line(last),
        )));
        assert(finish_line(last) == last);
        assert((acc + front).push(last) =~= acc + lines);
    }
}

/// The first line from `j` on that starts with the prefix is `i`: none of
/// the lines between does.
proof fn lemma_find_prefixed_skips(lines: Seq<Seq<char>>, p: Seq<char>, j: int, i: int, k: int)
    requires
        0 <= j <= k < i,
        find_prefixed(lines, p, j) == Some(i),
    ensures
        !is_prefix(p, trim(lines[k])),
    decreases k - j,
{
    if j < k {
        lemma_find_prefixed_skips(lines, p, j + 1, i, k);
    }
}

proof fn lemma_find_after_update(lines: Seq<Seq<char>>, p: Seq<char>, j: int, i: int, l: Seq<char>)
    requires
        0 <= j <= i < lines.len(),
        find_prefixed(lines, p, 0) == Some(i),
        is_prefix(p, trim(l)),
    ensures
        find_prefixed(lines.update(i, l), p, j) == Some(i),
    decreases i - j,
{
    if j < i {
        assert(find_prefixed(lines, p, 0) == Some(i));
        lemma_find_prefixed_skips(lines, p, 0, i, j);
        lemma_find_after_update(lines, p, j + 1, i, l);
    }
}

proof fn lemma_find_none_from(lines: Seq<Seq<char>>, p: Seq<char>, j: int, k: int)
    requires
        0 <= j <= k < lines.len(),
        find_prefixed(lines, p, j) is None,
    ensures
        !is_prefix(p, trim(lines[k])),
    decreases k - j,
{
    if j < k {
        lemma_find_none_from(lines, p, j + 1, k);
    }
}

proof fn lemma_find_after_push(lines: Seq<Seq<char>>, p: Seq<char>, j: int, l: Seq<char>)
    requires
        0 <= j <= lines.len(),
        find_prefixed(lines, p, 0) is None,
        is_prefix(p, trim(l)),
    ensures
        find_prefixed(lines.push(l), p, j) == Some(lines.len() as int),
    decreases lines.len() - j,
{
    if j < lines.len() {
        lemma_find_none_from(lines, p, 0, j);
        assert(lines.push(l)[j] == lines[j]);
        lemma_find_after_push(lines, p, j + 1, l);
    } else {
        assert(lines.push(l)[j] == l);
    }
}

/// A value stored with [`set_config_kv`] and written out with
/// [`config_body`] is what [`parse_key`] reads back under the same key, for
/// settings lines as they are read (no line break in them, none ending in
/// `\r`), a key that starts with neither whitespace nor a line break in it,
/// and a value without line breaks that does not end in whitespace.
pub proof fn lemma_set_then_parse(lines: Seq<Seq<char>>, key: Seq<char>, value: Seq<char>)
    requires
        forall|i: int| 0 <= i < lines.len() ==> plain_line(#[trigger] lines[i]),
        key.len() > 0,
        !is_ws(key[0]),
        forall|j: int| 0 <= j < key.len() ==> key[j] != '\n',
        forall|j: int| 0 <= j < value.len() ==> value[j] != '\n',
        value.len() == 0 || !is_ws(value.last()),
    ensures
        spec_parse_key(config_text(set_lines(lines, key, value)), key) == Some(value),
{
    reveal_strlit("=");
    let p = key + "="@;
    let l = kv_line(key, value);
    assert(l =~= key + seq!['='] + value);
    assert(l[0] == key[0]);
    assert(trim_start(l) == l);
    assert(l.last() == if value.len() == 0 {
        '='
    } else {
        value.last()
    });
    assert(trim_end(l) == l);
    assert(trim(l) == l);
    assert(l.subrange(0, p.len() as int) =~= p);
    assert(is_prefix(p, trim(l)));
    assert(l.skip(p.len() as int) =~= value);
    assert(plain_line(l)) by {
        assert forall|j: int| 0 <= j < l.len() implies l[j] != '\n' by {
            if j < key.len() {
                assert(l[j] == key[j]);
            } else if j > key.len() {
                assert(l[j] == value[j - key.len() - 1]);
            }
        }
    }
    let out = set_lines(lines, key, value);
    lemma_find_range(lines, p, 0);
    assert forall|i: int| 0 <= i < out.len() implies plain_line(#[trigger] out[i]) by {
        match find_prefixed(lines, p, 0) {
            Some(k) => {
                if i != k {
                    assert(out[i] == lines[i]);
                }
            },
            None => {
                if i < lines.len() {
                    assert(out[i] == lines[i]);
                }
            },
        }
    }
    lemma_read_written_lines(out, Seq::empty(), Seq::empty());
    assert(config_text(out) + Seq::<char>::empty() =~= config_text(out));
    assert(Seq::<Seq<char>>::empty() + out =~= out);
    assert(lines_of(config_text(out)) == out);
    match find_prefixed(lines, p, 0) {
        Some(i) => {
            assert(0 <= i < lines.len()) by {
                lemma_find_range(lines, p, 0);
            }
            lemma_find_after_update(lines, p, 0, i, l);
        },
        None => {
            lemma_find_after_push(lines, p, 0, l);
        },
    }
}

proof fn lemma_find_range(lines: Seq<Seq<char>>, p: Seq<char>, j: int)
    ensures
        find_prefixed(lines, p, j) matches Some(i) ==> j <= i < lines.len(),
    decreases lines.len() - j,
{
    if 0 <= j < lines.len() {
        lemma_find_range(lines, p, j + 1);
    }
}

} // verus!
