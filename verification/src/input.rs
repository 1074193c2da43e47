use vstd::prelude::*;

use crate::command::SlashCommand;
use crate::text::{
    chars_of, chars_eq, is_prefix, lower, lower_chars, starts_with_chars, string_from_chars, trim,
    trim_chars,
};

verus! {

/// Number of bytes of `c` in UTF-8.
pub open spec fn utf8_len(c: char) -> int {
    if (c as u32) < 0x80 {
        1
    } else if (c as u32) < 0x800 {
        2
    } else if (c as u32) < 0x10000 {
        3
    } else {
        4
    }
}

/// Number of bytes of `s` in UTF-8.
pub open spec fn byte_len(s: Seq<char>) -> int
    decreases s.len(),
{
    if s.len() == 0 {
        0
    } else {
        byte_len(s.drop_last()) + utf8_len(s.last())
    }
}

/// `b` is a byte offset of the UTF-8 text of `s` that lies between two of
/// its characters (or at its start or end).
pub open spec fn on_char_boundary(s: Seq<char>, b: int) -> bool {
    exists|i: int| 0 <= i <= s.len() && byte_len(s.take(i)) == b
}

/// The line starts with `/`, which opens the command menu.
pub open spec fn is_slash_line(buf: Seq<char>) -> bool {
    buf.len() > 0 && buf[0] == '/'
}

/// Commands of `cmds` whose name starts with `keyword`, in order.
pub open spec fn matching_commands(cmds: Seq<SlashCommand>, keyword: Seq<char>) -> Seq<SlashCommand>
    decreases cmds.len(),
{
    if cmds.len() == 0 {
        Seq::empty()
    } else {
        let head = matching_commands(cmds.drop_last(), keyword);
        if is_prefix(keyword, cmds.last().spec_name()) {
            head.push(cmds.last())
        } else {
            head
        }
    }
}

/// Menu entries offered for the line `buf`: none unless it starts with `/`;
/// otherwise every command whose name starts with the lowercased line.
pub open spec fn spec_suggestions(buf: Seq<char>) -> Seq<SlashCommand> {
    if !is_slash_line(buf) {
        Seq::empty()
    } else {
        matching_commands(SlashCommand::spec_all(), lower(buf))
    }
}

/// The menu pick after the line changed to `buf`: cleared when there is no
/// menu, otherwise kept but moved onto the last entry if the list got shorter.
pub open spec fn synced_pick(buf: Seq<char>, pick: Option<int>) -> Option<int> {
    let n = spec_suggestions(buf).len();
    if !is_slash_line(buf) || n == 0 {
        None
    } else {
        let p = match pick {
            Some(p) => p,
            None => 0,
        };
        Some(if p < n - 1 { p } else { n - 1 })
    }
}

/// Abstract command-line editor: the line, the cursor as a character index,
/// the menu pick, the command history with its browse position, and the
/// draft kept while browsing.
#[verifier::ext_equal]
pub struct InputView {
    pub buffer: Seq<char>,
    pub cursor: int,
    pub slash_pick: Option<int>,
    pub history: Seq<Seq<char>>,
    pub history_index: int,
    pub draft: Option<Seq<char>>,
}

impl InputView {
    /// The cursor lies on the line (between two characters, the line being
    /// held as characters), the browse position within the history (one past
    /// the end meaning the line being typed), and the menu pick is set exactly
    /// while the menu is open, on one of its entries.
    pub open spec fn wf(self) -> bool {
        &&& 0 <= self.cursor <= self.buffer.len()
        &&& 0 <= self.history_index <= self.history.len()
        &&& self.slash_pick matches Some(p) ==> 0 <= p < spec_suggestions(self.buffer).len()
        &&& (self.slash_pick is Some) == (is_slash_line(self.buffer) && spec_suggestions(self.buffer).len() > 0)
    }

    /// The line replaced by `text`, cursor at its end, menu pick resynced.
    pub open spec fn with_text(self, text: Seq<char>) -> InputView {
        InputView {
            buffer: text,
            cursor: text.len() as int,
            slash_pick: synced_pick(text, self.slash_pick),
            ..self
        }
    }

    /// The state after `clear`.
    pub open spec fn cleared(self) -> InputView {
        InputView {
            buffer: Seq::empty(),
            cursor: 0,
            slash_pick: None,
            history_index: self.history.len() as int,
            draft: None,
            ..self
        }
    }

    /// The state after stepping back in the history (when that is possible).
    pub open spec fn history_prev_view(self) -> InputView {
        let starting = self.history_index == self.history.len();
        let hi = self.history_index - 1;
        let d = if starting {
            if self.buffer.len() == 0 {
                None
            } else {
                Some(self.buffer)
            }
        } else {
            self.draft
        };
        (InputView { history_index: hi, draft: d, ..self }).with_text(self.history[hi])
    }

    /// The state after stepping forward in the history (when that is possible).
    pub open spec fn history_next_view(self) -> InputView {
        let hi = self.history_index + 1;
        if hi >= self.history.len() {
            (InputView { history_index: self.history.len() as int, draft: None, ..self }).with_text(
                match self.draft {
                    Some(d) => d,
                    None => Seq::empty(),
                },
            )
        } else {
            (InputView { history_index: hi, ..self }).with_text(self.history[hi])
        }
    }

    /// The state after typing `ch` at the cursor.
    pub open spec fn inserted(self, ch: char) -> InputView {
        InputView {
            buffer: self.buffer.insert(self.cursor, ch),
            cursor: self.cursor + 1,
            slash_pick: synced_pick(self.buffer.insert(self.cursor, ch), self.slash_pick),
            ..self
        }
    }

    /// The state after deleting the character before the cursor (unchanged
    /// at the start of the line).
    pub open spec fn backspaced(self) -> InputView {
        if self.cursor == 0 {
            self
        } else {
            InputView {
                buffer: self.buffer.remove(self.cursor - 1),
                cursor: self.cursor - 1,
                slash_pick: synced_pick(self.buffer.remove(self.cursor - 1), self.slash_pick),
                ..self
            }
        }
    }

    /// The command selected in the menu, if any.
    pub open spec fn selected(self) -> Option<SlashCommand> {
        let idx = match self.slash_pick {
            Some(p) => p,
            None => 0,
        };
        let list = spec_suggestions(self.buffer);
        if 0 <= idx < list.len() {
            Some(list[idx])
        } else {
            None
        }
    }
}

/// Stepping back into the history from the line being typed and then forward
/// again restores the typed line, ends browsing and forgets the draft; the
/// history itself is never changed by browsing.
pub proof fn lemma_history_draft_round_trip(o: InputView)
    requires
        o.wf(),
        o.history.len() > 0,
        o.history_index == o.history.len(),
    ensures
        o.history_prev_view().history_next_view().buffer == o.buffer,
        o.history_prev_view().history_next_view().cursor == o.buffer.len(),
        o.history_prev_view().history_next_view().history_index == o.history.len(),
        o.history_prev_view().history_next_view().draft is None,
        o.history_prev_view().history == o.history,
        o.history_prev_view().history_next_view().history == o.history,
{
    if o.buffer.len() == 0 {
        assert(o.history_prev_view().history_next_view().buffer =~= o.buffer);
    }
}

/// Typing a character and deleting it again with backspace gives back the
/// line and the cursor; the command history and browse position stay.
pub proof fn lemma_insert_then_backspace(o: InputView, ch: char)
    requires
        o.wf(),
    ensures
        o.inserted(ch).backspaced().buffer == o.buffer,
        o.inserted(ch).backspaced().cursor == o.cursor,
        o.inserted(ch).backspaced().history == o.history,
        o.inserted(ch).backspaced().history_index == o.history_index,
        o.inserted(ch).backspaced().draft == o.draft,
        o.inserted(ch).backspaced().wf(),
{
    assert(o.buffer.insert(o.cursor, ch).remove(o.cursor) =~= o.buffer);
}

/// A menu pick that is set always designates an entry of the menu.
pub proof fn lemma_synced_pick_in_menu(buf: Seq<char>, pick: Option<int>)
    requires
        pick matches Some(p) ==> p >= 0,
    ensures
        synced_pick(buf, pick) matches Some(i) ==> 0 <= i < spec_suggestions(buf).len(),
        synced_pick(buf, pick) is Some <==> (is_slash_line(buf) && spec_suggestions(buf).len() > 0),
{
}

/// The command line with its history and slash-command menu.
#[derive(Debug, Clone)]
pub struct InputState {
    buffer: Vec<char>,
    cursor: usize,
    slash_pick: Option<usize>,
    command_history: Vec<String>,
    /// `0..len` browses the history; `len` is the line being typed.
    history_index: usize,
    /// What was typed before browsing started, restored when browsing ends.
    history_draft: Option<String>,
}

impl View for InputState {
    type V = InputView;

    closed spec fn view(&self) -> InputView {
        InputView {
            buffer: self.buffer@,
            cursor: self.cursor as int,
            slash_pick: match self.slash_pick {
                Some(p) => Some(p as int),
                None => None,
            },
            history: self.command_history.deep_view(),
            history_index: self.history_index as int,
            draft: match self.history_draft {
                Some(d) => Some(d@),
                None => None,
            },
        }
    }
}

impl Default for InputState {
    fn default() -> (r: InputState)
        ensures
            r@.wf(),
            r@.buffer.len() == 0,
            r@.cursor == 0,
            r@.slash_pick is None,
            r@.history.len() == 0,
            r@.history_index == 0,
            r@.draft is None,
    {
        InputState {
            buffer: Vec::new(),
            cursor: 0,
            slash_pick: None,
            command_history: Vec::new(),
            history_index: 0,
            history_draft: None,
        }
    }
}

/// Commands from `cmds` matching `keyword`.
fn filter_commands(cmds: &Vec<SlashCommand>, keyword: &[char]) -> (r: Vec<SlashCommand>)
    ensures
        r@ == matching_commands(cmds@, keyword@),
{
    let mut r: Vec<SlashCommand> = Vec::new();
    let mut i: usize = 0;
    while i < cmds.len()
        invariant
            i <= cmds.len(),
            r@ == matching_commands(cmds@.take(i as int), keyword@),
        decreases cmds.len() - i,
    {
        let c = cmds[i];
        let name = chars_of(c.name());
        assert(cmds@.take(i as int + 1).drop_last() =~= cmds@.take(i as int));
        if starts_with_chars(name.as_slice(), keyword) {
            r.push(c);
        }
        i = i + 1;
    }
    assert(cmds@.take(cmds@.len() as int) =~= cmds@);
    r
}

/// Menu entries offered for the line `buf`.
fn suggestions_for(buf: &[char]) -> (r: Vec<SlashCommand>)
    ensures
        r@ == spec_suggestions(buf@),
{
    if buf.len() == 0 || buf[0] != '/' {
        return Vec::new();
    }
    let keyword = lower_chars(buf);
    let all = SlashCommand::all();
    filter_commands(&all, keyword.as_slice())
}

impl InputState {
    /// The committed command lines, oldest first.
    pub fn command_history(&self) -> (r: &[String])
        ensures
            r.deep_view() == self@.history,
    {
        self.command_history.as_slice()
    }

    /// The line as typed.
    pub fn text(&self) -> (r: String)
        ensures
            r@ == self@.buffer,
    {
        string_from_chars(self.buffer.as_slice())
    }

    /// Cursor position in bytes of the UTF-8 line (saturating at `usize::MAX`):
    /// an offset within the line's text that lies on a character boundary.
    pub fn cursor(&self) -> (r: usize)
        requires
            self@.wf(),
        ensures
            r as int == if byte_len(self@.buffer.take(self@.cursor)) <= usize::MAX {
                byte_len(self@.buffer.take(self@.cursor))
            } else {
                usize::MAX as int
            },
            byte_len(self@.buffer.take(self@.cursor)) <= usize::MAX ==> r <= byte_len(self@.buffer)
                && on_char_boundary(self@.buffer, r as int),
    {
        proof {
            lemma_byte_len_prefix(self@.buffer, self@.cursor);
        }
        let mut total: usize = 0;
        let mut i: usize = 0;
        proof {
            lemma_byte_len_nonneg(self.buffer@.take(0));
            assert(self.buffer@.take(0) =~= Seq::<char>::empty());
        }
        while i < self.cursor
            invariant
                i <= self.cursor <= self.buffer@.len(),
                total as int == if byte_len(self.buffer@.take(i as int)) <= usize::MAX {
                    byte_len(self.buffer@.take(i as int))
                } else {
                    usize::MAX as int
                },
            decreases self.cursor - i,
        {
            let c = self.buffer[i];
            let w: usize = if (c as u32) < 0x80 {
                1
            } else if (c as u32) < 0x800 {
                2
            } else if (c as u32) < 0x10000 {
                3
            } else {
                4
            };
            proof {
                assert(self.buffer@.take(i as int + 1).drop_last() =~= self.buffer@.take(i as int));
                lemma_byte_len_nonneg(self.buffer@.take(i as int));
            }
            total = match total.checked_add(w) {
                Some(t) => t,
                None => usize::MAX,
            };
            i = i + 1;
        }
        total
    }

    /// The menu is shown: the line starts with `/` and some command matches.
    pub fn slash_menu_open(&self) -> (r: bool)
        ensures
            r == (is_slash_line(self@.buffer) && spec_suggestions(self@.buffer).len() > 0),
    {
        self.buffer.len() > 0 && self.buffer[0] == '/' && suggestions_for(self.buffer.as_slice()).len()
            > 0
    }

    /// Position of the menu pick (0 when nothing is picked).
    pub fn slash_pick_index(&self) -> (r: usize)
        ensures
            r as int == match self@.slash_pick {
                Some(p) => p,
                None => 0,
            },
    {
        match self.slash_pick {
            Some(p) => p,
            None => 0,
        }
    }

    /// The command under the menu pick, if the menu has that entry.
    pub fn selected_slash_command(&self) -> (r: Option<SlashCommand>)
        ensures
            r == self@.selected(),
    {
        let idx = self.slash_pick_index();
        let list = self.suggestions();
        if idx < list.len() {
            Some(list[idx])
        } else {
            None
        }
    }

    /// Replaces the line, puts the cursor at its end and resyncs the menu pick.
    pub fn set_text(&mut self, text: &str)
        requires
            old(self)@.wf(),
        ensures
            final(self)@ == old(self)@.with_text(text@),
            final(self)@.wf(),
    {
        let v = chars_of(text);
        self.set_chars(v);
    }

    fn set_chars(&mut self, v: Vec<char>)
        requires
            0 <= old(self)@.history_index <= old(self)@.history.len(),
        ensures
            final(self)@ == old(self)@.with_text(v@),
            final(self)@.wf(),
    {
        self.cursor = v.len();
        self.buffer = v;
        self.sync_slash_pick();
    }

    /// Empties the line, drops the menu pick and the draft, and ends history browsing.
    pub fn clear(&mut self)
        ensures
            final(self)@ == old(self)@.cleared(),
            final(self)@.wf(),
    {
        self.buffer = Vec::new();
        self.cursor = 0;
        self.slash_pick = None;
        self.history_index = self.command_history.len();
        self.history_draft = None;
    }

    /// Returns the line and clears the editor.
    pub fn take_text(&mut self) -> (r: String)
        ensures
            r@ == old(self)@.buffer,
            final(self)@ == old(self)@.cleared(),
            final(self)@.wf(),
    {
        let text = self.text();
        self.clear();
        text
    }

    /// Inserts `ch` at the cursor and moves the cursor past it.
    pub fn insert_char(&mut self, ch: char)
        requires
            old(self)@.wf(),
            old(self)@.buffer.len() < usize::MAX,
        ensures
            final(self)@ == old(self)@.inserted(ch),
            final(self)@.wf(),
    {
        self.buffer.insert(self.cursor, ch);
        self.cursor = self.cursor + 1;
        self.sync_slash_pick();
    }

    /// Deletes the character before the cursor.
    pub fn backspace(&mut self)
        requires
            old(self)@.wf(),
        ensures
            final(self)@ == old(self)@.backspaced(),
            final(self)@.wf(),
    {
        if self.cursor == 0 {
            return;
        }
        let start = self.cursor - 1;
        self.buffer.remove(start);
        self.cursor = start;
        self.sync_slash_pick();
    }

    /// Deletes the character under the cursor.
    pub fn delete(&mut self)
        requires
            old(self)@.wf(),
        ensures
            old(self)@.cursor >= old(self)@.buffer.len() ==> final(self)@ == old(self)@,
            old(self)@.cursor < old(self)@.buffer.len() ==> final(self)@ == (InputView {
                buffer: old(self)@.buffer.remove(old(self)@.cursor),
                slash_pick: synced_pick(old(self)@.buffer.remove(old(self)@.cursor), old(self)@.slash_pick),
                ..old(self)@
            }),
            final(self)@.wf(),
    {
        if self.cursor >= self.buffer.len() {
            return;
        }
        self.buffer.remove(self.cursor);
        self.sync_slash_pick();
    }

    /// Records an executed line (trimmed; blank lines and an immediate repeat of
    /// the last entry are not added) and ends history browsing.
    pub fn commit_command_history(&mut self, line: &str)
        requires
            old(self)@.wf(),
        ensures
            final(self)@.wf(),
            trim(line@).len() == 0 ==> final(self)@ == old(self)@,
            trim(line@).len() > 0 ==> final(self)@ == (InputView {
                history: if old(self)@.history.len() > 0 && old(self)@.history.last() == trim(line@) {
                    old(self)@.history
                } else {
                    old(self)@.history.push(trim(line@))
                },
                history_index: final(self)@.history.len() as int,
                draft: None,
                ..old(self)@
            }),
    {
        let raw = chars_of(line);
        let t = trim_chars(raw.as_slice());
        if t.len() == 0 {
            return;
        }
        self.history_draft = None;
        let n = self.command_history.len();
        if n > 0 {
            let last = chars_of(self.command_history[n - 1].as_str());
            if chars_eq(last.as_slice(), t.as_slice()) {
                self.history_index = n;
                return;
            }
        }
        self.command_history.push(string_from_chars(t.as_slice()));
        self.history_index = self.command_history.len();
        assert(self@.history =~= old(self)@.history.push(trim(line@)));
    }

    /// Shows the previous history entry; leaving the line being typed keeps it as the draft.
    pub fn history_prev(&mut self) -> (r: bool)
        requires
            old(self)@.wf(),
        ensures
            final(self)@.wf(),
            r == (old(self)@.history.len() > 0 && (old(self)@.history_index == old(self)@.history.len()
                || old(self)@.history_index > 0)),
            !r ==> final(self)@ == old(self)@,
            r ==> final(self)@ == old(self)@.history_prev_view(),
    {
        if self.command_history.len() == 0 {
            return false;
        }
        if self.history_index == self.command_history.len() {
            self.history_draft = if self.buffer.len() == 0 {
                None
            } else {
                Some(string_from_chars(self.buffer.as_slice()))
            };
            self.history_index = self.command_history.len() - 1;
        } else if self.history_index > 0 {
            self.history_index = self.history_index - 1;
        } else {
            return false;
        }
        self.load_history_entry();
        true
    }

    /// Shows the next history entry; stepping past the newest restores the draft.
    pub fn history_next(&mut self) -> (r: bool)
        requires
            old(self)@.wf(),
        ensures
            final(self)@.wf(),
            r == (old(self)@.history.len() > 0 && old(self)@.history_index < old(self)@.history.len()),
            !r ==> final(self)@ == old(self)@,
            r ==> final(self)@ == old(self)@.history_next_view(),
    {
        if self.command_history.len() == 0 || self.history_index >= self.command_history.len() {
            return false;
        }
        self.history_index = self.history_index + 1;
        if self.history_index >= self.command_history.len() {
            self.restore_history_draft();
            return true;
        }
        self.load_history_entry();
        true
    }

    /// Moves the cursor one character left.
    pub fn move_left(&mut self)
        requires
            old(self)@.wf(),
        ensures
            final(self)@ == (InputView {
                cursor: if old(self)@.cursor > 0 { old(self)@.cursor - 1 } else { 0 },
                ..old(self)@
            }),
            final(self)@.wf(),
    {
        if self.cursor == 0 {
            return;
        }
        self.cursor = self.cursor - 1;
    }

    /// Moves the cursor one character right.
    pub fn move_right(&mut self)
        requires
            old(self)@.wf(),
        ensures
            final(self)@ == (InputView {
                cursor: if old(self)@.cursor < old(self)@.buffer.len() {
                    old(self)@.cursor + 1
                } else {
                    old(self)@.cursor
                },
                ..old(self)@
            }),
            final(self)@.wf(),
    {
        if self.cursor >= self.buffer.len() {
            return;
        }
        self.cursor = self.cursor + 1;
    }

    /// Moves the cursor to the start of the line.
    pub fn move_home(&mut self)
        requires
            old(self)@.wf(),
        ensures
            final(self)@ == (InputView { cursor: 0, ..old(self)@ }),
            final(self)@.wf(),
    {
        self.cursor = 0;
    }

    /// Moves the cursor to the end of the line.
    pub fn move_end(&mut self)
        requires
            old(self)@.wf(),
        ensures
            final(self)@ == (InputView { cursor: old(self)@.buffer.len() as int, ..old(self)@ }),
            final(self)@.wf(),
    {
        self.cursor = self.buffer.len();
    }

    /// Menu entries for the current line.
    pub fn suggestions(&self) -> (r: Vec<SlashCommand>)
        ensures
            r@ == spec_suggestions(self@.buffer),
    {
        suggestions_for(self.buffer.as_slice())
    }

    /// Moves the menu pick `delta` entries, wrapping around the list.
    pub fn move_slash_pick(&mut self, delta: isize)
        requires
            old(self)@.wf(),
        ensures
            final(self)@.wf(),
            ({
                let n = spec_suggestions(old(self)@.buffer).len();
                let cur = match old(self)@.slash_pick {
                    Some(p) => p,
                    None => 0,
                };
                final(self)@ == (InputView {
                    slash_pick: if n == 0 {
                        None
                    } else {
                        Some((cur + delta) % (n as int))
                    },
                    ..old(self)@
                })
            }),
    {
        let list = self.suggestions();
        if list.len() == 0 {
            self.slash_pick = None;
            return;
        }
        let n = list.len();
        let cur: usize = match self.slash_pick {
            Some(p) => p,
            None => 0,
        };
        let next = step_mod(cur, delta, n);
        self.slash_pick = Some(next);
    }

    /// Replaces the line with the name of the picked command.
    pub fn apply_slash_pick_to_buffer(&mut self)
        requires
            old(self)@.wf(),
        ensures
            final(self)@.wf(),
            old(self)@.selected() is None ==> final(self)@ == old(self)@,
            old(self)@.selected() is Some ==> final(self)@ == old(self)@.with_text(
                old(self)@.selected().unwrap().spec_name(),
            ),
    {
        let cmd = match self.selected_slash_command() {
            Some(c) => c,
            None => return,
        };
        let v = chars_of(cmd.name());
        self.set_chars(v);
    }

    /// Completes a `/` line to the picked command; `false` when no command matches.
    pub fn try_slash_complete(&mut self) -> (r: bool)
        requires
            old(self)@.wf(),
        ensures
            final(self)@.wf(),
            r == (is_slash_line(old(self)@.buffer) && spec_suggestions(old(self)@.buffer).len() > 0),
            !r ==> final(self)@ == old(self)@,
            r && old(self)@.selected() is None ==> final(self)@ == old(self)@,
            r && old(self)@.selected() is Some ==> final(self)@ == old(self)@.with_text(
                old(self)@.selected().unwrap().spec_name(),
            ),
    {
        if !(self.buffer.len() > 0 && self.buffer[0] == '/') || self.suggestions().len() == 0 {
            return false;
        }
        self.apply_slash_pick_to_buffer();
        true
    }

    fn restore_history_draft(&mut self)
        requires
            old(self)@.wf() || old(self)@.history_index == old(self)@.history.len() + 1,
            old(self)@.cursor <= old(self)@.buffer.len(),
        ensures
            final(self)@ == (InputView {
                history_index: old(self)@.history.len() as int,
                draft: None,
                ..old(self)@
            }).with_text(
                match old(self)@.draft {
                    Some(d) => d,
                    None => Seq::empty(),
                },
            ),
            final(self)@.wf(),
    {
        self.history_index = self.command_history.len();
        let draft = self.history_draft.take();
        let v = match draft {
            Some(d) => chars_of(d.as_str()),
            None => Vec::new(),
        };
        self.set_chars(v);
    }

    fn load_history_entry(&mut self)
        requires
            old(self)@.wf(),
            old(self)@.history_index < old(self)@.history.len(),
        ensures
            final(self)@ == old(self)@.with_text(old(self)@.history[old(self)@.history_index]),
            final(self)@.wf(),
    {
        let v = chars_of(self.command_history[self.history_index].as_str());
        self.set_chars(v);
    }

    fn sync_slash_pick(&mut self)
        ensures
            final(self)@ == (InputView {
                slash_pick: synced_pick(old(self)@.buffer, old(self)@.slash_pick),
                ..old(self)@
            }),
    {
        if !(self.buffer.len() > 0 && self.buffer[0] == '/') {
            self.slash_pick = None;
            return;
        }
        let list = self.suggestions();
        if list.len() == 0 {
            self.slash_pick = None;
            return;
        }
        let p: usize = match self.slash_pick {
            Some(p) => p,
            None => 0,
        };
        let idx = if p < list.len() - 1 { p } else { list.len() - 1 };
        self.slash_pick = Some(idx);
    }
}

/// `(cur + delta) mod n`, computed without overflow.
fn step_mod(cur: usize, delta: isize, n: usize) -> (r: usize)
    requires
        n > 0,
    ensures
        r as int == (cur as int + delta as int) % (n as int),
{
    let c: usize = cur % n;
    let d: usize = if delta >= 0 {
        (delta as usize) % n
    } else {
        let m: usize = ((-(delta + 1)) as usize) % n;
        (n - 1 - m) % n
    };
    let s: usize = if c >= n - d { c - (n - d) } else { c + d };
    proof {
        lemma_step_mod(cur as int, delta as int, n as int, c as int, d as int, s as int);
    }
    s
}

proof fn lemma_step_mod(cur: int, delta: int, n: int, c: int, d: int, s: int)
    requires
        n > 0,
        c == cur % n,
        delta >= 0 ==> d == delta % n,
        delta < 0 ==> d == (n - 1 - ((-(delta + 1)) % n)) % n,
        0 <= c < n,
        0 <= d < n,
        s == if c >= n - d { c - (n - d) } else { c + d },
    ensures
        s == (cur + delta) % n,
{
    if delta < 0 {
        let k = -(delta + 1);
        let m = k % n;
        vstd::arithmetic::div_mod::lemma_fundamental_div_mod(k, n);
        assert(0 <= m < n);
        vstd::arithmetic::div_mod::lemma_small_mod((n - 1 - m) as nat, n as nat);
        assert(d == n - 1 - m);
        assert(d - delta == n * (1 + k / n)) by (nonlinear_arith)
            requires
                d == n - 1 - m,
                k == n * (k / n) + m,
                delta == -1 - k,
        ;
        vstd::arithmetic::div_mod::lemma_mod_multiples_basic(1 + k / n, n);
        assert((n * (1 + k / n)) % n == 0) by (nonlinear_arith)
            requires
                ((1 + k / n) * n) % n == 0,
        ;
        vstd::arithmetic::div_mod::lemma_mod_equivalence(d, delta, n);
        vstd::arithmetic::div_mod::lemma_small_mod(d as nat, n as nat);
        assert(d == delta % n);
    }
    vstd::arithmetic::div_mod::lemma_add_mod_noop(cur, delta, n);
    if c >= n - d {
        vstd::arithmetic::div_mod::lemma_small_mod((c + d - n) as nat, n as nat);
        vstd::arithmetic::div_mod::lemma_mod_sub_multiples_vanish(c + d, n);
    } else {
        vstd::arithmetic::div_mod::lemma_small_mod((c + d) as nat, n as nat);
    }
}

proof fn lemma_byte_len_nonneg(s: Seq<char>)
    ensures
        byte_len(s) >= 0,
    decreases s.len(),
{
    if s.len() > 0 {
        lemma_byte_len_nonneg(s.drop_last());
    }
}


proof fn lemma_byte_len_prefix(s: Seq<char>, i: int)
    requires
        0 <= i <= s.len(),
    ensures
        byte_len(s.take(i)) <= byte_len(s),
    decreases s.len() - i,
{
    if i < s.len() {
        lemma_byte_len_prefix(s, i + 1);
        assert(s.take(i + 1).drop_last() =~= s.take(i));
    } else {
        assert(s.take(i) =~= s);
    }
}

/// Whether the characters take fewer than `n` bytes in UTF-8.
pub fn fewer_bytes_than(s: &[char], n: usize) -> (r: bool)
    ensures
        r == (byte_len(s@) < n),
{
    if n == 0 {
        proof {
            lemma_byte_len_nonneg(s@);
        }
        return false;
    }
    let mut total: usize = 0;
    let mut i: usize = 0;
    assert(s@.take(0) =~= Seq::<char>::empty());
    while i < s.len()
        invariant
            i <= s@.len(),
            total as int == byte_len(s@.take(i as int)),
            total < n,
        decreases s.len() - i,
    {
        let c = s[i];
        assert(s@.take(i as int + 1).drop_last() =~= s@.take(i as int));
        let w: usize = if (c as u32) < 0x80 {
            1
        } else if (c as u32) < 0x800 {
            2
        } else if (c as u32) < 0x10000 {
            3
        } else {
            4
        };
        if w >= n - total {
            proof {
                lemma_byte_len_prefix(s@, i as int + 1);
            }
            return false;
        }
        total = total + w;
        i = i + 1;
    }
    assert(s@.take(s@.len() as int) =~= s@);
    true
}

} // verus!
