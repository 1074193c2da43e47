use vstd::prelude::*;

use crate::book::BookConfig;
use crate::grid::{push_spaces, spaces, str_display_width, str_width};
use crate::text::{decimal_nat, owned, push_char, push_decimal_u64, push_str, str_eq};

verus! {

/// Protocol spoken with the engine subprocess.
#[derive(Debug, Clone, Copy, PartialEq, Eq, Structural)]
pub enum EngineProtocol {
    Uci,
    Ucci,
}

impl EngineProtocol {
    pub open spec fn spec_label(self) -> Seq<char> {
        match self {
            EngineProtocol::Uci => "UCI"@,
            EngineProtocol::Ucci => "UCCI"@,
        }
    }

    pub open spec fn spec_preference(self) -> Seq<char> {
        match self {
            EngineProtocol::Uci => "uci_only"@,
            EngineProtocol::Ucci => "ucci_only"@,
        }
    }

    /// Display name of the protocol.
    pub fn label(self) -> (r: &'static str)
        ensures
            r@ == self.spec_label(),
    {
        match self {
            EngineProtocol::Uci => "UCI",
            EngineProtocol::Ucci => "UCCI",
        }
    }

    /// Handshake preference that pins the engine to this protocol.
    pub fn preference(self) -> (r: &'static str)
        ensures
            r@ == self.spec_preference(),
    {
        match self {
            EngineProtocol::Uci => "uci_only",
            EngineProtocol::Ucci => "ucci_only",
        }
    }
}

/// How a settings row is edited.
#[derive(Debug, Clone, Copy, PartialEq, Eq, Structural)]
pub enum SettingsFieldKind {
    Text,
    Bool,
    Cycle,
    Number,
}

/// One row of the settings form, in display order.
#[derive(Debug, Clone, Copy, PartialEq, Eq, Structural)]
pub enum SettingsField {
    EnginePath,
    EngineProtocol,
    EngineThreads,
    EngineHashMb,
    EngineSkill,
    EngineMultiPv,
    BookLocalPath,
    BookLocalEnabled,
    BookCloudEnabled,
    BookPickMode,
    BookMaxHalfmoves,
}

/// Number of settings rows.
pub const SETTINGS_FIELD_COUNT: usize = 11;

impl SettingsField {
    /// Position of the row in the form.
    pub open spec fn spec_index(self) -> int {
        match self {
            SettingsField::EnginePath => 0,
            SettingsField::EngineProtocol => 1,
            SettingsField::EngineThreads => 2,
            SettingsField::EngineHashMb => 3,
            SettingsField::EngineSkill => 4,
            SettingsField::EngineMultiPv => 5,
            SettingsField::BookLocalPath => 6,
            SettingsField::BookLocalEnabled => 7,
            SettingsField::BookCloudEnabled => 8,
            SettingsField::BookPickMode => 9,
            SettingsField::BookMaxHalfmoves => 10,
        }
    }

    pub open spec fn spec_kind(self) -> SettingsFieldKind {
        match self {
            SettingsField::EnginePath | SettingsField::BookLocalPath => SettingsFieldKind::Text,
            SettingsField::BookLocalEnabled | SettingsField::BookCloudEnabled => SettingsFieldKind::Bool,
            SettingsField::EngineProtocol | SettingsField::BookPickMode => SettingsFieldKind::Cycle,
            _ => SettingsFieldKind::Number,
        }
    }

    pub open spec fn spec_label(self) -> Seq<char> {
        match self {
            SettingsField::EnginePath => "引擎路径"@,
            SettingsField::EngineProtocol => "协议"@,
            SettingsField::EngineThreads => "线程数"@,
            SettingsField::EngineHashMb => "Hash(MB)"@,
            SettingsField::EngineSkill => "棋力 Skill"@,
            SettingsField::EngineMultiPv => "MultiPV"@,
            SettingsField::BookLocalPath => "本地库路径"@,
            SettingsField::BookLocalEnabled => "启用本地库"@,
            SettingsField::BookCloudEnabled => "启用云库"@,
            SettingsField::BookPickMode => "库招选取"@,
            SettingsField::BookMaxHalfmoves => "开局库最多步"@,
        }
    }

    pub open spec fn spec_hint(self) -> Seq<char> {
        match self {
            SettingsField::EnginePath => "Enter 在 C 区输入路径，Esc 返回。"@,
            SettingsField::BookLocalPath => "Enter 在 C 区输入库路径，Esc 返回。"@,
            SettingsField::EngineProtocol => "←/→ 或 Enter 在 C 区输入 uci/ucci。"@,
            SettingsField::BookPickMode => "←/→ 切换；Enter 输入 optimal/positive_random。"@,
            SettingsField::BookLocalEnabled | SettingsField::BookCloudEnabled => "空格切换；Enter 输入 0/1。"@,
            SettingsField::EngineThreads => "←/→ 微调；Enter 在 C 区输入数字（1～64）。"@,
            SettingsField::EngineHashMb => "←/→ 微调；Enter 在 C 区输入 MB（64～8192）。"@,
            SettingsField::EngineSkill => "←/→ 微调；Enter 在 C 区输入（0～20）。"@,
            SettingsField::EngineMultiPv => "←/→ 微调；Enter 在 C 区输入（1～5）。"@,
            SettingsField::BookMaxHalfmoves => "←/→ 微调；Enter 在 C 区输入步数（0=不用库）。"@,
        }
    }

    /// The row at position `i` (taken modulo the row count).
    pub open spec fn spec_at(i: int) -> SettingsField {
        let k = i % 11;
        if k == 0 {
            SettingsField::EnginePath
        } else if k == 1 {
            SettingsField::EngineProtocol
        } else if k == 2 {
            SettingsField::EngineThreads
        } else if k == 3 {
            SettingsField::EngineHashMb
        } else if k == 4 {
            SettingsField::EngineSkill
        } else if k == 5 {
            SettingsField::EngineMultiPv
        } else if k == 6 {
            SettingsField::BookLocalPath
        } else if k == 7 {
            SettingsField::BookLocalEnabled
        } else if k == 8 {
            SettingsField::BookCloudEnabled
        } else if k == 9 {
            SettingsField::BookPickMode
        } else {
            SettingsField::BookMaxHalfmoves
        }
    }

    /// All rows in form order.
    pub fn all() -> (v: Vec<SettingsField>)
        ensures
            v@.len() == 11,
            forall|i: int| 0 <= i < 11 ==> #[trigger] v@[i] == SettingsField::spec_at(i),
    {
        let v = vec![
            SettingsField::EnginePath,
            SettingsField::EngineProtocol,
            SettingsField::EngineThreads,
            SettingsField::EngineHashMb,
            SettingsField::EngineSkill,
            SettingsField::EngineMultiPv,
            SettingsField::BookLocalPath,
            SettingsField::BookLocalEnabled,
            SettingsField::BookCloudEnabled,
            SettingsField::BookPickMode,
            SettingsField::BookMaxHalfmoves,
        ];
        v
    }

    /// Position of the row in the form.
    pub fn index(self) -> (r: usize)
        ensures
            r as int == self.spec_index(),
            r < 11,
    {
        match self {
            SettingsField::EnginePath => 0,
            SettingsField::EngineProtocol => 1,
            SettingsField::EngineThreads => 2,
            SettingsField::EngineHashMb => 3,
            SettingsField::EngineSkill => 4,
            SettingsField::EngineMultiPv => 5,
            SettingsField::BookLocalPath => 6,
            SettingsField::BookLocalEnabled => 7,
            SettingsField::BookCloudEnabled => 8,
            SettingsField::BookPickMode => 9,
            SettingsField::BookMaxHalfmoves => 10,
        }
    }

    /// The row at position `i` (taken modulo the row count).
    pub fn at(i: usize) -> (r: SettingsField)
        ensures
            r == SettingsField::spec_at(i as int),
    {
        let k = i % 11;
        if k == 0 {
            SettingsField::EnginePath
        } else if k == 1 {
            SettingsField::EngineProtocol
        } else if k == 2 {
            SettingsField::EngineThreads
        } else if k == 3 {
            SettingsField::EngineHashMb
        } else if k == 4 {
            SettingsField::EngineSkill
        } else if k == 5 {
            SettingsField::EngineMultiPv
        } else if k == 6 {
            SettingsField::BookLocalPath
        } else if k == 7 {
            SettingsField::BookLocalEnabled
        } else if k == 8 {
            SettingsField::BookCloudEnabled
        } else if k == 9 {
            SettingsField::BookPickMode
        } else {
            SettingsField::BookMaxHalfmoves
        }
    }

    /// Row label shown in the form.
    pub fn label(self) -> (r: &'static str)
        ensures
            r@ == self.spec_label(),
    {
        match self {
            SettingsField::EnginePath => "引擎路径",
            SettingsField::EngineProtocol => "协议",
            SettingsField::EngineThreads => "线程数",
            SettingsField::EngineHashMb => "Hash(MB)",
            SettingsField::EngineSkill => "棋力 Skill",
            SettingsField::EngineMultiPv => "MultiPV",
            SettingsField::BookLocalPath => "本地库路径",
            SettingsField::BookLocalEnabled => "启用本地库",
            SettingsField::BookCloudEnabled => "启用云库",
            SettingsField::BookPickMode => "库招选取",
            SettingsField::BookMaxHalfmoves => "开局库最多步",
        }
    }

    /// How the row is edited.
    pub fn kind(self) -> (r: SettingsFieldKind)
        ensures
            r == self.spec_kind(),
    {
        match self {
            SettingsField::EnginePath | SettingsField::BookLocalPath => SettingsFieldKind::Text,
            SettingsField::BookLocalEnabled | SettingsField::BookCloudEnabled => SettingsFieldKind::Bool,
            SettingsField::EngineProtocol | SettingsField::BookPickMode => SettingsFieldKind::Cycle,
            SettingsField::EngineThreads
            | SettingsField::EngineHashMb
            | SettingsField::EngineSkill
            | SettingsField::EngineMultiPv
            | SettingsField::BookMaxHalfmoves => SettingsFieldKind::Number,
        }
    }

    /// Editing hint for the row.
    pub fn hint(self) -> (r: &'static str)
        ensures
            r@ == self.spec_hint(),
    {
        match self {
            SettingsField::EnginePath => "Enter 在 C 区输入路径，Esc 返回。",
            SettingsField::BookLocalPath => "Enter 在 C 区输入库路径，Esc 返回。",
            SettingsField::EngineProtocol => "←/→ 或 Enter 在 C 区输入 uci/ucci。",
            SettingsField::BookPickMode => "←/→ 切换；Enter 输入 optimal/positive_random。",
            SettingsField::BookLocalEnabled | SettingsField::BookCloudEnabled => "空格切换；Enter 输入 0/1。",
            SettingsField::EngineThreads => "←/→ 微调；Enter 在 C 区输入数字（1～64）。",
            SettingsField::EngineHashMb => "←/→ 微调；Enter 在 C 区输入 MB（64～8192）。",
            SettingsField::EngineSkill => "←/→ 微调；Enter 在 C 区输入（0～20）。",
            SettingsField::EngineMultiPv => "←/→ 微调；Enter 在 C 区输入（1～5）。",
            SettingsField::BookMaxHalfmoves => "←/→ 微调；Enter 在 C 区输入步数（0=不用库）。",
        }
    }

    /// The following row, wrapping from the last to the first.
    pub fn next(self) -> (r: SettingsField)
        ensures
            r == SettingsField::spec_at(self.spec_index() + 1),
    {
        let r = SettingsField::at(self.index() + 1);
        r
    }

    /// The preceding row, wrapping from the first to the last.
    pub fn prev(self) -> (r: SettingsField)
        ensures
            r == SettingsField::spec_at(self.spec_index() + 10),
    {
        SettingsField::at(self.index() + 10)
    }
}

/// Every row is found again at its own position.
pub proof fn lemma_settings_at_index(f: SettingsField)
    ensures
        SettingsField::spec_at(f.spec_index()) == f,
        0 <= f.spec_index() < 11,
{
}

/// Stepping to the next row and then to the previous one (or the other way round)
/// returns to the same row; eleven steps forward return to the start.
pub proof fn lemma_settings_next_prev_inverse(f: SettingsField)
    ensures
        SettingsField::spec_at(SettingsField::spec_at(f.spec_index() + 1).spec_index() + 10) == f,
        SettingsField::spec_at(SettingsField::spec_at(f.spec_index() + 10).spec_index() + 1) == f,
        SettingsField::spec_at(f.spec_index() + 11) == f,
{
}

pub open spec fn spec_pick_mode_label(mode: Seq<char>) -> Seq<char> {
    if mode == "positive_random"@ {
        "正向随机"@
    } else {
        "最优"@
    }
}

/// Display label of a book pick mode: only `positive_random` is the random mode.
pub fn pick_mode_label(mode: &str) -> (r: &'static str)
    ensures
        r@ == spec_pick_mode_label(mode@),
{
    if str_eq(mode, "positive_random") {
        "正向随机"
    } else {
        "最优"
    }
}

/// Index of a pick mode in the cycle `optimal`, `positive_random`; unknown modes count as `optimal`.
pub open spec fn spec_pick_mode_index(mode: Seq<char>) -> int {
    if mode == "positive_random"@ {
        1
    } else {
        0
    }
}

pub open spec fn spec_cycle_pick_mode(mode: Seq<char>, delta: int) -> Seq<char> {
    if (spec_pick_mode_index(mode) + delta) % 2 == 0 {
        "optimal"@
    } else {
        "positive_random"@
    }
}

/// Steps the pick mode `delta` places through the two-mode cycle.
pub fn cycle_pick_mode(mode: &str, delta: isize) -> (r: String)
    ensures
        r@ == spec_cycle_pick_mode(mode@, delta as int),
{
    let index: isize = if str_eq(mode, "positive_random") { 1 } else { 0 };
    let parity: isize = delta % 2;
    let step: isize = if parity < 0 { parity + 2 } else { parity };
    let next: isize = (index + step) % 2;
    assert((index + delta) % 2 == (index + step) % 2);
    if next == 0 {
        owned("optimal")
    } else {
        owned("positive_random")
    }
}

pub open spec fn spec_cycle_protocol(protocol: EngineProtocol, delta: int) -> EngineProtocol {
    if delta % 2 == 0 {
        protocol
    } else {
        match protocol {
            EngineProtocol::Uci => EngineProtocol::Ucci,
            EngineProtocol::Ucci => EngineProtocol::Uci,
        }
    }
}

/// Steps the protocol `delta` places through the two-protocol cycle.
pub fn cycle_protocol(protocol: EngineProtocol, delta: isize) -> (r: EngineProtocol)
    ensures
        r == spec_cycle_protocol(protocol, delta as int),
{
    if delta % 2 == 0 {
        return protocol;
    }
    match protocol {
        EngineProtocol::Uci => EngineProtocol::Ucci,
        EngineProtocol::Ucci => EngineProtocol::Uci,
    }
}

/// Clamps a thread count into `1..=64`.
pub fn clamp_threads(v: i32) -> (r: u8)
    ensures
        r as int == if v < 1 { 1 } else if v > 64 { 64 } else { v as int },
{
    if v < 1 {
        1
    } else if v > 64 {
        64
    } else {
        v as u8
    }
}

/// Hash sizes offered by the settings form, in MB.
pub open spec fn spec_hash_step(i: int) -> u32 {
    if i <= 0 {
        64
    } else if i == 1 {
        128
    } else if i == 2 {
        256
    } else if i == 3 {
        512
    } else if i == 4 {
        1024
    } else if i == 5 {
        2048
    } else if i == 6 {
        4096
    } else {
        8192
    }
}

/// Index of `mb` among the hash steps; a size that is not a step counts as 512 (index 3).
pub open spec fn spec_hash_index(mb: u32) -> int {
    if mb == 64 {
        0
    } else if mb == 128 {
        1
    } else if mb == 256 {
        2
    } else if mb == 512 {
        3
    } else if mb == 1024 {
        4
    } else if mb == 2048 {
        5
    } else if mb == 4096 {
        6
    } else if mb == 8192 {
        7
    } else {
        3
    }
}

pub open spec fn spec_bump_hash_mb(current: u32, delta: int) -> u32 {
    let t = spec_hash_index(current) + delta;
    spec_hash_step(if t < 0 { 0 } else if t > 7 { 7 } else { t })
}

/// Moves `delta` steps along the hash sizes, stopping at both ends.
pub fn bump_hash_mb(current: u32, delta: isize) -> (r: u32)
    ensures
        r == spec_bump_hash_mb(current, delta as int),
{
    let index: isize = if current == 64 {
        0
    } else if current == 128 {
        1
    } else if current == 256 {
        2
    } else if current == 512 {
        3
    } else if current == 1024 {
        4
    } else if current == 2048 {
        5
    } else if current == 4096 {
        6
    } else if current == 8192 {
        7
    } else {
        3
    };
    let next: isize = if delta < -8 {
        0
    } else if delta > 8 {
        7
    } else {
        let t = index + delta;
        if t < 0 {
            0
        } else if t > 7 {
            7
        } else {
            t
        }
    };
    if next == 0 {
        64
    } else if next == 1 {
        128
    } else if next == 2 {
        256
    } else if next == 3 {
        512
    } else if next == 4 {
        1024
    } else if next == 5 {
        2048
    } else if next == 6 {
        4096
    } else {
        8192
    }
}


/// The hint line of a settings field: its label, a space, its hint.
pub fn settings_hint(field: SettingsField) -> (r: String)
    ensures
        r@ == field.spec_label() + seq![' '] + field.spec_hint(),
{
    let mut s = owned(field.label());
    push_char(&mut s, ' ');
    push_str(&mut s, field.hint());
    s
}

/// How the engine is run and configured.
#[derive(Debug)]
pub struct EngineConfig {
    pub path: String,
    pub protocol: EngineProtocol,
    pub threads: u8,
    pub hash_mb: u32,
    pub skill_level: u8,
    pub multi_pv: u8,
    pub variant: String,
    pub rule: String,
}

impl Default for EngineConfig {
    fn default() -> (r: Self)
        ensures
            r.path@ == Seq::<char>::empty(),
            r.protocol == EngineProtocol::Uci,
            r.threads == 4,
            r.hash_mb == 512,
            r.skill_level == 20,
            r.multi_pv == 1,
            r.variant@ == "AsianRule"@,
            r.rule@ == "None"@,
    {
        EngineConfig {
            path: String::new(),
            protocol: EngineProtocol::Uci,
            threads: 4,
            hash_mb: 512,
            skill_level: 20,
            multi_pv: 1,
            variant: owned("AsianRule"),
            rule: owned("None"),
        }
    }
}

/// A path as the settings form shows it: `<未设置>` when empty.
pub open spec fn spec_display_or_placeholder(value: Seq<char>) -> Seq<char> {
    if value.len() == 0 {
        "<未设置>"@
    } else {
        value
    }
}

/// The text of [`spec_display_or_placeholder`].
pub fn display_or_placeholder(value: &str) -> (r: String)
    ensures
        r@ == spec_display_or_placeholder(value@),
{
    if crate::text::chars_of(value).len() == 0 {
        owned("<未设置>")
    } else {
        owned(value)
    }
}

/// A switch as the settings form shows it.
pub open spec fn spec_yes_no(value: bool) -> Seq<char> {
    if value {
        "是"@
    } else {
        "否"@
    }
}

/// The text of [`spec_yes_no`].
pub fn yes_no(value: bool) -> (r: &'static str)
    ensures
        r@ == spec_yes_no(value),
{
    if value {
        "是"
    } else {
        "否"
    }
}

/// The value shown in a settings row.
pub open spec fn spec_field_value(field: SettingsField, engine: &EngineConfig, book: &BookConfig) -> Seq<char> {
    match field {
        SettingsField::EnginePath => spec_display_or_placeholder(engine.path@),
        SettingsField::EngineProtocol => engine.protocol.spec_label(),
        SettingsField::EngineThreads => decimal_nat(engine.threads as nat),
        SettingsField::EngineHashMb => decimal_nat(engine.hash_mb as nat),
        SettingsField::EngineSkill => decimal_nat(engine.skill_level as nat),
        SettingsField::EngineMultiPv => decimal_nat(engine.multi_pv as nat),
        SettingsField::BookLocalPath => spec_display_or_placeholder(book.local_path@),
        SettingsField::BookLocalEnabled => spec_yes_no(book.local_enabled),
        SettingsField::BookCloudEnabled => spec_yes_no(book.cloud_enabled),
        SettingsField::BookPickMode => spec_pick_mode_label(book.pick_mode@),
        SettingsField::BookMaxHalfmoves => decimal_nat(book.max_halfmoves as nat),
    }
}

fn decimal_text(n: u64) -> (r: String)
    ensures
        r@ == decimal_nat(n as nat),
{
    let mut s = String::new();
    push_decimal_u64(&mut s, n);
    assert(s@ =~= decimal_nat(n as nat));
    s
}

/// The value shown in a settings row, from the engine and book settings.
pub fn field_value(field: SettingsField, engine: &EngineConfig, book: &BookConfig) -> (r: String)
    ensures
        r@ == spec_field_value(field, engine, book),
{
    match field {
        SettingsField::EnginePath => display_or_placeholder(engine.path.as_str()),
        SettingsField::EngineProtocol => owned(engine.protocol.label()),
        SettingsField::EngineThreads => decimal_text(engine.threads as u64),
        SettingsField::EngineHashMb => decimal_text(engine.hash_mb as u64),
        SettingsField::EngineSkill => decimal_text(engine.skill_level as u64),
        SettingsField::EngineMultiPv => decimal_text(engine.multi_pv as u64),
        SettingsField::BookLocalPath => display_or_placeholder(book.local_path.as_str()),
        SettingsField::BookLocalEnabled => owned(yes_no(book.local_enabled)),
        SettingsField::BookCloudEnabled => owned(yes_no(book.cloud_enabled)),
        SettingsField::BookPickMode => owned(pick_mode_label(book.pick_mode.as_str())),
        SettingsField::BookMaxHalfmoves => decimal_text(book.max_halfmoves as u64),
    }
}

/// The widest of the labels of the first `n` rows.
pub open spec fn labels_width(n: int) -> int
    decreases n,
{
    if n <= 0 {
        0
    } else {
        let w = str_display_width(SettingsField::spec_at(n - 1).spec_label()) as int;
        let rest = labels_width(n - 1);
        if w > rest {
            w
        } else {
            rest
        }
    }
}

/// Width of the label column: the widest label, at least 8.
pub fn label_column_width() -> (r: usize)
    ensures
        r == if labels_width(11) > 8 {
            labels_width(11)
        } else {
            8
        },
{
    let all = SettingsField::all();
    let mut widest: usize = 0;
    let mut i: usize = 0;
    while i < all.len()
        invariant
            all@.len() == 11,
            forall|k: int| 0 <= k < 11 ==> #[trigger] all@[k] == SettingsField::spec_at(k),
            i <= 11,
            widest == labels_width(i as int),
        decreases all.len() - i,
    {
        let w = str_width(all[i].label());
        if w > widest {
            widest = w;
        }
        i = i + 1;
    }
    if widest > 8 {
        widest
    } else {
        8
    }
}

/// A label padded with spaces on the right to `width` columns (unchanged
/// when it is already that wide).
pub fn pad_label(label: &str, width: usize) -> (r: String)
    ensures
        r@ == if str_display_width(label@) >= width {
            label@
        } else {
            label@ + spaces(width - str_display_width(label@))
        },
{
    let w = str_width(label);
    let mut s = owned(label);
    if w < width {
        push_spaces(&mut s, width - w);
    }
    s
}

/// `v` clamped into `lo..=hi`.
pub open spec fn clamped(v: int, lo: int, hi: int) -> int {
    if v < lo {
        lo
    } else if v > hi {
        hi
    } else {
        v
    }
}

fn clamp_wide(v: i128, lo: i128, hi: i128) -> (r: i128)
    requires
        lo <= hi,
    ensures
        r as int == clamped(v as int, lo as int, hi as int),
{
    if v < lo {
        lo
    } else if v > hi {
        hi
    } else {
        v
    }
}

/// The settings after stepping the row `field` by `delta` (arrow keys):
/// cycles for the protocol and the pick mode, switches flipped, numbers moved
/// within their ranges (threads 1 to 64, hash along its steps, skill 0 to 20,
/// MultiPV 1 to 5, book half-moves by tens from 0 to 999); paths unchanged.
pub open spec fn stepped(
    field: SettingsField,
    delta: int,
    e: &EngineConfig,
    b: &BookConfig,
    e2: &EngineConfig,
    b2: &BookConfig,
) -> bool {
    let same_engine = e2.path@ == e.path@ && e2.protocol == e.protocol && e2.threads == e.threads && e2.hash_mb
        == e.hash_mb && e2.skill_level == e.skill_level && e2.multi_pv == e.multi_pv && e2.variant@ == e.variant@
        && e2.rule@ == e.rule@;
    let same_book = b2.local_path@ == b.local_path@ && b2.local_enabled == b.local_enabled && b2.cloud_enabled
        == b.cloud_enabled && b2.pick_mode@ == b.pick_mode@ && b2.max_halfmoves == b.max_halfmoves;
    match field {
        SettingsField::EngineProtocol => same_book && e2.protocol == spec_cycle_protocol(e.protocol, delta)
            && e2.path@ == e.path@ && e2.threads == e.threads && e2.hash_mb == e.hash_mb && e2.skill_level
            == e.skill_level && e2.multi_pv == e.multi_pv && e2.variant@ == e.variant@ && e2.rule@ == e.rule@,
        SettingsField::EngineThreads => same_book && e2.threads as int == clamped(e.threads + delta, 1, 64)
            && e2.path@ == e.path@ && e2.protocol == e.protocol && e2.hash_mb == e.hash_mb && e2.skill_level
            == e.skill_level && e2.multi_pv == e.multi_pv && e2.variant@ == e.variant@ && e2.rule@ == e.rule@,
        SettingsField::EngineHashMb => same_book && e2.hash_mb == spec_bump_hash_mb(e.hash_mb, delta)
            && e2.path@ == e.path@ && e2.protocol == e.protocol && e2.threads == e.threads && e2.skill_level
            == e.skill_level && e2.multi_pv == e.multi_pv && e2.variant@ == e.variant@ && e2.rule@ == e.rule@,
        SettingsField::EngineSkill => same_book && e2.skill_level as int == clamped(e.skill_level + delta, 0, 20)
            && e2.path@ == e.path@ && e2.protocol == e.protocol && e2.threads == e.threads && e2.hash_mb
            == e.hash_mb && e2.multi_pv == e.multi_pv && e2.variant@ == e.variant@ && e2.rule@ == e.rule@,
        SettingsField::EngineMultiPv => same_book && e2.multi_pv as int == clamped(e.multi_pv + delta, 1, 5)
            && e2.path@ == e.path@ && e2.protocol == e.protocol && e2.threads == e.threads && e2.hash_mb
            == e.hash_mb && e2.skill_level == e.skill_level && e2.variant@ == e.variant@ && e2.rule@ == e.rule@,
        SettingsField::BookLocalEnabled => same_engine && b2.local_enabled == !b.local_enabled && b2.local_path@
            == b.local_path@ && b2.cloud_enabled == b.cloud_enabled && b2.pick_mode@ == b.pick_mode@
            && b2.max_halfmoves == b.max_halfmoves,
        SettingsField::BookCloudEnabled => same_engine && b2.cloud_enabled == !b.cloud_enabled && b2.local_path@
            == b.local_path@ && b2.local_enabled == b.local_enabled && b2.pick_mode@ == b.pick_mode@
            && b2.max_halfmoves == b.max_halfmoves,
        SettingsField::BookPickMode => same_engine && b2.pick_mode@ == spec_cycle_pick_mode(b.pick_mode@, delta)
            && b2.local_path@ == b.local_path@ && b2.local_enabled == b.local_enabled && b2.cloud_enabled
            == b.cloud_enabled && b2.max_halfmoves == b.max_halfmoves,
        SettingsField::BookMaxHalfmoves => same_engine && b2.max_halfmoves as int == clamped(
            b.max_halfmoves + 10 * delta,
            0,
            999,
        ) && b2.local_path@ == b.local_path@ && b2.local_enabled == b.local_enabled && b2.cloud_enabled
            == b.cloud_enabled && b2.pick_mode@ == b.pick_mode@,
        SettingsField::EnginePath | SettingsField::BookLocalPath => same_engine && same_book,
    }
}

/// Steps the settings row `field` by `delta` (see [`stepped`]).
pub fn adjust_setting(field: SettingsField, engine: &mut EngineConfig, book: &mut BookConfig, delta: isize)
    ensures
        stepped(field, delta as int, &*old(engine), &*old(book), &*final(engine), &*final(book)),
{
    let d: i128 = delta as i128;
    match field {
        SettingsField::EngineProtocol => engine.protocol = cycle_protocol(engine.protocol, delta),
        SettingsField::EngineThreads => {
            engine.threads = clamp_wide(engine.threads as i128 + d, 1, 64) as u8;
        },
        SettingsField::EngineHashMb => engine.hash_mb = bump_hash_mb(engine.hash_mb, delta),
        SettingsField::EngineSkill => {
            engine.skill_level = clamp_wide(engine.skill_level as i128 + d, 0, 20) as u8;
        },
        SettingsField::EngineMultiPv => {
            engine.multi_pv = clamp_wide(engine.multi_pv as i128 + d, 1, 5) as u8;
        },
        SettingsField::BookLocalEnabled => book.local_enabled = !book.local_enabled,
        SettingsField::BookCloudEnabled => book.cloud_enabled = !book.cloud_enabled,
        SettingsField::BookPickMode => book.pick_mode = cycle_pick_mode(book.pick_mode.as_str(), delta),
        SettingsField::BookMaxHalfmoves => {
            book.max_halfmoves = clamp_wide(book.max_halfmoves as i128 + 10 * d, 0, 999) as u16;
        },
        SettingsField::EnginePath | SettingsField::BookLocalPath => {},
    }
}

} // verus!
