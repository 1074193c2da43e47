use vstd::prelude::*;

use crate::settings::SettingsField;

verus! {

/// Which page is shown.
#[derive(Debug, Clone, Copy, PartialEq, Eq, Structural)]
pub enum Screen {
    Battle,
    Settings,
}

/// The two tabs of the top bar.
#[derive(Debug, Clone, Copy, PartialEq, Eq, Structural)]
pub enum TopTab {
    Battle,
    Settings,
}

impl TopTab {
    pub open spec fn spec_next(self) -> TopTab {
        match self {
            TopTab::Battle => TopTab::Settings,
            TopTab::Settings => TopTab::Battle,
        }
    }

    /// The other tab.
    pub fn next(self) -> (r: TopTab)
        ensures
            r == self.spec_next(),
            r != self,
    {
        match self {
            TopTab::Battle => TopTab::Settings,
            TopTab::Settings => TopTab::Battle,
        }
    }
}

/// Buttons of the battle page, in panel order.
#[derive(Debug, Clone, Copy, PartialEq, Eq, Structural)]
pub enum BattleButton {
    RedAi,
    BlackAi,
    QueryMode,
    RealtimeEval,
    NewGame,
    Undo,
    RotateBoard,
    PrevMove,
    NextMove,
    CopyFen,
    PasteFen,
}

impl BattleButton {
    pub open spec fn spec_index(self) -> int {
        match self {
            BattleButton::RedAi => 0,
            BattleButton::BlackAi => 1,
            BattleButton::QueryMode => 2,
            BattleButton::RealtimeEval => 3,
            BattleButton::NewGame => 4,
            BattleButton::Undo => 5,
            BattleButton::RotateBoard => 6,
            BattleButton::PrevMove => 7,
            BattleButton::NextMove => 8,
            BattleButton::CopyFen => 9,
            BattleButton::PasteFen => 10,
        }
    }

    /// The button at position `i` (taken modulo the button count).
    pub open spec fn spec_at(i: int) -> BattleButton {
        let k = i % 11;
        if k == 0 {
            BattleButton::RedAi
        } else if k == 1 {
            BattleButton::BlackAi
        } else if k == 2 {
            BattleButton::QueryMode
        } else if k == 3 {
            BattleButton::RealtimeEval
        } else if k == 4 {
            BattleButton::NewGame
        } else if k == 5 {
            BattleButton::Undo
        } else if k == 6 {
            BattleButton::RotateBoard
        } else if k == 7 {
            BattleButton::PrevMove
        } else if k == 8 {
            BattleButton::NextMove
        } else if k == 9 {
            BattleButton::CopyFen
        } else {
            BattleButton::PasteFen
        }
    }

    pub open spec fn spec_label(self) -> Seq<char> {
        match self {
            BattleButton::RedAi => "红AI"@,
            BattleButton::BlackAi => "黑AI"@,
            BattleButton::QueryMode => "查询模式"@,
            BattleButton::RealtimeEval => "实时评估"@,
            BattleButton::NewGame => "新游戏"@,
            BattleButton::Undo => "悔棋"@,
            BattleButton::RotateBoard => "旋转棋盘"@,
            BattleButton::PrevMove => "上一步"@,
            BattleButton::NextMove => "下一步"@,
            BattleButton::CopyFen => "复制FEN"@,
            BattleButton::PasteFen => "粘贴FEN"@,
        }
    }

    /// All buttons in panel order.
    pub fn all() -> (v: Vec<BattleButton>)
        ensures
            v@.len() == 11,
            forall|i: int| 0 <= i < 11 ==> #[trigger] v@[i] == BattleButton::spec_at(i),
    {
        vec![
            BattleButton::RedAi,
            BattleButton::BlackAi,
            BattleButton::QueryMode,
            BattleButton::RealtimeEval,
            BattleButton::NewGame,
            BattleButton::Undo,
            BattleButton::RotateBoard,
            BattleButton::PrevMove,
            BattleButton::NextMove,
            BattleButton::CopyFen,
            BattleButton::PasteFen,
        ]
    }

    /// Button caption.
    pub fn label(self) -> (r: &'static str)
        ensures
            r@ == self.spec_label(),
    {
        match self {
            BattleButton::RedAi => "红AI",
            BattleButton::BlackAi => "黑AI",
            BattleButton::QueryMode => "查询模式",
            BattleButton::RealtimeEval => "实时评估",
            BattleButton::NewGame => "新游戏",
            BattleButton::Undo => "悔棋",
            BattleButton::RotateBoard => "旋转棋盘",
            BattleButton::PrevMove => "上一步",
            BattleButton::NextMove => "下一步",
            BattleButton::CopyFen => "复制FEN",
            BattleButton::PasteFen => "粘贴FEN",
        }
    }

    fn index(self) -> (r: isize)
        ensures
            r as int == self.spec_index(),
    {
        match self {
            BattleButton::RedAi => 0,
            BattleButton::BlackAi => 1,
            BattleButton::QueryMode => 2,
            BattleButton::RealtimeEval => 3,
            BattleButton::NewGame => 4,
            BattleButton::Undo => 5,
            BattleButton::RotateBoard => 6,
            BattleButton::PrevMove => 7,
            BattleButton::NextMove => 8,
            BattleButton::CopyFen => 9,
            BattleButton::PasteFen => 10,
        }
    }

    fn from_index(k: isize) -> (r: BattleButton)
        requires
            0 <= k < 11,
        ensures
            r == BattleButton::spec_at(k as int),
    {
        if k == 0 {
            BattleButton::RedAi
        } else if k == 1 {
            BattleButton::BlackAi
        } else if k == 2 {
            BattleButton::QueryMode
        } else if k == 3 {
            BattleButton::RealtimeEval
        } else if k == 4 {
            BattleButton::NewGame
        } else if k == 5 {
            BattleButton::Undo
        } else if k == 6 {
            BattleButton::RotateBoard
        } else if k == 7 {
            BattleButton::PrevMove
        } else if k == 8 {
            BattleButton::NextMove
        } else if k == 9 {
            BattleButton::CopyFen
        } else {
            BattleButton::PasteFen
        }
    }

    /// The button `delta` places further along the panel, wrapping at both ends.
    pub fn step(self, delta: isize) -> (r: BattleButton)
        ensures
            r == BattleButton::spec_at(self.spec_index() + delta),
    {
        let i: isize = self.index();
        let rem: isize = delta % 11;
        let shift: isize = if rem < 0 { rem + 11 } else { rem };
        let k: isize = (i + shift) % 11;
        proof {
            lemma_shift_mod(i as int, delta as int, shift as int);
        }
        BattleButton::from_index(k)
    }
}

proof fn lemma_shift_mod(i: int, d: int, s: int)
    requires
        0 <= i < 11,
        0 <= s < 11,
        s % 11 == d % 11,
    ensures
        (i + s) % 11 == (i + d) % 11,
{
    assert((i + s) % 11 == (i + d) % 11) by (nonlinear_arith)
        requires
            s % 11 == d % 11,
    ;
}

/// Stepping by `d` and then by `-d` returns to the same button.
pub proof fn lemma_button_step_inverse(b: BattleButton, d: int)
    ensures
        BattleButton::spec_at(BattleButton::spec_at(b.spec_index() + d).spec_index() - d) == b,
{
    let k = (b.spec_index() + d) % 11;
    assert(BattleButton::spec_at(b.spec_index() + d).spec_index() == k);
    assert((k - d) % 11 == b.spec_index()) by (nonlinear_arith)
        requires
            k == (b.spec_index() + d) % 11,
            0 <= b.spec_index() < 11,
    ;
}

/// Sections of the settings page.
#[derive(Debug, Clone, Copy, PartialEq, Eq, Structural)]
pub enum SettingsSection {
    Engine,
    OpeningBook,
}

impl SettingsSection {
    pub open spec fn spec_title(self) -> Seq<char> {
        match self {
            SettingsSection::Engine => "引擎设置"@,
            SettingsSection::OpeningBook => "开局库设置"@,
        }
    }

    /// Section heading.
    pub fn title(self) -> (r: &'static str)
        ensures
            r@ == self.spec_title(),
    {
        match self {
            SettingsSection::Engine => "引擎设置",
            SettingsSection::OpeningBook => "开局库设置",
        }
    }

    /// The other section.
    pub fn next(self) -> (r: SettingsSection)
        ensures
            r != self,
    {
        match self {
            SettingsSection::Engine => SettingsSection::OpeningBook,
            SettingsSection::OpeningBook => SettingsSection::Engine,
        }
    }
}

/// What receives keyboard input.
#[derive(Debug, Clone, Copy, PartialEq, Eq, Structural)]
pub enum Focus {
    TopTab(TopTab),
    BattleButton(BattleButton),
    CommandInput,
    SettingsSection(SettingsSection),
}

/// What a mouse click landed on.
#[derive(Debug, Clone, Copy, PartialEq, Eq, Structural)]
pub enum HitTarget {
    TopTab(TopTab),
    BattleButton(BattleButton),
    CommandInput,
    SettingsField(SettingsField),
    BoardCell(u8, u8),
}

} // verus!
