use vstd::prelude::*;

use crate::text::{
    chars_eq, chars_of, is_prefix, is_ws, lower, lower_chars, push_str, string_from_chars, trim,
    trim_chars,
};

verus! {

/// Slash commands of the command line, in menu order.
#[derive(Debug, Clone, Copy, PartialEq, Eq, Structural)]
pub enum SlashCommand {
    New,
    Stop,
    Undo,
    Prev,
    Next,
    RedAi,
    BlackAi,
    Query,
    Rotate,
    Eval,
    CopyFen,
    PasteFen,
    Help,
    Exit,
    Quit,
}

/// Number of slash commands.
pub const SLASH_COMMAND_COUNT: usize = 15;

impl SlashCommand {
    /// The command at menu position `i` (0 to 14).
    pub open spec fn spec_at(i: int) -> SlashCommand {
        if i <= 0 {
            SlashCommand::New
        } else if i == 1 {
            SlashCommand::Stop
        } else if i == 2 {
            SlashCommand::Undo
        } else if i == 3 {
            SlashCommand::Prev
        } else if i == 4 {
            SlashCommand::Next
        } else if i == 5 {
            SlashCommand::RedAi
        } else if i == 6 {
            SlashCommand::BlackAi
        } else if i == 7 {
            SlashCommand::Query
        } else if i == 8 {
            SlashCommand::Rotate
        } else if i == 9 {
            SlashCommand::Eval
        } else if i == 10 {
            SlashCommand::CopyFen
        } else if i == 11 {
            SlashCommand::PasteFen
        } else if i == 12 {
            SlashCommand::Help
        } else if i == 13 {
            SlashCommand::Exit
        } else {
            SlashCommand::Quit
        }
    }

    /// All commands in menu order.
    pub open spec fn spec_all() -> Seq<SlashCommand> {
        Seq::new(15, |i: int| SlashCommand::spec_at(i))
    }

    pub open spec fn spec_name(self) -> Seq<char> {
        match self {
            SlashCommand::New => "/new"@,
            SlashCommand::Stop => "/stop"@,
            SlashCommand::Undo => "/undo"@,
            SlashCommand::Prev => "/prev"@,
            SlashCommand::Next => "/next"@,
            SlashCommand::RedAi => "/rai"@,
            SlashCommand::BlackAi => "/bai"@,
            SlashCommand::Query => "/query"@,
            SlashCommand::Rotate => "/rotate"@,
            SlashCommand::Eval => "/eval"@,
            SlashCommand::CopyFen => "/copyfen"@,
            SlashCommand::PasteFen => "/pastefen"@,
            SlashCommand::Help => "/help"@,
            SlashCommand::Exit => "/exit"@,
            SlashCommand::Quit => "/quit"@,
        }
    }

    pub open spec fn spec_description(self) -> Seq<char> {
        match self {
            SlashCommand::New => "新游戏"@,
            SlashCommand::Stop => "停止所有模式"@,
            SlashCommand::Undo => "悔棋"@,
            SlashCommand::Prev => "上一步"@,
            SlashCommand::Next => "下一步"@,
            SlashCommand::RedAi => "切换红AI"@,
            SlashCommand::BlackAi => "切换黑AI"@,
            SlashCommand::Query => "切换查询模式"@,
            SlashCommand::Rotate => "旋转棋盘"@,
            SlashCommand::Eval => "切换实时评估"@,
            SlashCommand::CopyFen => "复制FEN"@,
            SlashCommand::PasteFen => "粘贴FEN"@,
            SlashCommand::Help => "帮助"@,
            SlashCommand::Exit | SlashCommand::Quit => "退出软件"@,
        }
    }

    /// The command whose name is `value`, if any.
    pub open spec fn spec_from_name(value: Seq<char>) -> Option<SlashCommand> {
        if value == "/new"@ {
            Some(SlashCommand::New)
        } else if value == "/stop"@ {
            Some(SlashCommand::Stop)
        } else if value == "/undo"@ {
            Some(SlashCommand::Undo)
        } else if value == "/prev"@ {
            Some(SlashCommand::Prev)
        } else if value == "/next"@ {
            Some(SlashCommand::Next)
        } else if value == "/rai"@ {
            Some(SlashCommand::RedAi)
        } else if value == "/bai"@ {
            Some(SlashCommand::BlackAi)
        } else if value == "/query"@ {
            Some(SlashCommand::Query)
        } else if value == "/rotate"@ {
            Some(SlashCommand::Rotate)
        } else if value == "/eval"@ {
            Some(SlashCommand::Eval)
        } else if value == "/copyfen"@ {
            Some(SlashCommand::CopyFen)
        } else if value == "/pastefen"@ {
            Some(SlashCommand::PasteFen)
        } else if value == "/help"@ {
            Some(SlashCommand::Help)
        } else if value == "/exit"@ {
            Some(SlashCommand::Exit)
        } else if value == "/quit"@ {
            Some(SlashCommand::Quit)
        } else {
            None
        }
    }

    /// All commands in menu order.
    pub fn all() -> (v: Vec<SlashCommand>)
        ensures
            v@ == SlashCommand::spec_all(),
    {
        let v = vec![
            SlashCommand::New,
            SlashCommand::Stop,
            SlashCommand::Undo,
            SlashCommand::Prev,
            SlashCommand::Next,
            SlashCommand::RedAi,
            SlashCommand::BlackAi,
            SlashCommand::Query,
            SlashCommand::Rotate,
            SlashCommand::Eval,
            SlashCommand::CopyFen,
            SlashCommand::PasteFen,
            SlashCommand::Help,
            SlashCommand::Exit,
            SlashCommand::Quit,
        ];
        assert(v@ =~= SlashCommand::spec_all());
        v
    }

    /// The command as typed, with its leading slash.
    pub fn name(self) -> (r: &'static str)
        ensures
            r@ == self.spec_name(),
    {
        match self {
            SlashCommand::New => "/new",
            SlashCommand::Stop => "/stop",
            SlashCommand::Undo => "/undo",
            SlashCommand::Prev => "/prev",
            SlashCommand::Next => "/next",
            SlashCommand::RedAi => "/rai",
            SlashCommand::BlackAi => "/bai",
            SlashCommand::Query => "/query",
            SlashCommand::Rotate => "/rotate",
            SlashCommand::Eval => "/eval",
            SlashCommand::CopyFen => "/copyfen",
            SlashCommand::PasteFen => "/pastefen",
            SlashCommand::Help => "/help",
            SlashCommand::Exit => "/exit",
            SlashCommand::Quit => "/quit",
        }
    }

    /// Menu description of the command.
    pub fn description(self) -> (r: &'static str)
        ensures
            r@ == self.spec_description(),
    {
        match self {
            SlashCommand::New => "新游戏",
            SlashCommand::Stop => "停止所有模式",
            SlashCommand::Undo => "悔棋",
            SlashCommand::Prev => "上一步",
            SlashCommand::Next => "下一步",
            SlashCommand::RedAi => "切换红AI",
            SlashCommand::BlackAi => "切换黑AI",
            SlashCommand::Query => "切换查询模式",
            SlashCommand::Rotate => "旋转棋盘",
            SlashCommand::Eval => "切换实时评估",
            SlashCommand::CopyFen => "复制FEN",
            SlashCommand::PasteFen => "粘贴FEN",
            SlashCommand::Help => "帮助",
            SlashCommand::Exit | SlashCommand::Quit => "退出软件",
        }
    }

    /// The command whose name is exactly `value`.
    pub fn from_name(value: &str) -> (r: Option<SlashCommand>)
        ensures
            r == SlashCommand::spec_from_name(value@),
    {
        let v = chars_of(value);
        SlashCommand::from_name_chars(v.as_slice())
    }

    /// The command whose name is exactly the characters `v`.
    pub fn from_name_chars(v: &[char]) -> (r: Option<SlashCommand>)
        ensures
            r == SlashCommand::spec_from_name(v@),
    {
        let all = SlashCommand::all();
        let mut i: usize = 0;
        while i < all.len()
            invariant
                all@ == SlashCommand::spec_all(),
                i <= 15,
                forall|j: int| 0 <= j < i ==> #[trigger] SlashCommand::spec_at(j).spec_name() != v@,
            decreases 15 - i,
        {
            let c = all[i];
            let name = chars_of(c.name());
            if chars_eq(name.as_slice(), v) {
                proof {
                    lemma_from_name_of_name(c);
                }
                return Some(c);
            }
            i = i + 1;
        }
        proof {
            lemma_from_name_none(v@);
        }
        None
    }
}

/// Each command is found again from its own name.
pub proof fn lemma_from_name_of_name(c: SlashCommand)
    ensures
        SlashCommand::spec_from_name(c.spec_name()) == Some(c),
{
    reveal_strlit("/new");
    reveal_strlit("/stop");
    reveal_strlit("/help");
    reveal_strlit("/undo");
    reveal_strlit("/prev");
    reveal_strlit("/next");
    reveal_strlit("/rai");
    reveal_strlit("/bai");
    reveal_strlit("/query");
    reveal_strlit("/rotate");
    reveal_strlit("/eval");
    reveal_strlit("/copyfen");
    reveal_strlit("/pastefen");
    reveal_strlit("/exit");
    reveal_strlit("/quit");
    match c {
        SlashCommand::New => {
        },
        SlashCommand::Stop => {
            assert("/stop"@.len() != "/new"@.len());
        },
        SlashCommand::Undo => {
            assert("/undo"@.len() != "/new"@.len());
            assert("/undo"@[1] != "/stop"@[1]);
        },
        SlashCommand::Help => {
            assert("/help"@.len() != "/new"@.len());
            assert("/help"@[1] != "/stop"@[1]);
            assert("/help"@[1] != "/undo"@[1]);
            assert("/help"@[1] != "/prev"@[1]);
            assert("/help"@[1] != "/next"@[1]);
            assert("/help"@.len() != "/rai"@.len());
            assert("/help"@.len() != "/bai"@.len());
            assert("/help"@.len() != "/query"@.len());
            assert("/help"@.len() != "/rotate"@.len());
            assert("/help"@[1] != "/eval"@[1]);
            assert("/help"@.len() != "/copyfen"@.len());
            assert("/help"@.len() != "/pastefen"@.len());
        },
        SlashCommand::Prev => {
            assert("/prev"@[1] != "/stop"@[1]);
            assert("/prev"@.len() != "/new"@.len());
            assert("/prev"@[1] != "/undo"@[1]);
        },
        SlashCommand::Next => {
            assert("/next"@[1] != "/stop"@[1]);
            assert("/next"@.len() != "/new"@.len());
            assert("/next"@[1] != "/undo"@[1]);
            assert("/next"@[1] != "/prev"@[1]);
        },
        SlashCommand::RedAi => {
            assert("/rai"@.len() != "/stop"@.len());
            assert("/rai"@[1] != "/new"@[1]);
            assert("/rai"@.len() != "/undo"@.len());
            assert("/rai"@.len() != "/prev"@.len());
            assert("/rai"@.len() != "/next"@.len());
        },
        SlashCommand::BlackAi => {
            assert("/bai"@.len() != "/stop"@.len());
            assert("/bai"@[1] != "/new"@[1]);
            assert("/bai"@.len() != "/undo"@.len());
            assert("/bai"@.len() != "/prev"@.len());
            assert("/bai"@.len() != "/next"@.len());
            assert("/bai"@[1] != "/rai"@[1]);
        },
        SlashCommand::Query => {
            assert("/query"@.len() != "/stop"@.len());
            assert("/query"@.len() != "/new"@.len());
            assert("/query"@.len() != "/undo"@.len());
            assert("/query"@.len() != "/prev"@.len());
            assert("/query"@.len() != "/next"@.len());
            assert("/query"@.len() != "/rai"@.len());
            assert("/query"@.len() != "/bai"@.len());
        },
        SlashCommand::Rotate => {
            assert("/rotate"@.len() != "/stop"@.len());
            assert("/rotate"@.len() != "/new"@.len());
            assert("/rotate"@.len() != "/undo"@.len());
            assert("/rotate"@.len() != "/prev"@.len());
            assert("/rotate"@.len() != "/next"@.len());
            assert("/rotate"@.len() != "/rai"@.len());
            assert("/rotate"@.len() != "/bai"@.len());
            assert("/rotate"@.len() != "/query"@.len());
        },
        SlashCommand::Eval => {
            assert("/eval"@[1] != "/stop"@[1]);
            assert("/eval"@.len() != "/new"@.len());
            assert("/eval"@[1] != "/undo"@[1]);
            assert("/eval"@[1] != "/prev"@[1]);
            assert("/eval"@[1] != "/next"@[1]);
            assert("/eval"@.len() != "/rai"@.len());
            assert("/eval"@.len() != "/bai"@.len());
            assert("/eval"@.len() != "/query"@.len());
            assert("/eval"@.len() != "/rotate"@.len());
        },
        SlashCommand::CopyFen => {
            assert("/copyfen"@.len() != "/stop"@.len());
            assert("/copyfen"@.len() != "/new"@.len());
            assert("/copyfen"@.len() != "/undo"@.len());
            assert("/copyfen"@.len() != "/prev"@.len());
            assert("/copyfen"@.len() != "/next"@.len());
            assert("/copyfen"@.len() != "/rai"@.len());
            assert("/copyfen"@.len() != "/bai"@.len());
            assert("/copyfen"@.len() != "/query"@.len());
            assert("/copyfen"@.len() != "/rotate"@.len());
            assert("/copyfen"@.len() != "/eval"@.len());
        },
        SlashCommand::PasteFen => {
            assert("/pastefen"@.len() != "/stop"@.len());
            assert("/pastefen"@.len() != "/new"@.len());
            assert("/pastefen"@.len() != "/undo"@.len());
            assert("/pastefen"@.len() != "/prev"@.len());
            assert("/pastefen"@.len() != "/next"@.len());
            assert("/pastefen"@.len() != "/rai"@.len());
            assert("/pastefen"@.len() != "/bai"@.len());
            assert("/pastefen"@.len() != "/query"@.len());
            assert("/pastefen"@.len() != "/rotate"@.len());
            assert("/pastefen"@.len() != "/eval"@.len());
            assert("/pastefen"@.len() != "/copyfen"@.len());
        },
        SlashCommand::Exit => {
            assert("/exit"@[1] != "/stop"@[1]);
            assert("/exit"@[1] != "/help"@[1]);
            assert("/exit"@.len() != "/new"@.len());
            assert("/exit"@[1] != "/undo"@[1]);
            assert("/exit"@[1] != "/prev"@[1]);
            assert("/exit"@[1] != "/next"@[1]);
            assert("/exit"@.len() != "/rai"@.len());
            assert("/exit"@.len() != "/bai"@.len());
            assert("/exit"@.len() != "/query"@.len());
            assert("/exit"@.len() != "/rotate"@.len());
            assert("/exit"@[2] != "/eval"@[2]);
            assert("/exit"@.len() != "/copyfen"@.len());
            assert("/exit"@.len() != "/pastefen"@.len());
        },
        SlashCommand::Quit => {
            assert("/quit"@[1] != "/stop"@[1]);
            assert("/quit"@[1] != "/help"@[1]);
            assert("/quit"@.len() != "/new"@.len());
            assert("/quit"@[1] != "/undo"@[1]);
            assert("/quit"@[1] != "/prev"@[1]);
            assert("/quit"@[1] != "/next"@[1]);
            assert("/quit"@.len() != "/rai"@.len());
            assert("/quit"@.len() != "/bai"@.len());
            assert("/quit"@.len() != "/query"@.len());
            assert("/quit"@.len() != "/rotate"@.len());
            assert("/quit"@[1] != "/eval"@[1]);
            assert("/quit"@.len() != "/copyfen"@.len());
            assert("/quit"@.len() != "/pastefen"@.len());
            assert("/quit"@[1] != "/exit"@[1]);
        },
    }
}

proof fn lemma_from_name_none(v: Seq<char>)
    requires
        forall|j: int| 0 <= j < 15 ==> #[trigger] SlashCommand::spec_at(j).spec_name() != v,
    ensures
        SlashCommand::spec_from_name(v) == None::<SlashCommand>,
{
    assert(SlashCommand::spec_at(0).spec_name() != v);
    assert(SlashCommand::spec_at(1).spec_name() != v);
    assert(SlashCommand::spec_at(2).spec_name() != v);
    assert(SlashCommand::spec_at(3).spec_name() != v);
    assert(SlashCommand::spec_at(4).spec_name() != v);
    assert(SlashCommand::spec_at(5).spec_name() != v);
    assert(SlashCommand::spec_at(6).spec_name() != v);
    assert(SlashCommand::spec_at(7).spec_name() != v);
    assert(SlashCommand::spec_at(8).spec_name() != v);
    assert(SlashCommand::spec_at(9).spec_name() != v);
    assert(SlashCommand::spec_at(10).spec_name() != v);
    assert(SlashCommand::spec_at(11).spec_name() != v);
    assert(SlashCommand::spec_at(12).spec_name() != v);
    assert(SlashCommand::spec_at(13).spec_name() != v);
    assert(SlashCommand::spec_at(14).spec_name() != v);
}

/// A board move typed as `[a-i][0-9][a-i][0-9]`.
#[derive(Debug, Clone, PartialEq, Eq)]
pub struct CoordinateMove {
    pub raw: String,
    pub from_file: u8,
    pub from_rank: u8,
    pub to_file: u8,
    pub to_rank: u8,
}

/// A successfully parsed command line.
#[derive(Debug, Clone, PartialEq, Eq)]
pub enum ParsedCommand {
    Move(CoordinateMove),
    Slash(SlashCommand),
}

/// Why a command line was refused.
#[derive(Debug, Clone, PartialEq, Eq)]
pub enum CommandParseError {
    Empty,
    UnknownSlash(String),
    InvalidMove(String),
}

impl CommandParseError {
    pub open spec fn spec_message(&self) -> Seq<char> {
        match self {
            CommandParseError::Empty => "输入为空。"@,
            CommandParseError::UnknownSlash(command) => "未知命令："@ + command@,
            CommandParseError::InvalidMove(value) => "非法输入："@ + value@
                + "。普通输入必须满足 [a-i][0-9][a-i][0-9]。"@,
        }
    }

    /// Status-line text for the error.
    pub fn message(&self) -> (r: String)
        ensures
            r@ == self.spec_message(),
    {
        match self {
            CommandParseError::Empty => String::from_str("输入为空。"),
            CommandParseError::UnknownSlash(command) => {
                let mut s = String::from_str("未知命令：");
                push_str(&mut s, command.as_str());
                s
            },
            CommandParseError::InvalidMove(value) => {
                let mut s = String::from_str("非法输入：");
                push_str(&mut s, value.as_str());
                push_str(&mut s, "。普通输入必须满足 [a-i][0-9][a-i][0-9]。");
                s
            },
        }
    }
}

/// `c` is a board file letter `a`..`i`.
pub open spec fn is_file_char(c: char) -> bool {
    'a' <= c && c <= 'i'
}

/// `c` is a rank digit `0`..`9`.
pub open spec fn is_rank_char(c: char) -> bool {
    '0' <= c && c <= '9'
}

/// `s` has the shape `[a-i][0-9][a-i][0-9]`.
pub open spec fn is_coordinate_text(s: Seq<char>) -> bool {
    &&& s.len() == 4
    &&& is_file_char(s[0])
    &&& is_rank_char(s[1])
    &&& is_file_char(s[2])
    &&& is_rank_char(s[3])
}

/// The command line as the parser sees it: trimmed and ASCII-lowercased.
pub open spec fn normalized_command(input: Seq<char>) -> Seq<char> {
    lower(trim(input))
}

/// The command a line starting with `/` names: `/pastefen` followed by
/// whitespace and its FEN, or a command name exactly.
pub open spec fn slash_command_of(cmd: Seq<char>) -> Option<SlashCommand> {
    if is_prefix("/pastefen"@, cmd) && cmd.len() > 9 && is_ws(cmd[9]) {
        Some(SlashCommand::PasteFen)
    } else {
        SlashCommand::spec_from_name(cmd)
    }
}

/// Whether the line is `/pastefen` followed by whitespace (and its FEN).
fn pastefen_with_argument(cmd: &[char]) -> (r: bool)
    ensures
        r == (is_prefix("/pastefen"@, cmd@) && cmd@.len() > 9 && is_ws(cmd@[9])),
{
    let p = chars_of("/pastefen");
    proof {
        reveal_strlit("/pastefen");
    }
    crate::text::starts_with_chars(cmd, p.as_slice()) && cmd.len() > 9 && crate::text::char_is_ws(cmd[9])
}

/// Parses command lines: slash commands and coordinate moves.
#[derive(Debug, Default, Clone, Copy)]
pub struct CommandService;

impl CommandService {
    /// Parses a command line. The line is trimmed and lowercased; an empty line
    /// is `Empty`; a line starting with `/` is a known command (`/pastefen`
    /// may be followed by its FEN) or `UnknownSlash`; anything else is a
    /// coordinate move or `InvalidMove`.
    pub fn parse(&self, input: &str) -> (r: Result<ParsedCommand, CommandParseError>)
        ensures
            ({
                let cmd = normalized_command(input@);
                match r {
                    Err(CommandParseError::Empty) => cmd.len() == 0,
                    Err(CommandParseError::UnknownSlash(s)) => cmd.len() > 0 && cmd[0] == '/'
                        && slash_command_of(cmd) is None && s@ == cmd,
                    Ok(ParsedCommand::Slash(c)) => cmd.len() > 0 && cmd[0] == '/' && slash_command_of(cmd)
                        == Some(c),
                    Err(CommandParseError::InvalidMove(s)) => cmd.len() > 0 && cmd[0] != '/'
                        && !is_coordinate_text(cmd) && s@ == cmd,
                    Ok(ParsedCommand::Move(m)) => cmd.len() > 0 && cmd[0] != '/'
                        && is_coordinate_text(cmd) && m.raw@ == cmd && m.from_file as int == cmd[0]
                        as int - 'a' as int && m.from_rank as int == cmd[1] as int - '0' as int
                        && m.to_file as int == cmd[2] as int - 'a' as int && m.to_rank as int
                        == cmd[3] as int - '0' as int,
                }
            }),
    {
        let raw = chars_of(input);
        let trimmed = trim_chars(raw.as_slice());
        let command = lower_chars(trimmed.as_slice());
        if command.len() == 0 {
            return Err(CommandParseError::Empty);
        }
        if command[0] == '/' {
            if pastefen_with_argument(command.as_slice()) {
                return Ok(ParsedCommand::Slash(SlashCommand::PasteFen));
            }
            return match SlashCommand::from_name_chars(command.as_slice()) {
                Some(c) => Ok(ParsedCommand::Slash(c)),
                None => Err(CommandParseError::UnknownSlash(string_from_chars(command.as_slice()))),
            };
        }
        match parse_coordinate_move(command.as_slice()) {
            Ok(m) => Ok(ParsedCommand::Move(m)),
            Err(e) => Err(e),
        }
    }
}

fn parse_coordinate_move(v: &[char]) -> (r: Result<CoordinateMove, CommandParseError>)
    ensures
        match r {
            Ok(m) => is_coordinate_text(v@) && m.raw@ == v@ && m.from_file as int == v@[0] as int
                - 'a' as int && m.from_rank as int == v@[1] as int - '0' as int && m.to_file as int
                == v@[2] as int - 'a' as int && m.to_rank as int == v@[3] as int - '0' as int,
            Err(CommandParseError::InvalidMove(s)) => !is_coordinate_text(v@) && s@ == v@,
            Err(_) => false,
        },
{
    if v.len() != 4 || !('a' <= v[0] && v[0] <= 'i') || !('0' <= v[1] && v[1] <= '9') || !('a'
        <= v[2] && v[2] <= 'i') || !('0' <= v[3] && v[3] <= '9') {
        return Err(CommandParseError::InvalidMove(string_from_chars(v)));
    }
    Ok(
        CoordinateMove {
            raw: string_from_chars(v),
            from_file: (v[0] as u8) - 97,
            from_rank: (v[1] as u8) - 48,
            to_file: (v[2] as u8) - 97,
            to_rank: (v[3] as u8) - 48,
        },
    )
}

} // verus!
