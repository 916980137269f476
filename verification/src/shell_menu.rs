//! The context menu of a file: when the system's menu is shown and when the built-in one,
//! which steps lead to it, what a message of the menu selects and what a selected command
//! does.

use crate::text;
use crate::text::same_ignoring_ascii_case;
use vstd::prelude::*;

verus! {

broadcast use vstd::string::group_string_axioms;

/// After how many seconds the system's menu is tried again when it hung.
pub const HUNG_RECOVERY_SECONDS: i64 = 300;

/// How many seconds the built-in menu may stay open.
pub const FALLBACK_MENU_TIMEOUT_SECS: u64 = 15;

/// How many milliseconds the system's menu may take until it counts as hung.
pub const MENU_BUILD_TIMEOUT_MS: u64 = 5000;

/// The first and the last number that the system's menu gives to commands.
pub const FIRST_COMMAND: i32 = 1;

pub const LAST_COMMAND: i32 = 0x7FFF;

/// How far a menu has come.
#[derive(Clone, Copy, Debug, PartialEq, Eq, Structural)]
pub enum SessionState {
    Idle,
    Building,
    Tracking,
    Hung,
}

/// Which menu is shown.
#[derive(Clone, Copy, Debug, PartialEq, Eq, Structural)]
pub enum MenuRoute {
    Shell,
    Fallback,
}

/// How building the system's menu went.
#[derive(Clone, Copy, Debug, PartialEq, Eq, Structural)]
pub enum BuildOutcome {
    /// The menu is shown.
    Ready,
    /// The menu could not be built.
    Failed,
    /// The builder went away without a word.
    Lost,
    /// Nothing was heard in time.
    TimedOut,
}

/// What the asker is told.
#[derive(Clone, Copy, Debug, PartialEq, Eq, Structural)]
pub enum MenuReply {
    Shown,
    /// The builder's error.
    Refused,
    /// That the builder went away.
    TaskFailed,
    /// Nothing yet: the built-in menu is shown.
    Fallback,
}

/// The menus of the program: at most one is open.
#[derive(Clone, Copy, Debug, PartialEq, Eq, Structural)]
pub struct MenuSession {
    pub state: SessionState,
    /// When the system's menu hung, in seconds; 0 where that is not known.
    pub hung_since: i64,
    /// The window that the open menu belongs to; 0 for none.
    pub owner: usize,
    /// The command that is highlighted.
    pub selected: i32,
}

/// Whether a menu that hung at `since` is tried again at `now`.
pub open spec fn is_recovered(since: i64, now: i64) -> bool {
    since > 0 && now - since > HUNG_RECOVERY_SECONDS
}

impl MenuSession {
    /// The menu that is shown at `now`.
    pub open spec fn route_at(self, now: i64) -> MenuRoute {
        if self.state == SessionState::Hung && !is_recovered(self.hung_since, now) {
            MenuRoute::Fallback
        } else {
            MenuRoute::Shell
        }
    }

    /// When the menu of a window is closed.
    pub open spec fn closed_by(self, owner: usize) -> MenuSession {
        MenuSession {
            owner: if self.owner == owner {
                0
            } else {
                self.owner
            },
            state: if self.state == SessionState::Tracking {
                SessionState::Idle
            } else {
                self.state
            },
            ..self
        }
    }

    /// No menu is open.
    pub fn new() -> (r: Self)
        ensures
            r.state == SessionState::Idle,
            r.hung_since == 0,
            r.owner == 0,
            r.selected == 0,
    {
        MenuSession { state: SessionState::Idle, hung_since: 0, owner: 0, selected: 0 }
    }

    /// Decides at `now` which menu is shown. The system's menu is built, unless it hung
    /// and has not recovered.
    pub fn open(&mut self, now: i64) -> (r: MenuRoute)
        ensures
            r == old(self).route_at(now),
            *final(self) == (if r == MenuRoute::Fallback {
                *old(self)
            } else {
                MenuSession {
                    state: SessionState::Building,
                    hung_since: if old(self).state == SessionState::Hung {
                        0
                    } else {
                        old(self).hung_since
                    },
                    ..*old(self)
                }
            }),
    {
        if self.state == SessionState::Hung {
            if self.hung_since > 0 && now >= self.hung_since && now - self.hung_since
                > HUNG_RECOVERY_SECONDS {
                self.hung_since = 0;
            } else {
                return MenuRoute::Fallback;
            }
        }
        self.state = SessionState::Building;
        MenuRoute::Shell
    }

    /// Notes how building the system's menu went. A menu that was not heard of in time
    /// hangs from `now` on.
    pub fn on_outcome(&mut self, outcome: BuildOutcome, now: i64) -> (r: MenuReply)
        ensures
            r == (match outcome {
                BuildOutcome::Ready => MenuReply::Shown,
                BuildOutcome::Failed => MenuReply::Refused,
                BuildOutcome::Lost => MenuReply::TaskFailed,
                BuildOutcome::TimedOut => MenuReply::Fallback,
            }),
            *final(self) == (match outcome {
                BuildOutcome::Ready => *old(self),
                BuildOutcome::TimedOut => MenuSession {
                    state: SessionState::Hung,
                    hung_since: now,
                    ..*old(self)
                },
                _ => MenuSession { state: SessionState::Idle, ..*old(self) },
            }),
    {
        match outcome {
            BuildOutcome::Ready => MenuReply::Shown,
            BuildOutcome::Failed => {
                self.state = SessionState::Idle;
                MenuReply::Refused
            },
            BuildOutcome::Lost => {
                self.state = SessionState::Idle;
                MenuReply::TaskFailed
            },
            BuildOutcome::TimedOut => {
                self.state = SessionState::Hung;
                self.hung_since = now;
                MenuReply::Fallback
            },
        }
    }

    /// Gives the open menu to a window. The window of the menu that was open before is
    /// handed back: that menu is to be closed.
    pub fn take_over(&mut self, owner: usize) -> (r: Option<usize>)
        ensures
            r == (if old(self).owner != 0 {
                Some(old(self).owner)
            } else {
                None
            }),
            *final(self) == (MenuSession { owner, ..*old(self) }),
    {
        let before: usize = self.owner;
        self.owner = owner;
        if before != 0 {
            Some(before)
        } else {
            None
        }
    }

    /// Notes that the system's menu is built and shown; nothing is highlighted yet.
    pub fn on_ready(&mut self)
        ensures
            *final(self) == (MenuSession {
                state: SessionState::Tracking,
                selected: 0,
                ..*old(self)
            }),
    {
        self.state = SessionState::Tracking;
        self.selected = 0;
    }

    /// Notes that the menu of a window is closed. A menu that a newer window has taken
    /// over stays, and a menu that hung stays hung.
    pub fn on_closed(&mut self, owner: usize)
        ensures
            *final(self) == old(self).closed_by(owner),
    {
        if self.owner == owner {
            self.owner = 0;
        }
        if self.state == SessionState::Tracking {
            self.state = SessionState::Idle;
        }
    }

    /// Takes up a message of the menu.
    pub fn on_message(&mut self, message: MenuMessage) -> (r: MessageReply)
        ensures
            final(self).selected == (match selects(message) {
                Some(id) => id,
                None => old(self).selected,
            }),
            *final(self) == (MenuSession { selected: final(self).selected, ..*old(self) }),
            r == (match message {
                MenuMessage::Highlighted { .. } => MessageReply::Default,
                MenuMessage::Command { .. } => MessageReply::Done,
                MenuMessage::Drawing => MessageReply::Forward,
                MenuMessage::Other => MessageReply::Default,
            }),
    {
        match message {
            MenuMessage::Highlighted { word } => {
                let id: u64 = word & 0xFFFF;
                let flags: u64 = (word >> 16) & 0xFFFF;
                if flags & MF_POPUP == 0 && id != 0xFFFF && id <= 0x7FFF {
                    self.selected = id as i32;
                }
                MessageReply::Default
            },
            MenuMessage::Command { word } => {
                let id: u64 = word & 0xFFFF;
                if 1 <= id && id <= 0x7FFF {
                    self.selected = id as i32;
                }
                MessageReply::Done
            },
            MenuMessage::Drawing => MessageReply::Forward,
            MenuMessage::Other => MessageReply::Default,
        }
    }
}

/// The system's menu is not tried again until it has recovered: whatever is closed in
/// between, the built-in menu is shown.
pub proof fn hung_until_recovered(before: MenuSession, owner: usize, now: i64)
    requires
        before.state == SessionState::Hung,
        !is_recovered(before.hung_since, now),
    ensures
        before.route_at(now) == MenuRoute::Fallback,
        before.closed_by(owner).route_at(now) == MenuRoute::Fallback,
{
}

/// Marks an item of a menu that opens a menu itself.
pub const MF_POPUP: u64 = 0x10;

/// A message that the window of a menu gets.
#[derive(Clone, Copy, Debug, PartialEq, Eq, Structural)]
pub enum MenuMessage {
    /// An item is highlighted: its number stands in the low half, its flags in the high
    /// half.
    Highlighted { word: u64 },
    /// A command is chosen: its number stands in the low half.
    Command { word: u64 },
    /// The menu has to open, draw or measure something, or a key was pressed.
    Drawing,
    Other,
}

/// What becomes of a message.
#[derive(Clone, Copy, Debug, PartialEq, Eq, Structural)]
pub enum MessageReply {
    /// It is handled the usual way.
    Default,
    /// It is done with.
    Done,
    /// It goes to the system's menu, if that is there, and to the usual way otherwise.
    Forward,
}

/// The command that a message selects. Menus in menus, separators and numbers beyond
/// those of commands select nothing.
pub open spec fn selects(message: MenuMessage) -> Option<i32> {
    match message {
        MenuMessage::Highlighted { word } => if ((word >> 16) & 0xFFFF) & MF_POPUP == 0 && word
            & 0xFFFF <= LAST_COMMAND {
            Some((word & 0xFFFF) as i32)
        } else {
            None
        },
        MenuMessage::Command { word } => if FIRST_COMMAND <= word & 0xFFFF <= LAST_COMMAND {
            Some((word & 0xFFFF) as i32)
        } else {
            None
        },
        _ => None,
    }
}

/// A step towards the system's menu.
#[derive(Clone, Copy, Debug, PartialEq, Eq, Structural)]
pub enum MenuStep {
    CheckPath,
    GetDesktop,
    ParseParent,
    BindParent,
    NameFile,
    ParseFile,
    GetMenu,
    CastMenu,
    CreatePopup,
    QueryMenu,
    Track,
    Invoke,
}

/// The item lists that are held while a step is taken: that of the directory, and that of
/// the file.
pub open spec fn held(step: MenuStep) -> (bool, bool) {
    match step {
        MenuStep::BindParent | MenuStep::NameFile | MenuStep::ParseFile => (true, false),
        MenuStep::GetMenu => (true, true),
        _ => (false, false),
    }
}

/// The item list that a step makes when it succeeds.
pub open spec fn made(step: MenuStep) -> (bool, bool) {
    (step == MenuStep::ParseParent, step == MenuStep::ParseFile)
}

/// The step that follows when a step succeeds.
pub open spec fn next_of(step: MenuStep) -> Option<MenuStep> {
    match step {
        MenuStep::CheckPath => Some(MenuStep::GetDesktop),
        MenuStep::GetDesktop => Some(MenuStep::ParseParent),
        MenuStep::ParseParent => Some(MenuStep::BindParent),
        MenuStep::BindParent => Some(MenuStep::NameFile),
        MenuStep::NameFile => Some(MenuStep::ParseFile),
        MenuStep::ParseFile => Some(MenuStep::GetMenu),
        MenuStep::GetMenu => Some(MenuStep::CastMenu),
        MenuStep::CastMenu => Some(MenuStep::CreatePopup),
        MenuStep::CreatePopup => Some(MenuStep::QueryMenu),
        MenuStep::QueryMenu => Some(MenuStep::Track),
        MenuStep::Track => Some(MenuStep::Invoke),
        MenuStep::Invoke => None,
    }
}

/// The item lists that are freed when a step is done: those that it held, where it failed
/// or was the last to need them.
pub open spec fn freed(step: MenuStep, ok: bool) -> (bool, bool) {
    if ok && step != MenuStep::GetMenu {
        (false, false)
    } else {
        held(step)
    }
}

/// What follows a step: which item lists are to be freed, that of the directory and that
/// of the file, and which step comes next.
pub fn after_step(step: MenuStep, ok: bool) -> (r: (bool, bool, Option<MenuStep>))
    ensures
        r.2 == (if ok {
            next_of(step)
        } else {
            None
        }),
        (r.0, r.1) == freed(step, ok),
{
    let next = match step {
        MenuStep::CheckPath => Some(MenuStep::GetDesktop),
        MenuStep::GetDesktop => Some(MenuStep::ParseParent),
        MenuStep::ParseParent => Some(MenuStep::BindParent),
        MenuStep::BindParent => Some(MenuStep::NameFile),
        MenuStep::NameFile => Some(MenuStep::ParseFile),
        MenuStep::ParseFile => Some(MenuStep::GetMenu),
        MenuStep::GetMenu => Some(MenuStep::CastMenu),
        MenuStep::CastMenu => Some(MenuStep::CreatePopup),
        MenuStep::CreatePopup => Some(MenuStep::QueryMenu),
        MenuStep::QueryMenu => Some(MenuStep::Track),
        MenuStep::Track => Some(MenuStep::Invoke),
        MenuStep::Invoke => None,
    };
    if ok {
        let last = step == MenuStep::GetMenu;
        (last, last, next)
    } else {
        let both = step == MenuStep::GetMenu;
        let parent = both || step == MenuStep::BindParent || step == MenuStep::NameFile || step
            == MenuStep::ParseFile;
        (parent, both, None)
    }
}

/// No item list is lost or freed twice: what is held at the next step is what was held or
/// made and not freed, and after a failure nothing is left.
pub proof fn lists_are_freed(step: MenuStep, ok: bool)
    ensures
        freed(step, ok).0 ==> held(step).0,
        freed(step, ok).1 ==> held(step).1,
        !ok ==> freed(step, ok) == held(step),
        ok ==> (next_of(step) matches Some(next) ==> held(next) == (
            (held(step).0 || made(step).0) && !freed(step, ok).0,
            (held(step).1 || made(step).1) && !freed(step, ok).1,
        )),
        ok && next_of(step) is None ==> held(step) == (false, false) && made(step) == (
            false,
            false,
        ),
{
}

/// The text that a failed step is reported with: of the path where the path is at fault,
/// else of the system's error.
pub open spec fn failure_of(step: MenuStep, path: Seq<char>, error: Seq<char>) -> Seq<char> {
    match step {
        MenuStep::CheckPath => "Path does not exist: "@ + path,
        MenuStep::GetDesktop => "Failed to get desktop folder: "@ + error,
        MenuStep::ParseParent => "Failed to parse parent path: "@ + error,
        MenuStep::BindParent => "Failed to bind parent: "@ + error,
        MenuStep::NameFile => "Invalid file name: "@ + path,
        MenuStep::ParseFile => "Failed to parse file name: "@ + error,
        MenuStep::GetMenu => "Failed to get IContextMenu: "@ + error,
        MenuStep::CastMenu => "Failed to get IContextMenu2: "@ + error,
        MenuStep::CreatePopup => "Failed to create popup menu: "@ + error,
        MenuStep::QueryMenu => "Failed to query context menu: "@ + error,
        MenuStep::Track => error,
        MenuStep::Invoke => "Failed to invoke command: "@ + error,
    }
}

/// The text that a failed step is reported with.
pub fn failure_text(step: MenuStep, path: &str, error: &str) -> (r: String)
    ensures
        r@ == failure_of(step, path@, error@),
{
    let mut r = match step {
        MenuStep::CheckPath => "Path does not exist: ".to_string(),
        MenuStep::GetDesktop => "Failed to get desktop folder: ".to_string(),
        MenuStep::ParseParent => "Failed to parse parent path: ".to_string(),
        MenuStep::BindParent => "Failed to bind parent: ".to_string(),
        MenuStep::NameFile => "Invalid file name: ".to_string(),
        MenuStep::ParseFile => "Failed to parse file name: ".to_string(),
        MenuStep::GetMenu => "Failed to get IContextMenu: ".to_string(),
        MenuStep::CastMenu => "Failed to get IContextMenu2: ".to_string(),
        MenuStep::CreatePopup => "Failed to create popup menu: ".to_string(),
        MenuStep::QueryMenu => "Failed to query context menu: ".to_string(),
        MenuStep::Track => {
            return error.to_string();
        },
        MenuStep::Invoke => "Failed to invoke command: ".to_string(),
    };
    if step == MenuStep::CheckPath || step == MenuStep::NameFile {
        r.append(path);
    } else {
        r.append(error);
    }
    r
}

/// What a command of the system's menu does.
#[derive(Clone, Copy, Debug, PartialEq, Eq, Structural)]
pub enum MenuAction {
    /// The properties of the file are shown.
    Properties,
    /// The file is removed, when asked for again.
    Delete,
    /// The system's menu does it.
    Invoke,
}

/// The place of a chosen command among the commands of the menu; none where no command
/// was chosen.
pub fn command_offset(id: i32) -> (r: Option<u32>)
    ensures
        r == (if id > 0 {
            Some((id - FIRST_COMMAND) as u32)
        } else {
            None
        }),
{
    if id > 0 {
        Some((id - FIRST_COMMAND) as u32)
    } else {
        None
    }
}

/// What the command with the given verb does; some commands have none.
pub fn action_for(verb: &Option<String>) -> (r: MenuAction)
    ensures
        r == (match *verb {
            Some(v) => if text::ascii_lower(v@) == text::ascii_lower("properties"@) {
                MenuAction::Properties
            } else if text::ascii_lower(v@) == text::ascii_lower("delete"@) {
                MenuAction::Delete
            } else {
                MenuAction::Invoke
            },
            None => MenuAction::Invoke,
        }),
{
    match verb {
        Some(v) => if same_ignoring_ascii_case(v.as_str(), "properties") {
            MenuAction::Properties
        } else if same_ignoring_ascii_case(v.as_str(), "delete") {
            MenuAction::Delete
        } else {
            MenuAction::Invoke
        },
        None => MenuAction::Invoke,
    }
}

/// A command of the built-in menu.
#[derive(Clone, Copy, Debug, PartialEq, Eq, Structural)]
pub enum FallbackCommand {
    Open,
    OpenLocation,
    CopyPath,
    Delete,
    Properties,
}

impl FallbackCommand {
    /// The number of the command in the menu.
    pub open spec fn number(self) -> usize {
        match self {
            FallbackCommand::Open => 1,
            FallbackCommand::OpenLocation => 2,
            FallbackCommand::CopyPath => 3,
            FallbackCommand::Delete => 4,
            FallbackCommand::Properties => 5,
        }
    }

    /// The number of the command in the menu.
    pub fn id(&self) -> (r: usize)
        ensures
            r == self.number(),
    {
        match self {
            FallbackCommand::Open => 1,
            FallbackCommand::OpenLocation => 2,
            FallbackCommand::CopyPath => 3,
            FallbackCommand::Delete => 4,
            FallbackCommand::Properties => 5,
        }
    }

    /// The command with the given number.
    pub fn of_id(id: usize) -> (r: Option<FallbackCommand>)
        ensures
            match r {
                Some(c) => c.number() == id,
                None => id == 0 || id > 5,
            },
    {
        if id == 1 {
            Some(FallbackCommand::Open)
        } else if id == 2 {
            Some(FallbackCommand::OpenLocation)
        } else if id == 3 {
            Some(FallbackCommand::CopyPath)
        } else if id == 4 {
            Some(FallbackCommand::Delete)
        } else if id == 5 {
            Some(FallbackCommand::Properties)
        } else {
            None
        }
    }

    /// The text that the command has in the menu.
    pub open spec fn title(self) -> Seq<char> {
        match self {
            FallbackCommand::Open => "打开(&O)"@,
            FallbackCommand::OpenLocation => "打开所在位置(&I)"@,
            FallbackCommand::CopyPath => "复制路径(&C)"@,
            FallbackCommand::Delete => "删除(&D)"@,
            FallbackCommand::Properties => "属性(&R)"@,
        }
    }

    /// The text that the command has in the menu.
    pub fn label(&self) -> (r: String)
        ensures
            r@ == self.title(),
    {
        match self {
            FallbackCommand::Open => "打开(&O)".to_string(),
            FallbackCommand::OpenLocation => "打开所在位置(&I)".to_string(),
            FallbackCommand::CopyPath => "复制路径(&C)".to_string(),
            FallbackCommand::Delete => "删除(&D)".to_string(),
            FallbackCommand::Properties => "属性(&R)".to_string(),
        }
    }
}

/// The built-in menu from top to bottom; a separator stands where there is no command.
pub fn fallback_menu() -> (r: Vec<Option<FallbackCommand>>)
    ensures
        r@ == seq![
            Some(FallbackCommand::Open),
            Some(FallbackCommand::OpenLocation),
            None,
            Some(FallbackCommand::CopyPath),
            Some(FallbackCommand::Delete),
            Some(FallbackCommand::Properties),
        ],
{
    vec![
        Some(FallbackCommand::Open),
        Some(FallbackCommand::OpenLocation),
        None,
        Some(FallbackCommand::CopyPath),
        Some(FallbackCommand::Delete),
        Some(FallbackCommand::Properties),
    ]
}

/// What the file browser is called with to show where a file is.
pub fn select_arguments(path: &str) -> (r: String)
    ensures
        r@ == "/select,\""@ + path@ + seq!['"'],
{
    let mut r = "/select,\"".to_string();
    r.append(path);
    r.push('"');
    assert(r@ =~= "/select,\""@ + path@ + seq!['"']);
    r
}

/// What is asked before a file is removed.
pub fn delete_question(path: &str) -> (r: String)
    ensures
        r@ == "您确定要将此文件移到回收站吗？\n\n"@ + path@,
{
    let mut r = "您确定要将此文件移到回收站吗？\n\n".to_string();
    r.append(path);
    r
}

/// A chosen command is selected by its number, which the lower half of the word writes; one over
/// those of commands, or 0, is not. A highlighted item is too, unless it opens a menu itself, which
/// the flag in the upper half tells.
pub proof fn word_selects_its_number(number: u64, flags: u64, rest: u64)
    requires
        number < 0x1_0000,
        flags < 0x1_0000,
        rest < 0x1_0000_0000,
    ensures
        ({
            let word = (number + flags * 0x1_0000 + rest * 0x1_0000_0000) as u64;
            &&& selects(MenuMessage::Command { word }) == (if 1 <= number < 0x8000 {
                Some(number as i32)
            } else {
                None
            })
            &&& selects(MenuMessage::Highlighted { word }) == (if number < 0x8000 && (flags / 16)
                % 2 == 0 {
                Some(number as i32)
            } else {
                None
            })
        }),
{
    let word: u64 = (number + flags * 0x1_0000 + rest * 0x1_0000_0000) as u64;
    assert(word & 0xFFFF == word % 0x1_0000 && (word >> 16) & 0xFFFF == (word / 0x1_0000) % 0x1_0000)
        by (bit_vector);
    assert(flags & 0x10 == 0 <==> (flags / 16) % 2 == 0) by (bit_vector);
    assert(word % 0x1_0000 == number && (word / 0x1_0000) % 0x1_0000 == flags);
}

/// The system's menu is tried again more than five minutes after it hung, and no sooner.
pub proof fn recovers_after_five_minutes(s: MenuSession, now: i64)
    requires
        s.state == SessionState::Hung,
        s.hung_since > 0,
    ensures
        s.route_at(now) == MenuRoute::Shell <==> now > s.hung_since + 5 * 60,
{
}

} // verus!
