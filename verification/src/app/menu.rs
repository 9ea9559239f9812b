//! The menu.
use crate::browser::filter::PhotoFilter;
use vstd::prelude::*;

verus! {

#[derive(Clone, Copy, Debug, PartialEq, Eq, Structural)]
pub enum Command {
    Open,
    OpenDeleted,
    Quit,
    Fit,
    Fill,
    Actual,
    Fullscreen,
    ZoomLock,
    AutoAdvance,
    Pin,
    ReplacePin,
    UndoRating,
    Filmstrip,
    Brighten,
    Darken,
    ResetBrightness,
    Filter(PhotoFilter),
    MoveDeletedCurrent,
    MoveDeletedRejected,
    TrashCurrent,
    TrashRejected,
    Help,
}

/// A part of the menu.
#[derive(Clone, Copy, Debug, PartialEq, Eq, Structural)]
pub enum MenuName {
    Application,
    File,
    Edit,
    View,
    Filter,
    Window,
    Help,
}

/// A key of a shortcut.
#[derive(Clone, Copy, Debug, PartialEq, Eq, Structural)]
pub enum Code {
    Backspace,
    D0,
    D1,
    D2,
    D3,
    D4,
    D5,
    O,
    Q,
    X,
    Z,
}

/// A shortcut.
#[derive(Clone, Copy, Debug, PartialEq, Eq, Structural)]
pub enum Shortcut {
    Command(Code),
    CommandOption(Code),
}

/// An item that the system provides.
#[derive(Clone, Copy, Debug, PartialEq, Eq, Structural)]
pub enum Provided {
    About,
    Hide,
    HideOthers,
    Maximize,
    Minimize,
    Separator,
    Services,
    ShowAll,
}

/// An item of the menu.
#[derive(Debug)]
pub enum Item {
    Provided(Provided),
    Plain {
        label: &'static str,
        command: Command,
        shortcut: Option<Shortcut>,
        enabled: bool,
    },
    Check {
        label: &'static str,
        command: Command,
        shortcut: Option<Shortcut>,
        checked: bool,
    },
}

/// What an `Item` says.
pub enum Entry {
    Provided(Provided),
    Plain { label: Seq<char>, command: Command, shortcut: Option<Shortcut>, enabled: bool },
    Check { label: Seq<char>, command: Command, shortcut: Option<Shortcut>, checked: bool },
}

impl View for Item {
    type V = Entry;

    open spec fn view(&self) -> Entry {
        match self {
            Item::Provided(provided) => Entry::Provided(*provided),
            Item::Plain { label, command, shortcut, enabled } => Entry::Plain {
                label: label@,
                command: *command,
                shortcut: *shortcut,
                enabled: *enabled,
            },
            Item::Check { label, command, shortcut, checked } => Entry::Check {
                label: label@,
                command: *command,
                shortcut: *shortcut,
                checked: *checked,
            },
        }
    }
}

/// What some items say.
pub open spec fn entries(items: Seq<Item>) -> Seq<Entry> {
    items.map_values(|i: Item| i@)
}

pub open spec fn plain(
    label: Seq<char>,
    command: Command,
    shortcut: Option<Shortcut>,
    enabled: bool,
) -> Entry {
    Entry::Plain { label, command, shortcut, enabled }
}

pub open spec fn check(label: Seq<char>, command: Command) -> Entry {
    Entry::Check { label, command, shortcut: None, checked: false }
}

/// The filters that the menu offers.
pub open spec fn filters() -> Seq<PhotoFilter> {
    seq![
        PhotoFilter::All,
        PhotoFilter::Stars(1),
        PhotoFilter::Stars(2),
        PhotoFilter::Stars(3),
        PhotoFilter::Stars(4),
        PhotoFilter::Stars(5),
        PhotoFilter::Rated,
        PhotoFilter::Unrated,
        PhotoFilter::Rejected,
        PhotoFilter::NotRejected,
    ]
}

/// The shortcut of a filter.
pub open spec fn filter_shortcut(filter: PhotoFilter) -> Option<Shortcut> {
    match filter {
        PhotoFilter::All => Some(Shortcut::CommandOption(Code::D0)),
        PhotoFilter::Stars(stars) => if stars == 1 {
            Some(Shortcut::CommandOption(Code::D1))
        } else if stars == 2 {
            Some(Shortcut::CommandOption(Code::D2))
        } else if stars == 3 {
            Some(Shortcut::CommandOption(Code::D3))
        } else if stars == 4 {
            Some(Shortcut::CommandOption(Code::D4))
        } else if stars == 5 {
            Some(Shortcut::CommandOption(Code::D5))
        } else {
            None
        },
        PhotoFilter::Rejected => Some(Shortcut::CommandOption(Code::X)),
        _ => None,
    }
}

/// The item of a filter. All photographs are shown at first.
pub open spec fn filter_entry(filter: PhotoFilter) -> Entry {
    Entry::Check {
        label: filter.name(),
        command: Command::Filter(filter),
        shortcut: filter_shortcut(filter),
        checked: filter == PhotoFilter::All,
    }
}

/// The items of a part of the menu, in order.
pub open spec fn listed(menu: MenuName) -> Seq<Entry> {
    match menu {
        MenuName::Application => seq![
            Entry::Provided(Provided::About),
            Entry::Provided(Provided::Separator),
            Entry::Provided(Provided::Services),
            Entry::Provided(Provided::Hide),
            Entry::Provided(Provided::HideOthers),
            Entry::Provided(Provided::ShowAll),
            Entry::Provided(Provided::Separator),
            plain("Quit FastCull"@, Command::Quit, Some(Shortcut::Command(Code::Q)), true),
        ],
        MenuName::File => seq![
            plain("Open Folder…"@, Command::Open, Some(Shortcut::Command(Code::O)), true),
            plain("Open deleted Folder"@, Command::OpenDeleted, None, true),
            Entry::Provided(Provided::Separator),
            plain("Move Current Photo to deleted (Space / X)"@, Command::MoveDeletedCurrent, None, true),
            plain("Move Rejected Photos to deleted…"@, Command::MoveDeletedRejected, None, true),
            Entry::Provided(Provided::Separator),
            plain("Move Current Rejected Photo to Trash…"@, Command::TrashCurrent, Some(Shortcut::Command(Code::Backspace)), true),
            plain("Move Rejected Photos to Trash…"@, Command::TrashRejected, None, true),
        ],
        MenuName::Edit => seq![
            plain("Undo Rating / Move"@, Command::UndoRating, Some(Shortcut::Command(Code::Z)), false),
            check("Auto-Advance After Rating (A)"@, Command::AutoAdvance),
        ],
        MenuName::View => seq![
            plain("Fit"@, Command::Fit, None, true),
            plain("Fill"@, Command::Fill, None, true),
            plain("Actual Size (100%)"@, Command::Actual, None, true),
            plain("Toggle Fullscreen"@, Command::Fullscreen, None, true),
            Entry::Provided(Provided::Separator),
            check("Keep Zoom and Position (L)"@, Command::ZoomLock),
            plain("Pin Current Photo for Comparison (C)"@, Command::Pin, None, false),
            plain("Replace Reference with Current Photo (Shift+C)"@, Command::ReplacePin, None, true),
            check("Show Filmstrip (Tab)"@, Command::Filmstrip),
        ],
        MenuName::Window => seq![
            Entry::Provided(Provided::Minimize),
            Entry::Provided(Provided::Maximize),
        ],
        MenuName::Help => seq![
            plain("Keyboard Shortcuts"@, Command::Help, None, true),
        ],
        MenuName::Filter => filters().map_values(|f: PhotoFilter| filter_entry(f)),
    }
}

fn item(
    label: &'static str,
    command: Command,
    shortcut: Option<Shortcut>,
    enabled: bool,
) -> (out: Item)
    ensures
        out@ == plain(label@, command, shortcut, enabled),
{
    Item::Plain { label, command, shortcut, enabled }
}

fn check_item(label: &'static str, command: Command) -> (out: Item)
    ensures
        out@ == check(label@, command),
{
    Item::Check { label, command, shortcut: None, checked: false }
}

/// The filters that the menu offers.
pub fn filter_list() -> (out: Vec<PhotoFilter>)
    ensures
        out@ == filters(),
{
    let out: Vec<PhotoFilter> = vec![
        PhotoFilter::All,
        PhotoFilter::Stars(1),
        PhotoFilter::Stars(2),
        PhotoFilter::Stars(3),
        PhotoFilter::Stars(4),
        PhotoFilter::Stars(5),
        PhotoFilter::Rated,
        PhotoFilter::Unrated,
        PhotoFilter::Rejected,
        PhotoFilter::NotRejected,
    ];
    assert(out@ =~= filters());
    out
}

fn filter_item(filter: PhotoFilter) -> (out: Item)
    ensures
        out@ == filter_entry(filter),
{
    let shortcut: Option<Shortcut> = match filter {
        PhotoFilter::All => Some(Shortcut::CommandOption(Code::D0)),
        PhotoFilter::Stars(stars) => if stars == 1 {
            Some(Shortcut::CommandOption(Code::D1))
        } else if stars == 2 {
            Some(Shortcut::CommandOption(Code::D2))
        } else if stars == 3 {
            Some(Shortcut::CommandOption(Code::D3))
        } else if stars == 4 {
            Some(Shortcut::CommandOption(Code::D4))
        } else if stars == 5 {
            Some(Shortcut::CommandOption(Code::D5))
        } else {
            None
        },
        PhotoFilter::Rejected => Some(Shortcut::CommandOption(Code::X)),
        _ => None,
    };
    Item::Check {
        label: filter.label(),
        command: Command::Filter(filter),
        shortcut,
        checked: filter == PhotoFilter::All,
    }
}

fn filter_items() -> (out: Vec<Item>)
    ensures
        entries(out@) == listed(MenuName::Filter),
{
    let all = filter_list();
    let mut out: Vec<Item> = Vec::new();
    let ghost want = listed(MenuName::Filter);
    let mut i: usize = 0;
    while i < all.len()
        invariant
            i <= all@.len(),
            all@ == filters(),
            want == all@.map_values(|f: PhotoFilter| filter_entry(f)),
            entries(out@) =~= want.take(i as int),
        decreases all@.len() - i,
    {
        let ghost before = out@;
        out.push(filter_item(all[i]));
        assert(entries(out@) =~= entries(before).push(filter_entry(all@[i as int])));
        i += 1;
    }
    assert(want.take(i as int) =~= want);
    out
}

/// The items of a part of the menu, in order.
pub fn menu_items(menu: MenuName) -> (out: Vec<Item>)
    ensures
        entries(out@) == listed(menu),
{
    let out: Vec<Item> = match menu {
        MenuName::Application => vec![
            Item::Provided(Provided::About),
            Item::Provided(Provided::Separator),
            Item::Provided(Provided::Services),
            Item::Provided(Provided::Hide),
            Item::Provided(Provided::HideOthers),
            Item::Provided(Provided::ShowAll),
            Item::Provided(Provided::Separator),
            item("Quit FastCull", Command::Quit, Some(Shortcut::Command(Code::Q)), true),
        ],
        MenuName::File => vec![
            item("Open Folder…", Command::Open, Some(Shortcut::Command(Code::O)), true),
            item("Open deleted Folder", Command::OpenDeleted, None, true),
            Item::Provided(Provided::Separator),
            item("Move Current Photo to deleted (Space / X)", Command::MoveDeletedCurrent, None, true),
            item("Move Rejected Photos to deleted…", Command::MoveDeletedRejected, None, true),
            Item::Provided(Provided::Separator),
            item("Move Current Rejected Photo to Trash…", Command::TrashCurrent, Some(Shortcut::Command(Code::Backspace)), true),
            item("Move Rejected Photos to Trash…", Command::TrashRejected, None, true),
        ],
        MenuName::Edit => vec![
            item("Undo Rating / Move", Command::UndoRating, Some(Shortcut::Command(Code::Z)), false),
            check_item("Auto-Advance After Rating (A)", Command::AutoAdvance),
        ],
        MenuName::View => vec![
            item("Fit", Command::Fit, None, true),
            item("Fill", Command::Fill, None, true),
            item("Actual Size (100%)", Command::Actual, None, true),
            item("Toggle Fullscreen", Command::Fullscreen, None, true),
            Item::Provided(Provided::Separator),
            check_item("Keep Zoom and Position (L)", Command::ZoomLock),
            item("Pin Current Photo for Comparison (C)", Command::Pin, None, false),
            item("Replace Reference with Current Photo (Shift+C)", Command::ReplacePin, None, true),
            check_item("Show Filmstrip (Tab)", Command::Filmstrip),
        ],
        MenuName::Window => vec![
            Item::Provided(Provided::Minimize),
            Item::Provided(Provided::Maximize),
        ],
        MenuName::Help => vec![
            item("Keyboard Shortcuts", Command::Help, None, true),
        ],
        MenuName::Filter => filter_items(),
    };
    assert(entries(out@) =~= listed(menu));
    out
}

/// The parts of the menu, in order.
pub fn menu_names() -> (out: Vec<MenuName>)
    ensures
        out@ == seq![
            MenuName::Application,
            MenuName::File,
            MenuName::Edit,
            MenuName::View,
            MenuName::Filter,
            MenuName::Window,
            MenuName::Help,
        ],
{
    let out: Vec<MenuName> = vec![
        MenuName::Application,
        MenuName::File,
        MenuName::Edit,
        MenuName::View,
        MenuName::Filter,
        MenuName::Window,
        MenuName::Help,
    ];
    assert(out@ =~= seq![
        MenuName::Application,
        MenuName::File,
        MenuName::Edit,
        MenuName::View,
        MenuName::Filter,
        MenuName::Window,
        MenuName::Help,
    ]);
    out
}

/// The command of an item.
pub open spec fn command_of(entry: Entry) -> Option<Command> {
    match entry {
        Entry::Provided(_) => None,
        Entry::Plain { command, .. } => Some(command),
        Entry::Check { command, .. } => Some(command),
    }
}

/// The menu as it was built: what its items run, and what was last shown.
#[derive(Debug)]
pub struct AppMenu {
    /// The items by the number that the program gave them.
    pub items: Vec<(u64, Command)>,
    pub last_workflow: Option<Workflow>,
}

/// What the menu shows of the state of the program.
#[derive(Clone, Copy, Debug, PartialEq, Eq, Structural)]
pub struct Workflow {
    pub zoom_locked: bool,
    pub auto_advance: bool,
    pub pinned: bool,
    pub can_pin: bool,
    pub can_undo: bool,
}

/// What is to change in the menu.
#[derive(Clone, Copy, Debug)]
pub struct WorkflowUpdate {
    pub zoom_locked: bool,
    pub auto_advance: bool,
    pub pin_enabled: bool,
    pub pin_text: &'static str,
    pub undo_enabled: bool,
}

/// An item with a number is at `i`.
pub open spec fn numbered(items: Seq<(u64, Command)>, id: u64, i: int) -> bool {
    0 <= i < items.len() && items[i].0 == id && forall|k: int|
        0 <= k < i ==> (#[trigger] items[k]).0 != id
}

impl AppMenu {
    pub fn new() -> (out: Self)
        ensures
            out.items@.len() == 0,
            out.last_workflow is None,
    {
        AppMenu { items: Vec::new(), last_workflow: None }
    }

    /// Notes the number of an item that was built. Items that the system
    /// provides run nothing.
    pub fn register(&mut self, id: u64, item: &Item)
        ensures
            final(self).last_workflow == old(self).last_workflow,
            final(self).items@ == match command_of(item@) {
                Some(command) => old(self).items@.push((id, command)),
                None => old(self).items@,
            },
    {
        match item {
            Item::Provided(_) => {},
            Item::Plain { command, .. } => {
                self.items.push((id, *command));
            },
            Item::Check { command, .. } => {
                self.items.push((id, *command));
            },
        }
    }

    /// The command of the item that was chosen.
    pub fn command(&self, id: u64) -> (out: Option<Command>)
        ensures
            match out {
                Some(command) => exists|i: int|
                    numbered(self.items@, id, i) && (#[trigger] self.items@[i]).1 == command,
                None => forall|i: int|
                    0 <= i < self.items@.len() ==> (#[trigger] self.items@[i]).0 != id,
            },
    {
        let mut i: usize = 0;
        while i < self.items.len()
            invariant
                i <= self.items@.len(),
                forall|k: int| 0 <= k < i ==> (#[trigger] self.items@[k]).0 != id,
            decreases self.items@.len() - i,
        {
            if self.items[i].0 == id {
                assert(numbered(self.items@, id, i as int));
                assert(self.items@[i as int].1 == self.items@[i as int].1);
                return Some(self.items[i].1);
            }
            i += 1;
        }
        None
    }

    /// Which filters are checked, in the order of the menu: the chosen one.
    pub fn set_filter(&self, chosen: PhotoFilter) -> (out: Vec<bool>)
        ensures
            out@ == filters().map_values(|f: PhotoFilter| f == chosen),
    {
        let all = filter_list();
        let ghost want = filters().map_values(|f: PhotoFilter| f == chosen);
        let mut out: Vec<bool> = Vec::new();
        let mut i: usize = 0;
        while i < all.len()
            invariant
                i <= all@.len(),
                all@ == filters(),
                want == all@.map_values(|f: PhotoFilter| f == chosen),
                out@ =~= want.take(i as int),
            decreases all@.len() - i,
        {
            out.push(all[i] == chosen);
            i += 1;
        }
        assert(want.take(i as int) =~= want);
        out
    }

    /// What is to change in the menu, if anything is.
    pub fn set_workflow(&mut self, workflow: Workflow) -> (out: Option<WorkflowUpdate>)
        ensures
            final(self).items == old(self).items,
            final(self).last_workflow == Some(workflow),
            if old(self).last_workflow == Some(workflow) {
                out is None
            } else {
                &&& out matches Some(update)
                &&& update.zoom_locked == workflow.zoom_locked
                &&& update.auto_advance == workflow.auto_advance
                &&& update.pin_enabled == (workflow.pinned || workflow.can_pin)
                &&& update.undo_enabled == workflow.can_undo
                &&& update.pin_text@ == if workflow.pinned {
                    "Close Comparison (C)"@
                } else {
                    "Pin Current Photo for Comparison (C)"@
                }
            },
    {
        let same = match self.last_workflow {
            Some(last) => last == workflow,
            None => false,
        };
        self.last_workflow = Some(workflow);
        if same {
            return None;
        }
        Some(
            WorkflowUpdate {
                zoom_locked: workflow.zoom_locked,
                auto_advance: workflow.auto_advance,
                pin_enabled: workflow.pinned || workflow.can_pin,
                pin_text: if workflow.pinned {
                    "Close Comparison (C)"
                } else {
                    "Pin Current Photo for Comparison (C)"
                },
                undo_enabled: workflow.can_undo,
            },
        )
    }
}

/// No command is in one part of the menu twice.
pub proof fn law_commands_are_listed_once(menu: MenuName, i: int, j: int)
    requires
        0 <= i < j < listed(menu).len(),
        command_of(listed(menu)[i]) is Some,
    ensures
        command_of(listed(menu)[i]) != command_of(listed(menu)[j]),
{
}

/// The shortcut of an item.
pub open spec fn shortcut_of(entry: Entry) -> Option<Shortcut> {
    match entry {
        Entry::Provided(_) => None,
        Entry::Plain { shortcut, .. } => shortcut,
        Entry::Check { shortcut, .. } => shortcut,
    }
}

/// The digit on a key.
pub open spec fn digit(code: Code) -> Option<int> {
    match code {
        Code::D0 => Some(0),
        Code::D1 => Some(1),
        Code::D2 => Some(2),
        Code::D3 => Some(3),
        Code::D4 => Some(4),
        Code::D5 => Some(5),
        _ => None,
    }
}

/// A shortcut runs one command, whatever part of the menu it stands in.
pub proof fn law_shortcuts_are_unambiguous(first: MenuName, i: int, second: MenuName, j: int)
    requires
        0 <= i < listed(first).len(),
        0 <= j < listed(second).len(),
        shortcut_of(listed(first)[i]) is Some,
        shortcut_of(listed(first)[i]) == shortcut_of(listed(second)[j]),
    ensures
        first == second && i == j,
{
}

/// Every filter by stars is offered, ticked by none at first, and has the digit of its
/// stars as its shortcut; zero shows all photographs, which the menu ticks at first.
pub proof fn law_filters_have_the_digit_of_their_stars(stars: u8)
    requires
        1 <= stars <= 5,
    ensures
        exists|i: int|
            0 <= i < listed(MenuName::Filter).len() && {
                &&& #[trigger] listed(MenuName::Filter)[i] matches Entry::Check {
                    command,
                    shortcut,
                    checked,
                    ..
                }
                &&& command == Command::Filter(PhotoFilter::Stars(stars))
                &&& shortcut matches Some(Shortcut::CommandOption(code))
                &&& digit(code) == Some(stars as int)
                &&& !checked
            },
        exists|i: int|
            0 <= i < listed(MenuName::Filter).len() && {
                &&& #[trigger] listed(MenuName::Filter)[i] matches Entry::Check {
                    command,
                    shortcut,
                    checked,
                    ..
                }
                &&& command == Command::Filter(PhotoFilter::All)
                &&& shortcut matches Some(Shortcut::CommandOption(code))
                &&& digit(code) == Some(0int)
                &&& checked
            },
{
    let all = listed(MenuName::Filter);
    assert(all.len() == 10);
    assert(filters()[stars as int] == PhotoFilter::Stars(stars));
    assert(all[stars as int] == filter_entry(PhotoFilter::Stars(stars)));
    assert(all[0] == filter_entry(PhotoFilter::All));
}

/// Whether a part of the menu offers a command.
pub open spec fn offers(menu: MenuName, command: Command) -> bool {
    exists|i: int|
        0 <= i < listed(menu).len() && command_of(#[trigger] listed(menu)[i]) == Some(command)
}

/// Every command but those of brightness, which have keys of their own, is offered by
/// some part of the menu.
pub proof fn law_commands_are_offered(command: Command)
    requires
        command != Command::Brighten,
        command != Command::Darken,
        command != Command::ResetBrightness,
        command matches Command::Filter(PhotoFilter::Stars(stars)) ==> 1 <= stars <= 5,
    ensures
        match command {
            Command::Quit => offers(MenuName::Application, command),
            Command::UndoRating | Command::AutoAdvance => offers(MenuName::Edit, command),
            Command::Filter(_) => offers(MenuName::Filter, command),
            Command::Help => offers(MenuName::Help, command),
            Command::Fit
            | Command::Fill
            | Command::Actual
            | Command::Fullscreen
            | Command::ZoomLock
            | Command::Pin
            | Command::ReplacePin
            | Command::Filmstrip => offers(MenuName::View, command),
            _ => offers(MenuName::File, command),
        },
{
    match command {
        Command::Quit => {
            assert(command_of(listed(MenuName::Application)[7]) == Some(command));
        },
        Command::UndoRating => {
            assert(command_of(listed(MenuName::Edit)[0]) == Some(command));
        },
        Command::AutoAdvance => {
            assert(command_of(listed(MenuName::Edit)[1]) == Some(command));
        },
        Command::Help => {
            assert(command_of(listed(MenuName::Help)[0]) == Some(command));
        },
        Command::Filter(filter) => {
            let n = match filter {
                PhotoFilter::All => 0int,
                PhotoFilter::Stars(stars) => stars as int,
                PhotoFilter::Rated => 6,
                PhotoFilter::Unrated => 7,
                PhotoFilter::Rejected => 8,
                PhotoFilter::NotRejected => 9,
            };
            assert(filters()[n] == filter);
            assert(command_of(listed(MenuName::Filter)[n]) == Some(command));
        },
        Command::Fit => {
            assert(command_of(listed(MenuName::View)[0]) == Some(command));
        },
        Command::Fill => {
            assert(command_of(listed(MenuName::View)[1]) == Some(command));
        },
        Command::Actual => {
            assert(command_of(listed(MenuName::View)[2]) == Some(command));
        },
        Command::Fullscreen => {
            assert(command_of(listed(MenuName::View)[3]) == Some(command));
        },
        Command::ZoomLock => {
            assert(command_of(listed(MenuName::View)[5]) == Some(command));
        },
        Command::Pin => {
            assert(command_of(listed(MenuName::View)[6]) == Some(command));
        },
        Command::ReplacePin => {
            assert(command_of(listed(MenuName::View)[7]) == Some(command));
        },
        Command::Filmstrip => {
            assert(command_of(listed(MenuName::View)[8]) == Some(command));
        },
        Command::Open => {
            assert(command_of(listed(MenuName::File)[0]) == Some(command));
        },
        Command::OpenDeleted => {
            assert(command_of(listed(MenuName::File)[1]) == Some(command));
        },
        Command::MoveDeletedCurrent => {
            assert(command_of(listed(MenuName::File)[3]) == Some(command));
        },
        Command::MoveDeletedRejected => {
            assert(command_of(listed(MenuName::File)[4]) == Some(command));
        },
        Command::TrashCurrent => {
            assert(command_of(listed(MenuName::File)[6]) == Some(command));
        },
        Command::TrashRejected => {
            assert(command_of(listed(MenuName::File)[7]) == Some(command));
        },
        _ => {},
    }
}

} // verus!
