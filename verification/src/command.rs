//! The commands that the program is given.

use crate::number::{parse_i32, parsed};
use crate::text::{concat2, same};
use crate::tray::{filter_named, parse_filter, TrayFilter};
use vstd::prelude::*;
use vstd::string::*;

verus! {

/// What the program is to do.
pub enum Command {
    /// Print the name and the icon that are found for a window.
    Resolve { class: String, pid: i32 },
    /// List the items of the tray.
    ListTray { filter: TrayFilter },
    /// List the entries of an item's menu below an entry.
    TrayMenu { bus: String, path: String, parent: i32 },
    /// Trigger an entry of an item's menu.
    TrayMenuClick { bus: String, path: String, id: i32 },
    /// Be the tray's registry.
    Watch,
    /// Minimize a window.
    Minimize,
}

/// What the program is to do.
#[verifier::ext_equal]
pub enum CommandView {
    Resolve { class: Seq<char>, pid: i32 },
    ListTray { filter: TrayFilter },
    TrayMenu { bus: Seq<char>, path: Seq<char>, parent: i32 },
    TrayMenuClick { bus: Seq<char>, path: Seq<char>, id: i32 },
    Watch,
    Minimize,
}

impl View for Command {
    type V = CommandView;

    open spec fn view(&self) -> CommandView {
        match self {
            Command::Resolve { class, pid } => CommandView::Resolve { class: class@, pid: *pid },
            Command::ListTray { filter } => CommandView::ListTray { filter: *filter },
            Command::TrayMenu { bus, path, parent } => CommandView::TrayMenu {
                bus: bus@,
                path: path@,
                parent: *parent,
            },
            Command::TrayMenuClick { bus, path, id } => CommandView::TrayMenuClick {
                bus: bus@,
                path: path@,
                id: *id,
            },
            Command::Watch => CommandView::Watch,
            Command::Minimize => CommandView::Minimize,
        }
    }
}

/// The argument at an index, where there is one.
pub open spec fn argument(args: Seq<String>, i: int) -> Option<Seq<char>> {
    if 0 <= i < args.len() {
        Some(args[i]@)
    } else {
        None
    }
}

/// The argument at an index; empty where there is none.
pub open spec fn text_argument(args: Seq<String>, i: int) -> Seq<char> {
    match argument(args, i) {
        Some(s) => s,
        None => Seq::empty(),
    }
}

/// The argument at an index as a number; 0 where there is none or it is no number.
pub open spec fn number_argument(args: Seq<String>, i: int) -> i32 {
    match argument(args, i) {
        Some(s) => match parsed(s) {
            Some(n) => n,
            None => 0,
        },
        None => 0,
    }
}

/// The command that arguments stand for; the first argument is the program.
pub open spec fn command_of(args: Seq<String>) -> CommandView {
    let name = argument(args, 1);
    if name == Some("resolve"@) {
        CommandView::Resolve { class: text_argument(args, 2), pid: number_argument(args, 3) }
    } else if name == Some("list-tray"@) {
        CommandView::ListTray { filter: filter_named(argument(args, 2)) }
    } else if name == Some("tray-menu"@) {
        CommandView::TrayMenu {
            bus: text_argument(args, 2),
            path: text_argument(args, 3),
            parent: number_argument(args, 4),
        }
    } else if name == Some("tray-menu-click"@) {
        CommandView::TrayMenuClick {
            bus: text_argument(args, 2),
            path: text_argument(args, 3),
            id: number_argument(args, 4),
        }
    } else if name == Some("watch"@) {
        CommandView::Watch
    } else {
        CommandView::Minimize
    }
}

fn text_at(args: &Vec<String>, i: usize) -> (r: String)
    ensures
        r@ == text_argument(args@, i as int),
{
    if i < args.len() {
        args[i].clone()
    } else {
        String::new()
    }
}

fn number_at(args: &Vec<String>, i: usize) -> (r: i32)
    ensures
        r == number_argument(args@, i as int),
{
    if i < args.len() {
        match parse_i32(args[i].as_str()) {
            Some(n) => n,
            None => 0,
        }
    } else {
        0
    }
}

/// The command that the arguments stand for; the first argument is the program.
pub fn parse_command(args: &Vec<String>) -> (r: Command)
    ensures
        r@ == command_of(args@),
{
    if args.len() < 2 {
        return Command::Minimize;
    }
    let name = args[1].as_str();
    if same(name, "resolve") {
        Command::Resolve { class: text_at(args, 2), pid: number_at(args, 3) }
    } else if same(name, "list-tray") {
        let filter = if args.len() > 2 {
            parse_filter(Some(args[2].as_str()))
        } else {
            parse_filter(None)
        };
        Command::ListTray { filter }
    } else if same(name, "tray-menu") {
        Command::TrayMenu { bus: text_at(args, 2), path: text_at(args, 3), parent: number_at(args, 4) }
    } else if same(name, "tray-menu-click") {
        Command::TrayMenuClick {
            bus: text_at(args, 2),
            path: text_at(args, 3),
            id: number_at(args, 4),
        }
    } else if same(name, "watch") {
        Command::Watch
    } else {
        Command::Minimize
    }
}

/// The line that tells what was found for a window; nothing is told where nothing was.
pub fn resolve_line(found: &Option<(String, String)>) -> (r: Option<String>)
    ensures
        match r {
            Some(line) => *found matches Some((name, icon)) && line@ == name@ + "|"@ + icon@,
            None => *found is None,
        },
{
    match found {
        Some((name, icon)) => Some(concat2(name.as_str(), "|").concat(icon.as_str())),
        None => None,
    }
}

/// The argument at an index is what stands there, as text and as a number; where nothing stands
/// there the text is empty and the number 0, and so is a number that cannot be read.
pub proof fn law_arguments(args: Seq<String>, i: int)
    ensures
        0 <= i < args.len() ==> argument(args, i) == Some(args[i]@) && text_argument(args, i)
            == args[i]@,
        0 <= i < args.len() ==> (parsed(args[i]@) matches Some(n) ==> number_argument(args, i) == n),
        0 <= i < args.len() && parsed(args[i]@) is None ==> number_argument(args, i) == 0,
        !(0 <= i < args.len()) ==> argument(args, i) is None && text_argument(args, i).len() == 0
            && number_argument(args, i) == 0,
{
}

/// The second argument names the command, and those behind it are handed to it: in their order
/// and each as what it is for. Whatever names no command minimizes a window, as does nothing.
pub proof fn law_commands(args: Seq<String>)
    ensures
        args.len() < 2 ==> command_of(args) is Minimize,
        args.len() >= 2 ==> ({
            let name = args[1]@;
            &&& name == "resolve"@ ==> command_of(args) == (CommandView::Resolve {
                class: text_argument(args, 2),
                pid: number_argument(args, 3),
            })
            &&& name == "list-tray"@ ==> command_of(args) == (CommandView::ListTray {
                filter: filter_named(argument(args, 2)),
            })
            &&& name == "tray-menu"@ ==> command_of(args) == (CommandView::TrayMenu {
                bus: text_argument(args, 2),
                path: text_argument(args, 3),
                parent: number_argument(args, 4),
            })
            &&& name == "tray-menu-click"@ ==> command_of(args) == (CommandView::TrayMenuClick {
                bus: text_argument(args, 2),
                path: text_argument(args, 3),
                id: number_argument(args, 4),
            })
            &&& name == "watch"@ ==> command_of(args) is Watch
            &&& name != "resolve"@ && name != "list-tray"@ && name != "tray-menu"@ && name
                != "tray-menu-click"@ && name != "watch"@ ==> command_of(args) is Minimize
        }),
{
    reveal_strlit("resolve");
    reveal_strlit("list-tray");
    reveal_strlit("tray-menu");
    reveal_strlit("tray-menu-click");
    reveal_strlit("watch");
    assert("resolve"@.len() == 7);
    assert("list-tray"@.len() == 9);
    assert("tray-menu"@.len() == 9);
    assert("list-tray"@[0] == 'l');
    assert("tray-menu"@[0] == 't');
    assert("tray-menu-click"@.len() == 15);
    assert("watch"@.len() == 5);
}

/// A command is read for the very texts and numbers that it hands over.
pub proof fn law_command_views(a: String, b: String, n: i32, filter: TrayFilter)
    ensures
        (Command::Resolve { class: a, pid: n })@ == (CommandView::Resolve { class: a@, pid: n }),
        (Command::ListTray { filter })@ == (CommandView::ListTray { filter }),
        (Command::TrayMenu { bus: a, path: b, parent: n })@ == (CommandView::TrayMenu {
            bus: a@,
            path: b@,
            parent: n,
        }),
        (Command::TrayMenuClick { bus: a, path: b, id: n })@ == (CommandView::TrayMenuClick {
            bus: a@,
            path: b@,
            id: n,
        }),
        Command::Watch@ == CommandView::Watch,
        Command::Minimize@ == CommandView::Minimize,
{
}

} // verus!
