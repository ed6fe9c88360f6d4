use hyprland_minimizer::command::{parse_command, resolve_line, Command};
use hyprland_minimizer::desktop::DesktopEntry;
use hyprland_minimizer::hypr::{
    close_window, find_window, focus_window, get_window_by_address, move_to_workspace, WindowInfo,
    Workspace,
};
use hyprland_minimizer::session::{
    check_window, is_dismissed, prepare_window, should_register_again, Event, Failure, Request,
    Session, Stage, WindowState,
};
use hyprland_minimizer::tray::TrayFilter;

fn window(address: &str, workspace: i32) -> WindowInfo {
    WindowInfo {
        address: address.to_string(),
        workspace: Workspace { id: workspace },
        title: format!("title of {}", address),
        class: "Class".to_string(),
        pid: 3,
        icon: String::new(),
    }
}

fn args(s: &[&str]) -> Vec<String> {
    s.iter().map(|x| x.to_string()).collect()
}

const PARK: &str = "hl.dispatch(hl.dsp.window.move({workspace = 'special:minimized', follow = false, window = 'address:0x1'}))";
const UNPARK: &str =
    "hl.dispatch(hl.dsp.window.move({workspace = '5', follow = true, window = 'address:0x1'}))";

fn dispatched(request: &Request) -> &str {
    match request {
        Request::Dispatch(lua) => lua.as_str(),
        _ => "",
    }
}

#[test]
fn lua_expressions() {
    assert_eq!(move_to_workspace("special:minimized", "0x1", true), PARK);
    assert_eq!(move_to_workspace("5", "0x1", false), UNPARK);
    assert_eq!(focus_window("0x1"), "hl.dispatch(hl.dsp.focus({window = 'address:0x1'}))");
    assert_eq!(close_window("0x1"), "hl.dispatch(hl.dsp.window.close({window = 'address:0x1'}))");
}

#[test]
fn windows_by_address() {
    let clients = vec![window("0x1", 1), window("0x2", 2), window("0x2", 3)];
    let found = get_window_by_address(&clients, "0x2");
    assert!(matches!(&found, Ok(w) if w.address == "0x2" && w.workspace.id == 2));
    assert_eq!(find_window(&clients, "0x1"), Some(0));
    assert_eq!(find_window(&clients, "0x3"), None);
    match get_window_by_address(&clients, "0x3") {
        Ok(_) => panic!("there is no such window"),
        Err(e) => assert_eq!(e.message(), "Could not find a window with address '0x3'"),
    }
    assert!(get_window_by_address(&vec![], "").is_err());
}

#[test]
fn preparing_a_window() {
    let entries = vec![DesktopEntry {
        key: "class".to_string(),
        name: "Name".to_string(),
        icon: "found".to_string(),
    }];
    let ready = prepare_window(&window("0x1", 5), &entries, &None);
    assert_eq!(ready.class, "Class");
    assert_eq!(ready.icon, "found");
    assert_eq!(ready.address, "0x1");
    assert_eq!(ready.workspace.id, 5);
    assert_eq!(ready.title, "title of 0x1");
    assert_eq!(ready.pid, 3);
    let mut bare = window("0x1", 5);
    bare.class = String::new();
    let ready = prepare_window(&bare, &vec![], &None);
    assert_eq!(ready.class, "title of 0x1");
    assert_eq!(ready.icon, "title of 0x1");
}

#[test]
fn a_session_that_goes_well() {
    let (s, request) = Session::start(&window("0x1", 5));
    assert_eq!(dispatched(&request), PARK);
    let (s, request) = s.advance(Event::Done);
    assert!(matches!(request, Request::Serve));
    let (s, request) = s.advance(Event::Done);
    assert!(matches!(request, Request::Register));
    let (s, request) = s.advance(Event::Done);
    assert!(matches!(request, Request::Wait));
    let (s, request) = s.advance(Event::Dismissed);
    assert!(matches!(request, Request::Finish));
    assert!(matches!(s.stage, Stage::Over));
    let (_, request) = s.advance(Event::Dismissed);
    assert!(matches!(request, Request::Nothing));
}

#[test]
fn a_session_that_is_interrupted() {
    let (s, _) = Session::start(&window("0x1", 5));
    let (s, _) = s.advance(Event::Done);
    let (s, _) = s.advance(Event::Done);
    let (s, _) = s.advance(Event::Done);
    let (s, request) = s.advance(Event::Interrupted);
    assert_eq!(dispatched(&request), UNPARK);
    let (_, request) = s.advance(Event::Failed);
    assert!(matches!(request, Request::Finish));
}

#[test]
fn sessions_that_fail() {
    let (s, _) = Session::start(&window("0x1", 5));
    let (_, request) = s.advance(Event::Failed);
    assert!(matches!(request, Request::Fail(Failure::Park)));
    let (s, _) = Session::start(&window("0x1", 5));
    let (s, _) = s.advance(Event::Done);
    let (_, request) = s.advance(Event::Failed);
    assert!(matches!(request, Request::Fail(Failure::Serve)));
    let (s, _) = Session::start(&window("0x1", 5));
    let (s, _) = s.advance(Event::Done);
    let (s, _) = s.advance(Event::Done);
    let (s, request) = s.advance(Event::Failed);
    assert_eq!(dispatched(&request), UNPARK);
    let (_, request) = s.advance(Event::Done);
    assert!(matches!(request, Request::Fail(Failure::Register)));
}

#[test]
fn state_of_a_minimized_window() {
    let clients = Some(vec![window("0x1", -99), window("0x2", 2), window("0x3", 0)]);
    let state = check_window(&clients, "0x1");
    assert!(matches!(state, WindowState::Minimized));
    assert!(!is_dismissed(&state));
    let state = check_window(&clients, "0x2");
    assert!(matches!(state, WindowState::Restored));
    assert!(is_dismissed(&state));
    assert!(matches!(check_window(&clients, "0x3"), WindowState::Minimized));
    let state = check_window(&clients, "0x4");
    assert!(matches!(state, WindowState::Closed));
    assert!(is_dismissed(&state));
    let state = check_window(&None, "0x1");
    assert!(matches!(state, WindowState::Unknown));
    assert!(is_dismissed(&state));
}

#[test]
fn registering_again() {
    assert!(should_register_again("org.kde.StatusNotifierWatcher", true));
    assert!(!should_register_again("org.kde.StatusNotifierWatcher", false));
    assert!(!should_register_again("org.kde.Other", true));
}

#[test]
fn commands() {
    assert!(matches!(parse_command(&vec![]), Command::Minimize));
    assert!(matches!(parse_command(&args(&["p"])), Command::Minimize));
    assert!(matches!(parse_command(&args(&["p", "0xabc"])), Command::Minimize));
    assert!(matches!(parse_command(&args(&["p", "watch"])), Command::Watch));
    assert!(matches!(
        parse_command(&args(&["p", "resolve", "kitty", "12"])),
        Command::Resolve { class, pid } if class == "kitty" && pid == 12
    ));
    assert!(matches!(
        parse_command(&args(&["p", "resolve"])),
        Command::Resolve { class, pid } if class.is_empty() && pid == 0
    ));
    assert!(matches!(
        parse_command(&args(&["p", "resolve", "x", "many"])),
        Command::Resolve { pid, .. } if pid == 0
    ));
    assert!(matches!(
        parse_command(&args(&["p", "list-tray"])),
        Command::ListTray { filter: TrayFilter::All }
    ));
    assert!(matches!(
        parse_command(&args(&["p", "list-tray", "mine"])),
        Command::ListTray { filter: TrayFilter::Mine }
    ));
    assert!(matches!(
        parse_command(&args(&["p", "list-tray", "native"])),
        Command::ListTray { filter: TrayFilter::Native }
    ));
    assert!(matches!(
        parse_command(&args(&["p", "tray-menu", ":1.5", "/m"])),
        Command::TrayMenu { bus, path, parent } if bus == ":1.5" && path == "/m" && parent == 0
    ));
    assert!(matches!(
        parse_command(&args(&["p", "tray-menu-click", ":1.5", "/m", "-3"])),
        Command::TrayMenuClick { bus, path, id } if bus == ":1.5" && path == "/m" && id == -3
    ));
}

#[test]
fn line_of_what_was_found() {
    assert_eq!(
        resolve_line(&Some(("Name".to_string(), "icon".to_string()))),
        Some("Name|icon".to_string())
    );
    assert_eq!(resolve_line(&None), None);
}
