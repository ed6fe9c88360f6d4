use hyprland_minimizer::action::{Reply, Request, Stage, Task};
use hyprland_minimizer::dbus_menu::{DbusMenu, Reaction};
use hyprland_minimizer::hypr::{WindowInfo, Workspace};
use hyprland_minimizer::menu::{prop_bool, prop_string, MenuItem, PropValue, Props};
use hyprland_minimizer::notifier::StatusNotifierItem;
use hyprland_minimizer::tray_menu::{
    click_event, has_menu, menu_line, menu_lines, remove_char, strip_mnemonics,
};

fn text(s: &str) -> PropValue {
    PropValue::Text(s.to_string())
}

fn window() -> WindowInfo {
    WindowInfo {
        address: "0xabc".to_string(),
        workspace: Workspace { id: 4 },
        title: "My &Title".to_string(),
        class: "app".to_string(),
        pid: 7,
        icon: "app-icon".to_string(),
    }
}

fn menu() -> DbusMenu {
    DbusMenu { window_info: window() }
}

fn item(id: i32, props: Props) -> MenuItem {
    MenuItem { id, props }
}

fn dispatched(request: &Request) -> &str {
    match request {
        Request::Dispatch(lua) => lua.as_str(),
        _ => "",
    }
}

const MOVE_4: &str =
    "hl.dispatch(hl.dsp.window.move({workspace = '4', follow = true, window = 'address:0xabc'}))";
const FOCUS: &str = "hl.dispatch(hl.dsp.focus({window = 'address:0xabc'}))";
const CLOSE: &str = "hl.dispatch(hl.dsp.window.close({window = 'address:0xabc'}))";

#[test]
fn mnemonics() {
    let cases = [
        ("", ""),
        ("&File", "File"),
        ("Save && E_xit", "Save & Exit"),
        ("&&&", "&"),
        ("&&&&", "&&"),
        ("a&_b", "ab"),
        ("__", ""),
        ("a\u{1}b", "a\u{1}b"),
        ("&\u{1}&&", "\u{1}&"),
        ("a\u{1f}b", "a\u{1f}b"),
        ("&_&", ""),
        ("plain", "plain"),
        ("&", ""),
        ("a&", "a"),
    ];
    for (label, expected) in cases {
        assert_eq!(strip_mnemonics(label), expected);
    }
}

#[test]
fn stripping_in_steps_with_a_mark() {
    for label in ["Save && E_xit", "&&&", "a&_b", "x\u{1}y&&", "&_&", "a\u{1f}&&b"] {
        let steps =
            label.replace("&&", "\u{2}").replace('&', "").replace('\u{2}', "&").replace('_', "");
        assert_eq!(strip_mnemonics(label), steps);
    }
}

#[test]
fn properties() {
    let props = Props::new()
        .with("label", text("old"))
        .with("visible", PropValue::Flag(false))
        .with("n", PropValue::Other)
        .with("label", text("new"));
    assert_eq!(prop_string(&props, "label"), Some("new".to_string()));
    assert_eq!(prop_string(&props, "visible"), None);
    assert_eq!(prop_string(&props, "missing"), None);
    assert!(!prop_bool(&props, "visible", true));
    assert!(prop_bool(&props, "label", true));
    assert!(!prop_bool(&props, "n", false));
    assert!(prop_bool(&props, "missing", true));
    let keys: Vec<String> = props.into_pairs().into_iter().map(|(k, _)| k).collect();
    assert_eq!(keys, vec!["label".to_string(), "visible".to_string(), "n".to_string()]);
}

#[test]
fn lines_of_menu_entries() {
    let plain = item(5, Props::new().with("label", text("_Open")));
    assert_eq!(menu_line(&plain), Some("Open\u{1f}5\u{1f}item".to_string()));
    let sub = item(
        -6,
        Props::new().with("label", text("More")).with("children-display", text("submenu")),
    );
    assert_eq!(menu_line(&sub), Some("More\u{1f}-6\u{1f}submenu".to_string()));
    let left_out = vec![
        Props::new().with("label", text("x")).with("type", text("separator")),
        Props::new().with("label", text("x")).with("visible", PropValue::Flag(false)),
        Props::new().with("label", text("x")).with("enabled", PropValue::Flag(false)),
        Props::new().with("label", text(" \u{a0}")),
        Props::new().with("label", text("&_")),
        Props::new().with("label", PropValue::Other),
        Props::new(),
    ];
    for props in left_out {
        assert_eq!(menu_line(&item(1, props)), None);
    }
}

#[test]
fn lines_of_a_menu_keep_their_order() {
    let children = vec![
        Some(item(1, Props::new().with("label", text("a")))),
        None,
        Some(item(2, Props::new().with("type", text("separator")))),
        Some(item(3, Props::new().with("label", text("b")).with("type", text("standard")))),
    ];
    assert_eq!(
        menu_lines(&children),
        vec!["a\u{1f}1\u{1f}item".to_string(), "b\u{1f}3\u{1f}item".to_string()]
    );
    assert!(menu_lines(&vec![]).is_empty());
}

#[test]
fn separator_never_appears_inside_a_label() {
    let odd = item(2, Props::new().with("label", text("a\u{1f}1\u{1f}item")));
    assert_eq!(menu_line(&odd), Some("a1item\u{1f}2\u{1f}item".to_string()));
    let empty = item(2, Props::new().with("label", text("\u{1f} _\u{1f}")));
    assert_eq!(menu_line(&empty), None);
    assert_eq!(remove_char("\u{1f}a\u{1f}\u{1f}b", '\u{1f}'), "ab");
    assert_eq!(remove_char("ab", '\u{1f}'), "ab");
}

#[test]
fn clicks_on_entries_of_other_menus() {
    assert!(!has_menu("/"));
    assert!(has_menu("/Menu"));
    assert!(click_event("/", 3).is_none());
    let event = click_event("/Menu", 3).unwrap();
    assert_eq!(event.id, 3);
    assert_eq!(event.event_id, "clicked");
    assert_eq!(event.data, "");
    assert_eq!(event.timestamp, 0);
}

#[test]
fn layout_of_our_own_menu() {
    let (revision, layout) = menu().get_layout(0, -1, &vec![]);
    assert_eq!(revision, 2);
    assert_eq!(layout.id, 0);
    assert_eq!(prop_string(&layout.props, "children-display"), Some("submenu".to_string()));
    let labels: Vec<(i32, Option<String>, Option<String>)> = layout
        .items
        .iter()
        .map(|i| (i.id, prop_string(&i.props, "label"), prop_string(&i.props, "type")))
        .collect();
    let standard = Some("standard".to_string());
    assert_eq!(
        labels,
        vec![
            (1, Some("Open My &Title".to_string()), standard.clone()),
            (2, Some("Open on original workspace (4)".to_string()), standard.clone()),
            (3, Some("Close My &Title".to_string()), standard),
        ]
    );
}

#[test]
fn our_own_menu_is_listed() {
    let (_, layout) = menu().get_layout(0, 1, &vec![]);
    let children: Vec<Option<MenuItem>> = layout.items.into_iter().map(Some).collect();
    assert_eq!(
        menu_lines(&children),
        vec![
            "Open My Title\u{1f}1\u{1f}item".to_string(),
            "Open on original workspace (4)\u{1f}2\u{1f}item".to_string(),
            "Close My Title\u{1f}3\u{1f}item".to_string(),
        ]
    );
}

#[test]
fn properties_by_id() {
    let found = menu().get_group_properties(&vec![3, 0, 1, 4, 3], &vec![]);
    let ids: Vec<i32> = found.iter().map(|i| i.id).collect();
    assert_eq!(ids, vec![3, 1, 3]);
    let first = &found[0].props;
    assert_eq!(prop_string(first, "label"), Some("Close My &Title".to_string()));
    assert_eq!(prop_string(first, "type"), Some("standard".to_string()));
    assert!(prop_bool(first, "enabled", false));
    assert!(prop_bool(first, "visible", false));
}

#[test]
fn other_answers_of_the_menu() {
    let m = menu();
    assert_eq!(m.about_to_show_group(&vec![1, 2]), (vec![], vec![]));
    assert!(!m.about_to_show(1));
    assert_eq!(m.version(), 3);
    assert_eq!(m.text_direction(), "ltr");
    assert_eq!(m.status(), "normal");
}

fn started(r: Reaction) -> (Task, Request) {
    match r {
        Reaction::Started(task, request) => (task, request),
        _ => panic!("the click was not acted upon"),
    }
}

#[test]
fn events_that_start_nothing() {
    assert!(matches!(menu().event(1, "hovered"), Reaction::Ignored));
    assert!(matches!(menu().event(9, "opened"), Reaction::Ignored));
    assert!(matches!(menu().event(0, "clicked"), Reaction::UnknownItem));
    assert!(matches!(menu().event(4, "clicked"), Reaction::UnknownItem));
}

#[test]
fn open_on_the_active_workspace() {
    let (task, request) = started(menu().event(1, "clicked"));
    assert!(matches!(request, Request::ActiveWorkspace));
    let (task, request) = task.step(Reply::Workspace(-7));
    assert_eq!(
        dispatched(&request),
        "hl.dispatch(hl.dsp.window.move({workspace = '-7', follow = true, window = 'address:0xabc'}))"
    );
    let (task, request) = task.step(Reply::Done);
    assert_eq!(dispatched(&request), FOCUS);
    let (task, request) = task.step(Reply::Done);
    assert!(matches!(request, Request::Exit));
    assert!(matches!(task.stage, Stage::Over));
    let (_, request) = task.step(Reply::Done);
    assert!(matches!(request, Request::Nothing));
}

#[test]
fn open_on_the_original_workspace() {
    let (task, request) = started(menu().event(2, "clicked"));
    assert_eq!(dispatched(&request), MOVE_4);
    let (task, request) = task.step(Reply::Done);
    assert_eq!(dispatched(&request), FOCUS);
    let (_, request) = task.step(Reply::Failed);
    assert!(matches!(request, Request::Exit));
}

#[test]
fn close_from_the_menu() {
    let (task, request) = started(menu().event(3, "clicked"));
    assert_eq!(dispatched(&request), CLOSE);
    let (_, request) = task.step(Reply::Done);
    assert!(matches!(request, Request::Exit));
}

#[test]
fn failures_end_a_click() {
    let (task, _) = started(menu().event(1, "clicked"));
    let (task, request) = task.step(Reply::Failed);
    assert!(matches!(request, Request::Exit));
    assert!(matches!(task.stage, Stage::Over));
    let (task, _) = started(menu().event(1, "clicked"));
    let (task, _) = task.step(Reply::Workspace(2));
    let (_, request) = task.step(Reply::Failed);
    assert!(matches!(request, Request::Exit));
    let (task, _) = started(menu().event(1, "clicked"));
    let (_, request) = task.step(Reply::Done);
    assert!(matches!(request, Request::Exit));
}

#[test]
fn groups_of_events() {
    let reactions = menu().event_group(&vec![
        (1, "hovered".to_string()),
        (8, "clicked".to_string()),
        (3, "clicked".to_string()),
    ]);
    assert_eq!(reactions.len(), 3);
    assert!(matches!(reactions[0], Reaction::Ignored));
    assert!(matches!(reactions[1], Reaction::UnknownItem));
    assert!(matches!(&reactions[2], Reaction::Started(_, request) if dispatched(request) == CLOSE));
}

#[test]
fn the_tray_icon() {
    let icon = StatusNotifierItem { window_info: window() };
    assert_eq!(icon.category(), "ApplicationStatus");
    assert_eq!(icon.id(), "app-icon");
    assert_eq!(icon.title(), "My &Title");
    assert_eq!(icon.status(), "Active");
    assert_eq!(icon.icon_name(), "app-icon");
    assert_eq!(
        icon.tool_tip(),
        (String::new(), vec![], "My &Title".to_string(), String::new())
    );
    assert!(!icon.item_is_menu());
    assert_eq!(icon.menu(), "/Menu");
    assert!(has_menu(icon.menu()));
}

#[test]
fn clicks_on_the_tray_icon() {
    let icon = StatusNotifierItem { window_info: window() };
    let (task, request) = icon.activate(10, 20);
    assert!(matches!(request, Request::ActiveWorkspace));
    let (_, request) = task.step(Reply::Workspace(4));
    assert_eq!(dispatched(&request), MOVE_4);
    let (task, request) = icon.secondary_activate(10, 20);
    assert_eq!(dispatched(&request), CLOSE);
    let (_, request) = task.step(Reply::Failed);
    assert!(matches!(request, Request::Exit));
}

#[test]
fn line_has_three_fields() {
    let props = Props::new()
        .with("label", text("_Save && E&xit"))
        .with("children-display", text("submenu"));
    let line = menu_line(&item(-12, props)).unwrap();
    let fields: Vec<&str> = line.split('\u{1f}').collect();
    assert_eq!(fields, vec!["Save & Exit", "-12", "submenu"]);
}
