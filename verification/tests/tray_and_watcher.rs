use hyprland_minimizer::desktop::DesktopEntry;
use hyprland_minimizer::tray::{
    capitalize, has_process, item_pid, keeps, list_tray, name_and_icon, own_bus_name, parse_filter,
    replace_first, split_item, tray_line, TrayFilter, TrayReply,
};
use hyprland_minimizer::watcher::{registration_entry, Watcher};

fn strings(s: &[&str]) -> Vec<String> {
    s.iter().map(|x| x.to_string()).collect()
}

#[test]
fn capitals() {
    assert_eq!(capitalize("discord"), "Discord");
    assert_eq!(capitalize(""), "");
    assert_eq!(capitalize("\u{df}a"), "SSa");
    assert_eq!(capitalize("\u{e9}t\u{e9}"), "\u{c9}t\u{e9}");
    assert_eq!(replace_first("abc", "XY"), "XYbc");
    assert_eq!(replace_first("", "XY"), "");
}

#[test]
fn capitalizing_twice_is_capitalizing_once() {
    assert_eq!(capitalize(""), "");
    for n in 0..=0x10ffffu32 {
        if let Some(c) = char::from_u32(n) {
            let once = capitalize(format!("{}xy", c).as_str());
            assert!(once.ends_with("xy"));
            assert_eq!(capitalize(&once), once);
        }
    }
}

#[test]
fn splitting_items() {
    let cases = [
        (":1.5/org/ayatana/x", ":1.5", "/org/ayatana/x"),
        ("org.kde.Item-1", "org.kde.Item-1", "/StatusNotifierItem"),
        ("a/", "a", "/"),
        ("/p", "", "/p"),
        ("", "", "/StatusNotifierItem"),
    ];
    for (item, bus, path) in cases {
        assert_eq!(split_item(item), (bus.to_string(), path.to_string()));
    }
}

#[test]
fn names_on_the_bus() {
    for good in [":1.5", "org.kde.Item-1_2", "org.freedesktop.DBus", "a.b", ":.", "a.b."] {
        assert!(has_process(good));
    }
    let longest = format!("a.{}", "b".repeat(253));
    let too_long = format!("a.{}", "b".repeat(254));
    assert!(has_process(&longest));
    assert!(!has_process(&too_long));
    for bad in [
        "", ".", "no-dots", ".start", "a..b", "1a.b", "a.1b", "a b.c", "a.\u{e9}", ":1", ":1..5", "a.",
        "a/b.c",
    ] {
        assert!(!has_process(bad));
    }
}

#[test]
fn process_behind_an_item() {
    assert_eq!(item_pid(":1.5", Some(1234)), 1234);
    assert_eq!(item_pid(":1.5", None), 0);
    assert_eq!(item_pid("nodots", Some(1234)), 0);
    assert_eq!(item_pid(":1.5", Some(u32::MAX)), -1);
    assert_eq!(item_pid(":1.5", Some(0x8000_0000)), i32::MIN);
}

#[test]
fn own_name_on_the_bus() {
    assert_eq!(own_bus_name(77), "org.kde.StatusNotifierItem.minimizer.p77");
    assert!(has_process(&own_bus_name(u32::MAX)));
}

#[test]
fn filters() {
    let own = own_bus_name(1);
    for (name, mine, native) in [
        (None, true, true),
        (Some("mine"), true, false),
        (Some("native"), false, true),
        (Some("other"), true, true),
    ] {
        let filter = parse_filter(name);
        assert_eq!(keeps(&filter, &own), mine);
        assert_eq!(keeps(&filter, ":1.5"), native);
    }
}

#[test]
fn lines_of_the_tray() {
    assert_eq!(
        tray_line("N", "I", ":1.5", "/p", -3),
        "N\u{1f}I\u{1f}:1.5\u{1f}/p\u{1f}-3"
    );
    let entries = vec![DesktopEntry {
        key: "discord".to_string(),
        name: "Discord App".to_string(),
        icon: "discord-icon".to_string(),
    }];
    let reply = |id: &str, pid: i32, cmdline: Option<Vec<u8>>| {
        Some(TrayReply { id: id.to_string(), pid, cmdline })
    };
    let own = format!("{}/StatusNotifierItem", own_bus_name(9));
    let items = vec![
        (":1.5/item".to_string(), reply("Discord", 11, None)),
        (":1.6".to_string(), reply("mystery", 12, None)),
        (":1.7".to_string(), None),
        (own.clone(), reply("odd", 13, Some(b"/usr/bin/discord\0".to_vec()))),
    ];
    let first = "Discord App\u{1f}discord-icon\u{1f}:1.5\u{1f}/item\u{1f}11";
    let second = "Mystery\u{1f}application-x-addon\u{1f}:1.6\u{1f}/StatusNotifierItem\u{1f}12";
    let third = format!(
        "Discord App\u{1f}discord-icon\u{1f}{}\u{1f}/StatusNotifierItem\u{1f}13",
        own_bus_name(9)
    );
    assert_eq!(
        list_tray(&entries, &TrayFilter::All, &items),
        vec![first.to_string(), second.to_string(), third.clone()]
    );
    assert_eq!(list_tray(&entries, &TrayFilter::Mine, &items), vec![third]);
    assert_eq!(list_tray(&entries, &TrayFilter::Native, &items), strings(&[first, second]));
}

#[test]
fn name_and_icon_of_an_item() {
    assert_eq!(
        name_and_icon(Some(("A".to_string(), "b".to_string())), "Id".to_string()),
        ("A".to_string(), "b".to_string())
    );
    assert_eq!(
        name_and_icon(None, "Id".to_string()),
        ("Id".to_string(), "application-x-addon".to_string())
    );
}

#[test]
fn entries_of_registrations() {
    assert_eq!(registration_entry("/org/x", ":1.5"), ":1.5/org/x");
    assert_eq!(registration_entry("org.kde.X", ":1.5"), "org.kde.X/StatusNotifierItem");
    assert_eq!(registration_entry("", ":1.5"), "/StatusNotifierItem");
    assert_eq!(
        split_item(&registration_entry("/org/x", ":1.5")),
        (":1.5".to_string(), "/org/x".to_string())
    );
}

#[test]
fn registering_and_losing_names() {
    let mut w = Watcher::new();
    assert!(w.registered_status_notifier_items().is_empty());
    assert_eq!(
        w.register_status_notifier_item("org.a", Some(":1.1")),
        Some("org.a/StatusNotifierItem".to_string())
    );
    assert_eq!(
        w.register_status_notifier_item("/p", Some(":1.2")),
        Some(":1.2/p".to_string())
    );
    assert_eq!(
        w.register_status_notifier_item("/q", Some(":1.2")),
        Some(":1.2/q".to_string())
    );
    assert_eq!(w.register_status_notifier_item("/r", None), Some("/r".to_string()));
    assert_eq!(w.register_status_notifier_item("org.a", Some(":1.9")), None);
    let all = strings(&["org.a/StatusNotifierItem", ":1.2/p", ":1.2/q", "/r"]);
    assert_eq!(w.registered_status_notifier_items(), all);
    assert!(w.name_owner_changed(":1.2", true).is_empty());
    assert_eq!(w.registered_status_notifier_items(), all);
    assert_eq!(w.name_owner_changed(":1.2", false), strings(&[":1.2/p", ":1.2/q"]));
    assert!(w.name_owner_changed(":1.2", false).is_empty());
    assert_eq!(
        w.registered_status_notifier_items(),
        strings(&["org.a/StatusNotifierItem", "/r"])
    );
    assert_eq!(
        w.register_status_notifier_item("/p", Some(":1.2")),
        Some(":1.2/p".to_string())
    );
    assert_eq!(w.name_owner_changed(":1.2", false), strings(&[":1.2/p"]));
    assert!(w.is_status_notifier_host_registered());
    assert_eq!(w.protocol_version(), 0);
}

#[test]
fn own_item_is_reached() {
    let own = own_bus_name(5);
    let mut w = Watcher::new();
    let entry = w.register_status_notifier_item(&own, Some(":1.3")).unwrap();
    assert_eq!(split_item(&entry), (own.clone(), "/StatusNotifierItem".to_string()));
    assert_eq!(w.name_owner_changed(&own, false), vec![entry]);
}
