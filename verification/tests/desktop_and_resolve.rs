use hyprland_minimizer::desktop::{
    application_dirs, desktop_entries, is_desktop_extension, keyed_entries, parse_desktop,
    sort_entries, DesktopEntry, DesktopFields, DesktopFile,
};
use hyprland_minimizer::resolve::{
    alnum_prefix, argument_file_name, command_words, find_entry, flagged_prefix, is_uninformative,
    resolve_entry, resolve_icon, resolve_key, resolve_word, KeyMatch,
};

fn file(stem: &str, content: &str) -> DesktopFile {
    DesktopFile { stem: Some(stem.to_string()), content: content.to_string() }
}

fn entry(key: &str, name: &str, icon: &str) -> DesktopEntry {
    DesktopEntry { key: key.to_string(), name: name.to_string(), icon: icon.to_string() }
}

fn tuples(entries: &Vec<DesktopEntry>) -> Vec<(String, String, String)> {
    entries.iter().map(|e| (e.key.clone(), e.name.clone(), e.icon.clone())).collect()
}

fn pair(name: &str, icon: &str) -> Option<(String, String)> {
    Some((name.to_string(), icon.to_string()))
}

fn themix() -> Vec<DesktopEntry> {
    desktop_entries(&vec![
        file(
            "com.github.themix_project.Oomox",
            "[Desktop Entry]\nName=Themix\nIcon=com.github.themix_project.Oomox\n",
        ),
        file("firefox", "Name=Firefox\nIcon=firefox\nStartupWMClass=Navigator\n"),
        file("noicon", "Name=No Icon\n"),
    ])
}

#[test]
fn directories() {
    assert_eq!(application_dirs(None), vec!["/usr/share/applications".to_string()]);
    assert_eq!(
        application_dirs(Some("/home/u")),
        vec![
            "/usr/share/applications".to_string(),
            "/home/u/.local/share/applications".to_string()
        ]
    );
}

#[test]
fn extensions() {
    assert!(is_desktop_extension(Some("desktop")));
    assert!(!is_desktop_extension(Some("Desktop")));
    assert!(!is_desktop_extension(None));
}

#[test]
fn fields_of_a_file() {
    let f = parse_desktop("[Desktop Entry]\nName=\nName=First\r\nName=Second\nIcon=i\n Icon=x\n");
    assert_eq!(f.name, "First");
    assert_eq!(f.icon, "i");
    assert_eq!(f.wmclass, "");
    let g = parse_desktop("Name[de]=Nein\nXName=No\nStartupWMClass=Foo Bar");
    assert_eq!(g.name, "");
    assert_eq!(g.wmclass, "Foo Bar");
}

#[test]
fn entries_under_given_keys() {
    let f = DesktopFields {
        name: "N".to_string(),
        icon: "I".to_string(),
        wmclass: "W".to_string(),
    };
    let both = keyed_entries(&f, "w".to_string(), Some("s".to_string()));
    assert_eq!(
        tuples(&both),
        vec![
            ("w".to_string(), "N".to_string(), "I".to_string()),
            ("s".to_string(), "N".to_string(), "I".to_string())
        ]
    );
    assert_eq!(keyed_entries(&f, "w".to_string(), None).len(), 1);
    let no_class = DesktopFields {
        name: "N".to_string(),
        icon: String::new(),
        wmclass: String::new(),
    };
    assert_eq!(
        tuples(&keyed_entries(&no_class, String::new(), Some("s".to_string()))),
        vec![("s".to_string(), "N".to_string(), String::new())]
    );
    let no_name = DesktopFields {
        name: String::new(),
        icon: "I".to_string(),
        wmclass: "W".to_string(),
    };
    assert!(keyed_entries(&no_name, "w".to_string(), Some("s".to_string())).is_empty());
}

#[test]
fn keys_are_lowercase() {
    let all = desktop_entries(&vec![file("My-\u{c4}pp", "Name=App\nStartupWMClass=WINDOW\n")]);
    let keys: Vec<String> = all.iter().map(|e| e.key.clone()).collect();
    assert_eq!(keys, vec!["my-\u{e4}pp".to_string(), "window".to_string()]);
}

#[test]
fn sorted_like_tuples() {
    let list = vec![
        entry("b", "x", "i"),
        entry("a", "y", "j"),
        entry("a", "y", "i"),
        entry("\u{e9}", "", ""),
        entry("a", "x", "z"),
        entry("B", "x", "i"),
        entry("a", "x", "z"),
        entry("", "q", "r"),
    ];
    let mut expected = tuples(&list);
    expected.sort();
    assert_eq!(tuples(&sort_entries(list)), expected);
}

#[test]
fn order_of_files_is_irrelevant() {
    let contents = [
        ("one", "Name=One\nIcon=1\nStartupWMClass=Same\n"),
        ("two", "Name=Two\nIcon=2\nStartupWMClass=Same\n"),
        ("three", "Name=Three\n"),
    ];
    let forward: Vec<DesktopFile> = contents.iter().map(|(s, c)| file(s, c)).collect();
    let backward: Vec<DesktopFile> = contents.iter().rev().map(|(s, c)| file(s, c)).collect();
    assert_eq!(tuples(&desktop_entries(&forward)), tuples(&desktop_entries(&backward)));
}

#[test]
fn file_without_stem_or_name() {
    let all = desktop_entries(&vec![
        DesktopFile { stem: None, content: "Name=A\nStartupWMClass=C".to_string() },
        DesktopFile { stem: None, content: "Name=B".to_string() },
        file("unnamed", "Icon=x\nStartupWMClass=y\n"),
    ]);
    assert_eq!(tuples(&all), vec![("c".to_string(), "A".to_string(), String::new())]);
}

#[test]
fn leading_letters_and_digits() {
    assert_eq!(alnum_prefix("oomox_gui"), "oomox");
    assert_eq!(alnum_prefix("__main__.py"), "");
    assert_eq!(alnum_prefix("firefox"), "firefox");
    assert_eq!(alnum_prefix("caf\u{e9}-x"), "caf\u{e9}");
    assert_eq!(alnum_prefix("\u{2014}x"), "");
    assert_eq!(alnum_prefix(""), "");
    assert_eq!(flagged_prefix("caf\u{e9}-x", &vec![true, true, true, true, false, true]), "caf\u{e9}");
    assert_eq!(flagged_prefix("ab", &vec![true]), "a");
    assert_eq!(flagged_prefix("ab", &vec![true, true, true]), "ab");
    assert_eq!(flagged_prefix("ab", &vec![]), "");
}

#[test]
fn finding_entries_by_key() {
    let list = vec![
        entry("code", "No icon", ""),
        entry("code", "Code", "code-icon"),
        entry("code-oss", "OSS", "oss"),
        entry("org.x.code", "X", "x"),
    ];
    assert_eq!(find_entry(&list, &KeyMatch::Exact, "code"), pair("Code", "code-icon"));
    assert_eq!(find_entry(&list, &KeyMatch::Prefix, "code-"), pair("OSS", "oss"));
    assert_eq!(find_entry(&list, &KeyMatch::DottedSuffix, "code"), pair("X", "x"));
    assert_eq!(find_entry(&list, &KeyMatch::DottedSuffix, "oss"), None);
    assert_eq!(find_entry(&list, &KeyMatch::Exact, "cod"), None);
}

#[test]
fn finding_by_words() {
    let list = vec![entry("alpha", "Alpha", "a"), entry("com.y.beta", "Beta", "b")];
    assert_eq!(resolve_word(&list, "alpha"), pair("Alpha", "a"));
    assert_eq!(resolve_word(&list, "al-x"), pair("Alpha", "a"));
    assert_eq!(resolve_word(&list, "beta_gui"), pair("Beta", "b"));
    assert_eq!(resolve_word(&list, "_beta"), None);
    let words = vec!["gamma".to_string(), "beta".to_string(), "alpha".to_string()];
    assert_eq!(resolve_key(&list, "_", &words), pair("Beta", "b"));
    assert_eq!(resolve_key(&list, "alphabet", &words), pair("Beta", "b"));
    assert_eq!(resolve_key(&list, "al.x", &words), pair("Alpha", "a"));
    assert_eq!(resolve_key(&list, "alpha", &words), pair("Alpha", "a"));
    assert_eq!(resolve_key(&list, "", &vec![]), None);
}

#[test]
fn words_of_a_command_line() {
    assert!(command_words(&vec![]).is_empty());
    assert_eq!(
        command_words(&b"/usr/bin/Python3\0-m\0Oomox_GUI\0".to_vec()),
        vec!["oomox_gui".to_string()]
    );
    assert_eq!(
        command_words(&b"electron28\0/opt/Disc/app.asar\0\0--type=x\0dir/\0node\0env".to_vec()),
        vec!["app.asar".to_string()]
    );
    assert_eq!(command_words(&b"a\xffb".to_vec()), vec!["a\u{fffd}b".to_string()]);
    assert_eq!(argument_file_name("-x/y"), None);
    assert_eq!(argument_file_name("x/y"), Some("y".to_string()));
}

#[test]
fn uninformative_words() {
    for w in [
        "", "python", "python3.12", "electron", "java", "node", "sh", "bash", "dash", "env", "perl",
        "ruby",
    ] {
        assert!(is_uninformative(w));
    }
    for w in ["javaw", "zsh", "pythagoras", "rubymine"] {
        assert!(!is_uninformative(w));
    }
}

#[test]
fn odd_class_is_found_by_the_command_line() {
    let cmdline = Some(b"python3\0-m\0oomox_gui\0".to_vec());
    assert_eq!(
        resolve_entry(&themix(), "__main__.py", 42, &cmdline),
        pair("Themix", "com.github.themix_project.Oomox")
    );
    assert_eq!(
        resolve_icon(&themix(), "__main__.py", 42, &cmdline),
        "com.github.themix_project.Oomox"
    );
    assert_eq!(resolve_entry(&themix(), "__main__.py", 0, &cmdline), None);
    assert_eq!(resolve_icon(&themix(), "__main__.py", 42, &None), "__main__.py");
}

#[test]
fn class_is_found_in_any_case() {
    assert_eq!(resolve_entry(&themix(), "NAVIGATOR", 0, &None), pair("Firefox", "firefox"));
    assert_eq!(resolve_entry(&themix(), "FireFox", 0, &None), pair("Firefox", "firefox"));
}

#[test]
fn class_wins_over_the_command_line() {
    let cmdline = Some(b"oomox\0".to_vec());
    assert_eq!(resolve_entry(&themix(), "firefox", 42, &cmdline), pair("Firefox", "firefox"));
}

#[test]
fn entry_without_icon_is_passed_over() {
    assert_eq!(resolve_entry(&themix(), "noicon", 0, &None), None);
    assert_eq!(resolve_icon(&themix(), "noicon", 0, &None), "noicon");
}

#[test]
fn installed_application_is_found_by_either_key() {
    let entries = themix();
    for key in ["navigator", "firefox"] {
        let found = resolve_entry(&entries, key, 1, &Some(b"/usr/bin/oomox".to_vec()));
        assert_eq!(found, pair("Firefox", "firefox"));
    }
    assert_eq!(resolve_entry(&entries, "noicon", 0, &None), None);
}
