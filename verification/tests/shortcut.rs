use opal::shortcut::{identity, same_texts, DesiredShortcut, ShortcutRecord};

fn desired(app_name: &str, exe: &str) -> DesiredShortcut {
    DesiredShortcut {
        app_name: app_name.to_string(),
        exe: exe.to_string(),
        start_dir: "C:\\Games".to_string(),
        icon: "C:\\Games\\icon.png".to_string(),
        launch_options: "-windowed".to_string(),
        tags: vec!["Installed".to_string(), "Ready to play".to_string()],
        shortcut_path: "C:\\Games\\celeste.lnk".to_string(),
    }
}

#[test]
fn make_owned_fills_every_field() {
    let record = desired("Celeste", "C:\\Games\\celeste.exe").make_owned(3);
    let expected = ShortcutRecord {
        order: "3".to_string(),
        app_id: 2242049997,
        app_name: "Celeste".to_string(),
        exe: "C:\\Games\\celeste.exe".to_string(),
        start_dir: "C:\\Games".to_string(),
        icon: "C:\\Games\\icon.png".to_string(),
        shortcut_path: "C:\\Games\\celeste.lnk".to_string(),
        launch_options: "-windowed".to_string(),
        is_hidden: false,
        allow_desktop_config: true,
        allow_overlay: true,
        open_vr: 0,
        dev_kit: 0,
        dev_kit_game_id: String::new(),
        dev_kit_override_app_id: 0,
        last_play_time: 0,
        tags: vec!["Installed".to_string(), "Ready to play".to_string()],
    };
    assert_eq!(record, expected);
}

#[test]
fn identity_is_the_checksum_of_exe_then_name_with_the_top_bit_set() {
    assert_eq!(desired("Vanilla", "C:\\Prism\\prismlauncher.exe").make_owned(0).app_id, 3702362266);
    assert_eq!(desired("Modded", "C:\\Prism\\prismlauncher.exe").make_owned(0).app_id, 4291682953);
    assert_eq!(desired("Alpha", "/usr/bin/game").make_owned(0).app_id, 3104084746);
    assert_eq!(desired("Émile", "exe").make_owned(0).app_id, 2274814422);
}

#[test]
fn identity_of_known_shortcuts() {
    assert_eq!(identity("C:\\Games\\celeste.exe", "Celeste"), 2242049997);
    assert_eq!(identity("/usr/bin/game", "Alpha"), 3104084746);
    assert_eq!(identity("/usr/bin/other", "Alpha"), 3611043184);
    assert_eq!(identity("/usr/bin/game", "Beta"), 3992558320);
    assert_eq!(identity("exe", "Zeta"), 3909861532);
    assert_eq!(identity("", ""), 0x8000_0000);
}

#[test]
fn identity_is_of_the_two_texts_joined() {
    // Only the joined text counts, not where the path ends and the name begins.
    assert_eq!(identity("ab", "cd"), identity("abc", "d"));
    assert_eq!(identity("", "abcd"), identity("abcd", ""));
    assert_ne!(identity("ab", "cd"), identity("cd", "ab"));
}

#[test]
fn identity_agrees_with_the_record_that_is_made() {
    let d = desired("Celeste", "C:\\Games\\celeste.exe");
    assert_eq!(d.make_owned(4).app_id, identity(&d.exe, &d.app_name));
}

#[test]
fn identity_of_empty_texts_is_the_top_bit_alone() {
    assert_eq!(desired("", "").make_owned(0).app_id, 0x8000_0000);
}

#[test]
fn identity_is_stable_across_calls_and_positions() {
    let d = desired("Celeste", "C:\\Games\\celeste.exe");
    let first = d.make_owned(0).app_id;
    let second = d.make_owned(17).app_id;
    let third = d.clone().make_owned(0).app_id;
    assert_eq!(first, second);
    assert_eq!(first, third);
}

#[test]
fn identity_depends_on_exe_and_on_name_only() {
    let mut a = desired("Alpha", "/usr/bin/game");
    let id = a.make_owned(0).app_id;
    a.start_dir = "/elsewhere".to_string();
    a.icon = String::new();
    a.launch_options = "--fast".to_string();
    a.tags = Vec::new();
    a.shortcut_path = String::new();
    assert_eq!(a.make_owned(0).app_id, id);
    assert_ne!(desired("Alpha", "/usr/bin/other").make_owned(0).app_id, id);
    assert_ne!(desired("Beta", "/usr/bin/game").make_owned(0).app_id, id);
}

#[test]
fn identity_always_has_the_top_bit() {
    for name in ["a", "b", "Celeste", "Half-Life", "x y z", ""] {
        for exe in ["", "run", "C:\\x.exe"] {
            assert!(desired(name, exe).make_owned(0).app_id >= 0x8000_0000);
        }
    }
}

#[test]
fn make_owned_numbers_the_record_with_its_position() {
    let d = desired("Celeste", "C:\\Games\\celeste.exe");
    assert_eq!(d.make_owned(0).order, "0");
    assert_eq!(d.make_owned(12).order, "12");
}

#[test]
fn record_clone_keeps_every_field() {
    let mut record = desired("Celeste", "C:\\Games\\celeste.exe").make_owned(5);
    record.is_hidden = true;
    record.open_vr = 4;
    record.dev_kit = 5;
    record.dev_kit_game_id = "kit".to_string();
    record.dev_kit_override_app_id = 6;
    record.last_play_time = 1700000000;
    assert_eq!(record.clone(), record);
}

#[test]
fn same_as_tells_every_field_apart() {
    let base = desired("Celeste", "C:\\Games\\celeste.exe").make_owned(5);
    assert!(base.same_as(&base.clone()));
    let changes: Vec<fn(&mut ShortcutRecord)> = vec![
        |r| r.order.push('0'),
        |r| r.app_id += 1,
        |r| r.app_name.push('!'),
        |r| r.exe.push('!'),
        |r| r.start_dir.push('!'),
        |r| r.icon.push('!'),
        |r| r.shortcut_path.push('!'),
        |r| r.launch_options.push('!'),
        |r| r.is_hidden = !r.is_hidden,
        |r| r.allow_desktop_config = !r.allow_desktop_config,
        |r| r.allow_overlay = !r.allow_overlay,
        |r| r.open_vr += 1,
        |r| r.dev_kit += 1,
        |r| r.dev_kit_game_id.push('!'),
        |r| r.dev_kit_override_app_id += 1,
        |r| r.last_play_time += 1,
        |r| r.tags.push("more".to_string()),
        |r| r.tags[0].push('!'),
        |r| r.tags.swap(0, 1),
    ];
    for change in changes {
        let mut other = base.clone();
        change(&mut other);
        assert!(!base.same_as(&other));
        assert!(!other.same_as(&base));
        assert_eq!(base.same_as(&other), base == other);
    }
}

#[test]
fn same_texts_compares_length_order_and_content() {
    let a = vec!["x".to_string(), "y".to_string()];
    assert!(same_texts(&a, &a.clone()));
    assert!(same_texts(&Vec::new(), &Vec::new()));
    assert!(!same_texts(&a, &vec!["y".to_string(), "x".to_string()]));
    assert!(!same_texts(&a, &vec!["x".to_string()]));
    assert!(!same_texts(&vec!["x".to_string()], &a));
    assert!(!same_texts(&a, &vec!["x".to_string(), "z".to_string()]));
}
