use opal::model::AppModel;
use opal::codec::{decode_catalog, encode_catalog};
use opal::instances::{Instance, InstanceGroup};
use opal::reconcile::write_steam_shortcuts;
use opal::settings::{Config, DEFAULT_USER_ID};
use opal::shortcut::DesiredShortcut;

fn instance(folder: &str, checked: bool) -> Instance {
    Instance { folder_name: folder.to_string(), group: "Modded".to_string(), icon_path: None, checked }
}

fn model() -> AppModel {
    AppModel {
        config: Config::with_paths("C:\\Prism".to_string(), "C:\\Steam\\shortcuts.vdf".to_string()),
        instances: vec![instance("Create", true), instance("Skyblock", false), instance("Vanilla", true)],
        log_printout: String::new(),
    }
}

#[test]
fn default_config_knows_no_path() {
    let config = Config::default();
    assert_eq!(config.prism_main_path, "");
    assert_eq!(config.steam_shortcuts_path, "");
    assert_eq!(config.user_id, 86176907);
    assert_eq!(config.user_id, DEFAULT_USER_ID);
    assert!(!config.include_hidden);
}

#[test]
fn config_with_paths_keeps_them() {
    let config = Config::with_paths("C:\\Prism".to_string(), "C:\\Steam\\shortcuts.vdf".to_string());
    assert_eq!(config.prism_main_path, "C:\\Prism");
    assert_eq!(config.steam_shortcuts_path, "C:\\Steam\\shortcuts.vdf");
    assert_eq!(config.user_id, 86176907);
    assert!(!config.include_hidden);
}

#[test]
fn default_model_is_empty() {
    let model = AppModel::default();
    assert!(model.instances.is_empty());
    assert_eq!(model.log_printout, "");
    assert_eq!(model.config.prism_main_path, "");
    assert_eq!(model.config.user_id, 86176907);
}

#[test]
fn desired_shortcuts_are_those_of_the_ticked_instances() {
    let desired = model().desired_shortcuts();
    assert_eq!(desired.len(), 2);
    let create: &DesiredShortcut = &desired[0];
    assert_eq!(create.app_name, "Create");
    assert_eq!(create.exe, "C:\\Prism\\prismlauncher.exe");
    assert_eq!(create.start_dir, "C:\\Prism");
    assert_eq!(create.launch_options, "-l \"Create\"");
    assert_eq!(create.icon, "");
    assert_eq!(create.shortcut_path, "");
    assert_eq!(create.tags, vec!["Installed", "Ready to play"]);
    assert_eq!(desired[1].app_name, "Vanilla");
    assert_eq!(desired[1].launch_options, "-l \"Vanilla\"");
}

#[test]
fn nothing_ticked_means_nothing_desired() {
    let mut m = model();
    for i in m.instances.iter_mut() {
        i.checked = false;
    }
    assert!(m.desired_shortcuts().is_empty());
    assert!(AppModel::default().desired_shortcuts().is_empty());
}

#[test]
fn update_instances_takes_over_what_was_read() {
    let mut m = model();
    let groups = vec![
        InstanceGroup { name: "Hidden".to_string(), hidden: true, instances: vec!["Secret".to_string()] },
        InstanceGroup { name: "Shown".to_string(), hidden: false, instances: vec!["Open".to_string()] },
    ];
    m.update_instances(Ok(groups.clone()));
    assert_eq!(m.instances.len(), 1);
    assert_eq!(m.instances[0].folder_name, "Open");
    assert_eq!(m.instances[0].group, "Shown");
    assert_eq!(m.log_printout, "");
    m.config.include_hidden = true;
    m.update_instances(Ok(groups));
    assert_eq!(m.instances.len(), 2);
    assert_eq!(m.instances[0].folder_name, "Secret");
}

#[test]
fn update_instances_logs_why_nothing_was_read() {
    let mut m = model();
    m.update_instances(Err("No such file".to_string()));
    assert_eq!(m.instances.len(), 3);
    assert_eq!(m.log_printout, "\nERROR: Couldn't Update unstances! No such file");
}

#[test]
fn log_failure_appends_a_line() {
    let mut m = model();
    m.log_failure("Failed to close Steam: ", "permission denied");
    m.log_failure("Failed to start Steam: ", "not found");
    assert_eq!(
        m.log_printout,
        "\nFailed to close Steam: permission denied\nFailed to start Steam: not found"
    );
    assert_eq!(m.instances.len(), 3);
}

#[test]
fn update_steam_shortcuts_returns_the_rewritten_catalog() {
    let mut m = model();
    let bytes = m.update_steam_shortcuts(&[]).unwrap();
    assert_eq!(bytes, write_steam_shortcuts(&[], m.desired_shortcuts()).unwrap());
    let catalog = decode_catalog(&bytes).unwrap();
    assert_eq!(catalog.len(), 2);
    assert_eq!(catalog[0].app_name, "Create");
    assert_eq!(catalog[1].app_name, "Vanilla");
    assert_eq!(catalog[1].app_id, 3702362266);
    assert_eq!(m.log_printout, "");
    // Writing again over what was written changes nothing.
    assert_eq!(m.update_steam_shortcuts(&bytes), Some(bytes));
}

#[test]
fn update_steam_shortcuts_keeps_what_the_catalog_held() {
    let mut m = model();
    let mut kept = model().desired_shortcuts()[0].make_owned(0);
    kept.app_id = 99;
    kept.app_name = "Kept".to_string();
    let bytes = m.update_steam_shortcuts(&encode_catalog(&vec![kept])).unwrap();
    let catalog = decode_catalog(&bytes).unwrap();
    let names: Vec<&str> = catalog.iter().map(|r| r.app_name.as_str()).collect();
    assert_eq!(names, vec!["Create", "Kept", "Vanilla"]);
}

#[test]
fn update_steam_shortcuts_logs_a_catalog_it_cannot_read() {
    let mut m = model();
    assert_eq!(m.update_steam_shortcuts(b"garbage"), None);
    assert!(m.log_printout.starts_with("\nERROR: Couldn't update instances! parse: "));
    assert!(m.log_printout.len() > "\nERROR: Couldn't update instances! parse: ".len());
    assert_eq!(m.instances.len(), 3);
}
