use opal::pages::{ExportPage, LogPage, SettingsPage};

#[test]
fn tabs_have_stable_names_and_labels() {
    assert_eq!(ExportPage::default().id(), "export");
    assert_eq!(ExportPage::default().label(), "Export");
    assert_eq!(SettingsPage::default().id(), "settings");
    assert_eq!(SettingsPage::default().label(), "Settings");
    assert_eq!(LogPage::default().id(), "log");
    assert_eq!(LogPage::default().label(), "Logs");
}

#[test]
fn tab_names_differ() {
    let names = [ExportPage.id(), SettingsPage.id(), LogPage.id()];
    assert_ne!(names[0], names[1]);
    assert_ne!(names[0], names[2]);
    assert_ne!(names[1], names[2]);
}
