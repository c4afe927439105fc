//! The tabs of the application's window: their stable names and their labels.
//! What a tab draws is the application's business.

use vstd::prelude::*;

verus! {

/// The tab on which instances are ticked and exported.
#[derive(Debug, Clone, Copy, PartialEq, Eq, Structural)]
pub struct ExportPage;

/// The tab on which the paths and the account are set.
#[derive(Debug, Clone, Copy, PartialEq, Eq, Structural)]
pub struct SettingsPage;

/// The tab that shows what was logged.
#[derive(Debug, Clone, Copy, PartialEq, Eq, Structural)]
pub struct LogPage;

impl Default for ExportPage {
    fn default() -> Self {
        Self
    }
}

impl Default for SettingsPage {
    fn default() -> Self {
        Self
    }
}

impl Default for LogPage {
    fn default() -> Self {
        Self
    }
}

impl ExportPage {
    /// The tab's stable name.
    pub fn id(&self) -> (id: &'static str)
        ensures
            id@ == "export"@,
    {
        "export"
    }

    /// The label shown for the tab.
    pub fn label(&self) -> (label: &'static str)
        ensures
            label@ == "Export"@,
    {
        "Export"
    }
}

impl SettingsPage {
    /// The tab's stable name.
    pub fn id(&self) -> (id: &'static str)
        ensures
            id@ == "settings"@,
    {
        "settings"
    }

    /// The label shown for the tab.
    pub fn label(&self) -> (label: &'static str)
        ensures
            label@ == "Settings"@,
    {
        "Settings"
    }
}

impl LogPage {
    /// The tab's stable name.
    pub fn id(&self) -> (id: &'static str)
        ensures
            id@ == "log"@,
    {
        "log"
    }

    /// The label shown for the tab.
    pub fn label(&self) -> (label: &'static str)
        ensures
            label@ == "Logs"@,
    {
        "Logs"
    }
}

} // verus!
