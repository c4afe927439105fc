//! Shortcut records, the caller's desired shortcuts, and the identity that keys them.

use vstd::prelude::*;
use vstd::string::*;
use crate::text::{decimal, decimal_string};

verus! {

/// What a persisted shortcut record holds, as plain mathematical values.
pub struct ShortcutModel {
    pub order: Seq<char>,
    pub app_id: u32,
    pub app_name: Seq<char>,
    pub exe: Seq<char>,
    pub start_dir: Seq<char>,
    pub icon: Seq<char>,
    pub shortcut_path: Seq<char>,
    pub launch_options: Seq<char>,
    pub is_hidden: bool,
    pub allow_desktop_config: bool,
    pub allow_overlay: bool,
    pub open_vr: u32,
    pub dev_kit: u32,
    pub dev_kit_game_id: Seq<char>,
    pub dev_kit_override_app_id: u32,
    pub last_play_time: u32,
    pub tags: Seq<Seq<char>>,
}

impl ShortcutModel {
    /// The same record at another position: only `order` changes.
    pub open spec fn with_order(self, order: Seq<char>) -> ShortcutModel {
        ShortcutModel { order, ..self }
    }
}

/// One entry of the persisted catalog.
///
/// `order` is the entry's position as a decimal numeral and is reassigned on
/// every rewrite; `app_id` is the identity that survives rewrites.
#[derive(Debug, PartialEq, Eq)]
pub struct ShortcutRecord {
    pub order: String,
    pub app_id: u32,
    pub app_name: String,
    pub exe: String,
    pub start_dir: String,
    pub icon: String,
    pub shortcut_path: String,
    pub launch_options: String,
    pub is_hidden: bool,
    pub allow_desktop_config: bool,
    pub allow_overlay: bool,
    pub open_vr: u32,
    pub dev_kit: u32,
    pub dev_kit_game_id: String,
    pub dev_kit_override_app_id: u32,
    pub last_play_time: u32,
    pub tags: Vec<String>,
}

impl View for ShortcutRecord {
    type V = ShortcutModel;

    open spec fn view(&self) -> ShortcutModel {
        ShortcutModel {
            order: self.order@,
            app_id: self.app_id,
            app_name: self.app_name@,
            exe: self.exe@,
            start_dir: self.start_dir@,
            icon: self.icon@,
            shortcut_path: self.shortcut_path@,
            launch_options: self.launch_options@,
            is_hidden: self.is_hidden,
            allow_desktop_config: self.allow_desktop_config,
            allow_overlay: self.allow_overlay,
            open_vr: self.open_vr,
            dev_kit: self.dev_kit,
            dev_kit_game_id: self.dev_kit_game_id@,
            dev_kit_override_app_id: self.dev_kit_override_app_id,
            last_play_time: self.last_play_time,
            tags: self.tags.deep_view(),
        }
    }
}

impl DeepView for ShortcutRecord {
    type V = ShortcutModel;

    open spec fn deep_view(&self) -> ShortcutModel {
        self@
    }
}

impl Clone for ShortcutRecord {
    fn clone(&self) -> (copy: Self)
        ensures
            copy@ == self@,
    {
        let tags = self.tags.clone();
        assert(tags.deep_view() =~= self.tags.deep_view());
        ShortcutRecord {
            order: self.order.clone(),
            app_id: self.app_id,
            app_name: self.app_name.clone(),
            exe: self.exe.clone(),
            start_dir: self.start_dir.clone(),
            icon: self.icon.clone(),
            shortcut_path: self.shortcut_path.clone(),
            launch_options: self.launch_options.clone(),
            is_hidden: self.is_hidden,
            allow_desktop_config: self.allow_desktop_config,
            allow_overlay: self.allow_overlay,
            open_vr: self.open_vr,
            dev_kit: self.dev_kit,
            dev_kit_game_id: self.dev_kit_game_id.clone(),
            dev_kit_override_app_id: self.dev_kit_override_app_id,
            last_play_time: self.last_play_time,
            tags,
        }
    }
}

/// Tells whether two lists of texts are the same.
pub fn same_texts(a: &Vec<String>, b: &Vec<String>) -> (same: bool)
    ensures
        same == (a.deep_view() == b.deep_view()),
{
    if a.len() != b.len() {
        assert(a.deep_view().len() != b.deep_view().len());
        return false;
    }
    let mut i: usize = 0;
    while i < a.len()
        invariant
            i <= a.len(),
            a.len() == b.len(),
            forall|k: int| 0 <= k < i ==> a[k]@ == b[k]@,
        decreases a.len() - i,
    {
        if a[i] != b[i] {
            assert(a.deep_view()[i as int] != b.deep_view()[i as int]);
            return false;
        }
        i += 1;
    }
    assert(a.deep_view() =~= b.deep_view());
    true
}

impl ShortcutRecord {
    /// Tells whether two records hold the same, field by field.
    pub fn same_as(&self, other: &ShortcutRecord) -> (same: bool)
        ensures
            same == (self@ == other@),
    {
        self.order == other.order && self.app_id == other.app_id && self.app_name
            == other.app_name && self.exe == other.exe && self.start_dir == other.start_dir
            && self.icon == other.icon && self.shortcut_path == other.shortcut_path
            && self.launch_options == other.launch_options && self.is_hidden == other.is_hidden
            && self.allow_desktop_config == other.allow_desktop_config && self.allow_overlay
            == other.allow_overlay && self.open_vr == other.open_vr && self.dev_kit == other.dev_kit
            && self.dev_kit_game_id == other.dev_kit_game_id && self.dev_kit_override_app_id
            == other.dev_kit_override_app_id && self.last_play_time == other.last_play_time
            && same_texts(&self.tags, &other.tags)
    }
}

/// What a desired shortcut holds, as plain mathematical values.
pub struct DesiredModel {
    pub app_name: Seq<char>,
    pub exe: Seq<char>,
    pub start_dir: Seq<char>,
    pub icon: Seq<char>,
    pub launch_options: Seq<char>,
    pub tags: Seq<Seq<char>>,
    pub shortcut_path: Seq<char>,
}

/// A shortcut that the caller wants to exist. It has no identity and no
/// position yet: both are computed when it is merged into a catalog.
#[derive(Debug)]
pub struct DesiredShortcut {
    pub app_name: String,
    pub exe: String,
    pub start_dir: String,
    pub icon: String,
    pub launch_options: String,
    pub tags: Vec<String>,
    pub shortcut_path: String,
}

impl Clone for DesiredShortcut {
    fn clone(&self) -> (copy: Self)
        ensures
            copy@ == self@,
    {
        let tags = self.tags.clone();
        assert(tags.deep_view() =~= self.tags.deep_view());
        DesiredShortcut {
            app_name: self.app_name.clone(),
            exe: self.exe.clone(),
            start_dir: self.start_dir.clone(),
            icon: self.icon.clone(),
            launch_options: self.launch_options.clone(),
            tags,
            shortcut_path: self.shortcut_path.clone(),
        }
    }
}

impl View for DesiredShortcut {
    type V = DesiredModel;

    open spec fn view(&self) -> DesiredModel {
        DesiredModel {
            app_name: self.app_name@,
            exe: self.exe@,
            start_dir: self.start_dir@,
            icon: self.icon@,
            launch_options: self.launch_options@,
            tags: self.tags.deep_view(),
            shortcut_path: self.shortcut_path@,
        }
    }
}

impl DeepView for DesiredShortcut {
    type V = DesiredModel;

    open spec fn deep_view(&self) -> DesiredModel {
        self@
    }
}

/// The identity that the launcher derives for a shortcut from its executable
/// path and its display name.
pub uninterp spec fn shortcut_app_id(exe: Seq<char>, app_name: Seq<char>) -> u32;

/// `steam_shortcuts_util::app_id_generator::calculate_app_id` hashes the
/// executable path followed by the name with CRC-32 and sets the top bit of
/// the checksum. The result depends on the two texts alone, which is all that
/// is claimed here beside the top bit.
pub assume_specification[ steam_shortcuts_util::app_id_generator::calculate_app_id ](
    exe: &str,
    app_name: &str,
) -> (id: u32)
    ensures
        id == shortcut_app_id(exe@, app_name@),
        id >= 0x8000_0000,
;

/// Computes the identity of the shortcut with this executable path and this
/// name. Any two texts have one, the empty ones too.
pub fn identity(exe: &str, app_name: &str) -> (id: u32)
    ensures
        id == shortcut_app_id(exe@, app_name@),
        id >= 0x8000_0000,
{
    steam_shortcuts_util::app_id_generator::calculate_app_id(exe, app_name)
}

impl DesiredModel {
    /// The identity under which the shortcut is kept.
    pub open spec fn app_id(self) -> u32 {
        shortcut_app_id(self.exe, self.app_name)
    }
}

/// The record that a desired shortcut becomes at `position`: its own texts and
/// tags, the identity of its executable and name, and the fixed flags of a
/// freshly made shortcut.
pub open spec fn desired_record(d: DesiredModel, position: nat) -> ShortcutModel {
    ShortcutModel {
        order: decimal(position),
        app_id: d.app_id(),
        app_name: d.app_name,
        exe: d.exe,
        start_dir: d.start_dir,
        icon: d.icon,
        shortcut_path: d.shortcut_path,
        launch_options: d.launch_options,
        is_hidden: false,
        allow_desktop_config: true,
        allow_overlay: true,
        open_vr: 0,
        dev_kit: 0,
        dev_kit_game_id: Seq::empty(),
        dev_kit_override_app_id: 0,
        last_play_time: 0,
        tags: d.tags,
    }
}

impl DesiredShortcut {
    /// Builds the full record for this shortcut, placed at `order`.
    pub fn make_owned(&self, order: usize) -> (record: ShortcutRecord)
        ensures
            record@ == desired_record(self@, order as nat),
            record.app_id >= 0x8000_0000,
    {
        let app_id = identity(self.exe.as_str(), self.app_name.as_str());
        let tags = self.tags.clone();
        assert(tags.deep_view() =~= self.tags.deep_view());
        ShortcutRecord {
            order: decimal_string(order),
            app_id,
            app_name: self.app_name.clone(),
            exe: self.exe.clone(),
            start_dir: self.start_dir.clone(),
            icon: self.icon.clone(),
            shortcut_path: self.shortcut_path.clone(),
            launch_options: self.launch_options.clone(),
            is_hidden: false,
            allow_desktop_config: true,
            allow_overlay: true,
            open_vr: 0,
            dev_kit: 0,
            dev_kit_game_id: String::new(),
            dev_kit_override_app_id: 0,
            last_play_time: 0,
            tags,
        }
    }
}

} // verus!
