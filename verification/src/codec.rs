//! The catalog's byte format, read and written by `steam_shortcuts_util`.

use vstd::prelude::*;
use crate::error::SyncError;
use crate::shortcut::{ShortcutModel, ShortcutRecord};

verus! {

/// The records that `steam_shortcuts_util::parse_shortcuts` reads from
/// `bytes`, or `None` where it rejects them.
pub uninterp spec fn parsed_shortcuts(bytes: Seq<u8>) -> Option<Seq<ShortcutModel>>;

/// The bytes that `steam_shortcuts_util::shortcuts_to_bytes` writes for `records`.
pub uninterp spec fn shortcut_bytes(records: Seq<ShortcutModel>) -> Seq<u8>;

/// What a stored catalog holds: nothing where there are no bytes, otherwise
/// what the parser reads; `None` where the bytes are no catalog.
pub open spec fn decoded_catalog(bytes: Seq<u8>) -> Option<Seq<ShortcutModel>> {
    if bytes.len() == 0 {
        Some(Seq::empty())
    } else {
        parsed_shortcuts(bytes)
    }
}

/// Calls `steam_shortcuts_util::parse_shortcuts` and copies each shortcut it
/// returns, field by field, into a record. The parser is a function of the
/// bytes alone; nothing more is claimed of what it accepts or returns, and
/// nothing of the text of its error.
#[verifier::external_body]
fn parse_records(bytes: &[u8]) -> (parsed: Result<Vec<ShortcutRecord>, String>)
    ensures
        match parsed {
            Ok(records) => parsed_shortcuts(bytes@) == Some(records.deep_view()),
            Err(_) => parsed_shortcuts(bytes@).is_none(),
        },
{
    let shortcuts = steam_shortcuts_util::parse_shortcuts(bytes)?;
    Ok(shortcuts.iter().map(|s| ShortcutRecord {
        order: s.order.to_string(), app_id: s.app_id, app_name: s.app_name.to_string(),
        exe: s.exe.to_string(), start_dir: s.start_dir.to_string(), icon: s.icon.to_string(),
        shortcut_path: s.shortcut_path.to_string(),
        launch_options: s.launch_options.to_string(),
        is_hidden: s.is_hidden, allow_desktop_config: s.allow_desktop_config,
        allow_overlay: s.allow_overlay, open_vr: s.open_vr, dev_kit: s.dev_kit,
        dev_kit_game_id: s.dev_kit_game_id.to_string(),
        dev_kit_override_app_id: s.dev_kit_overrite_app_id,
        last_play_time: s.last_play_time,
        tags: s.tags.iter().map(|t| t.to_string()).collect(),
    }).collect())
}

/// Borrows each record as a shortcut, field by field, and calls
/// `steam_shortcuts_util::shortcuts_to_bytes`. The writer is a function of the
/// records alone; nothing more is claimed of the bytes.
#[verifier::external_body]
fn write_records(records: &Vec<ShortcutRecord>) -> (bytes: Vec<u8>)
    ensures
        bytes@ == shortcut_bytes(records.deep_view()),
{
    let shortcuts = records.iter().map(|r| steam_shortcuts_util::Shortcut {
        order: &r.order, app_id: r.app_id, app_name: &r.app_name, exe: &r.exe,
        start_dir: &r.start_dir, icon: &r.icon, shortcut_path: &r.shortcut_path,
        launch_options: &r.launch_options, is_hidden: r.is_hidden,
        allow_desktop_config: r.allow_desktop_config, allow_overlay: r.allow_overlay,
        open_vr: r.open_vr, dev_kit: r.dev_kit, dev_kit_game_id: &r.dev_kit_game_id,
        dev_kit_overrite_app_id: r.dev_kit_override_app_id,
        last_play_time: r.last_play_time,
        tags: r.tags.iter().map(|t| t.as_str()).collect(),
    }).collect();
    steam_shortcuts_util::shortcuts_to_bytes(&shortcuts)
}

/// Decodes a stored catalog. No bytes at all are an empty catalog; bytes that
/// the parser rejects are a format error, and no partial list is returned.
pub fn decode_catalog(bytes: &[u8]) -> (decoded: Result<Vec<ShortcutRecord>, SyncError>)
    ensures
        match decoded {
            Ok(records) => decoded_catalog(bytes@) == Some(records.deep_view()),
            Err(e) => e is Format && decoded_catalog(bytes@).is_none(),
        },
{
    if bytes.len() == 0 {
        let records: Vec<ShortcutRecord> = Vec::new();
        assert(records.deep_view() =~= Seq::<ShortcutModel>::empty());
        Ok(records)
    } else {
        match parse_records(bytes) {
            Ok(records) => Ok(records),
            Err(report) => Err(SyncError::Format(report)),
        }
    }
}

/// The format hands back `catalog` as it was written.
pub open spec fn survives_format(catalog: Seq<ShortcutModel>) -> bool {
    decoded_catalog(shortcut_bytes(catalog)) == Some(catalog)
}

/// Tells whether two catalogs hold the same records in the same order.
pub fn same_catalog(a: &Vec<ShortcutRecord>, b: &Vec<ShortcutRecord>) -> (same: bool)
    ensures
        same == (a.deep_view() == b.deep_view()),
{
    if a.len() != b.len() {
        assert(a.deep_view().len() != b.deep_view().len());
        return false;
    }
    let mut i: usize = 0;
    while i < a.len()
        invariant
            i <= a.len(),
            a.len() == b.len(),
            forall|k: int| 0 <= k < i ==> a[k]@ == b[k]@,
        decreases a.len() - i,
    {
        if !a[i].same_as(&b[i]) {
            assert(a.deep_view()[i as int] != b.deep_view()[i as int]);
            return false;
        }
        i += 1;
    }
    assert(a.deep_view() =~= b.deep_view());
    true
}

/// Tells whether the format hands back `catalog` as it is: encodes it,
/// decodes the bytes and compares. The format does not keep every value, so
/// this is no matter of course.
pub fn reads_back(catalog: &Vec<ShortcutRecord>) -> (same: bool)
    ensures
        same == survives_format(catalog.deep_view()),
{
    let bytes = encode_catalog(catalog);
    match decode_catalog(bytes.as_slice()) {
        Ok(back) => same_catalog(&back, catalog),
        Err(_) => false,
    }
}

/// Encodes a catalog in the launcher's format.
pub fn encode_catalog(records: &Vec<ShortcutRecord>) -> (bytes: Vec<u8>)
    ensures
        bytes@ == shortcut_bytes(records.deep_view()),
{
    write_records(records)
}

} // verus!
