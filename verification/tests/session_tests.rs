use kaiser_core::cache::{BackendCache, InitialQuery};
use kaiser_core::display::{DisplayId, DisplayInfo, DisplayKey, Layout, OutputConfig, Position, Resolution};
use kaiser_core::session::{
    active_target_ids, capture_display_names, display_set_changed, dpi_key_remap, dpi_target,
};
use kaiser_core::identity::Luid;
use kaiser_core::topology::{build_topology_snapshot, PathInfo, PathNames, RawTopologySnapshot, INVALID_MODE_INDEX};

fn out(luid: u64, tid: u32, enabled: bool) -> OutputConfig {
    OutputConfig {
        display_id: DisplayId { adapter_luid: luid, target_id: tid, edid_hash: None },
        enabled,
        position: Position { x: 0, y: 0 },
        resolution: Resolution { width: 1, height: 1 },
        refresh_rate_mhz: 60_000,
        primary: false,
    }
}

fn display(luid: u64, tid: u32, name: &str, active: bool) -> DisplayInfo {
    DisplayInfo {
        id: DisplayId { adapter_luid: luid, target_id: tid, edid_hash: None },
        friendly_name: name.to_string(),
        is_active: active,
        is_primary: false,
        resolution: Resolution { width: 1, height: 1 },
        refresh_rate_mhz: 60_000,
    }
}

fn key(luid: u64, tid: u32) -> DisplayKey {
    DisplayKey { adapter_luid: luid, target_id: tid }
}

#[test]
fn dpi_settings_follow_remapped_displays() {
    let original = Layout { outputs: vec![out(1, 10, true), out(1, 11, true)] };
    let remapped = Layout { outputs: vec![out(9, 10, true), out(9, 11, true)] };
    let remap = dpi_key_remap(&original, &remapped);
    assert_eq!(remap, vec![("1:10".to_string(), key(9, 10)), ("1:11".to_string(), key(9, 11))]);
    assert_eq!(dpi_target(&remap, "1:11"), Some(key(9, 11)));
    // A key the layout does not know goes to the display it names.
    assert_eq!(dpi_target(&remap, "4:5"), Some(key(4, 5)));
    assert_eq!(dpi_target(&remap, "garbage"), None);
}

#[test]
fn later_remap_entries_win() {
    let original = Layout { outputs: vec![out(1, 10, true), out(1, 10, false)] };
    let remapped = Layout { outputs: vec![out(9, 10, true), out(8, 10, false)] };
    let remap = dpi_key_remap(&original, &remapped);
    assert_eq!(dpi_target(&remap, "1:10"), Some(key(8, 10)));
    let shorter = Layout { outputs: vec![out(9, 10, true)] };
    assert_eq!(dpi_key_remap(&original, &shorter).len(), 1);
}

#[test]
fn active_display_set() {
    let displays = vec![display(1, 5, "a", true), display(2, 3, "b", true), display(3, 5, "c", true), display(1, 9, "d", false)];
    let ids = active_target_ids(&displays);
    assert_eq!(ids, vec![3, 5]);
    assert!(display_set_changed(&None, &ids));
    assert!(!display_set_changed(&Some(vec![3, 5]), &ids));
    assert!(display_set_changed(&Some(vec![3]), &ids));
    assert!(display_set_changed(&Some(vec![3, 6]), &ids));
}

#[test]
fn names_remembered_for_enabled_outputs() {
    let layout = Layout { outputs: vec![out(1, 10, true), out(1, 11, false), out(1, 12, true), out(1, 13, true)] };
    let displays = vec![display(1, 10, "Main", true), display(1, 11, "Off", false), display(1, 12, "Side", true), display(1, 12, "Dup", true)];
    let names = capture_display_names(&layout, &displays);
    assert_eq!(names, vec![("1:10".to_string(), "Main".to_string()), ("1:12".to_string(), "Side".to_string())]);
}

fn names(name: &str) -> PathNames {
    PathNames { target: None, gdi_name: Some(name.to_string()) }
}

fn one_path_snapshot(gdi: &str) -> kaiser_core::topology::TopologySnapshot {
    let l = Luid { low_part: 1, high_part: 0 };
    let p = PathInfo {
        handle: 0,
        flags: 1,
        source_adapter: l,
        source_id: 0,
        source_mode_idx: INVALID_MODE_INDEX,
        target_adapter: l,
        target_id: 1,
        target_mode_idx: INVALID_MODE_INDEX,
        rotation: 1,
        refresh_numerator: 0,
        refresh_denominator: 0,
    };
    build_topology_snapshot(RawTopologySnapshot { paths: vec![p], modes: vec![] }, &vec![names(gdi)])
}

fn query(gdi: &str, sig: &str) -> InitialQuery {
    InitialQuery { snapshot: one_path_snapshot(gdi), signature: sig.to_string(), sdr_ramps: vec![] }
}

#[test]
fn backend_cache_lifecycle() {
    let mut cache = BackendCache::new();
    assert!(cache.needs_query());
    let sig = String::new();
    // Before any signature was seen the empty text is the known one.
    assert!(!cache.color_state_changed(&sig));
    assert!(cache.color_state_changed(&"a:1:0".to_string()));
    cache.ensure_snapshot(query("\\\\.\\DISPLAY1", "a:1:0"));
    assert!(!cache.needs_query());
    assert_eq!(cache.get_gdi_name(1, 1), Some("\\\\.\\DISPLAY1".to_string()));
    // A cache that holds a snapshot keeps it.
    cache.ensure_snapshot(query("\\\\.\\DISPLAY7", "b"));
    assert_eq!(cache.get_gdi_name(1, 1), Some("\\\\.\\DISPLAY1".to_string()));
    assert!(!cache.color_state_changed(&"a:1:0".to_string()));
    assert!(cache.color_state_changed(&"a:1:1".to_string()));
    cache.record_color_change("a:1:1".to_string(), &vec![]);
    assert!(!cache.color_state_changed(&"a:1:1".to_string()));
    assert_eq!(cache.get_gdi_name(1, 2), None);
}

#[test]
fn invalidated_cache_reads_the_fresh_query() {
    let mut cache = BackendCache::new();
    cache.ensure_snapshot(query("\\\\.\\DISPLAY1", "a"));
    cache.invalidate_snapshot();
    assert!(cache.needs_query());
    cache.ensure_snapshot(query("\\\\.\\DISPLAY3", "a"));
    assert_eq!(cache.get_gdi_name(1, 1), Some("\\\\.\\DISPLAY3".to_string()));
}
