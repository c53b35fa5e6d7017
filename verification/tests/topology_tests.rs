use kaiser_core::display::{DisplayKey, Layout, OutputConfig, DisplayId, Position, Resolution};
use kaiser_core::identity::{EdidFields, Luid};
use kaiser_core::topology::{
    build_topology_snapshot, effective_resolution_for_rotation, merge_snapshot_for_cache,
    raw_covers_active_outputs, rotation_to_degrees, target_mode_refresh_mhz, verify_layout_applied,
    ModeInfo, PathInfo, PathNames, RawTopologySnapshot, TargetName, INVALID_MODE_INDEX,
    MODE_INFO_TYPE_SOURCE, MODE_INFO_TYPE_TARGET,
};

fn luid(low: u32) -> Luid {
    Luid { low_part: low, high_part: 0 }
}

fn path(active: bool, adapter: u32, source_id: u32, target_id: u32, src_mode: u32, tgt_mode: u32, rotation: i32) -> PathInfo {
    PathInfo {
        handle: 0,
        flags: if active { 1 } else { 0 },
        source_adapter: luid(adapter),
        source_id,
        source_mode_idx: src_mode,
        target_adapter: luid(adapter),
        target_id,
        target_mode_idx: tgt_mode,
        rotation,
        refresh_numerator: 0,
        refresh_denominator: 0,
    }
}

fn source_mode(adapter: u32, id: u32, x: i32, y: i32, w: u32, h: u32) -> ModeInfo {
    ModeInfo {
        info_type: MODE_INFO_TYPE_SOURCE,
        id,
        adapter: luid(adapter),
        position: Position { x, y },
        width: w,
        height: h,
        vsync_numerator: 0,
        vsync_denominator: 0,
    }
}

fn target_mode(adapter: u32, id: u32, num: u32, den: u32) -> ModeInfo {
    ModeInfo {
        info_type: MODE_INFO_TYPE_TARGET,
        id,
        adapter: luid(adapter),
        position: Position { x: 0, y: 0 },
        width: 0,
        height: 0,
        vsync_numerator: num,
        vsync_denominator: den,
    }
}

fn named(name: &str, gdi: &str) -> PathNames {
    PathNames {
        target: Some(TargetName {
            friendly_name: name.to_string(),
            edid_manufacture_id: 0x1234,
            edid_product_code_id: 0,
            connector_instance: 0,
        }),
        gdi_name: Some(gdi.to_string()),
    }
}

#[test]
fn rotation_codes() {
    assert_eq!(rotation_to_degrees(1), 0);
    assert_eq!(rotation_to_degrees(2), 90);
    assert_eq!(rotation_to_degrees(3), 180);
    assert_eq!(rotation_to_degrees(4), 270);
    assert_eq!(rotation_to_degrees(9), 0);
    let r = Resolution { width: 1920, height: 1080 };
    assert_eq!(effective_resolution_for_rotation(r, 2), Resolution { width: 1080, height: 1920 });
    assert_eq!(effective_resolution_for_rotation(r, 3), r);
    assert_eq!(effective_resolution_for_rotation(r, 4), Resolution { width: 1080, height: 1920 });
}

#[test]
fn refresh_in_millihertz() {
    assert_eq!(target_mode_refresh_mhz(&target_mode(1, 1, 60, 1)), 60_000);
    assert_eq!(target_mode_refresh_mhz(&target_mode(1, 1, 143_981, 1000)), 143_981);
    assert_eq!(target_mode_refresh_mhz(&target_mode(1, 1, 59, 0)), 59_000);
}

fn sample_raw() -> RawTopologySnapshot {
    RawTopologySnapshot {
        paths: vec![
            path(true, 7, 0, 100, 0, 1, 1),
            path(false, 7, 1, 101, INVALID_MODE_INDEX, INVALID_MODE_INDEX, 1),
            path(true, 7, 1, 102, 2, INVALID_MODE_INDEX, 2),
            path(true, 7, 1, 103, INVALID_MODE_INDEX, INVALID_MODE_INDEX, 1),
        ],
        modes: vec![
            source_mode(7, 0, 0, 0, 2560, 1440),
            target_mode(7, 100, 144, 1),
            source_mode(7, 1, 2560, 0, 1920, 1080),
        ],
    }
}

#[test]
fn snapshot_from_paths_and_modes() {
    let names = vec![
        named("Main", "\\\\.\\DISPLAY1"),
        named("Off", "\\\\.\\DISPLAY9"),
        named("Side", "\\\\.\\DISPLAY2"),
        PathNames { target: None, gdi_name: None },
    ];
    let snap = build_topology_snapshot(sample_raw(), &names);
    assert_eq!(snap.raw.paths.len(), 4);
    assert_eq!(snap.layout.outputs.len(), 3);
    let main = snap.layout.outputs[0];
    assert_eq!(main.display_id.adapter_luid, 7);
    assert_eq!(main.display_id.target_id, 100);
    assert_eq!(main.display_id.edid_hash, EdidFields { manufacture_id: Some(0x1234), product_code: None, connector_instance: None }.compute_hash());
    assert_eq!(main.position, Position { x: 0, y: 0 });
    assert_eq!(main.resolution, Resolution { width: 2560, height: 1440 });
    assert_eq!(main.refresh_rate_mhz, 144_000);
    assert!(main.primary && main.enabled);
    let side = snap.layout.outputs[1];
    assert_eq!(side.position, Position { x: 2560, y: 0 });
    assert_eq!(side.refresh_rate_mhz, 60_000);
    assert!(!side.primary);
    // A rotated display reports its resolution turned.
    assert_eq!(snap.displays[1].resolution, Resolution { width: 1080, height: 1920 });
    assert_eq!(snap.displays[1].friendly_name, "Side");
    // A display without a reported name is named after its key.
    assert_eq!(snap.displays[2].friendly_name, "Display 7:103");
    assert_eq!(snap.displays[2].id.edid_hash, None);
    assert_eq!(snap.rotation_values, vec![(DisplayKey { adapter_luid: 7, target_id: 102 }, 90)]);
    // Targets 102 and 103 share the source slot (7, 1): 103 mirrors 102.
    assert_eq!(
        snap.clone_pairs,
        vec![(DisplayKey { adapter_luid: 7, target_id: 103 }, DisplayKey { adapter_luid: 7, target_id: 102 })]
    );
    assert_eq!(snap.get_gdi_name(7, 102), Some("\\\\.\\DISPLAY2".to_string()));
    assert_eq!(snap.get_gdi_name(7, 101), None);
    assert_eq!(snap.get_gdi_name(7, 103), None);
}

#[test]
fn first_output_becomes_primary_when_none_at_origin() {
    let raw = RawTopologySnapshot {
        paths: vec![path(true, 7, 1, 102, 0, INVALID_MODE_INDEX, 1)],
        modes: vec![source_mode(7, 1, 100, 0, 1920, 1080)],
    };
    let snap = build_topology_snapshot(raw, &vec![PathNames { target: None, gdi_name: None }]);
    assert!(snap.layout.outputs[0].primary);
    assert!(snap.displays[0].is_primary);
}

fn out(tid: u32, enabled: bool) -> OutputConfig {
    OutputConfig {
        display_id: DisplayId { adapter_luid: 7, target_id: tid, edid_hash: None },
        enabled,
        position: Position { x: 0, y: 0 },
        resolution: Resolution { width: 1, height: 1 },
        refresh_rate_mhz: 60_000,
        primary: false,
    }
}

#[test]
fn layout_applied_check() {
    let names: Vec<PathNames> = (0..4).map(|_| PathNames { target: None, gdi_name: None }).collect();
    let snap = build_topology_snapshot(sample_raw(), &names);
    assert!(verify_layout_applied(&Layout { outputs: vec![out(100, true), out(101, false)] }, &snap));
    assert!(!verify_layout_applied(&Layout { outputs: vec![out(101, true)] }, &snap));
    assert!(!verify_layout_applied(&Layout { outputs: vec![out(100, false)] }, &snap));
}

#[test]
fn cache_keeps_richer_raw_paths_that_still_cover() {
    let names: Vec<PathNames> = (0..4).map(|_| PathNames { target: None, gdi_name: None }).collect();
    let previous = build_topology_snapshot(sample_raw(), &names);
    let small_raw = RawTopologySnapshot { paths: vec![path(true, 7, 0, 100, 0, 1, 1)], modes: vec![source_mode(7, 0, 0, 0, 2560, 1440)] };
    let fresh = build_topology_snapshot(small_raw, &vec![PathNames { target: None, gdi_name: None }]);
    assert!(raw_covers_active_outputs(&previous.raw, &fresh.layout));
    let merged = merge_snapshot_for_cache(Some(&previous), fresh);
    assert_eq!(merged.raw.paths.len(), 4);
    assert_eq!(merged.layout.outputs.len(), 1);

    let other_raw = RawTopologySnapshot { paths: vec![path(true, 8, 0, 5, INVALID_MODE_INDEX, INVALID_MODE_INDEX, 1)], modes: vec![] };
    let fresh = build_topology_snapshot(other_raw, &vec![PathNames { target: None, gdi_name: None }]);
    assert!(!raw_covers_active_outputs(&previous.raw, &fresh.layout));
    let merged = merge_snapshot_for_cache(Some(&previous), fresh);
    assert_eq!(merged.raw.paths.len(), 1);
}
