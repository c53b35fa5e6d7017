use kaiser_core::display::{DisplayId, DisplayInfo, Layout, OutputConfig, Position, Resolution};
use kaiser_core::layout::{
    layout_has_enabled_output, make_primary_layout, merge_disabled_outputs, merge_inactive_displays,
    sanitize_layout, sync_profile_layout,
};
use kaiser_core::remap::{remap_layout_display_ids, resolve_display_id};

fn id(luid: u64, tid: u32, hash: Option<u64>) -> DisplayId {
    DisplayId { adapter_luid: luid, target_id: tid, edid_hash: hash }
}

fn out(luid: u64, tid: u32, hash: Option<u64>, enabled: bool, primary: bool) -> OutputConfig {
    OutputConfig {
        display_id: id(luid, tid, hash),
        enabled,
        position: Position { x: 0, y: 0 },
        resolution: Resolution { width: 1920, height: 1080 },
        refresh_rate_mhz: 60_000,
        primary,
    }
}

fn display(luid: u64, tid: u32, name: &str, active: bool) -> DisplayInfo {
    DisplayInfo {
        id: id(luid, tid, None),
        friendly_name: name.to_string(),
        is_active: active,
        is_primary: false,
        resolution: Resolution { width: 1920, height: 1080 },
        refresh_rate_mhz: 60_000,
    }
}

#[test]
fn sanitize_keeps_enabled_duplicate_and_strips_disabled_primary() {
    let layout = Layout {
        outputs: vec![
            out(1, 10, None, false, true),
            out(2, 10, None, true, false),
            out(3, 11, None, false, true),
            out(4, 11, None, false, false),
        ],
    };
    let r = sanitize_layout(layout);
    assert_eq!(r.outputs, vec![out(2, 10, None, true, false), out(3, 11, None, false, false)]);
}

#[test]
fn sanitize_twice_is_sanitize_once() {
    let layout = Layout {
        outputs: vec![out(1, 1, None, false, true), out(1, 2, None, true, true), out(9, 1, None, true, false)],
    };
    let once = sanitize_layout(layout);
    let twice = sanitize_layout(once.clone());
    assert_eq!(once.outputs, twice.outputs);
    assert_eq!(once.outputs, vec![out(1, 2, None, true, true), out(9, 1, None, true, false)]);
}

#[test]
fn sync_adds_new_live_displays_disabled() {
    let mut profile = Layout { outputs: vec![out(1, 10, Some(7), true, true)] };
    let live = Layout {
        outputs: vec![
            out(2, 99, Some(7), true, true),   // same EDID hash: represented
            out(2, 10, None, true, false),     // same target id: represented
            out(2, 12, None, true, true),      // new
            out(2, 13, None, false, false),    // not enabled: ignored
        ],
    };
    let changed = sync_profile_layout(&mut profile, &live);
    assert!(changed);
    assert_eq!(profile.outputs, vec![out(1, 10, Some(7), true, true), out(2, 12, None, false, false)]);
    let changed_again = sync_profile_layout(&mut profile, &live);
    assert!(!changed_again);
    assert_eq!(profile.outputs.len(), 2);
}

#[test]
fn make_primary_marks_only_the_enabled_target() {
    let mut layout = Layout {
        outputs: vec![out(1, 1, None, true, true), out(1, 2, None, true, false), out(1, 3, None, false, false)],
    };
    make_primary_layout(&mut layout, &id(1, 2, Some(5)));
    let flags: Vec<bool> = layout.outputs.iter().map(|o| o.primary).collect();
    assert_eq!(flags, vec![false, true, false]);
    make_primary_layout(&mut layout, &id(1, 3, None));
    let flags: Vec<bool> = layout.outputs.iter().map(|o| o.primary).collect();
    assert_eq!(flags, vec![false, false, false]);
}

#[test]
fn enabled_output_check() {
    assert!(!layout_has_enabled_output(&Layout { outputs: vec![] }));
    assert!(!layout_has_enabled_output(&Layout { outputs: vec![out(1, 1, None, false, false)] }));
    assert!(layout_has_enabled_output(&Layout { outputs: vec![out(1, 1, None, false, false), out(1, 2, None, true, false)] }));
}

#[test]
fn remembered_outputs_come_back_disabled() {
    let live = Layout { outputs: vec![out(1, 1, None, true, true)] };
    let remembered = vec![out(1, 1, Some(3), true, true), out(1, 2, None, true, false)];
    let r = merge_disabled_outputs(live, &remembered);
    assert_eq!(r.outputs, vec![out(1, 1, None, true, true), out(1, 2, None, false, false)]);
}

#[test]
fn remembered_displays_come_back_inactive() {
    let active = vec![display(1, 1, "A", true)];
    let remembered = vec![display(1, 1, "A old", true), display(1, 2, "B", true)];
    let r = merge_inactive_displays(active, remembered);
    assert_eq!(r.len(), 2);
    assert_eq!(r[0].friendly_name, "A");
    assert!(r[0].is_active);
    assert_eq!(r[1].friendly_name, "B");
    assert!(!r[1].is_active);
}

#[test]
fn remap_keeps_layout_when_all_ids_live() {
    let current = Layout { outputs: vec![out(1, 1, Some(5), true, true), out(1, 2, None, true, false)] };
    let desired = Layout { outputs: vec![out(1, 2, None, false, false), out(1, 1, Some(5), true, true)] };
    let r = remap_layout_display_ids(desired.clone(), &current);
    assert_eq!(r.outputs, desired.outputs);
}

#[test]
fn remap_follows_edid_then_target_id() {
    // The adapter LUID changed after a reboot.
    let current = Layout {
        outputs: vec![out(9, 1, Some(5), true, true), out(9, 2, None, true, false), out(9, 3, None, true, false)],
    };
    let desired = Layout {
        outputs: vec![
            out(1, 7, Some(5), true, true),  // matched by EDID hash
            out(1, 2, None, true, false),    // matched by target id
            out(1, 4, None, false, false),   // no candidate: unchanged
        ],
    };
    let r = remap_layout_display_ids(desired, &current);
    assert_eq!(r.outputs[0].display_id, id(9, 1, Some(5)));
    assert_eq!(r.outputs[1].display_id, id(9, 2, None));
    assert_eq!(r.outputs[2].display_id, id(1, 4, None));
    assert!(r.outputs[0].primary && r.outputs[0].enabled);
}

#[test]
fn remap_skips_ambiguous_and_used_candidates() {
    let current = Layout { outputs: vec![out(9, 1, Some(5), true, true), out(8, 1, Some(5), true, false)] };
    let desired = Layout { outputs: vec![out(1, 1, Some(5), true, true)] };
    // Two live outputs share the hash and the target id: nothing is unique.
    let r = remap_layout_display_ids(desired, &current);
    assert_eq!(r.outputs[0].display_id, id(1, 1, Some(5)));

    let current = Layout { outputs: vec![out(9, 1, None, true, true)] };
    let desired = Layout { outputs: vec![out(1, 1, None, true, true), out(2, 1, None, true, false)] };
    // The single candidate is used by the first output and not given twice.
    let r = remap_layout_display_ids(desired, &current);
    assert_eq!(r.outputs[0].display_id, id(9, 1, None));
    assert_eq!(r.outputs[1].display_id, id(2, 1, None));
}

#[test]
fn resolve_prefers_exact_then_hash_then_target() {
    let live = Layout {
        outputs: vec![out(9, 1, Some(5), true, true), out(9, 2, None, true, false), out(8, 2, None, true, false)],
    };
    assert_eq!(resolve_display_id(&id(9, 2, None), &live), id(9, 2, None));
    assert_eq!(resolve_display_id(&id(1, 7, Some(5)), &live), id(9, 1, Some(5)));
    assert_eq!(resolve_display_id(&id(1, 1, None), &live), id(9, 1, Some(5)));
    // Target 2 is ambiguous: the id stays as it was.
    assert_eq!(resolve_display_id(&id(1, 2, None), &live), id(1, 2, None));
}
