use kaiser_core::color::{
    active_color_state_signature, gamma_capture_paths, gamma_ramp_looks_identity, gamma_restore_plan,
    hex16_chars, merge_sdr_gamma_cache,
};
use kaiser_core::display::DisplayKey;
use kaiser_core::identity::Luid;
use kaiser_core::topology::{PathInfo, RawTopologySnapshot, INVALID_MODE_INDEX};

fn identity_ramp() -> [u16; 768] {
    let mut r = [0u16; 768];
    for c in 0..3 {
        for i in 0..256 {
            r[c * 256 + i] = (i * 257) as u16;
        }
    }
    r
}

fn calibrated_ramp() -> [u16; 768] {
    let mut r = identity_ramp();
    r[128] = r[128] - 2000;
    r
}

fn key(luid: u64, tid: u32) -> DisplayKey {
    DisplayKey { adapter_luid: luid, target_id: tid }
}

#[test]
fn identity_ramp_tolerance() {
    assert!(gamma_ramp_looks_identity(&identity_ramp()));
    let mut r = identity_ramp();
    r[256 + 10] += 384;
    assert!(gamma_ramp_looks_identity(&r));
    r[256 + 10] += 1;
    assert!(!gamma_ramp_looks_identity(&r));
    let mut r = identity_ramp();
    r[767] -= 385;
    assert!(!gamma_ramp_looks_identity(&r));
    assert!(!gamma_ramp_looks_identity(&calibrated_ramp()));
}

#[test]
fn sdr_cache_merge() {
    let old = vec![
        (key(1, 1), calibrated_ramp()),
        (key(1, 2), identity_ramp()),
        (key(1, 3), calibrated_ramp()),
    ];
    let mut fresh_ramp = calibrated_ramp();
    fresh_ramp[0] = 100;
    let fresh = vec![(key(1, 3), fresh_ramp), (key(1, 4), identity_ramp())];
    let merged = merge_sdr_gamma_cache(&old, &fresh);
    assert_eq!(merged.len(), 2);
    assert_eq!(merged[0], (key(1, 1), calibrated_ramp()));
    assert_eq!(merged[1], (key(1, 3), fresh_ramp));
}

#[test]
fn hex_digits_of_luid() {
    let s: String = hex16_chars(0xABC).into_iter().collect();
    assert_eq!(s, format!("{:016x}", 0xABCu64));
    let s: String = hex16_chars(u64::MAX).into_iter().collect();
    assert_eq!(s, "ffffffffffffffff");
}

fn path(active: bool, luid_low: u32, target_id: u32) -> PathInfo {
    let l = Luid { low_part: luid_low, high_part: 0 };
    PathInfo {
        handle: 0,
        flags: if active { 1 } else { 0 },
        source_adapter: l,
        source_id: 0,
        source_mode_idx: INVALID_MODE_INDEX,
        target_adapter: l,
        target_id,
        target_mode_idx: INVALID_MODE_INDEX,
        rotation: 1,
        refresh_numerator: 0,
        refresh_denominator: 0,
    }
}

#[test]
fn signature_sorted_by_display() {
    let raw = RawTopologySnapshot {
        paths: vec![path(true, 0xff, 0), path(false, 3, 9), path(true, 5, 12), path(true, 5, 1)],
        modes: vec![],
    };
    let sig = active_color_state_signature(&raw, &vec![Some(false), Some(true), Some(true), None]);
    assert_eq!(sig, "0000000000000005:1:x;0000000000000005:12:1;00000000000000ff:0:0");
    // A path without a report counts as unknown.
    let sig = active_color_state_signature(&raw, &vec![Some(false)]);
    assert_eq!(sig, "0000000000000005:1:x;0000000000000005:12:x;00000000000000ff:0:0");
    let empty = RawTopologySnapshot { paths: vec![path(false, 1, 1)], modes: vec![] };
    assert_eq!(active_color_state_signature(&empty, &vec![]), "");
}

#[test]
fn signature_does_not_depend_on_path_order() {
    let a = RawTopologySnapshot { paths: vec![path(true, 2, 1), path(true, 1, 7)], modes: vec![] };
    let b = RawTopologySnapshot { paths: vec![path(true, 1, 7), path(true, 2, 1)], modes: vec![] };
    assert_eq!(
        active_color_state_signature(&a, &vec![Some(true), None]),
        active_color_state_signature(&b, &vec![None, Some(true)])
    );
}

#[test]
fn which_ramps_are_captured_and_restored() {
    let raw = RawTopologySnapshot {
        paths: vec![path(true, 1, 1), path(false, 1, 2), path(true, 1, 3), path(true, 1, 4)],
        modes: vec![],
    };
    let advanced = vec![Some(false), None, Some(true), None];
    assert_eq!(
        gamma_capture_paths(&raw, &advanced, true),
        vec![(0, key(1, 1)), (3, key(1, 4))]
    );
    assert_eq!(
        gamma_capture_paths(&raw, &advanced, false),
        vec![(0, key(1, 1)), (2, key(1, 3)), (3, key(1, 4))]
    );
    let ramps = vec![(key(1, 3), calibrated_ramp()), (key(1, 2), identity_ramp())];
    let plan = gamma_restore_plan(&raw, &ramps);
    assert_eq!(plan, vec![(2, calibrated_ramp())]);
}
