use kaiser_core::apply::{
    apply_desired_source_mode, apply_desired_target_refresh, finish_phase2, is_set_display_invalid_parameter,
    missing_targets, needs_enable, next_apply_step, normalize_primary_fits, normalize_primary_position,
    phase1_paths, phase2_paths_and_modes, plan_attach_inactive, reorder_paths_for_desired_priority, ApplyError,
    ApplyStage, ApplyStep, phase1_wait_step, phase2_set_step, ConfigFlags, SetStep, WaitStep,
};
use kaiser_core::display::{DisplayId, DisplayKey, Layout, OutputConfig, Position, Resolution};
use kaiser_core::identity::Luid;
use kaiser_core::topology::{ModeInfo, PathInfo, RawTopologySnapshot, INVALID_MODE_INDEX, MODE_INFO_TYPE_SOURCE, MODE_INFO_TYPE_TARGET};

fn luid() -> Luid {
    Luid { low_part: 7, high_part: 0 }
}

fn path(active: bool, target_id: u32, src_mode: u32) -> PathInfo {
    PathInfo {
        handle: target_id as u64,
        flags: if active { 1 } else { 0 },
        source_adapter: luid(),
        source_id: target_id,
        source_mode_idx: src_mode,
        target_adapter: luid(),
        target_id,
        target_mode_idx: INVALID_MODE_INDEX,
        rotation: 1,
        refresh_numerator: 60,
        refresh_denominator: 1,
    }
}

fn source_mode(id: u32, x: i32, y: i32) -> ModeInfo {
    ModeInfo {
        info_type: MODE_INFO_TYPE_SOURCE,
        id,
        adapter: luid(),
        position: Position { x, y },
        width: 1920,
        height: 1080,
        vsync_numerator: 0,
        vsync_denominator: 0,
    }
}

fn out(tid: u32, enabled: bool, primary: bool, x: i32, y: i32) -> OutputConfig {
    OutputConfig {
        display_id: DisplayId { adapter_luid: 7, target_id: tid, edid_hash: None },
        enabled,
        position: Position { x, y },
        resolution: Resolution { width: 2560, height: 1440 },
        refresh_rate_mhz: 120_000,
        primary,
    }
}

fn key(tid: u32) -> DisplayKey {
    DisplayKey { adapter_luid: 7, target_id: tid }
}

#[test]
fn recovery_policy() {
    let invalid = ApplyError::SetDisplayConfigFailed(87);
    assert!(is_set_display_invalid_parameter(&invalid));
    assert!(!is_set_display_invalid_parameter(&ApplyError::SetDisplayConfigFailed(5)));
    assert!(!is_set_display_invalid_parameter(&ApplyError::AttachFailed(87)));
    // The fallback looks for "SetDisplayConfig failed: 87" in the error text.
    assert!(is_set_display_invalid_parameter(&ApplyError::SetDisplayConfigFailed(870)));
    assert!(is_set_display_invalid_parameter(&ApplyError::SetDisplayConfigFailed(8700)));
    assert!(!is_set_display_invalid_parameter(&ApplyError::SetDisplayConfigFailed(8)));
    assert!(!is_set_display_invalid_parameter(&ApplyError::SetDisplayConfigFailed(88)));
    assert!(!is_set_display_invalid_parameter(&ApplyError::SetDisplayConfigFailed(-87)));
    assert!(!is_set_display_invalid_parameter(&ApplyError::SetDisplayConfigFailed(187)));
    assert_eq!(
        next_apply_step(ApplyStage::Planned, Err(ApplyError::SetDisplayConfigFailed(871))),
        ApplyStep::Run(ApplyStage::AttachInactive)
    );
    assert_eq!(next_apply_step(ApplyStage::Planned, Ok(())), ApplyStep::Done);
    assert_eq!(next_apply_step(ApplyStage::Planned, Err(invalid)), ApplyStep::Run(ApplyStage::AttachInactive));
    assert_eq!(
        next_apply_step(ApplyStage::Planned, Err(ApplyError::SetDisplayConfigFailed(5))),
        ApplyStep::Fail(ApplyError::SetDisplayConfigFailed(5))
    );
    assert_eq!(
        next_apply_step(ApplyStage::AttachInactive, Err(ApplyError::NoInactiveOutputs)),
        ApplyStep::Run(ApplyStage::ExtendAndRetry)
    );
    assert_eq!(next_apply_step(ApplyStage::ExtendAndRetry, Err(invalid)), ApplyStep::Fail(invalid));
}

#[test]
fn targets_to_enable_and_wait_for() {
    let layout = Layout { outputs: vec![out(1, true, true, 0, 0), out(2, true, false, 1920, 0), out(3, false, false, 0, 0)] };
    let active = vec![path(true, 1, 0), path(false, 2, INVALID_MODE_INDEX)];
    assert_eq!(needs_enable(&layout, &active), vec![key(2)]);
    let later = vec![path(true, 1, 0), path(true, 2, 1)];
    assert_eq!(missing_targets(&vec![key(2)], &active), vec![key(2)]);
    assert_eq!(missing_targets(&vec![key(2)], &later), Vec::<DisplayKey>::new());
}

#[test]
fn phase_one_appends_prepared_inactive_paths() {
    let active = vec![path(true, 1, 0)];
    let all = vec![path(true, 1, 0), path(false, 2, 4), path(false, 2, 5)];
    let r = phase1_paths(&vec![key(2), key(9)], &active, &all);
    assert_eq!(r.len(), 2);
    assert_eq!(r[0], active[0]);
    assert_eq!(r[1].target_id, 2);
    assert_eq!(r[1].flags & 1, 1);
    assert_eq!(r[1].source_mode_idx, INVALID_MODE_INDEX);
    assert_eq!(r[1].target_mode_idx, INVALID_MODE_INDEX);
    assert_eq!(r[1].handle, 2);
}

#[test]
fn phase_two_switches_paths_and_writes_modes() {
    let layout = Layout { outputs: vec![out(1, false, false, 0, 0), out(2, true, true, 100, 50)] };
    let fresh = RawTopologySnapshot {
        paths: vec![path(true, 1, 0), path(true, 2, 1), path(true, 3, INVALID_MODE_INDEX)],
        modes: vec![source_mode(1, 0, 0), source_mode(2, 1920, 0)],
    };
    let planned = phase2_paths_and_modes(&layout, fresh);
    assert_eq!(planned.paths[0].flags & 1, 0);
    assert_eq!(planned.paths[1].flags & 1, 1);
    assert_eq!(planned.paths[2].flags & 1, 0);
    assert_eq!(planned.paths[1].refresh_numerator, 120_000);
    assert_eq!(planned.paths[1].refresh_denominator, 1000);
    assert_eq!(planned.modes[1].position, Position { x: 100, y: 50 });
    assert_eq!((planned.modes[1].width, planned.modes[1].height), (2560, 1440));
    assert_eq!(planned.modes[0], source_mode(1, 0, 0));

    assert!(normalize_primary_fits(&planned.paths, &planned.modes, &layout));
    let done = finish_phase2(planned, &layout).unwrap();
    // The primary lands at the origin and everything moves with it.
    assert_eq!(done.modes[1].position, Position { x: 0, y: 0 });
    assert_eq!(done.modes[0].position, Position { x: -100, y: -50 });
    // The primary's path comes first.
    assert_eq!(done.paths[0].target_id, 2);
}

#[test]
fn phase_two_refuses_a_black_screen() {
    let layout = Layout { outputs: vec![out(1, false, false, 0, 0)] };
    let fresh = RawTopologySnapshot { paths: vec![path(true, 1, 0)], modes: vec![source_mode(1, 0, 0)] };
    let planned = phase2_paths_and_modes(&layout, fresh);
    assert!(matches!(finish_phase2(planned, &layout), Err(ApplyError::AllPathsInactive)));
}

#[test]
fn attach_fallback_needs_an_inactive_output() {
    let layout = Layout { outputs: vec![out(1, true, true, 0, 0)] };
    let active = RawTopologySnapshot { paths: vec![path(true, 1, 0)], modes: vec![source_mode(1, 0, 0)] };
    let r = plan_attach_inactive(&layout, &active, &vec![path(true, 1, 0)]);
    assert!(matches!(r, Err(ApplyError::NoInactiveOutputs)));

    let layout = Layout { outputs: vec![out(1, true, false, 0, 0), out(2, true, true, 0, 0)] };
    let all = vec![path(true, 1, 0), path(false, 2, 3)];
    let r = plan_attach_inactive(&layout, &active, &all).unwrap();
    assert_eq!(r.paths.len(), 2);
    assert_eq!(r.paths[0].target_id, 2);
    assert_eq!(r.paths[0].flags & 1, 1);
    assert_eq!(r.paths[0].refresh_numerator, 120_000);
    assert_eq!(r.paths[1].target_id, 1);
}

#[test]
fn paths_ordered_by_priority() {
    let layout = Layout {
        outputs: vec![
            out(1, true, false, 1920, 0),
            out(2, true, false, 0, 1080),
            out(3, true, true, 0, 0),
            out(4, false, false, 0, 0),
        ],
    };
    let mut paths = vec![path(true, 9, 0), path(true, 4, 0), path(true, 2, 0), path(true, 1, 0), path(true, 3, 0)];
    reorder_paths_for_desired_priority(&mut paths, &layout);
    let order: Vec<u32> = paths.iter().map(|p| p.target_id).collect();
    assert_eq!(order, vec![3, 1, 2, 4, 9]);
}

#[test]
fn desired_modes_and_refresh() {
    let mut modes = vec![source_mode(1, 0, 0), ModeInfo { info_type: MODE_INFO_TYPE_TARGET, ..source_mode(1, 0, 0) }];
    let o = out(1, true, true, 10, 20);
    apply_desired_source_mode(&path(true, 1, 0), &mut modes, Some(o));
    assert_eq!(modes[0].position, Position { x: 10, y: 20 });
    // A target mode at the path's source index is left alone.
    apply_desired_source_mode(&path(true, 1, 1), &mut modes, Some(o));
    assert_eq!(modes[1].position, Position { x: 0, y: 0 });
    let mut p = path(true, 1, 0);
    apply_desired_target_refresh(&mut p, Some(OutputConfig { refresh_rate_mhz: 0, ..o }));
    assert_eq!((p.refresh_numerator, p.refresh_denominator), (1, 1000));
    let mut q = path(true, 1, 0);
    apply_desired_target_refresh(&mut q, None);
    assert_eq!((q.refresh_numerator, q.refresh_denominator), (60, 1));
}

#[test]
fn normalize_moves_primary_to_origin() {
    let layout = Layout { outputs: vec![out(1, true, true, 0, 0)] };
    let paths = vec![path(true, 1, 0)];
    let mut modes = vec![source_mode(1, 1920, 0), source_mode(2, 0, 0)];
    normalize_primary_position(&paths, &mut modes, &layout);
    assert_eq!(modes[0].position, Position { x: 0, y: 0 });
    assert_eq!(modes[1].position, Position { x: -1920, y: 0 });
}

#[test]
fn waiting_for_targets() {
    let needs = vec![key(2)];
    let before = vec![path(true, 1, 0), path(false, 2, INVALID_MODE_INDEX)];
    let after = vec![path(true, 1, 0), path(true, 2, 1)];
    assert_eq!(phase1_wait_step(&needs, Some(&before), 500, 12_000), WaitStep::KeepWaiting);
    assert_eq!(phase1_wait_step(&needs, None, 500, 12_000), WaitStep::KeepWaiting);
    assert_eq!(phase1_wait_step(&needs, Some(&after), 500, 12_000), WaitStep::Done);
    assert_eq!(phase1_wait_step(&needs, Some(&after), 13_000, 12_000), WaitStep::Done);
    assert_eq!(phase1_wait_step(&needs, Some(&before), 12_000, 12_000), WaitStep::TimedOut);
    assert_eq!(phase1_wait_step(&needs, None, 12_500, 12_000), WaitStep::TimedOut);
}

#[test]
fn second_call_retry_policy() {
    assert_eq!(phase2_set_step(ConfigFlags::Exact, 0), SetStep::Applied);
    assert_eq!(phase2_set_step(ConfigFlags::Exact, 87), SetStep::Retry(ConfigFlags::AllowChanges));
    assert_eq!(phase2_set_step(ConfigFlags::AllowChanges, 0), SetStep::Applied);
    assert_eq!(
        phase2_set_step(ConfigFlags::AllowChanges, 87),
        SetStep::Failed(ApplyError::SetDisplayConfigFailed(87))
    );
}
