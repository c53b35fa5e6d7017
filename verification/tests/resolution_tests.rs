use kaiser_core::identity::Luid;
use kaiser_core::resolution::{
    find_source_id, get_display_dpi, list_display_modes, set_display_dpi, DisplayMode, DpiScaleInfo,
    ResolutionError,
};
use kaiser_core::topology::{PathInfo, INVALID_MODE_INDEX};

fn mode(w: u32, h: u32, hz: u32, bits: u32) -> DisplayMode {
    DisplayMode { width: w, height: h, refresh_rate_hz: hz, bit_depth: bits }
}

#[test]
fn modes_sorted_without_repeats_or_empty_sizes() {
    let enumerated = vec![
        mode(1920, 1080, 60, 32),
        mode(1280, 720, 60, 32),
        mode(1920, 1080, 60, 32),
        mode(0, 1080, 60, 32),
        mode(1920, 1080, 144, 32),
        mode(1920, 1080, 60, 16),
    ];
    let r = list_display_modes(&enumerated).unwrap();
    assert_eq!(
        r,
        vec![mode(1280, 720, 60, 32), mode(1920, 1080, 60, 16), mode(1920, 1080, 60, 32), mode(1920, 1080, 144, 32)]
    );
}

#[test]
fn no_usable_mode_is_an_error() {
    assert_eq!(list_display_modes(&vec![]), Err(ResolutionError::NoDisplayModes));
    assert_eq!(list_display_modes(&vec![mode(0, 0, 60, 32)]), Err(ResolutionError::NoDisplayModes));
}

fn path(active: bool, luid_low: u32, source_id: u32, target_id: u32) -> PathInfo {
    let l = Luid { low_part: luid_low, high_part: 0 };
    PathInfo {
        handle: 0,
        flags: if active { 1 } else { 0 },
        source_adapter: l,
        source_id,
        source_mode_idx: INVALID_MODE_INDEX,
        target_adapter: l,
        target_id,
        target_mode_idx: INVALID_MODE_INDEX,
        rotation: 1,
        refresh_numerator: 0,
        refresh_denominator: 0,
    }
}

#[test]
fn source_of_a_display() {
    let paths = vec![path(true, 7, 3, 100), path(true, 7, 4, 101)];
    assert_eq!(find_source_id(&paths, 7, 101), Ok(4));
    assert_eq!(find_source_id(&paths, 7, 102), Err(ResolutionError::NoActivePath));
    assert_eq!(find_source_id(&paths, 8, 100), Err(ResolutionError::NoActivePath));
}

#[test]
fn current_dpi_from_relative_steps() {
    // Recommended 150% (index 2); current one step above: 175%.
    assert_eq!(get_display_dpi(DpiScaleInfo { min_scale_rel: -2, cur_scale_rel: 1, max_scale_rel: 4 }), Ok(175));
    assert_eq!(get_display_dpi(DpiScaleInfo { min_scale_rel: -2, cur_scale_rel: 0, max_scale_rel: 4 }), Ok(150));
    // The current step is clamped into [min, max].
    assert_eq!(get_display_dpi(DpiScaleInfo { min_scale_rel: -2, cur_scale_rel: -9, max_scale_rel: 4 }), Ok(100));
    assert_eq!(get_display_dpi(DpiScaleInfo { min_scale_rel: -2, cur_scale_rel: 9, max_scale_rel: 4 }), Ok(250));
    assert_eq!(
        get_display_dpi(DpiScaleInfo { min_scale_rel: -2, cur_scale_rel: 12, max_scale_rel: 12 }),
        Err(ResolutionError::DpiIndexOutOfRange(14))
    );
}

#[test]
fn requested_dpi_to_relative_step() {
    let info = DpiScaleInfo { min_scale_rel: -2, cur_scale_rel: 0, max_scale_rel: 4 };
    assert_eq!(set_display_dpi(info, 200), Ok(2));
    assert_eq!(set_display_dpi(info, 100), Ok(-2));
    assert_eq!(set_display_dpi(info, 50), Ok(-2));
    // Clamped to the largest supported scale, 250%.
    assert_eq!(set_display_dpi(info, 300), Ok(4));
    assert_eq!(set_display_dpi(info, 110), Err(ResolutionError::NotADpiValue(110)));
    let odd = DpiScaleInfo { min_scale_rel: -12, cur_scale_rel: 0, max_scale_rel: 0 };
    assert_eq!(set_display_dpi(odd, 100), Err(ResolutionError::RecommendedDpiOutOfRange(12)));
}

#[test]
fn dpi_set_then_read_gives_request() {
    let info = DpiScaleInfo { min_scale_rel: -2, cur_scale_rel: 0, max_scale_rel: 4 };
    for percent in [100u32, 125, 150, 175, 200, 225, 250] {
        let step = set_display_dpi(info, percent).unwrap();
        assert_eq!(get_display_dpi(DpiScaleInfo { cur_scale_rel: step, ..info }), Ok(percent));
    }
}
