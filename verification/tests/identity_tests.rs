use kaiser_core::display::DisplayId;
use kaiser_core::identity::{
    luid_from_u64, luid_to_u64, make_display_id, stable_display_hash, EdidFields, Fnv1a64,
};

fn edid(m: Option<u16>, p: Option<u16>, c: Option<u32>) -> EdidFields {
    EdidFields { manufacture_id: m, product_code: p, connector_instance: c }
}

#[test]
fn fnv_known_values() {
    let h = Fnv1a64::new();
    assert_eq!(h.finish(), 0xcbf29ce484222325);
    let mut h = Fnv1a64::new();
    h.update(b"a");
    assert_eq!(h.finish(), 0xaf63dc4c8601ec8c);
}

#[test]
fn fnv_update_in_pieces_equals_whole() {
    let mut a = Fnv1a64::new();
    a.update(b"ab");
    a.update(b"cd");
    let mut b = Fnv1a64::new();
    b.update(b"abcd");
    assert_eq!(a.finish(), b.finish());
}

#[test]
fn edid_without_fields_has_no_hash() {
    let e = EdidFields::default();
    assert!(!e.has_any());
    assert_eq!(e.compute_hash(), None);
}

#[test]
fn edid_hash_exact_values() {
    assert_eq!(edid(Some(0x1234), None, None).compute_hash(), Some(0xd05fb11866ed906e));
    assert_eq!(
        edid(Some(0x10AC), Some(0xA0B1), Some(1)).compute_hash(),
        Some(0xc402d05c553f8a05)
    );
}

#[test]
fn edid_hash_sentinels_separate_fields() {
    let a = edid(Some(5), None, None).compute_hash();
    let b = edid(None, Some(5), None).compute_hash();
    assert!(a.is_some() && b.is_some());
    assert_ne!(a, b);
}

#[test]
fn edid_matches_needs_data_on_both_sides() {
    let full = edid(Some(1), Some(2), Some(3));
    let partial = edid(Some(1), None, None);
    let empty = EdidFields::default();
    assert!(partial.matches(&full));
    assert!(!full.matches(&partial));
    assert!(!empty.matches(&full));
    assert!(!full.matches(&empty));
    assert!(!edid(Some(9), None, None).matches(&full));
}

#[test]
fn luid_packing_round_trip() {
    assert_eq!(luid_to_u64(0, 5), 5);
    assert_eq!(luid_to_u64(1, 0), 0x1_0000_0000);
    assert_eq!(luid_to_u64(-1, 5), 0xFFFF_FFFF_0000_0005);
    let l = luid_from_u64(0xFFFF_FFFF_0000_0005);
    assert_eq!(l.high_part, -1);
    assert_eq!(l.low_part, 5);
    let v = 0x0123_4567_89AB_CDEFu64;
    let l = luid_from_u64(v);
    assert_eq!(luid_to_u64(l.high_part, l.low_part), v);
}

#[test]
fn display_id_carries_edid_hash() {
    let e = edid(Some(0x1234), None, None);
    let id = make_display_id(77, 3, &e);
    assert_eq!(id, DisplayId { adapter_luid: 77, target_id: 3, edid_hash: Some(0xd05fb11866ed906e) });
    let id = make_display_id(77, 3, &EdidFields::default());
    assert_eq!(id.edid_hash, None);
}

#[test]
fn stable_hash_ignores_ascii_case_of_path() {
    let upper = stable_display_hash(0x10AC, 0xA0B1, 1, "\\\\?\\DISPLAY#ABC");
    let lower = stable_display_hash(0x10AC, 0xA0B1, 1, "\\\\?\\display#abc");
    assert_eq!(upper, 0x75443fadcf3a7a3f);
    assert_eq!(upper, lower);
    assert_ne!(upper, stable_display_hash(0x10AC, 0xA0B1, 2, "\\\\?\\DISPLAY#ABC"));
}
