use kaiser_core::profile::{profile_index, KaiserConfig, KaiserConfigStore};

fn store() -> KaiserConfigStore {
    KaiserConfigStore::new("config.json".to_string())
}

#[test]
fn empty_config() {
    let c: KaiserConfig<u32, ()> = KaiserConfig::empty(());
    assert!(c.profiles.is_empty());
    assert!(c.profile_names.is_empty());
    assert!(c.last_known_good_layout.is_none());
    assert!(store().list_profile_names(&c).is_empty());
    assert_eq!(store().load_kaiser_profile(&c, "work"), None);
    assert_eq!(store().path, "config.json");
}

#[test]
fn save_then_load() {
    let s = store();
    let mut c: KaiserConfig<u32, ()> = KaiserConfig::empty(());
    s.save_kaiser_profile(&mut c, "work", 1);
    s.save_kaiser_profile(&mut c, "game", 2);
    assert_eq!(s.load_kaiser_profile(&c, "work"), Some(1));
    assert_eq!(s.load_kaiser_profile(&c, "game"), Some(2));
    assert_eq!(s.list_profile_names(&c), vec!["work".to_string(), "game".to_string()]);
    // Saving under an existing name replaces that profile in place.
    s.save_kaiser_profile(&mut c, "work", 3);
    assert_eq!(s.load_kaiser_profile(&c, "work"), Some(3));
    assert_eq!(s.load_kaiser_profile(&c, "game"), Some(2));
    assert_eq!(c.profiles, vec![3, 2]);
    assert_eq!(profile_index(&c, "game"), Some(1));
    assert_eq!(profile_index(&c, "Game"), None);
}

#[test]
fn delete_removes_name_and_profile() {
    let s = store();
    let mut c: KaiserConfig<u32, ()> = KaiserConfig::empty(());
    s.save_kaiser_profile(&mut c, "a", 1);
    s.save_kaiser_profile(&mut c, "b", 2);
    s.save_kaiser_profile(&mut c, "c", 3);
    s.delete_kaiser_profile(&mut c, "b");
    assert_eq!(s.list_profile_names(&c), vec!["a".to_string(), "c".to_string()]);
    assert_eq!(s.load_kaiser_profile(&c, "b"), None);
    assert_eq!(s.load_kaiser_profile(&c, "c"), Some(3));
    s.delete_kaiser_profile(&mut c, "missing");
    assert_eq!(c.profiles, vec![1, 3]);
}

#[test]
fn lookup_uses_the_first_of_repeated_names() {
    let s = store();
    let mut c: KaiserConfig<u32, ()> = KaiserConfig {
        profiles: vec![1, 2],
        profile_names: vec!["x".to_string(), "x".to_string()],
        settings: (),
        last_known_good_layout: None,
        last_restorable_layout: None,
    };
    assert_eq!(s.load_kaiser_profile(&c, "x"), Some(1));
    s.delete_kaiser_profile(&mut c, "x");
    assert_eq!(s.load_kaiser_profile(&c, "x"), Some(2));
}

#[test]
fn a_name_without_profile_loads_nothing() {
    let c: KaiserConfig<u32, ()> = KaiserConfig {
        profiles: vec![],
        profile_names: vec!["orphan".to_string()],
        settings: (),
        last_known_good_layout: None,
        last_restorable_layout: None,
    };
    assert_eq!(store().load_kaiser_profile(&c, "orphan"), None);
}
