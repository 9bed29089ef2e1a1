use photon_meter::ids::{DynamicId, IdCache, PlayerName, StaticId};

#[test]
fn test_id_cache() {
    let mut cache = IdCache::new();

    assert!(cache.get_static_id(DynamicId::from(1)).is_none());

    cache.save(DynamicId::from(1), "test");
    assert!(cache.get_static_id(DynamicId::from(1)).is_some());
    assert_eq!(
        cache.get_static_id(DynamicId::from(1)),
        Some(StaticId::from(0))
    );

    cache.save(DynamicId::from(2), "test");
    assert!(cache.get_static_id(DynamicId::from(1)).is_none());
    assert_eq!(
        cache.get_static_id(DynamicId::from(2)),
        Some(StaticId::from(0))
    );
}

#[test]
fn test_if_id_is_unique_for_a_player() {
    let mut cache = IdCache::new();

    cache.save(DynamicId::from(1), "test");
    assert_eq!(
        cache.get_static_id(DynamicId::from(1)),
        Some(StaticId::from(0))
    );

    cache.save(DynamicId::from(2), "test2");
    assert_eq!(
        cache.get_static_id(DynamicId::from(2)),
        Some(StaticId::from(1))
    );

    cache.save(DynamicId::from(12345), "test3");
    assert_eq!(
        cache.get_static_id(DynamicId::from(12345)),
        Some(StaticId::from(2))
    );
}

#[test]
fn test_finding_player_name() {
    let mut cache = IdCache::new();

    assert!(cache.get_name(StaticId::from(1)).is_none());

    cache.save(DynamicId::from(1), "test");
    assert_eq!(
        cache.get_static_id(DynamicId::from(1)),
        Some(StaticId::from(0))
    );
    assert_eq!(
        cache.get_name(StaticId::from(0)),
        Some(PlayerName::from("test".to_owned()))
    );

    cache.save(DynamicId::from(2), "test2");
    assert_eq!(
        cache.get_static_id(DynamicId::from(2)),
        Some(StaticId::from(1))
    );
    assert_eq!(
        cache.get_name(StaticId::from(1)),
        Some(PlayerName::from("test2".to_owned()))
    );
    assert_eq!(
        cache.get_name(StaticId::from(0)),
        Some(PlayerName::from("test".to_owned()))
    );
}

#[test]
fn reused_dynamic_id_moves_to_the_new_name() {
    let mut cache = IdCache::new();
    cache.save(DynamicId::from(7), "a");
    cache.save(DynamicId::from(7), "b");
    assert_eq!(cache.get_static_id(DynamicId::from(7)), Some(StaticId::from(1)));
    cache.save(DynamicId::from(8), "a");
    assert_eq!(cache.get_static_id(DynamicId::from(8)), Some(StaticId::from(0)));
    assert_eq!(cache.get_static_id(DynamicId::from(7)), Some(StaticId::from(1)));
    assert_eq!(cache.get_static_id_to_name_map().len(), 2);
    assert_eq!(cache.get_dyn_id_to_static_id_map().len(), 2);
}
