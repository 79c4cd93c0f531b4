use edge_cdn_store::{EdgeMemoryStorage, EdgeMemoryStorageBuilder, EdgeStoreConfig};

#[test]
fn builder_builds_storage() {
    let storage = EdgeMemoryStorageBuilder::new()
        .with_disk_root("/tmp/edge_store_builder".to_string())
        .build();
    // ensure the constructed storage uses the provided root
    assert_eq!(storage.disk_root, "/tmp/edge_store_builder");
}

#[test]
fn from_config_builds_storage() {
    let cfg = EdgeStoreConfig {
        disk_root: Some("/tmp/edge_store_partial".to_string()),
        ..Default::default()
    };
    let storage = EdgeMemoryStorage::from_config(&cfg, None);
    assert_eq!(storage.disk_root, "/tmp/edge_store_partial");
}

#[test]
fn every_setting_reaches_the_store() {
    let cfg = EdgeStoreConfig {
        disk_root: Some("/tmp/edge_store_full".to_string()),
        max_disk_bytes: Some(1073741824),
        max_object_bytes: Some(104857600),
        max_partial_writes: Some(64),
        atomic_publish: Some(false),
        io_uring_enabled: Some(true),
        max_in_mem_partial_bytes: Some(1048576),
    };
    let storage = EdgeMemoryStorage::from_config(&cfg, Some("/elsewhere".to_string()));
    assert_eq!(storage.disk_root, "/tmp/edge_store_full");
    assert_eq!(storage.max_disk_bytes, Some(1073741824));
    assert_eq!(storage.max_object_bytes, Some(104857600));
    assert_eq!(storage.max_partial_writes, Some(64));
    assert!(!storage.atomic_publish);
    assert!(storage.io_uring_enabled);
    assert_eq!(storage.max_in_mem_partial_bytes, Some(1048576));
    assert_eq!(storage.metrics.atomic_publish_enabled, 0);
    assert_eq!(storage.metrics.io_uring_enabled, 1);
}

#[test]
fn defaults_are_atomic_without_io_uring() {
    let builder = EdgeMemoryStorage::builder();
    assert_eq!(builder.atomic_publish, None);
    assert_eq!(builder.io_uring_enabled, None);
    let storage = builder.build();
    assert_eq!(storage.disk_root, "edge_store_data");
    assert!(storage.atomic_publish);
    assert!(!storage.io_uring_enabled);
    assert_eq!(storage.max_disk_bytes, None);
    assert_eq!(storage.metrics.atomic_publish_enabled, 1);
    assert_eq!(storage.metrics.io_uring_enabled, 0);
    assert!(EdgeMemoryStorage::with_disk_root("d".to_string()).atomic_publish);
}

#[test]
fn disk_root_comes_from_config_then_environment_then_default() {
    let unset = EdgeStoreConfig::default();
    assert_eq!(unset.resolve_disk_root(None), "edge_store_data");
    assert_eq!(
        unset.resolve_disk_root(Some("/from/env".to_string())),
        "/from/env"
    );
    let set = EdgeStoreConfig {
        disk_root: Some("/from/file".to_string()),
        ..Default::default()
    };
    assert_eq!(
        set.resolve_disk_root(Some("/from/env".to_string())),
        "/from/file"
    );
    assert_eq!(
        EdgeMemoryStorage::new(Some("/from/env".to_string())).disk_root,
        "/from/env"
    );
    assert_eq!(
        EdgeMemoryStorage::default_instance(None).disk_root,
        "edge_store_data"
    );
}

#[test]
fn a_file_that_cannot_be_parsed_sets_nothing() {
    assert_eq!(
        EdgeStoreConfig::from_parsed(None),
        EdgeStoreConfig::default()
    );
    let cfg = EdgeStoreConfig {
        max_object_bytes: Some(7),
        ..Default::default()
    };
    assert_eq!(EdgeStoreConfig::from_parsed(Some(cfg.clone())), cfg);
}

#[test]
fn a_bare_builder_has_no_root() {
    assert_eq!(EdgeMemoryStorageBuilder::default().disk_root, "");
    assert_eq!(EdgeMemoryStorageBuilder::new().disk_root, "edge_store_data");
}
