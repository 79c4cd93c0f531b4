use bytes::Bytes;
use edge_cdn_store::{
    EdgeMemoryStorage, EdgeMissHandler, EdgeStoreConfig, ErrorKind, MetaBytes, StoreError,
};

fn meta() -> Option<MetaBytes> {
    Some(MetaBytes {
        internal: b"fresh for a minute".to_vec(),
        header: b"200".to_vec(),
    })
}

fn open(storage: &mut EdgeMemoryStorage, key: &str) -> EdgeMissHandler {
    match storage.get_miss_handler(key, meta()) {
        Ok(handler) => handler,
        Err(e) => panic!("not admitted: {:?}", e),
    }
}

#[test]
fn max_disk_bytes_blocks_finish() {
    let cfg = EdgeStoreConfig {
        max_disk_bytes: Some(5),
        ..Default::default()
    };
    let mut storage = EdgeMemoryStorage::from_config(&cfg, None);
    let mut mh = open(&mut storage, "ns/disk1/u");
    mh.write_body(&Bytes::from_static(b"123456"), true)
        .unwrap();
    let res = mh.finish(&mut storage);
    assert!(res.is_err());
    assert_eq!(
        res.err(),
        Some(StoreError::DiskCapacityExceeded {
            used: 0,
            size: 6,
            limit: 5
        })
    );
}

#[test]
fn max_disk_bytes_allows_under_limit() {
    let cfg = EdgeStoreConfig {
        max_disk_bytes: Some(6),
        ..Default::default()
    };
    let mut storage = EdgeMemoryStorage::from_config(&cfg, None);
    let mut mh = open(&mut storage, "ns/disk2/u");
    mh.write_body(&Bytes::from_static(b"123456"), true)
        .unwrap();
    let res = mh.finish(&mut storage);
    assert!(res.is_ok());
    assert_eq!(storage.disk_bytes_used, 6);
    assert_eq!(storage.metrics.disk_bytes, 6);
}

#[test]
fn max_disk_bytes_blocks_second_admission() {
    let cfg = EdgeStoreConfig {
        max_disk_bytes: Some(6),
        ..Default::default()
    };
    let mut storage = EdgeMemoryStorage::from_config(&cfg, None);

    let mut mh1 = open(&mut storage, "ns/disk3a/u");
    mh1.write_body(&Bytes::from_static(b"123456"), true)
        .unwrap();
    assert!(mh1.finish(&mut storage).is_ok());

    let mut mh2 = open(&mut storage, "ns/disk3b/u");
    mh2.write_body(&Bytes::from_static(b"1"), true)
        .unwrap();
    assert!(mh2.finish(&mut storage).is_err());
}

#[test]
fn max_object_bytes_blocks_large_single_write() {
    let cfg = EdgeStoreConfig {
        max_object_bytes: Some(5),
        ..Default::default()
    };
    let mut storage = EdgeMemoryStorage::from_config(&cfg, None);
    let mut mh = open(&mut storage, "ns/cap1/u");
    // 6 bytes should exceed 5
    let err = mh
        .write_body(&Bytes::from_static(b"123456"), true)
        .unwrap_err();
    let s = format!("{:?}", err.kind());
    assert!(s.contains("ObjectTooLarge"));
    assert_eq!(err.explain(), "object exceeds max_object_bytes=5");
    assert!(mh.body().is_empty());
}

#[test]
fn max_object_bytes_blocks_on_second_chunk() {
    let cfg = EdgeStoreConfig {
        max_object_bytes: Some(5),
        ..Default::default()
    };
    let mut storage = EdgeMemoryStorage::from_config(&cfg, None);
    let mut mh = open(&mut storage, "ns/cap2/u");
    mh.write_body(&Bytes::from_static(b"1234"), false)
        .unwrap();
    // Next 2 bytes push to 6 > 5
    let err = mh
        .write_body(&Bytes::from_static(b"12"), true)
        .unwrap_err();
    let s = format!("{:?}", err.kind());
    assert!(s.contains("ObjectTooLarge"));
    assert_eq!(mh.body(), b"1234");
}

#[test]
fn max_object_bytes_allows_under_limit() {
    let cfg = EdgeStoreConfig {
        max_object_bytes: Some(6),
        ..Default::default()
    };
    let mut storage = EdgeMemoryStorage::from_config(&cfg, None);
    let mut mh = open(&mut storage, "ns/cap3/u");
    mh.write_body(&Bytes::from_static(b"123456"), true)
        .unwrap();
    let finished = mh.finish(&mut storage).unwrap();
    assert_eq!(finished.size, 6);
}

#[test]
fn max_partial_writes_blocks_second_writer() {
    let cfg = EdgeStoreConfig {
        max_partial_writes: Some(1),
        ..Default::default()
    };
    let mut storage = EdgeMemoryStorage::from_config(&cfg, None);
    let _mh1 = open(&mut storage, "ns/p1/u");
    let res = storage.get_miss_handler("ns/p2/u", meta());
    assert!(res.is_err());
    assert_eq!(
        res.err(),
        Some(StoreError::TooManyPartialWrites { limit: 1 })
    );
    assert_eq!(storage.partial_count, 1);
    assert_eq!(storage.write_counter, 1);
}

#[test]
fn a_released_place_is_free_again() {
    let cfg = EdgeStoreConfig {
        max_partial_writes: Some(1),
        ..Default::default()
    };
    let mut storage = EdgeMemoryStorage::from_config(&cfg, None);
    let mut mh1 = open(&mut storage, "ns/p1/u");
    assert_eq!(storage.metrics.partial_writes, 1);
    mh1.cleanup_once(&mut storage);
    assert_eq!(storage.partial_count, 0);
    assert_eq!(storage.metrics.partial_writes, 0);
    // Cleaning up again, or finishing after it, must not free a second place.
    mh1.cleanup_once(&mut storage);
    assert_eq!(storage.partial_count, 0);
    assert_eq!(storage.metrics.partial_writes, 0);
    let _mh2 = open(&mut storage, "ns/p2/u");
    assert!(storage.get_miss_handler("ns/p3/u", meta()).is_err());
}

#[test]
fn a_refused_finish_releases_the_writer_once() {
    let cfg = EdgeStoreConfig {
        max_disk_bytes: Some(3),
        max_partial_writes: Some(2),
        ..Default::default()
    };
    let mut storage = EdgeMemoryStorage::from_config(&cfg, None);
    let mut mh = open(&mut storage, "k");
    let _other = open(&mut storage, "l");
    mh.write_body(&Bytes::from_static(b"1234"), true)
        .unwrap();
    assert!(mh.finish(&mut storage).is_err());
    assert_eq!(storage.partial_count, 1);
    mh.cleanup_once(&mut storage);
    assert_eq!(storage.partial_count, 1);
    assert_eq!(storage.disk_bytes_used, 0);
    assert_eq!(storage.metrics.keys, 0);
    assert_eq!(storage.metrics.partial_writes, 1);
}

#[test]
fn a_refused_piece_leaves_a_body_that_can_be_finished() {
    let cfg = EdgeStoreConfig {
        max_object_bytes: Some(3),
        ..Default::default()
    };
    let mut storage = EdgeMemoryStorage::from_config(&cfg, None);
    let mut mh = open(&mut storage, "k");
    assert_eq!(mh.write_body(&Bytes::from_static(b"ab"), false), Ok(2));
    assert_eq!(
        mh.write_body(&Bytes::from_static(b"cd"), true),
        Err(StoreError::ObjectTooLarge {
            limit: 3,
            on_finish: false
        })
    );
    assert_eq!(
        mh.write_body(&Bytes::from_static(b"c"), true),
        Ok(usize::MAX)
    );
    let finished = mh.finish(&mut storage).unwrap();
    assert_eq!(finished.size, 3);
    assert_eq!(*finished.job.object.body, b"abc");
}

#[test]
fn unserialized_metadata_keeps_no_place() {
    let cfg = EdgeStoreConfig {
        max_partial_writes: Some(1),
        ..Default::default()
    };
    let mut storage = EdgeMemoryStorage::from_config(&cfg, None);
    let err = storage.get_miss_handler("k", None).err();
    assert_eq!(err, Some(StoreError::MetaNotSerialized));
    assert_eq!(storage.partial_count, 0);
    assert_eq!(storage.write_counter, 1);
    assert_eq!(storage.metrics.partial_writes, 0);
    let mh = open(&mut storage, "k");
    assert_eq!(mh.write_id(), 1);
    // A full store says so first.
    let err = storage.get_miss_handler("k", None).err();
    assert_eq!(err, Some(StoreError::TooManyPartialWrites { limit: 1 }));
}

#[test]
fn errors_explain_themselves() {
    let cases: Vec<(StoreError, ErrorKind, &str)> = vec![
        (
            StoreError::DiskCapacityExceeded {
                used: 10,
                size: 205,
                limit: 100,
            },
            ErrorKind::DiskCapacityExceeded,
            "disk usage 10 + 205 exceeds max_disk_bytes=100",
        ),
        (
            StoreError::TooManyPartialWrites { limit: 64 },
            ErrorKind::TooManyPartialWrites,
            "partial writes exceed max_partial_writes=64",
        ),
        (
            StoreError::SeekOutOfRange { start: 0, len: 0 },
            ErrorKind::InternalError,
            "Seek start 0 exceeds body length 0",
        ),
        (
            StoreError::SeekUnsupported,
            ErrorKind::InternalError,
            "Seeking not supported for partial cached objects",
        ),
        (
            StoreError::MetaNotSerialized,
            ErrorKind::InternalError,
            "serialize cache meta",
        ),
        (
            StoreError::Disk {
                kind: ErrorKind::FileOpenError,
                context: "open body file",
            },
            ErrorKind::FileOpenError,
            "open body file",
        ),
        (
            StoreError::ObjectTooLarge {
                limit: usize::MAX,
                on_finish: false,
            },
            ErrorKind::ObjectTooLarge,
            "object exceeds max_object_bytes=18446744073709551615",
        ),
        (
            StoreError::ObjectTooLarge {
                limit: 3,
                on_finish: true,
            },
            ErrorKind::ObjectTooLarge,
            "object exceeds max_object_bytes=3 on finish",
        ),
    ];
    for (error, kind, text) in cases {
        assert_eq!(error.kind(), kind);
        assert_eq!(error.explain(), text);
    }
}
