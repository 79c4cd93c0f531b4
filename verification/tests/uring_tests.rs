use edge_cdn_store::paths::PathKey;
use edge_cdn_store::uring::{
    Completion, NextMove, OpenFlags, Reply, UringError, UserDataCounter, QUEUE_FULL,
};
use edge_cdn_store::{IoUringManager, IoUringRequest};
use std::collections::HashMap;

/// Files that requests are carried out on at once.
struct Ring {
    ids: UserDataCounter,
    files: HashMap<String, Vec<u8>>,
}

impl Ring {
    fn carry_out(&mut self, manager: &mut IoUringManager, request: IoUringRequest) -> Reply {
        let admission = manager.handle_request(&mut self.ids, request);
        if let Some(flags) = admission.open {
            let path = match &admission.request {
                IoUringRequest::Write { path, .. } | IoUringRequest::Read { path, .. } => path,
            };
            let file = self.files.entry(path.clone()).or_default();
            if flags.truncate {
                file.clear();
            }
            manager.file_opened(&admission, true).unwrap();
        }
        manager.pushed(&admission, true).unwrap();
        assert_eq!(manager.next_move(true), NextMove::AwaitCompletion);
        let user_data = admission.user_data;
        let (result, buf) = match admission.request {
            IoUringRequest::Write { path, offset, data } => {
                let file = self.files.get_mut(&path).unwrap();
                let from = offset as usize;
                file.resize(file.len().max(from + data.len()), 0);
                file[from..from + data.len()].copy_from_slice(&data);
                (data.len() as i32, Vec::new())
            }
            IoUringRequest::Read { path, offset, len } => {
                let file = &self.files[&path];
                let from = (offset as usize).min(file.len());
                let n = len.min(file.len() - from);
                let mut buf = vec![0; len];
                buf[..n].copy_from_slice(&file[from..from + n]);
                (n as i32, buf)
            }
        };
        let mut deliveries = manager.process_completions(vec![Completion {
            user_data,
            result,
            buf,
        }]);
        let (to, reply) = deliveries.pop().unwrap();
        assert_eq!(to, user_data);
        assert_eq!(manager.next_move(true), NextMove::AwaitRequest);
        reply.unwrap()
    }
}

#[test]
fn test_io_uring_write_read() {
    let mut manager = IoUringManager::new();
    let mut ring = Ring {
        ids: UserDataCounter::new(),
        files: HashMap::new(),
    };
    let test_file_path = "/tmp/io_uring_test_file.txt".to_string();
    let write_data = b"Hello, io_uring from prototype!";

    let write_result = ring.carry_out(
        &mut manager,
        IoUringRequest::Write {
            path: test_file_path.clone(),
            offset: 0,
            data: write_data.to_vec(),
        },
    );
    assert_eq!(
        write_result,
        Reply::Wrote(Ok(write_data.len())),
        "Incorrect bytes written"
    );

    let read_result = ring.carry_out(
        &mut manager,
        IoUringRequest::Read {
            path: test_file_path.clone(),
            offset: 0,
            len: write_data.len(),
        },
    );
    assert_eq!(
        read_result,
        Reply::Got(Ok(write_data.to_vec())),
        "Incorrect bytes content read"
    );

    // A read past the end is cut short.
    let tail = ring.carry_out(
        &mut manager,
        IoUringRequest::Read {
            path: test_file_path,
            offset: 20,
            len: 100,
        },
    );
    assert_eq!(tail, Reply::Got(Ok(write_data[20..].to_vec())));
}

fn read(path: &str) -> IoUringRequest {
    IoUringRequest::Read {
        path: path.to_string(),
        offset: 0,
        len: 4,
    }
}

fn written(path: &str) -> IoUringRequest {
    IoUringRequest::Write {
        path: path.to_string(),
        offset: 0,
        data: b"data".to_vec(),
    }
}

#[test]
fn a_file_is_opened_for_its_first_request() {
    let mut ids = UserDataCounter::new();
    let mut manager = IoUringManager::new();
    let first = manager.handle_request(&mut ids, read("a"));
    assert_eq!(
        first.open,
        Some(OpenFlags {
            create: false,
            write: false,
            read: true,
            truncate: false
        })
    );
    assert_eq!(first.user_data, 1);
    // A failed open is tried again with the next request.
    assert_eq!(
        manager.file_opened(&first, false),
        Err(UringError::OpenFailed)
    );
    let second = manager.handle_request(&mut ids, written("a"));
    assert_eq!(
        second.open,
        Some(OpenFlags {
            create: true,
            write: true,
            read: true,
            truncate: true
        })
    );
    assert_eq!(second.user_data, 2);
    manager.file_opened(&second, true).unwrap();
    assert_eq!(manager.handle_request(&mut ids, read("a")).open, None);
    assert_eq!(manager.handle_request(&mut ids, written("a")).open, None);
    assert!(manager.handle_request(&mut ids, read("b")).open.is_some());
}

#[test]
fn a_file_open_for_reading_is_opened_again_to_write() {
    let mut ids = UserDataCounter::new();
    let mut manager = IoUringManager::new();
    let first = manager.handle_request(&mut ids, read("a"));
    manager.file_opened(&first, true).unwrap();
    assert_eq!(manager.handle_request(&mut ids, read("a")).open, None);
    let to_write = OpenFlags {
        create: true,
        write: true,
        read: true,
        truncate: true,
    };
    // The handle at hand is no use for a write, and stays so if opening fails.
    let second = manager.handle_request(&mut ids, written("a"));
    assert_eq!(second.open, Some(to_write));
    assert_eq!(
        manager.file_opened(&second, false),
        Err(UringError::OpenFailed)
    );
    assert_eq!(manager.handle_request(&mut ids, read("a")).open, None);
    let third = manager.handle_request(&mut ids, written("a//"));
    assert_eq!(third.open, Some(to_write));
    manager.file_opened(&third, true).unwrap();
    for request in [written("a"), read("a/"), written("a")] {
        assert_eq!(manager.handle_request(&mut ids, request).open, None);
    }
}

#[test]
fn a_full_queue_leaves_nothing_pending() {
    let mut ids = UserDataCounter::new();
    let mut manager = IoUringManager::new();
    let admission = manager.handle_request(&mut ids, written("a"));
    assert_eq!(
        manager.pushed(&admission, false),
        Err(UringError::QueueFull)
    );
    assert_eq!(QUEUE_FULL, "Submission queue full");
    assert_eq!(manager.next_move(true), NextMove::AwaitRequest);
    assert_eq!(manager.next_move(false), NextMove::Stop);
}

#[test]
fn every_operation_is_answered_once() {
    let mut ids = UserDataCounter::new();
    let mut manager = IoUringManager::new();
    let a = manager.handle_request(&mut ids, written("a"));
    let b = manager.handle_request(&mut ids, read("b"));
    let c = manager.handle_request(&mut ids, read("c"));
    for admission in [&a, &b, &c] {
        manager.pushed(admission, true).unwrap();
    }
    let completion = |user_data: u64, result: i32, buf: &[u8]| Completion {
        user_data,
        result,
        buf: buf.to_vec(),
    };
    let deliveries = manager.process_completions(vec![
        completion(b.user_data, 2, b"byte"),
        completion(a.user_data, -5, b""),
        completion(b.user_data, 2, b"byte"),
        completion(99, 1, b""),
        completion(c.user_data, -2, b"byte"),
    ]);
    assert_eq!(
        deliveries,
        vec![
            (2, Some(Reply::Got(Ok(b"by".to_vec())))),
            (1, Some(Reply::Wrote(Err(UringError::Os(5))))),
            (2, None),
            (99, None),
            (3, Some(Reply::Got(Err(UringError::Os(2))))),
        ]
    );
    assert_eq!(manager.next_move(true), NextMove::AwaitRequest);
}

#[test]
fn spellings_of_one_path_are_one_file() {
    let mut ids = UserDataCounter::new();
    let mut manager = IoUringManager::new();
    let first = manager.handle_request(&mut ids, written("/tmp/x"));
    manager.file_opened(&first, true).unwrap();
    for same in ["/tmp//x", "//tmp/x", "/tmp/./x", "/./tmp/x", "/tmp/x/", "/tmp/x/."] {
        assert_eq!(manager.handle_request(&mut ids, written(same)).open, None);
        assert!(PathKey::of(same).same(&PathKey::of("/tmp/x")));
    }
    for other in ["tmp/x", "/tmp/y", "/tmp/x/y", "/tmp/../x", "/tmp/.x", ""] {
        assert!(manager.handle_request(&mut ids, written(other)).open.is_some());
    }
    assert!(PathKey::of("a/./b").same(&PathKey::of("a/b")));
    assert!(!PathKey::of("./a").same(&PathKey::of("a")));
    assert!(!PathKey::of(".").same(&PathKey::of("")));
    assert!(!PathKey::of(".").same(&PathKey::of("/")));
    assert!(PathKey::of("./a").same(&PathKey::of(".//a/.")));
}

#[test]
fn path_components_agree_with_the_standard_library() {
    let paths = [
        "", ".", "/", "..", "a", "./a", "a/.", "/a", "//a", "a//b", "a/./b", "a/b/", "/./a",
        "././a", "a/..", "..a", "./", "/.", "é/ß", "é//ß",
    ];
    for a in paths {
        for b in paths {
            assert_eq!(
                PathKey::of(a).same(&PathKey::of(b)),
                std::path::Path::new(a) == std::path::Path::new(b),
                "{a:?} {b:?}"
            );
        }
    }
}

#[test]
fn managers_that_share_a_counter_share_no_id() {
    let mut ids = UserDataCounter::new();
    let a = IoUringManager::new();
    let b = IoUringManager::new();
    let handed_out: Vec<u64> = vec![
        a.handle_request(&mut ids, read("f")).user_data,
        b.handle_request(&mut ids, read("f")).user_data,
        a.handle_request(&mut ids, read("f")).user_data,
        ids.get_next_user_data(),
    ];
    assert_eq!(handed_out, vec![1, 2, 3, 4]);
}
