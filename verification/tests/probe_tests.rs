use edge_cdn_store::layout::DiskPath;
use edge_cdn_store::probe::{DiskOpen, OpenAction, OpenEvent, OpenOutcome};
use edge_cdn_store::{ErrorKind, MetaBytes, StoreError};

fn opening() -> DiskOpen {
    DiskOpen::new(DiskPath {
        components: vec!["root".to_string(), "entry".to_string()],
    })
}

fn name(path: &DiskPath) -> &str {
    &path.components[path.components.len() - 1]
}

/// The event that lets things go on, and a note of what was asked.
fn go_on(action: &OpenAction) -> (OpenEvent, String) {
    match action {
        OpenAction::Exists { path } => (OpenEvent::Exists(true), format!("exists {}", name(path))),
        OpenAction::OpenFile { path } => (OpenEvent::Opened, format!("open {}", name(path))),
        OpenAction::ReadToEnd { path } => (
            OpenEvent::Content(name(path).as_bytes().to_vec()),
            format!("read {}", name(path)),
        ),
    }
}

#[test]
fn an_entry_is_opened_in_eight_steps() {
    let mut open = opening();
    let mut log = Vec::new();
    loop {
        let (event, note) = go_on(&open.action());
        log.push(note);
        match open.handle(event) {
            OpenOutcome::Continue => {}
            OpenOutcome::Found(meta) => {
                assert_eq!(
                    meta,
                    MetaBytes {
                        internal: b"meta_internal.bin".to_vec(),
                        header: b"meta_header.bin".to_vec(),
                    }
                );
                break;
            }
            other => panic!("{:?}", other),
        }
    }
    assert_eq!(
        log,
        vec![
            "exists body.bin",
            "exists meta_header.bin",
            "exists meta_internal.bin",
            "open meta_internal.bin",
            "read meta_internal.bin",
            "open meta_header.bin",
            "read meta_header.bin",
            "open body.bin",
        ]
    );
}

#[test]
fn one_missing_file_makes_the_entry_absent() {
    for missing in 0..3 {
        let mut open = opening();
        for _ in 0..missing {
            assert_eq!(
                open.handle(OpenEvent::Exists(true)),
                OpenOutcome::Continue
            );
        }
        assert_eq!(open.handle(OpenEvent::Exists(false)), OpenOutcome::Absent);
    }
}

#[test]
fn every_stage_has_its_error() {
    let expected = [
        (ErrorKind::InternalError, "check body exists"),
        (ErrorKind::InternalError, "check header meta exists"),
        (ErrorKind::InternalError, "check internal meta exists"),
        (ErrorKind::FileOpenError, "open internal meta file"),
        (ErrorKind::FileReadError, "read internal meta file"),
        (ErrorKind::FileOpenError, "open header meta file"),
        (ErrorKind::FileReadError, "read header meta file"),
        (ErrorKind::FileOpenError, "open body file"),
    ];
    for (stage, (kind, context)) in expected.into_iter().enumerate() {
        let mut open = opening();
        for pause in [10, 20] {
            assert_eq!(
                open.handle(OpenEvent::Failed),
                OpenOutcome::Retry { after_ms: pause }
            );
        }
        for _ in 0..stage {
            let (event, _) = go_on(&open.action());
            assert_eq!(open.handle(event), OpenOutcome::Continue);
        }
        assert_eq!(
            open.handle(OpenEvent::Failed),
            OpenOutcome::Failed(StoreError::Disk { kind, context })
        );
    }
}

#[test]
fn a_failure_starts_over() {
    let mut open = opening();
    assert_eq!(open.handle(OpenEvent::Exists(true)), OpenOutcome::Continue);
    let first = opening().action();
    assert_ne!(open.action(), first);
    assert_eq!(
        open.handle(OpenEvent::Failed),
        OpenOutcome::Retry { after_ms: 10 }
    );
    assert_eq!(open.action(), first);
}
