use samply_symbols::file_contents::{FileContents, FileReadError, FileReadStats};
use samply_symbols::launch_protocol::{
    decide_child_resume_read, decide_unsuspend_read, encode_execerr_message, ChildDecision,
    PipeReadOutcome, UnsuspendDecision,
};
use samply_symbols::shared::{relative_address_base, BasePath, FileLocation, FilePath};
use samply_symbols::FileContentsWrapper;

fn assert_is_send<T: Send>() {}

fn assert_is_sync<T: Sync>() {}

#[allow(unused)]
fn wrapper_is_send_and_sync<T: FileContents + Sync>() {
    assert_is_send::<&FileContentsWrapper<T>>();
    assert_is_sync::<&FileContentsWrapper<T>>();
}

#[test]
fn test_filecontents_readref_is_send_and_sync() {
    wrapper_is_send_and_sync::<Vec<u8>>();
}

#[test]
fn wrapper_reads_slices() {
    let w = FileContentsWrapper::new(b"hello world".to_vec());
    assert_eq!(w.len(), 11);
    assert!(!w.is_empty());
    assert_eq!(w.read_bytes_at(6, 5).unwrap(), b"world");
    assert_eq!(w.read_bytes_at(6, 6).unwrap_err(), FileReadError::InvalidInput);
    assert_eq!(w.read_entire_data().unwrap(), b"hello world");
}

#[test]
fn wrapper_reads_until_delimiter() {
    let w = FileContentsWrapper::new(b"alpha\nbeta\n".to_vec());
    assert_eq!(w.read_bytes_at_until(0, 11, 10).unwrap(), b"alpha");
    assert_eq!(w.read_bytes_at_until(6, 11, 10).unwrap(), b"beta");
    assert_eq!(w.read_bytes_at_until(0, 5, 10).unwrap_err(), FileReadError::NotFound);
}

#[test]
fn wrapper_reads_into_buffer() {
    let w = FileContentsWrapper::new(b"abcdef".to_vec());
    let mut buf = b"xy".to_vec();
    w.read_bytes_into(&mut buf, 2, 3).unwrap();
    assert_eq!(buf, b"xycde".to_vec());
}

#[test]
fn range_read_ref_shifts_offsets() {
    let w = FileContentsWrapper::new(b"0123456789".to_vec());
    let r = w.range(2, 6);
    assert_eq!(r.range_start(), 2);
    assert_eq!(r.range_size(), 6);
    assert_eq!(r.read_bytes_at(0, 3).unwrap(), b"234");
    let sub = r.make_subrange(1, 4);
    assert_eq!(sub.read_bytes_at(0, 4).unwrap(), b"3456");
    let full = w.full_range();
    assert_eq!(full.read_bytes_at(0, 10).unwrap(), b"0123456789");
}

#[test]
fn read_stats_counts_unique_chunks() {
    let mut stats = FileReadStats::new(100_000);
    assert_eq!(stats.unique_bytes_read(), 0);
    stats.record_read(0, 10);
    assert_eq!(stats.unique_bytes_read(), 32768);
    stats.record_read(0, 10);
    assert_eq!(stats.unique_bytes_read(), 32768);
    stats.record_read(40_000, 1);
    assert_eq!(stats.unique_bytes_read(), 65536);
    stats.record_read(0, 0);
    assert_eq!(stats.unique_bytes_read(), 65536);
}

#[test]
fn execerr_message_round_trip() {
    let bytes = encode_execerr_message(0x00001234);
    assert_eq!(bytes.len(), 8);
    assert_eq!(&bytes[4..], b"NOEX");
    let decision = decide_unsuspend_read(&PipeReadOutcome::Read(8), &bytes);
    assert_eq!(decision, UnsuspendDecision::FailWithErrno(0x1234));
}

#[test]
fn unsuspend_decisions() {
    let empty: Vec<u8> = Vec::new();
    assert_eq!(
        decide_unsuspend_read(&PipeReadOutcome::Read(0), &empty),
        UnsuspendDecision::Proceed
    );
    let short = vec![1, 2, 3];
    assert_eq!(
        decide_unsuspend_read(&PipeReadOutcome::Read(3), &short),
        UnsuspendDecision::ProtocolError
    );
    let bad_footer = vec![0, 0, 0, 5, 88, 88, 88, 88];
    assert_eq!(
        decide_unsuspend_read(&PipeReadOutcome::Read(8), &bad_footer),
        UnsuspendDecision::ProtocolError
    );
    assert_eq!(
        decide_unsuspend_read(&PipeReadOutcome::Interrupted, &empty),
        UnsuspendDecision::Retry
    );
    assert_eq!(
        decide_unsuspend_read(&PipeReadOutcome::OtherError, &empty),
        UnsuspendDecision::Abandon
    );
}

#[test]
fn child_resume_decisions() {
    assert_eq!(decide_child_resume_read(&PipeReadOutcome::Read(0)), ChildDecision::ExitQuietly);
    assert_eq!(decide_child_resume_read(&PipeReadOutcome::Read(1)), ChildDecision::Exec);
    assert_eq!(decide_child_resume_read(&PipeReadOutcome::Interrupted), ChildDecision::Retry);
    assert_eq!(
        decide_child_resume_read(&PipeReadOutcome::OtherError),
        ChildDecision::ExitWithError
    );
}

#[test]
fn file_location_strings_and_base_paths() {
    let local = FileLocation::Path("/usr/lib/libx.so".to_string());
    assert_eq!(local.to_string_lossy(), "/usr/lib/libx.so".to_string());
    match local.to_base_path() {
        BasePath::CanReferToLocalFiles(dir) => assert_eq!(dir, "/usr/lib".to_string()),
        _ => panic!("expected a local base path"),
    }
    let bare = FileLocation::Path("libx.so".to_string());
    match bare.to_base_path() {
        BasePath::CanReferToLocalFiles(dir) => assert_eq!(dir, "".to_string()),
        _ => panic!("expected a local base path"),
    }
    match FileLocation::Path("/".to_string()).to_base_path() {
        BasePath::CanReferToLocalFiles(dir) => assert_eq!(dir, "/".to_string()),
        _ => panic!("expected a local base path"),
    }
    match FileLocation::Path("/libx.so".to_string()).to_base_path() {
        BasePath::CanReferToLocalFiles(dir) => assert_eq!(dir, "/".to_string()),
        _ => panic!("expected a local base path"),
    }
    match FileLocation::Path("a/b/".to_string()).to_base_path() {
        BasePath::CanReferToLocalFiles(dir) => assert_eq!(dir, "a".to_string()),
        _ => panic!("expected a local base path"),
    }
    let custom = FileLocation::Custom("sym:token".to_string());
    assert_eq!(custom.to_string_lossy(), "sym:token".to_string());
    match custom.to_base_path() {
        BasePath::NoLocalSourceFileAccess => {}
        _ => panic!("expected no local source access"),
    }
}

#[test]
fn file_path_forms() {
    let local = FilePath::Local("/src/main.rs".to_string());
    assert_eq!(local.mapped_path(), "/src/main.rs".to_string());
    assert_eq!(local.local_path().unwrap(), &"/src/main.rs".to_string());
    let mapped = FilePath::LocalMapped {
        local: "/checkout/lib.rs".to_string(),
        mapped: "git:repo:lib.rs".to_string(),
    };
    assert_eq!(mapped.mapped_path(), "git:repo:lib.rs".to_string());
    assert_eq!(mapped.local_path().unwrap(), &"/checkout/lib.rs".to_string());
    let non_local = FilePath::NonLocal("C:\\build\\x.cpp".to_string());
    assert_eq!(non_local.mapped_path(), "C:\\build\\x.cpp".to_string());
    assert!(non_local.local_path().is_none());
    assert_eq!(non_local.clone().into_mapped_path(), "C:\\build\\x.cpp".to_string());
    assert!(FilePath::NonLocal("x".to_string()).into_local_path().is_none());
    assert_eq!(
        FilePath::Local("/a".to_string()).into_local_path().unwrap(),
        "/a".to_string()
    );
}

#[test]
fn relative_address_base_rules() {
    assert_eq!(relative_address_base(Some(0x100000000), Some(0x2000), 0x5000), 0x100000000);
    assert_eq!(relative_address_base(None, Some(0xffffffff81000000), 0), 0xffffffff81000000);
    assert_eq!(relative_address_base(None, Some(0x2000), 0x5000), 0x5000);
    assert_eq!(relative_address_base(None, None, 0x400000), 0x400000);
}
