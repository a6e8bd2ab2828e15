use spytrap_engine::collector::{
    assemble, granted_permissions, read_listing, trim_start, unique_names, unique_packages,
    DeviceQueryError,
};
use spytrap_engine::digest::from_hex;
use spytrap_engine::engine::Package;
use spytrap_engine::repository::{
    decode_state, encode_state, judge_fetch, FetchError, RepositoryState,
};
use spytrap_engine::text::{copy_list, find_first};

fn b(s: &str) -> Vec<u8> {
    s.as_bytes().to_vec()
}

fn package(id: &str, label: &str) -> Package {
    Package { id: b(id), label: b(label), permissions: vec![b("P")], installer: b("store") }
}

#[test]
fn failed_queries_fail_the_snapshot() {
    let r = assemble(Err(DeviceQueryError::Unreachable), Ok(vec![]));
    assert!(matches!(r, Err(DeviceQueryError::Unreachable)));
    let r = assemble(Ok(vec![]), Err(DeviceQueryError::Rejected));
    assert!(matches!(r, Err(DeviceQueryError::Rejected)));
    let r = assemble(Err(DeviceQueryError::Rejected), Err(DeviceQueryError::Unreachable));
    assert!(matches!(r, Err(DeviceQueryError::Rejected)));
}

#[test]
fn empty_answers_make_an_empty_snapshot() {
    let a = assemble(Ok(vec![]), Ok(vec![])).unwrap();
    assert!(a.packages.is_empty());
    assert!(a.processes.is_empty());
}

#[test]
fn snapshot_keeps_first_records_in_order() {
    let a = assemble(
        Ok(vec![package("a", "first"), package("b", "B"), package("a", "second"), package("c", "C")]),
        Ok(vec![b("init"), b("sh"), b("init"), b("sh"), b("adbd")]),
    )
    .unwrap();
    let ids: Vec<Vec<u8>> = a.packages.iter().map(|p| p.id.clone()).collect();
    assert_eq!(ids, vec![b("a"), b("b"), b("c")]);
    assert_eq!(a.packages[0].label, b("first"));
    assert_eq!(a.packages[0].permissions, vec![b("P")]);
    assert_eq!(a.packages[0].installer, b("store"));
    assert_eq!(a.processes, vec![b("init"), b("sh"), b("adbd")]);
}

#[test]
fn unique_helpers() {
    assert_eq!(unique_names(&vec![b("x"), b("x"), b("y"), b("x")]), vec![b("x"), b("y")]);
    assert_eq!(unique_names(&vec![]), Vec::<Vec<u8>>::new());
    let out = unique_packages(&vec![package("a", "1"), package("a", "2")]);
    assert_eq!(out.len(), 1);
    assert_eq!(out[0].label, b("1"));
    assert_eq!(copy_list(&vec![b("x"), b(""), b("y")]), vec![b("x"), b(""), b("y")]);
}

#[test]
fn listing_lines_by_tag() {
    let out = b("package:com.a\npackage:com.b\nwarning: x\npackage:\n\npackage:com.c");
    assert_eq!(read_listing(&out, &b("package:")), vec![b("com.a"), b("com.b"), b("com.c")]);
    assert_eq!(read_listing(&b("NAME\ninit\n\nsh\n"), &b("")), vec![b("NAME"), b("init"), b("sh")]);
    assert_eq!(read_listing(&b(""), &b("")), Vec::<Vec<u8>>::new());
}

#[test]
fn granted_permissions_of_a_dump() {
    let dump = b("Packages:\n    install permissions:\n      android.permission.INTERNET: granted=true\n      android.permission.CAMERA: granted=false\n      android.permission.READ_SMS: granted=true, flags=[ USER_SET ]\n");
    assert_eq!(
        granted_permissions(&dump),
        vec![b("android.permission.INTERNET"), b("android.permission.READ_SMS")]
    );
    assert_eq!(granted_permissions(&b("")), Vec::<Vec<u8>>::new());
    assert_eq!(trim_start(&b("   a b ")), b("a b "));
    assert_eq!(trim_start(&b("   ")), b(""));
    assert_eq!(find_first(&b("a:b:c"), 58), 1);
    assert_eq!(find_first(&b("abc"), 58), 3);
}

#[test]
fn hexadecimal_reads_back() {
    assert_eq!(from_hex(&b("00090a0f10abff")), Some(vec![0, 9, 10, 15, 16, 171, 255]));
    assert_eq!(from_hex(&b("")), Some(vec![]));
    assert_eq!(from_hex(&b("abc")), None);
    assert_eq!(from_hex(&b("AB")), None);
    assert_eq!(from_hex(&b("0g")), None);
    assert_eq!(from_hex(&b("g0")), None);
}

#[test]
fn state_record_round_trip() {
    let with = RepositoryState { fingerprint: vec![1, 171, 255], revision: Some(b("deadbeef")) };
    let record = encode_state(&with);
    assert_eq!(record, b("01abff\ndeadbeef"));
    let back = decode_state(&record).unwrap();
    assert_eq!(back.fingerprint, vec![1, 171, 255]);
    assert_eq!(back.revision, Some(b("deadbeef")));
    let without = RepositoryState { fingerprint: vec![16], revision: None };
    let record = encode_state(&without);
    assert_eq!(record, b("10"));
    let back = decode_state(&record).unwrap();
    assert_eq!(back.fingerprint, vec![16]);
    assert_eq!(back.revision, None);
    assert!(decode_state(&b("xyz\nrev")).is_none());
    let empty_revision = decode_state(&b("10\n")).unwrap();
    assert_eq!(empty_revision.revision, Some(b("")));
}

#[test]
fn fetch_answers_are_judged_by_status() {
    assert_eq!(judge_fetch(Some(200), b("doc")), Ok(b("doc")));
    assert_eq!(judge_fetch(Some(299), b("doc")), Ok(b("doc")));
    assert_eq!(judge_fetch(Some(404), b("no")), Err(FetchError::NotFound));
    assert_eq!(judge_fetch(Some(500), b("no")), Err(FetchError::Server));
    assert_eq!(judge_fetch(Some(199), b("no")), Err(FetchError::Server));
    assert_eq!(judge_fetch(Some(300), b("no")), Err(FetchError::Server));
    assert_eq!(judge_fetch(None, b("")), Err(FetchError::Network));
}
