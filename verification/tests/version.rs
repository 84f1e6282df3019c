use libzmq::version::version;
use libzmq::RUST_REWRITE_PROBE_VERSION;

#[test]
fn version_matches_current_header_constants() {
    assert_eq!(version().major, 4);
    assert_eq!(version().minor, 3);
    assert_eq!(version().patch, 6);
}

#[test]
fn probe_version_is_one() {
    assert_eq!(RUST_REWRITE_PROBE_VERSION, 1);
}
