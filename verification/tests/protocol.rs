use libzmq::inproc::INPROC_SCHEME;
use libzmq::zmtp::SUPPORTED_ZMTP_VERSIONS;

#[test]
fn zmtp_31_remains_in_scope() {
    assert!(SUPPORTED_ZMTP_VERSIONS.contains(&(3, 1)));
}

#[test]
fn inproc_scheme_is_first_transport_anchor() {
    assert_eq!(INPROC_SCHEME, "inproc");
}
