use libzmq::socket::{SocketMigrationFamily, INPROC_FIRST_FAMILIES};

#[test]
fn inproc_slice_starts_with_core_socket_families() {
    assert!(INPROC_FIRST_FAMILIES.contains(&SocketMigrationFamily::Pair));
    assert!(INPROC_FIRST_FAMILIES.contains(&SocketMigrationFamily::ReqRep));
}
