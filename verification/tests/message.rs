use libzmq::message::{MessagePlan, MessageStorageKind};

#[test]
fn empty_message_plan_has_zero_size() {
    let plan = MessagePlan::empty();
    assert_eq!(plan.storage(), MessageStorageKind::Empty);
    assert_eq!(plan.size(), 0);
}

#[test]
fn non_empty_message_plan_uses_heap_until_layout_is_ported() {
    let plan = MessagePlan::sized(8);
    assert_eq!(plan.storage(), MessageStorageKind::Heap);
    assert_eq!(plan.size(), 8);
}

#[test]
fn zero_sized_plan_is_empty() {
    let plan = MessagePlan::sized(0);
    assert_eq!(plan.storage(), MessageStorageKind::Empty);
    assert_eq!(plan.size(), 0);
    assert_eq!(plan, MessagePlan::empty());
}

#[test]
fn non_empty_plan_differs_from_empty() {
    assert_ne!(MessagePlan::sized(3), MessagePlan::empty());
    assert_eq!(MessagePlan::sized(3), MessagePlan::sized(3));
}
