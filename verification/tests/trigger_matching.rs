use xrds_runtime::triggers::{matching_bindings, XrdsHand, XrdsTriggerBindingKey};

fn binding(trigger: u64, hand: Option<XrdsHand>, disabled: bool) -> XrdsTriggerBindingKey {
    XrdsTriggerBindingKey { trigger, hand, disabled }
}

#[test]
fn only_enabled_bindings_of_the_kind_run() {
    let bindings = vec![binding(1, None, false), binding(2, None, false), binding(1, None, true), binding(1, None, false)];
    assert_eq!(matching_bindings(&bindings, 1, None), vec![0, 3]);
    assert!(matching_bindings(&bindings, 7, None).is_empty());
}

#[test]
fn a_hand_limited_binding_needs_that_hand() {
    let bindings = vec![binding(3, Some(XrdsHand::Left), false), binding(3, None, false), binding(3, Some(XrdsHand::Right), false)];
    assert_eq!(matching_bindings(&bindings, 3, Some(XrdsHand::Left)), vec![0, 1]);
    assert_eq!(matching_bindings(&bindings, 3, Some(XrdsHand::Right)), vec![1, 2]);
    assert_eq!(matching_bindings(&bindings, 3, None), vec![1]);
}
