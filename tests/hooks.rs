use unicorn::error::Error;
use unicorn::hooks::{HookRegistry, HookType};

#[test]
fn code_hook_fires_only_in_its_range() {
    let mut reg = HookRegistry::new();
    let id = reg.add(HookType::Code, 0x1000, 0x1010).unwrap();
    assert_eq!(reg.dispatch(HookType::Code, 0x1000), vec![id]);
    assert_eq!(reg.dispatch(HookType::Code, 0x100f), vec![id]);
    assert!(reg.dispatch(HookType::Code, 0x1010).is_empty());
    assert!(reg.dispatch(HookType::Code, 0xfff).is_empty());
    assert!(reg.dispatch(HookType::Block, 0x1000).is_empty());
}

#[test]
fn hooks_fire_in_registration_order() {
    let mut reg = HookRegistry::new();
    let a = reg.add(HookType::MemWrite, 0, 0).unwrap();
    let b = reg.add(HookType::MemWrite, 0x10, 0x20).unwrap();
    let c = reg.add(HookType::MemWrite, 0, 0).unwrap();
    assert_eq!(reg.dispatch(HookType::MemWrite, 0x18), vec![a, b, c]);
    assert_eq!(reg.dispatch(HookType::MemWrite, 0x40), vec![a, c]);
}

#[test]
fn removed_hook_no_longer_fires() {
    let mut reg = HookRegistry::new();
    let a = reg.add(HookType::Code, 0, 0).unwrap();
    let b = reg.add(HookType::Code, 0, 0).unwrap();
    assert_eq!(reg.remove(a), Ok(()));
    assert_eq!(reg.dispatch(HookType::Code, 5), vec![b]);
    assert_eq!(reg.remove(a), Err(Error::Arg));
}

#[test]
fn empty_scope_is_refused() {
    let mut reg = HookRegistry::new();
    assert_eq!(reg.add(HookType::Code, 0x20, 0x20), Err(Error::Arg));
    assert_eq!(reg.add(HookType::Code, 0x30, 0x20), Err(Error::Arg));
}

#[test]
fn hook_ids_are_distinct() {
    let mut reg = HookRegistry::new();
    let a = reg.add(HookType::Intr, 0, 0).unwrap();
    let b = reg.add(HookType::Intr, 0, 0).unwrap();
    assert_ne!(a, b);
}
