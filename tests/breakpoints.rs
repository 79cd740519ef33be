use udbserver::error::{memory_error, memory_result, AdapterError, EngineError, Transfer};
use udbserver::registry::{watch_range, HookKey, HookRegistry, WatchKind};

#[test]
fn add_then_remove_software_breakpoint_leaves_registry_empty() {
    for &addr in &[0u64, 0x1000, u64::MAX] {
        let mut reg: HookRegistry<u32> = HookRegistry::new();
        let (added, displaced) = reg.record_install(HookKey::Software(addr), Some(7));
        assert!(added);
        assert_eq!(displaced, None);
        assert!(reg.contains(HookKey::Software(addr)));
        assert_eq!(reg.remove(HookKey::Software(addr)), Some(7));
        assert!(reg.is_empty());
    }
}

#[test]
fn remove_never_added_breakpoint_is_false() {
    let mut reg: HookRegistry<u32> = HookRegistry::new();
    reg.record_install(HookKey::Software(0x10), Some(1));
    assert_eq!(reg.remove(HookKey::Software(0x20)), None);
    assert_eq!(reg.remove(HookKey::Hardware(0x10)), None);
    assert_eq!(reg.len(), 1);
}

#[test]
fn refused_install_leaves_registry_unchanged() {
    let mut reg: HookRegistry<u32> = HookRegistry::new();
    let (added, displaced) = reg.record_install(HookKey::Hardware(4), None);
    assert!(!added);
    assert_eq!(displaced, None);
    assert!(reg.is_empty());
}

#[test]
fn re_adding_hands_back_displaced_handle() {
    let mut reg: HookRegistry<u32> = HookRegistry::new();
    reg.record_install(HookKey::Software(8), Some(1));
    let (added, displaced) = reg.record_install(HookKey::Software(8), Some(2));
    assert!(added);
    assert_eq!(displaced, Some(1));
    assert_eq!(reg.len(), 1);
    assert_eq!(reg.remove(HookKey::Software(8)), Some(2));
}

#[test]
fn read_and_write_watches_on_same_range_are_independent() {
    let mut reg: HookRegistry<u32> = HookRegistry::new();
    let w = HookKey::Watch { addr: 0x2000, len: 4, kind: WatchKind::Write };
    let r = HookKey::Watch { addr: 0x2000, len: 4, kind: WatchKind::Read };
    assert!(reg.record_install(w, Some(1)).0);
    assert!(reg.record_install(r, Some(2)).0);
    assert_eq!(reg.len(), 2);
    assert_eq!(reg.remove(r), Some(2));
    assert!(reg.contains(w));
    assert_eq!(reg.remove(w), Some(1));
    assert!(reg.is_empty());
}

#[test]
fn watch_removal_needs_exact_address_length_kind() {
    let mut reg: HookRegistry<u32> = HookRegistry::new();
    reg.record_install(HookKey::Watch { addr: 0x10, len: 8, kind: WatchKind::ReadWrite }, Some(3));
    reg.record_install(HookKey::Watch { addr: 0x10, len: 4, kind: WatchKind::ReadWrite }, Some(4));
    assert_eq!(reg.remove(HookKey::Watch { addr: 0x10, len: 2, kind: WatchKind::ReadWrite }), None);
    assert_eq!(reg.remove(HookKey::Watch { addr: 0x10, len: 8, kind: WatchKind::Read }), None);
    assert_eq!(reg.remove(HookKey::Watch { addr: 0x10, len: 8, kind: WatchKind::ReadWrite }), Some(3));
    assert_eq!(reg.len(), 1);
}

#[test]
fn watch_ranges() {
    assert_eq!(watch_range(0x1000, 4), Some((0x1000, 0x1003)));
    assert_eq!(watch_range(0x1000, 1), Some((0x1000, 0x1000)));
    assert_eq!(watch_range(0x1000, 0), None);
    assert_eq!(watch_range(u64::MAX, 1), Some((u64::MAX, u64::MAX)));
    assert_eq!(watch_range(u64::MAX, 2), None);
}

#[test]
fn unmapped_read_is_recoverable_and_later_read_succeeds() {
    let first = memory_result(Transfer::Read, Err(EngineError::ReadUnmapped));
    assert_eq!(first, Err(AdapterError::RecoverableMemoryFault));
    assert!(!AdapterError::RecoverableMemoryFault.is_fatal());
    assert_eq!(AdapterError::RecoverableMemoryFault.errno(), Some(1));
    assert_eq!(memory_result(Transfer::Read, Ok(())), Ok(()));
}

#[test]
fn other_memory_failures_are_fatal() {
    assert_eq!(memory_error(Transfer::Write, EngineError::WriteUnmapped), AdapterError::RecoverableMemoryFault);
    assert_eq!(memory_error(Transfer::Read, EngineError::WriteUnmapped), AdapterError::FatalEngineFailure);
    assert_eq!(memory_error(Transfer::Write, EngineError::ReadUnmapped), AdapterError::FatalEngineFailure);
    assert_eq!(memory_error(Transfer::Read, EngineError::Other), AdapterError::FatalEngineFailure);
    assert!(AdapterError::FatalEngineFailure.is_fatal());
    assert_eq!(AdapterError::FatalEngineFailure.errno(), None);
    assert!(!AdapterError::UnknownRegister.is_fatal());
    assert!(!AdapterError::UnsupportedOperation.is_fatal());
}

#[test]
fn refused_removal_puts_handle_back() {
    let mut reg: HookRegistry<u32> = HookRegistry::new();
    reg.record_install(HookKey::Hardware(0x30), Some(9));
    let h = reg.remove(HookKey::Hardware(0x30)).unwrap();
    assert!(!reg.finish_removal(HookKey::Hardware(0x30), h, false));
    assert!(reg.contains(HookKey::Hardware(0x30)));
    assert_eq!(reg.len(), 1);
    assert_eq!(reg.remove(HookKey::Hardware(0x30)), Some(9));
}

#[test]
fn released_removal_leaves_entry_gone() {
    let mut reg: HookRegistry<u32> = HookRegistry::new();
    reg.record_install(HookKey::Software(0x30), Some(9));
    let h = reg.remove(HookKey::Software(0x30)).unwrap();
    assert!(reg.finish_removal(HookKey::Software(0x30), h, true));
    assert!(reg.is_empty());
}
