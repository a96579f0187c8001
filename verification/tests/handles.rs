use java_bindings::error::{unwrap_exc_or, BridgeError, Unwound};
use java_bindings::handle::{Handle, HandleTable, MAX_GENERATION, NULL_HANDLE};

#[test]
fn raw_value_holds_generation_above_slot() {
    let h = Handle { slot: 7, generation: 1 };
    assert_eq!(h.to_raw(), 0x1_0000_0007);
    let h = Handle { slot: 0, generation: 1 };
    assert_eq!(h.to_raw(), 0x1_0000_0000);
    let h = Handle { slot: 0xffff_ffff, generation: MAX_GENERATION };
    assert_eq!(h.to_raw(), i64::MAX);
    let h = Handle { slot: 3, generation: 2 };
    assert_eq!(h.to_raw(), 0x2_0000_0003);
}

#[test]
fn raw_value_round_trips() {
    for (slot, generation) in [(0, 1), (7, 1), (0xffff_ffff, 1), (5, MAX_GENERATION), (0xffff_ffff, MAX_GENERATION)] {
        let h = Handle { slot, generation };
        assert_eq!(Handle::from_raw(h.to_raw()), Some(h));
    }
    assert_eq!(Handle::from_raw(0x3_0000_0009), Some(Handle { slot: 9, generation: 3 }));
}

#[test]
fn small_and_negative_raw_values_stand_for_no_handle() {
    assert_eq!(NULL_HANDLE, 0);
    for raw in [NULL_HANDLE, 1, 0xffff_ffff, -1, -0x1_0000_0000, i64::MIN] {
        assert_eq!(Handle::from_raw(raw), None);
    }
}

#[test]
fn table_gives_out_resolves_and_destroys() {
    let mut table: HandleTable<String> = HandleTable::new();
    let a = table.create("a".to_string()).unwrap();
    let b = table.create("b".to_string()).unwrap();
    assert!(a != b);
    assert_eq!(a, Handle { slot: 0, generation: 1 });
    assert_eq!(b, Handle { slot: 1, generation: 1 });
    assert_eq!(table.resolve(a), Ok(&"a".to_string()));
    assert_eq!(table.resolve(b), Ok(&"b".to_string()));
    assert_eq!(table.destroy(a), Ok("a".to_string()));
    assert_eq!(table.resolve(a), Err(BridgeError::UseAfterFree));
    assert_eq!(table.destroy(a), Err(BridgeError::UseAfterFree));
    assert_eq!(table.resolve(b), Ok(&"b".to_string()));
}

#[test]
fn table_changes_an_object_in_place() {
    let mut table: HandleTable<u32> = HandleTable::new();
    let a = table.create(1).unwrap();
    let b = table.create(2).unwrap();
    *table.resolve_mut(a).unwrap() = 10;
    assert_eq!(table.resolve(a), Ok(&10));
    assert_eq!(table.resolve(b), Ok(&2));
    table.destroy(a).unwrap();
    assert!(table.resolve_mut(a).is_err());
}

#[test]
fn refilled_slot_has_a_new_generation() {
    let mut table: HandleTable<u32> = HandleTable::new();
    let a = table.create(1).unwrap();
    table.destroy(a).unwrap();
    let b = table.create(2).unwrap();
    assert_eq!(b, Handle { slot: 0, generation: 2 });
    assert_eq!(table.resolve(a), Err(BridgeError::UseAfterFree));
    assert_eq!(table.resolve(b), Ok(&2));
    assert_eq!(table.resolve(Handle { slot: 0, generation: 3 }), Err(BridgeError::UseAfterFree));
    assert_eq!(table.resolve(Handle { slot: 9, generation: 1 }), Err(BridgeError::UseAfterFree));
    assert_eq!(table.resolve(Handle { slot: 0, generation: 0 }), Err(BridgeError::UseAfterFree));
}

#[test]
fn translation_passes_a_value_through() {
    let out = unwrap_exc_or(Ok(Ok(5)), 0);
    assert_eq!(out.value, 5);
    assert_eq!(out.raised, None);
}

#[test]
fn translation_raises_a_condition_and_hands_over_the_default() {
    let out = unwrap_exc_or(Ok(Err(BridgeError::IllegalMutation)), 9);
    assert_eq!(out.value, 9);
    assert_eq!(out.raised, Some(BridgeError::IllegalMutation));
    let out = unwrap_exc_or(Ok(Err(BridgeError::InvalidArgument)), false);
    assert_eq!(out.value, false);
    assert_eq!(out.raised, Some(BridgeError::InvalidArgument));
}

#[test]
fn translation_turns_an_unwound_call_into_a_native_fault() {
    let out = unwrap_exc_or(Err(Unwound), NULL_HANDLE);
    assert_eq!(out.value, NULL_HANDLE);
    assert_eq!(out.raised, Some(BridgeError::NativeFault));
}

#[test]
fn each_condition_has_its_message() {
    assert_eq!(BridgeError::IllegalMutation.message(), "Unable to modify snapshot.");
    assert_eq!(BridgeError::InvalidArgument.message(), "Unable to decode an argument.");
    assert_eq!(BridgeError::UseAfterFree.message(), "The handle does not name a live object.");
    assert_eq!(BridgeError::TypeConfusion.message(), "The handle names an object of another kind.");
    assert_eq!(BridgeError::NativeFault.message(), "Unexpected fault in native code.");
}
