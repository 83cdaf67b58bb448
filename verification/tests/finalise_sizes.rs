use wild_macho::finalise_sizes::{
    compact_unwind_entry_count, eh_frame_input_size, imported_library_file_ids,
    plan_objc_message_stubs, LoadedLibrary, ObjcStubReference, PlannedObjcStub, SizeError,
};

fn library(file_id: u32, name: &[u8]) -> LoadedLibrary {
    LoadedLibrary { file_id, install_name: name.to_vec() }
}

#[test]
fn libraries_sharing_an_install_name_get_one_command() {
    let libraries = [
        library(3, b"/usr/lib/libSystem.B.dylib"),
        library(4, b"/usr/lib/libc++.1.dylib"),
        library(5, b"/usr/lib/libSystem.B.dylib"),
        library(6, b"/usr/lib/libSystem.B.dylib"),
        library(7, b"/usr/lib/libobjc.A.dylib"),
    ];
    assert_eq!(imported_library_file_ids(&libraries), vec![3, 4, 7]);
    assert!(imported_library_file_ids(&[]).is_empty());
}

#[test]
fn unwind_input_is_measured() {
    assert_eq!(compact_unwind_entry_count(&[64, 0, 32]), Ok(3));
    assert_eq!(compact_unwind_entry_count(&[64, 33]), Err(SizeError::MalformedCompactUnwind));
    assert_eq!(eh_frame_input_size(&[0x40, 0x18]), Some(0x58));
    assert_eq!(eh_frame_input_size(&[usize::MAX, 1]), None);
}

fn send(file_id: u32, message_symbol: u64, selector: &[u8], selector_symbol: u64) -> ObjcStubReference {
    ObjcStubReference { file_id, message_symbol, selector: selector.to_vec(), selector_symbol }
}

#[test]
fn selector_stubs_are_one_per_selector_in_selector_order() {
    let sends = [
        send(1, 10, b"length", 20),
        send(1, 11, b"alloc", 21),
        send(2, 10, b"length", 30),
        send(2, 12, b"init", 31),
        send(2, 13, b"alloc", 32),
    ];
    let plan = plan_objc_message_stubs(&sends);
    assert_eq!(
        plan.stubs,
        vec![
            PlannedObjcStub { selector: b"alloc".to_vec(), message: (1, 11), selector_symbol: (1, 21) },
            PlannedObjcStub { selector: b"init".to_vec(), message: (2, 12), selector_symbol: (2, 31) },
            PlannedObjcStub { selector: b"length".to_vec(), message: (1, 10), selector_symbol: (1, 20) },
        ]
    );
    assert_eq!(
        plan.stub_indexes,
        vec![((1, 10), 2), ((1, 11), 0), ((2, 10), 2), ((2, 12), 1), ((2, 13), 0)]
    );
    // A proper prefix sorts first.
    let prefixed = plan_objc_message_stubs(&[send(1, 1, b"foo:", 2), send(1, 3, b"foo", 4)]);
    assert_eq!(prefixed.stubs[0].selector, b"foo".to_vec());
    assert_eq!(prefixed.stubs[1].selector, b"foo:".to_vec());
    assert!(plan_objc_message_stubs(&[]).stubs.is_empty());
}
