use wild_macho::symbols::{
    exported_symbols_in_range, imported_library_is_weak, objc_message_selector, ExportedSymbol,
    ImportedSymbol, ImportedSymbolBinding,
};

#[test]
fn exported_symbol_index_selects_only_the_live_atom_range() {
    let symbols = [
        ExportedSymbol { input_offset: 0, symbol_index: 8 },
        ExportedSymbol { input_offset: 4, symbol_index: 3 },
        ExportedSymbol { input_offset: 4, symbol_index: 7 },
        ExportedSymbol { input_offset: 16, symbol_index: 1 },
    ];

    let atom = 4..16;
    assert_eq!(
        exported_symbols_in_range(&symbols, Some(&atom))
            .iter()
            .map(|symbol| symbol.symbol_index)
            .collect::<Vec<_>>(),
        vec![3, 7]
    );
    assert_eq!(exported_symbols_in_range(&symbols, None).len(), 4);
}

#[test]
fn objc_message_stub_names_give_their_selector() {
    assert_eq!(objc_message_selector(b"_objc_msgSend$alloc"), Some(&b"alloc"[..]));
    assert_eq!(objc_message_selector(b"_objc_msgSend$"), None);
    assert_eq!(objc_message_selector(b"_objc_msgSend"), None);
    assert_eq!(objc_message_selector(b"_printf"), None);
}

#[test]
fn imported_binding_addresses() {
    let got = ImportedSymbolBinding::Got { got_address: 0x9000, plt_address: Some(0x8000) };
    assert_eq!(got.address(), 0x9000);
    let tlvp = ImportedSymbolBinding::Tlvp { tlvp_address: 0xa000 };
    assert_eq!(tlvp.address(), 0xa000);
}

fn import(name: &[u8], weak_import: bool) -> ImportedSymbol {
    ImportedSymbol {
        install_name: name.to_vec(),
        binding: ImportedSymbolBinding::Got { got_address: 0x9000, plt_address: None },
        weak_import,
    }
}

#[test]
fn a_library_is_weak_only_when_all_its_imports_are_weak() {
    let imports = [import(b"/usr/lib/libA.dylib", true), import(b"/usr/lib/libB.dylib", true), import(b"/usr/lib/libB.dylib", false)];
    assert!(imported_library_is_weak(&imports, b"/usr/lib/libA.dylib"));
    assert!(!imported_library_is_weak(&imports, b"/usr/lib/libB.dylib"));
    assert!(!imported_library_is_weak(&imports, b"/usr/lib/libC.dylib"));
}
