use wild_macho::objc_references::{
    objc_message_references_for_object, objc_selector_symbol, BranchRelocation,
    InputSectionText, ObjcMessageReference, ObjcReferenceError, SymbolPlacement,
};
use wild_macho::relocations::{RelocationInfo, ARM64_RELOC_BRANCH26, ARM64_RELOC_UNSIGNED};

fn sections() -> Vec<InputSectionText> {
    vec![
        InputSectionText { is_methname: false, data: b"foo:\0".to_vec() },
        InputSectionText { is_methname: true, data: b"foo:\0bar:baz\0foo\0".to_vec() },
    ]
}

fn symbols() -> Vec<SymbolPlacement> {
    vec![
        SymbolPlacement { symbol_index: 0, section: Some(0), offset: 0 },
        SymbolPlacement { symbol_index: 1, section: None, offset: 0 },
        SymbolPlacement { symbol_index: 5, section: Some(1), offset: 5 },
        SymbolPlacement { symbol_index: 6, section: Some(1), offset: 0 },
        SymbolPlacement { symbol_index: 7, section: Some(1), offset: 13 },
    ]
}

#[test]
fn selector_strings_match_exactly() {
    let (symbols, sections) = (symbols(), sections());
    assert_eq!(objc_selector_symbol(&symbols, &sections, b"foo:"), Ok(Some(6)));
    assert_eq!(objc_selector_symbol(&symbols, &sections, b"foo"), Ok(Some(7)));
    assert_eq!(objc_selector_symbol(&symbols, &sections, b"bar:baz"), Ok(Some(5)));
    assert_eq!(objc_selector_symbol(&symbols, &sections, b"bar:"), Ok(None));
    let stray = [SymbolPlacement { symbol_index: 9, section: Some(4), offset: 0 }];
    assert_eq!(objc_selector_symbol(&stray, &sections, b"foo"), Err(ObjcReferenceError::InvalidSection));
}

fn branch(symbolnum: u32, name: &[u8], live: bool) -> BranchRelocation {
    BranchRelocation {
        info: RelocationInfo {
            r_address: 0,
            r_symbolnum: symbolnum,
            r_pcrel: true,
            r_length: 2,
            r_extern: true,
            r_type: ARM64_RELOC_BRANCH26,
        },
        live,
        symbol_name: name.to_vec(),
    }
}

#[test]
fn selector_sends_are_collected_once_each() {
    let (symbols, sections) = (symbols(), sections());
    let mut pointer = branch(8, b"_objc_msgSend$foo:", true);
    pointer.info.r_type = ARM64_RELOC_UNSIGNED;
    let relocations = [
        branch(3, b"_objc_msgSend$foo:", true),
        branch(2, b"_printf", true),
        branch(3, b"_objc_msgSend$foo:", true),
        branch(4, b"_objc_msgSend$foo", true),
        branch(9, b"_objc_msgSend$bar:", false),
        pointer,
    ];
    let references = objc_message_references_for_object(&relocations, &symbols, &sections).unwrap();
    assert_eq!(
        references,
        vec![
            ObjcMessageReference { message_symbol: 3, selector: b"foo:".to_vec(), selector_symbol: 6 },
            ObjcMessageReference { message_symbol: 4, selector: b"foo".to_vec(), selector_symbol: 7 },
        ]
    );
    assert_eq!(
        objc_message_references_for_object(&[branch(9, b"_objc_msgSend$bar:", true)], &symbols, &sections),
        Err(ObjcReferenceError::MissingSelectorSymbol)
    );
}
