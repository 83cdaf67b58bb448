use wild_macho::relocations::{
    validate_subtractor_pair_targets, SubtractorTarget, SubtractorTargetError,
};
use wild_macho::symbols::{
    export_trie_symbol, export_trie_symbols, ExportCandidate, ExportError, ExportTrieSymbol,
    Resolution, EXPORT_SYMBOL_FLAGS_KIND_ABSOLUTE, EXPORT_SYMBOL_FLAGS_WEAK_DEFINITION,
};

fn candidate(symbol_address: u64, is_absolute: bool, is_weak: bool) -> ExportCandidate {
    ExportCandidate {
        resolution: Resolution {
            raw_value: symbol_address + 0x10,
            dynamic_symbol_index: None,
            symbol_address,
            got_address: Some(symbol_address + 0x10),
            tlvp_address: None,
            plt_address: None,
        },
        is_absolute,
        is_weak,
    }
}

#[test]
fn exports_are_image_relative_unless_absolute() {
    let base = 0x1_0000_0000;
    assert_eq!(
        export_trie_symbol(&candidate(base + 0x480, false, false), base),
        Ok(ExportTrieSymbol { address: 0x480, flags: 0 })
    );
    assert_eq!(
        export_trie_symbol(&candidate(base + 0x480, false, true), base),
        Ok(ExportTrieSymbol { address: 0x480, flags: EXPORT_SYMBOL_FLAGS_WEAK_DEFINITION })
    );
    assert_eq!(
        export_trie_symbol(&candidate(0x42, true, false), base),
        Ok(ExportTrieSymbol { address: 0x42, flags: EXPORT_SYMBOL_FLAGS_KIND_ABSOLUTE })
    );
    assert_eq!(export_trie_symbol(&candidate(0x42, false, false), base), Err(ExportError::BeforeImageBase));
    // A stub-backed symbol exports its relocation value.
    let mut stubbed = candidate(base + 0x480, false, false);
    stubbed.resolution.plt_address = Some(base + 0x900);
    stubbed.resolution.raw_value = base + 0x900;
    assert_eq!(export_trie_symbol(&stubbed, base), Ok(ExportTrieSymbol { address: 0x900, flags: 0 }));

    assert_eq!(
        export_trie_symbols(&[candidate(base + 8, false, false), candidate(base + 16, false, true)], base),
        Ok(vec![
            ExportTrieSymbol { address: 8, flags: 0 },
            ExportTrieSymbol { address: 16, flags: EXPORT_SYMBOL_FLAGS_WEAK_DEFINITION },
        ])
    );
    assert_eq!(
        export_trie_symbols(&[candidate(base + 8, false, false), candidate(4, false, false)], base),
        Err(ExportError::BeforeImageBase)
    );
}

#[test]
fn subtractor_pairs_need_link_time_addresses() {
    let local = SubtractorTarget { is_weak_reference: false, from_dylib: false };
    let weak = SubtractorTarget { is_weak_reference: true, from_dylib: false };
    let dylib = SubtractorTarget { is_weak_reference: false, from_dylib: true };
    assert_eq!(validate_subtractor_pair_targets(local, local), Ok(()));
    assert_eq!(validate_subtractor_pair_targets(weak, dylib), Err(SubtractorTargetError::WeakImport { minuend: true }));
    assert_eq!(validate_subtractor_pair_targets(dylib, local), Err(SubtractorTargetError::DylibTarget { minuend: true }));
    assert_eq!(validate_subtractor_pair_targets(local, weak), Err(SubtractorTargetError::WeakImport { minuend: false }));
    assert_eq!(validate_subtractor_pair_targets(local, dylib), Err(SubtractorTargetError::DylibTarget { minuend: false }));
}
