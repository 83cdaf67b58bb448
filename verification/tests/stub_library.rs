use wild_macho::load_commands::DylibVersions;
use wild_macho::stub_library::{
    parse_defined_library, parse_defined_library_with_external_reexports, StubError,
};
use wild_macho::tapi::{
    entry_value, flow_sequence, parse_standard_tapi_v4, scalar_value, split_tapi_documents,
    top_level_value,
};

fn strings(values: &[&str]) -> Vec<Vec<u8>> {
    values.iter().map(|value| value.as_bytes().to_vec()).collect()
}

#[test]
fn fast_path_keeps_only_arm64_export_lists() {
    let input = r"--- !tapi-tbd
tbd-version: 4
targets: [ x86_64-macos, arm64e-macos ]
install-name: '/usr/lib/libFast.tbd'
exports:
  - targets: [ x86_64-macos ]
    symbols: [ _x86_only ]
  - targets: [ arm64e-macos ]
    symbols: [ _arm64 ]
    weak-symbols: [ _arm64_weak ]
    objc-classes: [ FastClass ]
";

    let definitions =
        parse_standard_tapi_v4(input.as_bytes()).expect("standard TAPI should use fast path");
    assert_eq!(definitions.len(), 1);
    assert_eq!(definitions[0].exports.len(), 1);
    assert_eq!(definitions[0].exports[0].symbols, strings(&["_arm64"]));

    let mut library = parse_defined_library(input.as_bytes()).expect("definition should parse");
    library.materialize_objc_class_symbols();
    assert_eq!(
        library.symbols,
        strings(&["_arm64", "_OBJC_CLASS_$_FastClass", "_OBJC_METACLASS_$_FastClass"])
    );
    assert_eq!(library.weak_symbols, strings(&["_arm64_weak"]));
}

#[test]
fn total_symbols_counts_strong_and_weak() {
    let input = "--- !tapi-tbd\ntbd-version: 4\ntargets: [ arm64e-macos ]\ninstall-name: '/usr/lib/libT.dylib'\nexports:\n  - targets: [ arm64e-macos ]\n    symbols: [ _a, _b ]\n    weak-symbols: [ _w ]\n";
    let library = parse_defined_library(input.as_bytes()).expect("definition should parse");
    assert_eq!(library.total_symbols(), 3);
}

#[test]
fn parse_library_with_reexports() {
    let stub_library = parse_defined_library(
        r"--- !tapi-tbd
tbd-version:     4
targets:         [ x86_64-macos, arm64e-macos ]
install-name:    '/usr/lib/libMain.dylib'
current-version: 1.2.3
compatibility-version: 1.1
reexported-libraries:
  - targets:         [ x86_64-macos, arm64e-macos ]
    libraries:       [ '/usr/lib/libA.dylib', '/usr/lib/libB.dylib' ]
exports:
  - targets:         [ arm64e-macos ]
    symbols:         [ _main_arm64 ]
    weak-symbols:    [ _main_weak_arm64 ]
  - targets:         [ x86_64-macos ]
    symbols:         [ _main_x86_64 ]
    weak-symbols:    [ _main_weak_x86_64 ]
--- !tapi-tbd
tbd-version:     4
targets:         [ x86_64-macos, arm64e-macos ]
install-name:    '/usr/lib/libA.dylib'
current-version: 10
parent-umbrella:
  - targets:         [ x86_64-macos, arm64e-macos ]
    umbrella:        Main
exports:
  - targets:         [ arm64e-macos ]
    symbols:         [ _a_arm64 ]
    weak-symbols:    [ _a_weak_arm64 ]
  - targets:         [ x86_64-macos ]
    symbols:         [ _a_x86_64 ]
--- !tapi-tbd
tbd-version:     4
targets:         [ x86_64-macos, arm64e-macos ]
install-name:    '/usr/lib/libB.dylib'
current-version: 11
parent-umbrella:
  - targets:         [ x86_64-macos, arm64e-macos ]
    umbrella:        Main
exports:
  - targets:         [ arm64e-macos ]
    symbols:         [ _b_arm64 ]
reexports:
  - targets:         [ arm64e-macos ]
    symbols:         [ _b_exported_arm64 ]
    weak-symbols:    [ _b_weak_exported_arm64 ]
"
        .as_bytes(),
    )
    .expect("definition should parse");

    assert_eq!(stub_library.install_name, b"/usr/lib/libMain.dylib");
    assert_eq!(stub_library.versions, DylibVersions::tbd(b"1.2.3", b"1.1").unwrap());
    assert_eq!(
        stub_library.symbols,
        strings(&["_main_arm64", "_a_arm64", "_b_arm64", "_b_exported_arm64"])
    );
    assert_eq!(
        stub_library.weak_symbols,
        strings(&["_main_weak_arm64", "_a_weak_arm64", "_b_weak_exported_arm64"])
    );
}

#[test]
fn parses_versionless_root_and_nested_reexports() {
    let stub_library = parse_defined_library(
        r"--- !tapi-tbd
tbd-version: 4
targets: [ arm64e-macos ]
install-name: '/usr/lib/libRoot.dylib'
reexported-libraries:
  - targets: [ arm64e-macos ]
    libraries: [ '/usr/lib/libIntermediate.dylib' ]
--- !tapi-tbd
tbd-version: 4
targets: [ arm64e-macos ]
install-name: '/usr/lib/libIntermediate.dylib'
reexported-libraries:
  - targets: [ arm64e-macos ]
    libraries: [ '/usr/lib/libLeaf.dylib' ]
--- !tapi-tbd
tbd-version: 4
targets: [ arm64e-macos ]
install-name: '/usr/lib/libLeaf.dylib'
exports:
  - targets: [ arm64e-macos ]
    symbols: [ _nested_leaf ]
"
        .as_bytes(),
    )
    .expect("versionless nested definition should parse");

    assert_eq!(stub_library.install_name, b"/usr/lib/libRoot.dylib");
    assert_eq!(stub_library.versions, DylibVersions::tbd(b"", b"").unwrap());
    assert_eq!(stub_library.symbols, strings(&["_nested_leaf"]));
}

#[test]
fn parses_reexport_from_separate_tbd_file() {
    let root = r"--- !tapi-tbd
tbd-version: 4
targets: [ arm64e-macos ]
install-name: '/usr/lib/libRoot.dylib'
reexported-libraries:
  - targets: [ arm64e-macos ]
    libraries: [ '/usr/lib/libChild.1.dylib' ]
exports:
  - targets: [ arm64e-macos ]
    symbols: [ _root ]
";
    let child = r"--- !tapi-tbd
tbd-version: 4
targets: [ arm64e-macos ]
install-name: '/usr/lib/libChild.1.dylib'
exports:
  - targets: [ arm64e-macos ]
    symbols: [ _child ]
";

    let stub_library = parse_defined_library_with_external_reexports(root.as_bytes(), |install_name| {
        assert_eq!(install_name, b"/usr/lib/libChild.1.dylib");
        Some(child.as_bytes().to_vec())
    })
    .expect("separate reexport should parse");

    assert_eq!(stub_library.install_name, b"/usr/lib/libRoot.dylib");
    assert_eq!(stub_library.symbols, strings(&["_root", "_child"]));
}

#[test]
fn exposes_objc_class_and_metaclass_symbols() {
    let mut stub_library = parse_defined_library(
        r"--- !tapi-tbd
tbd-version: 4
targets: [ arm64e-macos ]
install-name: '/usr/lib/libobjc.A.dylib'
exports:
  - targets: [ arm64e-macos ]
    objc-classes: [ NSObject ]
"
        .as_bytes(),
    )
    .expect("definition should parse");

    stub_library.materialize_objc_class_symbols();
    assert_eq!(
        stub_library.symbols,
        strings(&["_OBJC_CLASS_$_NSObject", "_OBJC_METACLASS_$_NSObject"])
    );
}

#[test]
fn block_style_yaml_is_not_taken_by_the_fast_path() {
    let input = r"--- !tapi-tbd
tbd-version: 4
targets:
  - arm64e-macos
install-name: '/usr/lib/libFallback.tbd'
exports:
  - targets:
      - arm64e-macos
    symbols: [ _fallback ]
";

    assert!(parse_standard_tapi_v4(input.as_bytes()).is_none());
    assert_eq!(parse_defined_library(input.as_bytes()).unwrap_err(), StubError::NotStandardSpelling);
}

#[test]
fn root_without_arm64_target_is_rejected() {
    let input = r"--- !tapi-tbd
tbd-version: 4
targets: [ x86_64-macos ]
install-name: '/usr/lib/libIntel.dylib'
";
    assert_eq!(parse_defined_library(input.as_bytes()).unwrap_err(), StubError::RootNotArm64);
}

#[test]
fn missing_external_reexport_is_reported() {
    let root = r"--- !tapi-tbd
tbd-version: 4
targets: [ arm64e-macos ]
install-name: '/usr/lib/libRoot.dylib'
reexported-libraries:
  - targets: [ arm64e-macos ]
    libraries: [ '/usr/lib/libGone.dylib' ]
";
    assert_eq!(
        parse_defined_library_with_external_reexports(root.as_bytes(), |_| None).unwrap_err(),
        StubError::ExternalLoadFailed
    );
    assert_eq!(parse_defined_library(root.as_bytes()).unwrap_err(), StubError::ExternalNotDefined);
}

#[test]
fn tapi_scalars_and_flow_sequences() {
    assert_eq!(scalar_value(b"'/usr/lib/libA.dylib'"), Some(&b"/usr/lib/libA.dylib"[..]));
    assert_eq!(scalar_value(b"plain"), Some(&b"plain"[..]));
    assert_eq!(flow_sequence(b"[ a, 'b' ]"), Some(strings(&["a", "b"])));
    assert_eq!(flow_sequence(b"a, b"), None);
}

#[test]
fn tapi_documents_split_on_markers() {
    let input = b"--- !tapi-tbd\nname: a\n--- !tapi-tbd\nname: b\n...\n";
    let documents = split_tapi_documents(input);
    assert_eq!(documents.len(), 2);
    assert_eq!(top_level_value(documents[1], b"name"), Some(&b" b\n"[..]));
    assert_eq!(entry_value(b"  - targets: [ x ]\n    symbols: [ s ]\n", b"symbols"), Some(&b" [ s ]\n"[..]));
}

#[test]
fn visiting_a_library_of_another_tbd_version_fails() {
    let input = "--- !tapi-tbd\ntbd-version: 3\ntargets: [ arm64e-macos ]\ninstall-name: '/usr/lib/libOld.dylib'\nexports:\n  - targets: [ arm64e-macos ]\n    symbols: [ _a ]\n";
    assert!(matches!(parse_defined_library(input.as_bytes()), Err(StubError::UnsupportedVersion)));
}

#[test]
fn unicode_whitespace_counts_as_blank() {
    // A lone no-break space is blank text, as `str::trim` sees it.
    assert!(split_tapi_documents("\u{a0}".as_bytes()).is_empty());
    assert!(split_tapi_documents("\u{3000}\u{2028}\n--- a\n".as_bytes()).len() == 1);
    assert_eq!(scalar_value("\u{3000} value".as_bytes()), Some("value".as_bytes()));
    assert_eq!(
        flow_sequence("\u{a0}[\u{2003}a,\u{85}b ]".as_bytes()),
        Some(vec![b"a".to_vec(), b"b".to_vec()])
    );
}
