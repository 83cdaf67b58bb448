use wild_macho::export_list::{ExportList, ExportListError, ExportListStyle};

#[test]
fn parse_inline() {
    let data = b"{ f*; \"bar\"; extern \"C++\" { baz; qux; }; };";
    let export_list = ExportList::parse(data).unwrap();
    assert!(export_list.contains(b"foo"));
    assert!(export_list.contains(b"bar"));
    assert!(export_list.contains(b"baz"));
    assert!(export_list.contains(b"qux"));
    assert!(!export_list.contains(b"not_exported"));
}

#[test]
fn parse_multiline_with_comments() {
    let data = b"{
                    # Single line comment
                    foo;
                    \"bar\"; # With a quote

                    /*
                    * And a C-style comment
                    */
                    baz*;

                    extern \"C++\" {
                        qux; # C++ symbol
                    };
                };";
    let export_list = ExportList::parse(data).unwrap();
    assert!(export_list.contains(b"foo"));
    assert!(export_list.contains(b"bar"));
    assert!(export_list.contains(b"baz-test"));
    assert!(export_list.contains(b"qux"));
    assert!(!export_list.contains(b"not_exported"));
}

#[test]
fn externs() {
    let data = b"{
                    extern \"C\" {
                        foo;
                    };
                    extern \"C++\" {
                        bar;
                    };
                };";
    let export_list = ExportList::parse(data).unwrap();
    assert!(export_list.contains(b"foo"));
    assert!(export_list.contains(b"bar"));
    assert!(!export_list.contains(b"not_exported"));
}

#[test]
fn parse_macho_symbol_list() {
    let data = b"\n# Exported C and Rust symbols\n_foo\n_$s4test3bar\n";
    let export_list = ExportList::parse_macho(data).unwrap();

    assert!(export_list.contains(b"_foo"));
    assert!(export_list.contains(b"_$s4test3bar"));
    assert!(!export_list.contains(b"_private"));
}

#[test]
fn macho_symbol_list_matches_names_exactly() {
    let export_list = ExportList::parse_macho(b"_foo\n").unwrap();
    assert!(export_list.contains(b"_foo"));
    assert!(!export_list.contains(b"_foo2"));
    assert!(!export_list.contains(b"_fo"));
}

#[test]
fn macho_symbol_list_rejects_invalid_utf8() {
    let error = ExportList::parse_macho(b"_ok\n_\xff\n").unwrap_err();
    assert!(matches!(error, ExportListError::InvalidUtf8 { .. }));
}

#[test]
fn version_script_without_braces_is_a_syntax_error() {
    let error = ExportList::parse(b"foo;").unwrap_err();
    assert_eq!(error, ExportListError::Syntax);
}

#[test]
fn parse_for_style_selects_the_grammar() {
    let script = ExportList::parse_for_style(b"{ foo; };", ExportListStyle::VersionScript).unwrap();
    assert!(script.contains(b"foo"));
    let list = ExportList::parse_for_style(b"_foo\n", ExportListStyle::MachO).unwrap();
    assert!(list.contains(b"_foo"));
    assert!(!list.contains(b"foo"));
}

#[test]
fn glob_star_matches_every_name() {
    let export_list = ExportList::parse(b"{ *; };").unwrap();
    assert!(export_list.contains(b""));
    assert!(export_list.contains(b"anything_at_all"));
}

#[test]
fn glob_question_mark_matches_one_byte() {
    let export_list = ExportList::parse(b"{ fo?; };").unwrap();
    assert!(export_list.contains(b"foo"));
    assert!(!export_list.contains(b"fo"));
    assert!(!export_list.contains(b"fooo"));
}
