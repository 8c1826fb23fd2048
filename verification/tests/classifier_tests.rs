use tpmgr::tex_parser::TeXParser;

#[test]
fn sty_not_found_is_package_related() {
    let parser = TeXParser::new().unwrap();
    let error = "! LaTeX Error: File `minted.sty' not found.";
    assert_eq!(parser.parse_compilation_errors(error), vec!["minted"]);
    assert!(parser.is_package_related_error(error));
}

#[test]
fn cls_not_found_names_the_class() {
    let parser = TeXParser::new().unwrap();
    let error = "! LaTeX Error: File `beamer.cls' not found.";
    assert_eq!(parser.parse_compilation_errors(error), vec!["beamer"]);
    assert!(parser.is_package_related_error(error));
}

#[test]
fn missing_dollar_is_never_package_related() {
    let parser = TeXParser::new().unwrap();
    let error = "! Missing $ inserted.\n! LaTeX Error: File `minted.sty' not found.";
    assert!(!parser.is_package_related_error(error));
}

#[test]
fn unknown_option_names_the_package() {
    let parser = TeXParser::new().unwrap();
    let error = "! LaTeX Error: Unknown option `draft' for package `graphicx'.";
    assert_eq!(parser.parse_compilation_errors(error), vec!["graphicx"]);
}

#[test]
fn package_error_names_the_package() {
    let parser = TeXParser::new().unwrap();
    let error = "! Package babel Error: Unknown language.";
    assert_eq!(parser.parse_compilation_errors(error), vec!["babel"]);
    assert!(parser.is_package_related_error(error));
}

#[test]
fn undefined_command_hints_at_its_package() {
    let parser = TeXParser::new().unwrap();
    let error = "! Undefined control sequence. l.3 \\toprule";
    assert_eq!(parser.parse_compilation_errors(error), vec!["booktabs"]);
    assert!(parser.is_package_related_error(error));
}

#[test]
fn several_patterns_union_and_sort() {
    let parser = TeXParser::new().unwrap();
    let error = "! LaTeX Error: File `zzz.sty' not found.\n! LaTeX Error: File `aaa.sty' not found.";
    assert_eq!(parser.parse_compilation_errors(error), vec!["aaa", "zzz"]);
}

#[test]
fn unmatched_text_is_fail_closed() {
    let parser = TeXParser::new().unwrap();
    let error = "something entirely different went wrong";
    assert!(parser.parse_compilation_errors(error).is_empty());
    assert!(!parser.is_package_related_error(error));
}

#[test]
fn syntax_error_beats_package_patterns() {
    let parser = TeXParser::new().unwrap();
    let error = "Syntax error\n! LaTeX Error: File `minted.sty' not found.";
    assert!(!parser.is_package_related_error(error));
}
