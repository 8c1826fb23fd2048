use tpmgr::tex_parser::{DependencyType, TeXParser};

#[test]
fn test_parse_basic_dependencies() {
    let parser = TeXParser::new().unwrap();
    let content = r"\usepackage{amsmath}\documentclass{article}";
    let deps = parser.parse_content(content).unwrap();

    assert_eq!(deps.len(), 2);
    assert_eq!(deps[0].package_name, "amsmath");
    assert_eq!(deps[1].package_name, "article");
}

#[test]
fn test_parse_compilation_errors() {
    let parser = TeXParser::new().unwrap();
    let error = "! LaTeX Error: File `minted.sty' not found.";
    let missing = parser.parse_compilation_errors(error);

    assert_eq!(missing, vec!["minted"]);
}

#[test]
fn test_filter_core_packages() {
    let packages = vec!["amsmath".to_string(), "article".to_string()];
    let filtered = TeXParser::filter_core_packages(&packages);

    assert_eq!(filtered, vec!["amsmath"]);
}

#[test]
fn kinds_and_order_of_mixed_line() {
    let parser = TeXParser::new().unwrap();
    let content = r"\usepackage{amsmath}\documentclass{article}";
    let deps = parser.parse_content(content).unwrap();
    assert!(matches!(deps[0].dependency_type, DependencyType::UsePackage));
    assert!(matches!(deps[1].dependency_type, DependencyType::DocumentClass));
}

#[test]
fn comma_separated_names_are_split_and_trimmed() {
    let parser = TeXParser::new().unwrap();
    let deps = parser.parse_content(r"\usepackage{amsmath, geometry , ,booktabs}").unwrap();
    let names: Vec<&str> = deps.iter().map(|d| d.package_name.as_str()).collect();
    assert_eq!(names, vec!["amsmath", "geometry", "booktabs"]);
}

#[test]
fn option_groups_are_tolerated() {
    let parser = TeXParser::new().unwrap();
    let deps = parser.parse_content(r"\usepackage[utf8]{inputenc}").unwrap();
    assert_eq!(deps.len(), 1);
    assert_eq!(deps[0].package_name, "inputenc");
}

#[test]
fn comments_hide_declarations() {
    let parser = TeXParser::new().unwrap();
    let deps = parser.parse_content("% \\usepackage{amsmath}\n\\usepackage{booktabs} % trailing\n")
        .unwrap();
    assert_eq!(deps.len(), 1);
    assert_eq!(deps[0].package_name, "booktabs");
}

#[test]
fn escaped_percent_keeps_the_line() {
    let parser = TeXParser::new().unwrap();
    let deps = parser.parse_content("\\%\\usepackage{amsmath}").unwrap();
    assert_eq!(deps.len(), 1);
}

#[test]
fn line_numbers_are_one_indexed_and_monotone() {
    let parser = TeXParser::new().unwrap();
    let deps = parser
        .parse_content("\\usepackage{a}\n\nnothing\n\\usepackage{b}\n\\usepackage{c}")
        .unwrap();
    assert_eq!(deps[0].line_number, 1);
    assert_eq!(deps[1].line_number, 4);
    assert_eq!(deps[2].line_number, 5);
    for w in deps.windows(2) {
        assert!(w[0].line_number <= w[1].line_number);
    }
}

#[test]
fn empty_text_yields_no_dependencies() {
    let parser = TeXParser::new().unwrap();
    assert!(parser.parse_content("").unwrap().is_empty());
}

#[test]
fn unique_packages_are_sorted_and_deduplicated() {
    let parser = TeXParser::new().unwrap();
    let deps = parser
        .parse_content(
            "\\usepackage{zebra}\n\\usepackage{amsmath}\n\\usepackage{zebra}\n\\input{chapter}",
        )
        .unwrap();
    let unique = TeXParser::get_unique_packages(&deps);
    assert_eq!(unique, vec!["amsmath", "zebra"]);
    let again = TeXParser::get_unique_packages(&deps);
    assert_eq!(unique, again);
}

#[test]
fn file_references_are_not_installable_packages() {
    let parser = TeXParser::new().unwrap();
    let deps = parser
        .parse_content("\\input{intro}\n\\include{body}\n\\bibliography{refs}\n\\bibliographystyle{plain}")
        .unwrap();
    assert_eq!(deps.len(), 4);
    assert!(TeXParser::get_unique_packages(&deps).is_empty());
}

#[test]
fn filter_core_packages_is_idempotent() {
    let packages = vec![
        "amsmath".to_string(),
        "article".to_string(),
        "draft".to_string(),
        "booktabs".to_string(),
    ];
    let once = TeXParser::filter_core_packages(&packages);
    let twice = TeXParser::filter_core_packages(&once);
    assert_eq!(once, twice);
    assert_eq!(once, vec!["amsmath", "booktabs"]);
}
