use tpmgr::error::TpmgrError;
use tpmgr::texlive::{
    parse_tex_version_output, parse_tlpdb_release_version, TeXLiveInfo, TeXLiveManager,
};

fn detected_manager() -> TeXLiveManager {
    let mut mgr = TeXLiveManager::new();
    mgr.texlive_info = Some(TeXLiveInfo {
        version: "2024".to_string(),
        install_path: "/opt/texlive/2024".to_string(),
        texmf_dist: "/opt/texlive/2024/texmf-dist".to_string(),
        texmf_local: "/opt/texlive/2024/texmf-local".to_string(),
        texmf_home: String::new(),
    });
    mgr
}

#[test]
fn tlpdb_text_yields_named_packages() {
    let mut mgr = detected_manager();
    let db = "name amsmath\nshortdesc AMS mathematical facilities\n tex/latex/amsmath/amsmath.sty\nname booktabs\nshortdesc Publication quality tables\n tex/latex/booktabs/booktabs.sty\n";
    mgr.parse_tlpdb(db);
    assert_eq!(mgr.installed_packages.len(), 2);
    assert!(mgr.is_package_installed("amsmath"));
    assert!(mgr.is_package_installed("booktabs"));
    let ams = mgr.get_installed_package("amsmath").unwrap();
    assert_eq!(ams.description, "AMS mathematical facilities");
    assert_eq!(ams.version, "unknown");
    assert_eq!(
        ams.files,
        vec!["/opt/texlive/2024/texmf-dist/tex/latex/amsmath/amsmath.sty".to_string()]
    );
    assert_eq!(ams.install_path, "/opt/texlive/2024/texmf-dist");
}

#[test]
fn tlpdb_repeats_keep_the_last_record() {
    let mut mgr = detected_manager();
    mgr.parse_tlpdb("name a\nshortdesc first\nname a\nshortdesc second\n");
    assert_eq!(mgr.installed_packages.len(), 1);
    assert_eq!(mgr.get_installed_package("a").unwrap().description, "second");
}

#[test]
fn tlpdb_lines_without_structure_are_skipped() {
    let mut mgr = detected_manager();
    mgr.parse_tlpdb("category Package\nrevision 12345\n");
    assert!(mgr.installed_packages.is_empty());
}

#[test]
fn version_banner_is_extracted() {
    let banner = "TeX 3.141592653 (TeX Live 2023)\nkpathsea version 6.3.5";
    assert_eq!(parse_tex_version_output(banner).unwrap(), "2023");
    assert!(parse_tex_version_output("pdfTeX 1.40").is_none());
    assert!(parse_tex_version_output("TeX Live without a close").is_none());
}

#[test]
fn database_release_line_is_extracted() {
    let db = "name 00texlive.installation\ndepend release/2024 something\n";
    assert_eq!(parse_tlpdb_release_version(db).unwrap(), "2024");
    let db2 = "name x\ndepend release/2022\n";
    assert_eq!(parse_tlpdb_release_version(db2).unwrap(), "2022");
    assert!(parse_tlpdb_release_version("name x\ndepend opentype\n").is_none());
}

#[test]
fn error_messages_name_their_cause() {
    let e = TpmgrError::PackageNotFound { name: "minted".to_string() };
    assert_eq!(e.message(), "Package not found: minted");
    let e = TpmgrError::InvalidFormat { message: "No valid compile steps found".to_string() };
    assert_eq!(e.message(), "Invalid package format: No valid compile steps found");
    let e = TpmgrError::DependencyResolution { message: "TeXLive not detected".to_string() };
    assert_eq!(e.message(), "Dependency resolution failed: TeXLive not detected");
}
