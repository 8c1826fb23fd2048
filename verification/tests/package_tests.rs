use tpmgr::mirror::MirrorManager;
use tpmgr::package::PackageManager;
use tpmgr::texlive::{InstalledPackage, TeXLiveManager};

#[test]
fn test_package_manager_basic() {
    let manager = PackageManager::new(false).unwrap();

    assert_eq!(manager.install_dir, "packages");
    assert_eq!(manager.cache_dir, ".tpmgr/cache");
    assert!(!manager.global);
}

#[test]
fn test_package_content_generation() {
    let manager = PackageManager::new(false).unwrap();

    let content = manager.generate_package_content("amsmath");
    assert!(content.contains("\\ProvidesPackage{amsmath}"));
    assert!(content.contains("Test amsmath package"));

    let graphicx_content = manager.generate_package_content("graphicx");
    assert!(graphicx_content.contains("\\ProvidesPackage{graphicx}"));
    assert!(graphicx_content.contains("includegraphics"));

    let texinputs = manager.get_texinputs_path();
    assert_eq!(texinputs, "packages");
}

#[test]
fn global_manager_uses_platform_directories() {
    let manager = PackageManager::new(true).unwrap();
    assert!(manager.global);
    assert!(manager.cache_dir.ends_with("/tpmgr"));
    assert!(manager.install_dir.ends_with("/tpmgr/packages"));
}

#[test]
fn package_info_derives_from_the_name() {
    let manager = PackageManager::new(false).unwrap();
    let info = manager.get_package_info("minted").unwrap();
    assert_eq!(info.name, "minted");
    assert_eq!(info.version, "1.0.0");
    assert_eq!(
        info.download_url,
        "https://ctan.org/tex-archive/macros/latex/contrib/minted.tar.gz"
    );
}

#[test]
fn search_knows_the_builtin_families() {
    let manager = PackageManager::new(false).unwrap();
    let ams = manager.search("amsmath").unwrap();
    assert_eq!(ams.len(), 1);
    assert_eq!(ams[0].name, "amsmath");
    assert!(manager.search("nothing-here").unwrap().is_empty());
    let both = manager.search("ams and geometry").unwrap();
    assert_eq!(both.len(), 2);
}

#[test]
fn texlive_queries_follow_the_stored_packages() {
    let mut texlive = TeXLiveManager::new();
    assert!(!texlive.is_package_installed("amsmath"));
    texlive.installed_packages.push(InstalledPackage {
        name: "amsmath".to_string(),
        version: "unknown".to_string(),
        description: String::new(),
        files: Vec::new(),
        install_path: String::new(),
    });
    assert!(texlive.is_package_installed("amsmath"));
    assert!(texlive.get_installed_package("amsmath").is_some());
    assert_eq!(texlive.list_installed_packages().len(), 1);
    assert!(texlive.get_texlive_info().is_none());
}

#[test]
fn texlive_year_directories_are_recognized() {
    assert!(TeXLiveManager::is_texlive_year_dir("2024"));
    assert!(TeXLiveManager::is_texlive_year_dir("2015"));
    assert!(TeXLiveManager::is_texlive_year_dir("2030"));
    assert!(!TeXLiveManager::is_texlive_year_dir("2014"));
    assert!(!TeXLiveManager::is_texlive_year_dir("2031"));
    assert!(!TeXLiveManager::is_texlive_year_dir("texmf"));
    assert!(!TeXLiveManager::is_texlive_year_dir(""));
    assert!(!TeXLiveManager::is_texlive_year_dir("20x4"));
}

#[test]
fn local_install_path_needs_no_detection() {
    let texlive = TeXLiveManager::new();
    assert_eq!(texlive.get_package_install_path(false).unwrap(), "packages");
    assert!(texlive.get_package_install_path(true).is_err());
}

#[test]
fn mirrors_load_select_and_build_urls() {
    let mut mgr = MirrorManager::new();
    mgr.fetch_mirrors().unwrap();
    assert_eq!(mgr.mirrors.len(), 4);

    mgr.select_mirror_by_name("MIT Mirror").unwrap();
    assert_eq!(mgr.get_selected_mirror().unwrap().country, "USA");
    assert!(mgr.select_mirror_by_name("No Such Mirror").is_err());

    assert_eq!(
        mgr.get_package_url("minted").unwrap(),
        "http://mirrors.mit.edu/CTAN/systems/texlive/tlnet/archive/minted.tar.xz"
    );
    assert_eq!(
        mgr.get_package_index_url().unwrap(),
        "http://mirrors.mit.edu/CTAN/systems/texlive/tlnet/tlpkg/texlive.tlpdb"
    );
}

#[test]
fn fastest_answering_mirror_wins() {
    let mut mgr = MirrorManager::new();
    mgr.fetch_mirrors().unwrap();
    let latencies = vec![Some(50), Some(30), None, Some(30)];
    mgr.select_best_mirror(&latencies).unwrap();
    assert_eq!(mgr.get_selected_mirror().unwrap().name, "USTC Mirror");
}

#[test]
fn unreachable_mirrors_fall_back_to_ctan() {
    let mut mgr = MirrorManager::new();
    mgr.fetch_mirrors().unwrap();
    let latencies = vec![None, None, Some(20000), None];
    mgr.select_best_mirror(&latencies).unwrap();
    assert_eq!(mgr.get_selected_mirror().unwrap().name, "CTAN");
    assert_eq!(mgr.get_selected_mirror().unwrap().url, "https://mirror.ctan.org");
}
