use tpmgr::config::{CompileCommand, Config, GlobalConfig};

#[test]
fn default_chain_runs_pdflatex_on_the_main_file() {
    let cmd = CompileCommand::new();
    assert_eq!(cmd.steps.len(), 1);
    assert_eq!(cmd.steps[0].tool, "pdflatex");
    assert_eq!(
        cmd.steps[0].args,
        vec!["-interaction=nonstopmode".to_string(), "${PROJECT_ROOT}/main.tex".to_string()]
    );
    assert!(!cmd.auto_clean);
}

#[test]
fn chain_strings_parse_into_steps() {
    let cmd = CompileCommand::from_string("pdflatex main.tex | bibtex main | pdflatex main.tex")
        .unwrap();
    assert_eq!(cmd.steps.len(), 3);
    assert_eq!(cmd.steps[1].tool, "bibtex");
    assert_eq!(cmd.steps[1].args, vec!["main".to_string()]);
}

#[test]
fn blank_chain_strings_are_rejected() {
    assert!(CompileCommand::from_string("   ").is_err());
    assert!(CompileCommand::from_string(" | | ").is_err());
}

#[test]
fn display_form_round_trips_through_parsing() {
    let text = "pdflatex -interaction=nonstopmode main.tex | bibtex main";
    let cmd = CompileCommand::from_string(text).unwrap();
    assert_eq!(cmd.to_string(), text);
}

#[test]
fn placeholders_resolve_against_the_given_directories() {
    let cmd = CompileCommand::from_string(
        "pdflatex ${PROJECT_ROOT}/main.tex ${CURRENT_DIR}/x ${HOME}/y",
    )
    .unwrap();
    let lines = cmd.resolve_variables("/proj", "/cwd", Some("/home/me")).unwrap();
    assert_eq!(
        lines,
        vec![vec![
            "pdflatex".to_string(),
            "/proj/main.tex".to_string(),
            "/cwd/x".to_string(),
            "/home/me/y".to_string(),
        ]]
    );
}

#[test]
fn home_placeholder_stays_without_a_home() {
    let cmd = CompileCommand::from_string("pdflatex ${HOME}/y").unwrap();
    let lines = cmd.resolve_variables("/proj", "/cwd", None).unwrap();
    assert_eq!(lines[0][1], "${HOME}/y");
}

#[test]
fn global_keys_are_set_and_read_back() {
    let mut g = GlobalConfig::new();
    assert!(g.get("texlive_path").is_none());
    g.set("texlive_path", "/opt/texlive/2024").unwrap();
    assert_eq!(g.get("texlive_path").unwrap(), "/opt/texlive/2024");
    g.set("texlive_path", "   ").unwrap();
    assert!(g.get("texlive_path").is_none());
    g.set("install_global", "true").unwrap();
    assert_eq!(g.get("install_global").unwrap(), "true");
    assert!(g.set("install_global", "maybe").is_err());
    assert!(g.set("no_such_key", "x").is_err());
    assert!(g.get("no_such_key").is_none());
}

#[test]
fn project_keys_are_set_and_read_back() {
    let mut c = Config::new();
    assert_eq!(c.get_project_config("name").unwrap(), "latex-project");
    c.set_project_config("name", "thesis").unwrap();
    assert_eq!(c.get_project_config("name").unwrap(), "thesis");
    c.set_project_config("compile", "xelatex main.tex").unwrap();
    assert_eq!(c.get_project_config("compile").unwrap(), "xelatex main.tex");
    assert!(c.get_project_config("install_global").is_none());
    c.set_project_config("install_global", "false").unwrap();
    assert_eq!(c.get_project_config("install_global").unwrap(), "false");
    assert!(c.set_project_config("bogus", "x").is_err());
}

#[test]
fn dependencies_insert_replace_and_remove() {
    let mut c = Config::new();
    c.add_dependency("amsmath".to_string(), "1.0".to_string());
    c.add_dependency("booktabs".to_string(), "2.0".to_string());
    c.add_dependency("amsmath".to_string(), "1.5".to_string());
    assert_eq!(c.dependencies.len(), 2);
    let removed = c.remove_dependency("amsmath");
    assert_eq!(removed.unwrap(), "1.5");
    assert!(c.remove_dependency("amsmath").is_none());
    assert_eq!(c.dependencies.len(), 1);
}

#[test]
fn key_listings_are_complete() {
    assert_eq!(
        GlobalConfig::list_keys(),
        vec!["texlive_path", "mirror_url", "compile_command", "install_global"]
    );
    assert_eq!(
        Config::list_project_keys(),
        vec![
            "name",
            "version",
            "compile",
            "package_dir",
            "texlive_path",
            "mirror_url",
            "install_global",
        ]
    );
    assert_eq!(
        CompileCommand::supported_variables(),
        vec!["${PROJECT_ROOT}", "${CURRENT_DIR}", "${HOME}"]
    );
}

#[test]
fn default_project_config_holds_the_standard_repositories() {
    let c = Config::new();
    assert_eq!(c.repositories.len(), 2);
    assert_eq!(c.repositories[0].name, "ctan");
    assert_eq!(c.repositories[0].priority, 1);
    assert_eq!(c.repositories[1].url, "https://mirror.ctan.org/systems/texlive/tlnet/");
    assert_eq!(c.project.package_dir, "packages");
}
