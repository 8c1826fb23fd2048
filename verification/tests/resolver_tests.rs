use tpmgr::resolver::{Dependency, DependencyResolver, ResolvedPackage};

fn pkg(name: &str, version: &str, deps: &[&str]) -> ResolvedPackage {
    ResolvedPackage {
        name: name.to_string(),
        version: version.to_string(),
        dependencies: deps
            .iter()
            .map(|d| Dependency {
                name: d.to_string(),
                version_constraint: String::new(),
                optional: false,
            })
            .collect(),
    }
}

#[test]
fn three_node_chain_installs_bottom_up() {
    let mut resolver = DependencyResolver::new();
    resolver.add_package(pkg("A", "1.0", &["B"]));
    resolver.add_package(pkg("B", "1.0", &["C"]));
    resolver.add_package(pkg("C", "1.0", &[]));
    let order = resolver.resolve(&["A".to_string()]).unwrap();
    let names: Vec<&str> = order.iter().map(|p| p.name.as_str()).collect();
    assert_eq!(names, vec!["C", "B", "A"]);
}

#[test]
fn latest_stored_version_is_selected() {
    let mut resolver = DependencyResolver::new();
    resolver.add_package(pkg("A", "1.0", &[]));
    resolver.add_package(pkg("A", "2.0", &[]));
    let best = resolver.find_best_version("A").unwrap().unwrap();
    assert_eq!(best.version, "2.0");
    let order = resolver.resolve(&["A".to_string()]).unwrap();
    assert_eq!(order.len(), 1);
    assert_eq!(order[0].version, "2.0");
}

#[test]
fn unknown_package_has_no_best_version() {
    let resolver = DependencyResolver::new();
    assert!(resolver.find_best_version("missing").unwrap().is_none());
}

#[test]
fn unknown_roots_are_skipped() {
    let mut resolver = DependencyResolver::new();
    resolver.add_package(pkg("A", "1.0", &[]));
    let order = resolver.resolve(&["A".to_string(), "ghost".to_string()]).unwrap();
    let names: Vec<&str> = order.iter().map(|p| p.name.as_str()).collect();
    assert_eq!(names, vec!["A"]);
}

#[test]
fn dependency_cycles_are_left_out_of_the_order() {
    let mut resolver = DependencyResolver::new();
    resolver.add_package(pkg("A", "1.0", &["B"]));
    resolver.add_package(pkg("B", "1.0", &["A"]));
    let order = resolver.resolve(&["A".to_string()]).unwrap();
    assert!(order.is_empty());
}

#[test]
fn optional_dependencies_are_not_pulled_in() {
    let mut resolver = DependencyResolver::new();
    resolver.add_package(ResolvedPackage {
        name: "A".to_string(),
        version: "1.0".to_string(),
        dependencies: vec![Dependency {
            name: "B".to_string(),
            version_constraint: String::new(),
            optional: true,
        }],
    });
    resolver.add_package(pkg("B", "1.0", &[]));
    let order = resolver.resolve(&["A".to_string()]).unwrap();
    let names: Vec<&str> = order.iter().map(|p| p.name.as_str()).collect();
    // the optional edge still counts for ordering, so A waits for B; B was
    // never enqueued, so A can never be ordered
    assert!(names.is_empty());
}

#[test]
fn shared_dependency_appears_once() {
    let mut resolver = DependencyResolver::new();
    resolver.add_package(pkg("A", "1.0", &["C"]));
    resolver.add_package(pkg("B", "1.0", &["C"]));
    resolver.add_package(pkg("C", "1.0", &[]));
    let order = resolver.resolve(&["A".to_string(), "B".to_string()]).unwrap();
    let names: Vec<&str> = order.iter().map(|p| p.name.as_str()).collect();
    assert_eq!(names.iter().filter(|n| **n == "C").count(), 1);
    let c_pos = names.iter().position(|n| *n == "C").unwrap();
    let a_pos = names.iter().position(|n| *n == "A").unwrap();
    let b_pos = names.iter().position(|n| *n == "B").unwrap();
    assert!(c_pos < a_pos && c_pos < b_pos);
}

#[test]
fn version_clashes_are_reported() {
    let resolver = DependencyResolver::new();
    let list = vec![pkg("A", "1.0", &[]), pkg("A", "2.0", &[]), pkg("B", "1.0", &[])];
    let conflicts = resolver.check_conflicts(&list);
    assert_eq!(conflicts, vec!["Version conflict for A: 1.0 vs 2.0"]);
}

#[test]
fn equal_versions_do_not_clash() {
    let resolver = DependencyResolver::new();
    let list = vec![pkg("A", "1.0", &[]), pkg("A", "1.0", &[])];
    assert!(resolver.check_conflicts(&list).is_empty());
}
