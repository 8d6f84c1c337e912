use rustc_auto_publish::metadata::{Metadata, Package, Resolve, ResolveNode, find_package_by_name};
use rustc_auto_publish::resolver::{fill, resolve};
use rustc_auto_publish::Error;

fn pkg(id: &str, name: &str, source: Option<&str>) -> Package {
    Package {
        id: id.to_string(),
        name: name.to_string(),
        source: source.map(|s| s.to_string()),
        manifest_path: format!("/tree/{}/Cargo.toml", name),
    }
}

fn node(id: &str, deps: &[&str]) -> ResolveNode {
    ResolveNode { id: id.to_string(), dependencies: deps.iter().map(|d| d.to_string()).collect() }
}

fn chain_snapshot() -> Metadata {
    // root A depends on local B; B depends on local C and registry-sourced D
    Metadata {
        packages: vec![
            pkg("id-a", "A", None),
            pkg("id-b", "B", None),
            pkg("id-c", "C", None),
            pkg("id-d", "D", Some("registry+https://crates.io")),
        ],
        resolve: Resolve {
            nodes: vec![
                node("id-a", &["id-b"]),
                node("id-b", &["id-c", "id-d"]),
                node("id-c", &[]),
                node("id-d", &[]),
            ],
        },
    }
}

#[test]
fn end_to_end_chain_is_c_b_a() {
    let m = chain_snapshot();
    let order = resolve(&m, 0).unwrap();
    assert_eq!(order, vec![2, 1, 0]);
}

#[test]
fn registry_sourced_dependency_never_appears() {
    let m = chain_snapshot();
    let order = resolve(&m, 0).unwrap();
    assert!(!order.contains(&3));
    for &i in order.iter() {
        assert!(i == 0 || m.packages[i].source.is_none());
    }
}

#[test]
fn diamond_dependency_appears_once_in_first_seen_position() {
    // A depends on B and C; both depend on the shared local D
    let m = Metadata {
        packages: vec![
            pkg("id-a", "A", None),
            pkg("id-b", "B", None),
            pkg("id-c", "C", None),
            pkg("id-d", "D", None),
        ],
        resolve: Resolve {
            nodes: vec![
                node("id-a", &["id-b", "id-c"]),
                node("id-b", &["id-d"]),
                node("id-c", &["id-d"]),
                node("id-d", &[]),
            ],
        },
    };
    let order = resolve(&m, 0).unwrap();
    assert_eq!(order, vec![3, 1, 2, 0]);
    assert_eq!(order.iter().filter(|&&i| i == 3).count(), 1);
}

#[test]
fn dependencies_come_before_dependents() {
    let m = chain_snapshot();
    let order = resolve(&m, 0).unwrap();
    let pos = |i: usize| order.iter().position(|&x| x == i).unwrap();
    assert!(pos(2) < pos(1)); // C before B
    assert!(pos(1) < pos(0)); // B before A
}

#[test]
fn missing_resolve_node_is_fatal() {
    let m = Metadata {
        packages: vec![pkg("id-a", "A", None)],
        resolve: Resolve { nodes: vec![] },
    };
    assert_eq!(resolve(&m, 0), Err(Error::MissingResolveNode));
}

#[test]
fn dangling_dependency_id_is_fatal() {
    let m = Metadata {
        packages: vec![pkg("id-a", "A", None)],
        resolve: Resolve { nodes: vec![node("id-a", &["id-ghost"])] },
    };
    assert_eq!(resolve(&m, 0), Err(Error::MissingPackage));
}

#[test]
fn fill_skips_an_already_seen_name() {
    let m = chain_snapshot();
    let mut pkgs: Vec<usize> = Vec::new();
    let mut seen: Vec<String> = vec!["A".to_string()];
    fill(&m, 0, &mut pkgs, &mut seen).unwrap();
    assert!(pkgs.is_empty());
    assert_eq!(seen, vec!["A".to_string()]);
}

#[test]
fn root_is_found_by_name() {
    let m = chain_snapshot();
    assert_eq!(find_package_by_name(&m, &"B".to_string()), Some(1));
    assert_eq!(find_package_by_name(&m, &"Z".to_string()), None);
}
