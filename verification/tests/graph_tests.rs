use wasm_rpc_stubgen::model::{PackageName, WitPackage};
use wasm_rpc_stubgen::resolver::{resolve_dependency_order, GraphError};

fn name(ns: &str, n: &str) -> PackageName {
    PackageName { namespace: ns.to_string(), name: n.to_string() }
}

fn package(ns: &str, n: &str, deps: Vec<PackageName>) -> WitPackage {
    WitPackage {
        name: name(ns, n),
        foreign_deps: deps,
        world_names: Vec::new(),
        interface_names: Vec::new(),
    }
}

fn position(order: &[PackageName], n: &str) -> usize {
    order
        .iter()
        .position(|p| p.name == n)
        .unwrap_or_else(|| panic!("package {n} not in order"))
}

#[test]
fn topological_order_puts_dependencies_first() {
    let root = package("ns", "root", vec![name("ns", "a")]);
    let deps = vec![
        package("ns", "a", vec![name("ns", "b")]),
        package("ns", "b", vec![name("ns", "c")]),
        package("ns", "c", vec![]),
    ];
    let order = resolve_dependency_order(&root, &deps).expect("acyclic graph resolves");
    assert_eq!(order.len(), 3);
    assert!(position(&order, "c") < position(&order, "b"));
    assert!(position(&order, "b") < position(&order, "a"));
}

#[test]
fn diamond_dependencies_are_listed_once() {
    let root = package("ns", "root", vec![name("ns", "a"), name("ns", "b")]);
    let deps = vec![
        package("ns", "a", vec![name("ns", "d")]),
        package("ns", "b", vec![name("ns", "d")]),
        package("ns", "d", vec![]),
    ];
    let order = resolve_dependency_order(&root, &deps).expect("diamond resolves");
    assert_eq!(order.len(), 3);
    assert!(position(&order, "d") < position(&order, "a"));
    assert!(position(&order, "d") < position(&order, "b"));
}

#[test]
fn direct_self_dependency_is_rejected() {
    let root = package("ns", "root", vec![name("ns", "a")]);
    let deps = vec![package("ns", "a", vec![name("ns", "a")])];
    match resolve_dependency_order(&root, &deps) {
        Err(GraphError::CyclicDependency(n)) => assert_eq!(n.name, "a"),
        _ => panic!("expected a cycle error"),
    }
}

#[test]
fn transitive_cycle_is_rejected() {
    let root = package("ns", "root", vec![name("ns", "a")]);
    let deps = vec![
        package("ns", "a", vec![name("ns", "b")]),
        package("ns", "b", vec![name("ns", "c")]),
        package("ns", "c", vec![name("ns", "a")]),
    ];
    assert!(matches!(
        resolve_dependency_order(&root, &deps),
        Err(GraphError::CyclicDependency(_))
    ));
}

#[test]
fn missing_dependency_is_reported_by_name() {
    let root = package("ns", "root", vec![name("ns", "ghost")]);
    let deps = vec![];
    match resolve_dependency_order(&root, &deps) {
        Err(GraphError::MissingDependency(n)) => assert_eq!(n.name, "ghost"),
        _ => panic!("expected a missing dependency error"),
    }
}

#[test]
fn duplicate_package_identity_is_rejected() {
    let root = package("ns", "root", vec![]);
    let deps = vec![package("ns", "a", vec![]), package("ns", "a", vec![])];
    assert!(matches!(
        resolve_dependency_order(&root, &deps),
        Err(GraphError::DuplicatePackage(_))
    ));
}

#[test]
fn dependency_sharing_the_root_identity_is_rejected() {
    let root = package("ns", "root", vec![]);
    let deps = vec![package("ns", "root", vec![])];
    assert!(matches!(
        resolve_dependency_order(&root, &deps),
        Err(GraphError::DuplicatePackage(_))
    ));
}

#[test]
fn resolution_order_is_reproducible() {
    let mk = || {
        (
            package("ns", "root", vec![name("ns", "a"), name("ns", "b")]),
            vec![
                package("ns", "a", vec![]),
                package("ns", "b", vec![name("ns", "a")]),
            ],
        )
    };
    let (r1, d1) = mk();
    let (r2, d2) = mk();
    let o1 = resolve_dependency_order(&r1, &d1).unwrap();
    let o2 = resolve_dependency_order(&r2, &d2).unwrap();
    let names1: Vec<&str> = o1.iter().map(|p| p.name.as_str()).collect();
    let names2: Vec<&str> = o2.iter().map(|p| p.name.as_str()).collect();
    assert_eq!(names1, names2);
}
