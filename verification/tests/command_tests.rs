use wasm_rpc_stubgen::commands::{
    generate, generate_cargo_toml, get_file_name, initialize_workspace, GenerateArgs,
    GenerateError, InitializeWorkspaceArgs, WasmRpcOverride,
};
use wasm_rpc_stubgen::composer::{compose, ComposeError, StubExports};
use wasm_rpc_stubgen::model::{
    DepDir, FunctionParamStub, FunctionResultStub, PackageName, ResolveModel, WitFile,
    WitFunction, WitInterface, WitPackage, WitRoot, WitType, WitWorld, WorldExport, WorldItem,
};
use wasm_rpc_stubgen::resolver::GraphError;
use wasm_rpc_stubgen::stub::{generate_stub_wit, StubTypeGen};

fn name(ns: &str, n: &str) -> PackageName {
    PackageName { namespace: ns.to_string(), name: n.to_string() }
}

fn source_root() -> WitRoot {
    let resolve = ResolveModel {
        types: Vec::new(),
        interfaces: vec![WitInterface {
            name: Some("users".to_string()),
            package: Some(0),
            functions: vec![WitFunction {
                name: "get-name".to_string(),
                freestanding: true,
                params: vec![FunctionParamStub { name: "id".to_string(), typ: WitType::U64 }],
                results: FunctionResultStub::Single(WitType::Str),
            }],
            types: Vec::new(),
        }],
        worlds: vec![WitWorld {
            name: "api".to_string(),
            exports: vec![WorldExport {
                name: "users".to_string(),
                item: WorldItem::Interface(0),
            }],
        }],
        packages: vec![name("test", "main")],
    };
    let root_package = WitPackage {
        name: name("test", "main"),
        foreign_deps: vec![name("test", "shapes")],
        world_names: vec!["api".to_string()],
        interface_names: vec![Some("users".to_string())],
    };
    WitRoot {
        package: root_package,
        main_file: WitFile { name: "main.wit".to_string(), content: String::new() },
        deps: vec![DepDir {
            dir_name: "test_shapes".to_string(),
            package: WitPackage {
                name: name("test", "shapes"),
                foreign_deps: Vec::new(),
                world_names: Vec::new(),
                interface_names: Vec::new(),
            },
            files: vec![WitFile {
                name: "shapes.wit".to_string(),
                content: "package test:shapes;\n".to_string(),
            }],
        }],
        resolve,
        root_worlds: vec![0],
    }
}

fn generate_args(world: Option<&str>) -> GenerateArgs {
    GenerateArgs {
        source_wit_root: "wit".to_string(),
        dest_crate_root: "out".to_string(),
        world: world.map(|w| w.to_string()),
        stub_crate_version: "0.0.1".to_string(),
        wasm_rpc_override: WasmRpcOverride::default(),
        always_inline_types: false,
    }
}

#[test]
fn generation_resolves_orders_and_synthesizes() {
    let source = source_root();
    let out = generate(&generate_args(Some("api")), &source).expect("generation succeeds");
    assert_eq!(out.dependency_order.len(), 1);
    assert_eq!(out.dependency_order[0].name, "shapes");
    let direct = generate_stub_wit(
        &source.resolve,
        &source.package.name,
        0,
        StubTypeGen::ImportRootTypes,
    )
    .unwrap();
    assert_eq!(out.stub_wit, direct);
    assert_eq!(out.dep_dirs.len(), 1);
    assert_eq!(out.manifest.name, "api");
    assert_eq!(out.manifest.version, "0.0.1");
    assert_eq!(out.manifest.package, "test:main");
    assert_eq!(out.manifest.world, "stub-api");
    let keys: Vec<&str> = out.manifest.wit_dependencies.iter().map(|d| d.key.as_str()).collect();
    assert_eq!(keys, vec!["golem:rpc", "test:shapes"]);
    let paths: Vec<&str> =
        out.manifest.wit_dependencies.iter().map(|d| d.path.as_str()).collect();
    assert_eq!(paths, vec!["wit/deps/wasm-rpc", "wit/deps/test_shapes"]);
}

#[test]
fn generation_fails_on_a_broken_graph() {
    let mut source = source_root();
    source.deps[0].package.foreign_deps = vec![name("test", "main2-missing")];
    assert!(matches!(
        generate(&generate_args(Some("api")), &source),
        Err(GenerateError::Graph(GraphError::MissingDependency(_)))
    ));
}

#[test]
fn generation_fails_on_an_unknown_world() {
    let source = source_root();
    assert!(matches!(
        generate(&generate_args(Some("nowhere")), &source),
        Err(GenerateError::Synthesis(_))
    ));
}

#[test]
fn manifest_plan_of_an_isolated_package_has_no_entries() {
    let mut source = source_root();
    source.deps = Vec::new();
    let plan = generate_cargo_toml(
        &source,
        &"api".to_string(),
        &"stub-api".to_string(),
        &"0.0.1".to_string(),
        &WasmRpcOverride::default(),
    );
    assert!(plan.wit_dependencies.is_empty());
}

#[test]
fn workspace_plan_links_every_caller_with_every_target() {
    let args = InitializeWorkspaceArgs {
        targets: vec!["alpha".to_string(), "beta".to_string()],
        callers: vec!["one".to_string(), "two".to_string()],
        wasm_rpc_override: WasmRpcOverride::default(),
    };
    let plan = initialize_workspace(
        &args,
        &"wasm-rpc-stubgen".to_string(),
        &vec!["cargo".to_string()],
    );
    assert_eq!(plan.command, "wasm-rpc-stubgen");
    assert_eq!(plan.prefix, vec!["cargo".to_string()]);
    assert_eq!(plan.build_tasks, vec!["alpha".to_string(), "beta".to_string()]);
    let pairs: Vec<(&str, &str)> =
        plan.link_tasks.iter().map(|t| (t.caller.as_str(), t.target.as_str())).collect();
    assert_eq!(
        pairs,
        vec![("one", "alpha"), ("one", "beta"), ("two", "alpha"), ("two", "beta")]
    );
}

#[test]
fn file_names_come_after_the_last_separator() {
    assert_eq!(get_file_name(&"a/b/c.wit".to_string()).unwrap(), "c.wit");
    assert_eq!(get_file_name(&"c.wit".to_string()).unwrap(), "c.wit");
    assert!(get_file_name(&"a/b/".to_string()).is_err());
    assert!(get_file_name(&"".to_string()).is_err());
    assert!(get_file_name(&"a/..".to_string()).is_err());
    assert!(get_file_name(&"a/.".to_string()).is_err());
}

fn exports(path: &str, names: &[&str]) -> StubExports {
    StubExports {
        path: path.to_string(),
        instance_names: names.iter().map(|n| n.to_string()).collect(),
    }
}

#[test]
fn composition_maps_each_instance_to_its_stub() {
    let stubs = vec![
        exports("a.wasm", &["users", "orders"]),
        exports("b.wasm", &["billing"]),
    ];
    let mapping = compose(&stubs).expect("no conflicts");
    let pairs: Vec<(&str, &str)> =
        mapping.iter().map(|m| (m.name.as_str(), m.path.as_str())).collect();
    assert_eq!(
        pairs,
        vec![("users", "a.wasm"), ("orders", "a.wasm"), ("billing", "b.wasm")]
    );
}

#[test]
fn ambiguous_instance_exports_are_rejected() {
    let stubs = vec![exports("a.wasm", &["users"]), exports("b.wasm", &["users"])];
    match compose(&stubs) {
        Err(ComposeError::AmbiguousDependency(n)) => assert_eq!(n, "users"),
        _ => panic!("expected an ambiguous dependency error"),
    }
}

#[test]
fn repeated_exports_from_one_file_are_not_ambiguous() {
    let stubs = vec![exports("a.wasm", &["users"]), exports("a.wasm", &["users"])];
    let mapping = compose(&stubs).expect("the same file twice is not a conflict");
    assert_eq!(mapping.len(), 1);
    assert_eq!(mapping[0].name, "users");
    assert_eq!(mapping[0].path, "a.wasm");
}
