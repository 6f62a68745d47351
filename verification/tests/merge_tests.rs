use wasm_rpc_stubgen::imports::replace_self_imports_from_dependencies;
use wasm_rpc_stubgen::merge::{
    add_stub_dependency, find_world_name, plan_actions, FileState, ManifestFollowUp, MergeError,
    WitAction,
};
use wasm_rpc_stubgen::model::{
    DepDir, PackageName, ResolveModel, WitFile, WitFunction, WitInterface, WitPackage, WitRoot,
    WitType, WitWorld, WorldExport, WorldItem, FunctionParamStub, FunctionResultStub,
};
use wasm_rpc_stubgen::stub::{generate_stub_wit, StubTypeGen};

fn name(ns: &str, n: &str) -> PackageName {
    PackageName { namespace: ns.to_string(), name: n.to_string() }
}

fn package(ns: &str, n: &str) -> WitPackage {
    WitPackage {
        name: name(ns, n),
        foreign_deps: Vec::new(),
        world_names: Vec::new(),
        interface_names: Vec::new(),
    }
}

fn empty_resolve() -> ResolveModel {
    ResolveModel {
        types: Vec::new(),
        interfaces: Vec::new(),
        worlds: Vec::new(),
        packages: Vec::new(),
    }
}

/// The stub root produced for target package `ns:target`, world `api`.
fn stub_root(deps: Vec<DepDir>) -> WitRoot {
    let mut pkg = package("ns", "target-stub");
    pkg.interface_names = vec![Some("stub-api".to_string())];
    WitRoot {
        package: pkg,
        main_file: WitFile {
            name: "_stub.wit".to_string(),
            content: "package ns:target-stub;\n".to_string(),
        },
        deps,
        resolve: empty_resolve(),
        root_worlds: Vec::new(),
    }
}

/// A destination root for package `ns:caller` that does not own `api`.
fn plain_dest() -> WitRoot {
    WitRoot {
        package: package("ns", "caller"),
        main_file: WitFile { name: "caller.wit".to_string(), content: String::new() },
        deps: Vec::new(),
        resolve: empty_resolve(),
        root_worlds: Vec::new(),
    }
}

/// A destination root for package `ns:caller` that owns world `api`.
fn owning_dest() -> WitRoot {
    let mut pkg = package("ns", "caller");
    pkg.world_names = vec!["api".to_string()];
    let resolve = ResolveModel {
        types: Vec::new(),
        interfaces: vec![WitInterface {
            name: Some("users".to_string()),
            package: Some(0),
            functions: vec![WitFunction {
                name: "get-name".to_string(),
                freestanding: true,
                params: vec![FunctionParamStub { name: "id".to_string(), typ: WitType::U64 }],
                results: FunctionResultStub::Single(WitType::Str),
            }],
            types: Vec::new(),
        }],
        worlds: vec![WitWorld {
            name: "api".to_string(),
            exports: vec![WorldExport {
                name: "users".to_string(),
                item: WorldItem::Interface(0),
            }],
        }],
        packages: vec![name("ns", "caller")],
    };
    WitRoot {
        package: pkg,
        main_file: WitFile { name: "caller.wit".to_string(), content: String::new() },
        deps: Vec::new(),
        resolve,
        root_worlds: vec![0],
    }
}

fn dep_dir(ns: &str, n: &str, dir: &str, files: Vec<WitFile>) -> DepDir {
    DepDir { dir_name: dir.to_string(), package: package(ns, n), files }
}

#[test]
fn world_name_is_recovered_from_the_stub_interface() {
    let stub = stub_root(Vec::new());
    assert_eq!(find_world_name(&stub.package).unwrap(), "api");
}

#[test]
fn stub_without_prefixed_interface_is_rejected() {
    let mut stub = stub_root(Vec::new());
    stub.package.interface_names = vec![Some("users".to_string()), None];
    assert!(matches!(find_world_name(&stub.package), Err(MergeError::NoStubInterface)));
}

#[test]
fn self_import_statements_are_stripped() {
    let dest = name("ns", "caller");
    let content = "import ns:caller-stub;\nworld w {}\n".to_string();
    assert_eq!(replace_self_imports_from_dependencies(&content, &dest), "\nworld w {}\n");
    let with_path = "import ns:caller-stub/iface-x;\nrest".to_string();
    assert_eq!(replace_self_imports_from_dependencies(&with_path, &dest), "\nrest");
    let spaced = "import \t ns:caller-stub;tail".to_string();
    assert_eq!(replace_self_imports_from_dependencies(&spaced, &dest), "tail");
}

#[test]
fn every_self_import_statement_is_stripped() {
    let dest = name("ns", "caller");
    let content = "import ns:caller-stub;\nkeep\nimport  ns:caller-stub/a;\ntail".to_string();
    assert_eq!(
        replace_self_imports_from_dependencies(&content, &dest),
        "\nkeep\n\ntail"
    );
    // the keyword must stand on its own, separated by whitespace
    let fused = "importx ns:caller-stub;".to_string();
    assert_eq!(replace_self_imports_from_dependencies(&fused, &dest), fused);
}

#[test]
fn unrelated_imports_are_kept() {
    let dest = name("ns", "caller");
    let content = "import ns:other-stub;\nimport ns:caller;\n".to_string();
    assert_eq!(replace_self_imports_from_dependencies(&content, &dest), content);
    // an unterminated sub-path reference is left alone
    let unterminated = "import ns:caller-stub/never-closed".to_string();
    assert_eq!(
        replace_self_imports_from_dependencies(&unterminated, &dest),
        unterminated
    );
}

#[test]
fn ordinary_merge_drops_self_dependencies_and_strips_imports() {
    // the stub's dependency set includes the destination package itself
    // and the destination's derived stub package: both are dropped
    let deps = vec![
        dep_dir(
            "ns",
            "caller",
            "ns_caller",
            vec![WitFile { name: "caller.wit".to_string(), content: "x".to_string() }],
        ),
        dep_dir(
            "ns",
            "caller-stub",
            "ns_caller-stub",
            vec![WitFile { name: "s.wit".to_string(), content: "y".to_string() }],
        ),
        dep_dir(
            "ns",
            "dep",
            "ns_dep",
            vec![WitFile {
                name: "dep.wit".to_string(),
                content: "import ns:caller-stub;\npackage ns:dep;\n".to_string(),
            }],
        ),
    ];
    let stub = stub_root(deps);
    let dest = plain_dest();
    let actions = plan_actions(&stub, &dest).expect("plan succeeds");
    assert_eq!(actions.len(), 2);
    match &actions[0] {
        WitAction::WriteWit { source_wit, dir_name, file_name } => {
            assert_eq!(dir_name, "ns_dep");
            assert_eq!(file_name, "dep.wit");
            assert_eq!(source_wit, "\npackage ns:dep;\n");
        },
        _ => panic!("expected a write action for the cleaned dependency"),
    }
    match &actions[1] {
        WitAction::CopyDepWit { dir_name, file } => {
            assert_eq!(dir_name, "ns_target-stub");
            assert_eq!(file.name, "_stub.wit");
        },
        _ => panic!("expected the stub's own document to be copied"),
    }
}

#[test]
fn owning_destination_gets_a_regenerated_inline_stub() {
    let deps = vec![
        dep_dir(
            "ns",
            "caller",
            "ns_caller",
            vec![WitFile { name: "caller.wit".to_string(), content: "x".to_string() }],
        ),
        dep_dir(
            "ns",
            "other",
            "ns_other",
            vec![WitFile { name: "other.wit".to_string(), content: "z".to_string() }],
        ),
    ];
    let stub = stub_root(deps);
    let dest = owning_dest();
    let actions = plan_actions(&stub, &dest).expect("self-referential plan succeeds");
    assert_eq!(actions.len(), 2);
    match &actions[0] {
        WitAction::CopyDepDir { dir_name, files } => {
            assert_eq!(dir_name, "ns_other");
            assert_eq!(files.len(), 1);
        },
        _ => panic!("expected the foreign dependency directory to be copied"),
    }
    let expected_stub = generate_stub_wit(
        &dest.resolve,
        &dest.package.name,
        0,
        StubTypeGen::InlineRootTypes,
    )
    .unwrap();
    match &actions[1] {
        WitAction::WriteWit { source_wit, dir_name, file_name } => {
            assert_eq!(dir_name, "ns_target-stub");
            assert_eq!(file_name, "_stub.wit");
            assert_eq!(source_wit, &expected_stub);
        },
        _ => panic!("expected the regenerated stub to be written"),
    }
}

#[test]
fn equal_package_names_are_rejected() {
    let mut stub = stub_root(Vec::new());
    stub.package.name = name("ns", "caller-stub");
    let dest = plain_dest();
    assert!(matches!(plan_actions(&stub, &dest), Err(MergeError::SamePackageName)));
}

#[test]
fn stub_package_without_suffix_is_rejected() {
    let mut stub = stub_root(Vec::new());
    stub.package.name = name("ns", "target");
    let dest = plain_dest();
    assert!(matches!(plan_actions(&stub, &dest), Err(MergeError::MalformedStubPackage)));
}

fn run_merge(
    stub: &WitRoot,
    dest: &WitRoot,
    state: &mut FileState,
    overwrite: bool,
) -> Result<Vec<WitAction>, MergeError> {
    add_stub_dependency(stub, dest, state, overwrite, false, false).map(|out| out.actions)
}

#[test]
fn merging_twice_with_overwrite_is_idempotent() {
    let deps = vec![dep_dir(
        "ns",
        "dep",
        "ns_dep",
        vec![WitFile { name: "dep.wit".to_string(), content: "package ns:dep;\n".to_string() }],
    )];
    let stub = stub_root(deps);
    let dest = plain_dest();

    let mut state = FileState::new();
    run_merge(&stub, &dest, &mut state, true).expect("first merge succeeds");
    let dep_after_first = state.get(&"deps/ns_dep/dep.wit".to_string());
    let stub_after_first = state.get(&"deps/ns_target-stub/_stub.wit".to_string());

    run_merge(&stub, &dest, &mut state, true).expect("second merge succeeds");
    assert_eq!(state.get(&"deps/ns_dep/dep.wit".to_string()), dep_after_first);
    assert_eq!(
        state.get(&"deps/ns_target-stub/_stub.wit".to_string()),
        stub_after_first
    );
    assert!(dep_after_first.is_some());
    assert!(stub_after_first.is_some());
}

#[test]
fn conflicting_content_aborts_the_merge_without_changes() {
    let deps = vec![dep_dir(
        "ns",
        "dep",
        "ns_dep",
        vec![WitFile { name: "dep.wit".to_string(), content: "new content".to_string() }],
    )];
    let stub = stub_root(deps);
    let dest = plain_dest();

    let mut state = FileState::new();
    state.set("deps/ns_dep/dep.wit".to_string(), "old content".to_string());
    state.set("unrelated.wit".to_string(), "keep me".to_string());

    match run_merge(&stub, &dest, &mut state, false) {
        Err(MergeError::ConflictingContent(dir)) => assert_eq!(dir, "ns_dep"),
        _ => panic!("expected a content conflict"),
    }
    // nothing was written
    assert_eq!(
        state.get(&"deps/ns_dep/dep.wit".to_string()),
        Some("old content".to_string())
    );
    assert_eq!(state.get(&"unrelated.wit".to_string()), Some("keep me".to_string()));
    assert_eq!(state.get(&"deps/ns_target-stub/_stub.wit".to_string()), None);

    // the same merge with overwrite applies
    run_merge(&stub, &dest, &mut state, true).expect("forced merge succeeds");
    assert_eq!(
        state.get(&"deps/ns_dep/dep.wit".to_string()),
        Some("new content".to_string())
    );
}

#[test]
fn identical_existing_content_passes_verification() {
    let deps = vec![dep_dir(
        "ns",
        "dep",
        "ns_dep",
        vec![WitFile { name: "dep.wit".to_string(), content: "same".to_string() }],
    )];
    let stub = stub_root(deps);
    let dest = plain_dest();
    let mut state = FileState::new();
    state.set("deps/ns_dep/dep.wit".to_string(), "same".to_string());
    run_merge(&stub, &dest, &mut state, false).expect("identical content is no conflict");
}

#[test]
fn a_plan_targeting_one_path_with_two_contents_is_rejected() {
    // two dependency directories under one directory name, writing the
    // same file with different text
    let deps = vec![
        dep_dir(
            "ns",
            "dep",
            "ns_dep",
            vec![WitFile { name: "dep.wit".to_string(), content: "one".to_string() }],
        ),
        dep_dir(
            "ns",
            "dep2",
            "ns_dep",
            vec![WitFile { name: "dep.wit".to_string(), content: "two".to_string() }],
        ),
    ];
    let stub = stub_root(deps);
    let dest = plain_dest();
    let mut state = FileState::new();
    match add_stub_dependency(&stub, &dest, &mut state, true, false, false) {
        Err(MergeError::ConflictingContent(path)) => {
            assert_eq!(path, "deps/ns_dep/dep.wit");
        },
        _ => panic!("expected an intra-plan conflict"),
    }
    assert_eq!(state.get(&"deps/ns_dep/dep.wit".to_string()), None);
}

#[test]
fn manifest_update_without_a_manifest_is_fatal() {
    let stub = stub_root(Vec::new());
    let dest = plain_dest();
    let mut state = FileState::new();
    assert!(matches!(
        add_stub_dependency(&stub, &dest, &mut state, true, true, false),
        Err(MergeError::ManifestMissing)
    ));
    assert_eq!(state.get(&"deps/ns_target-stub/_stub.wit".to_string()), None);
}

#[test]
fn manifest_follow_up_names_the_new_dependency_directories() {
    let deps = vec![dep_dir(
        "ns",
        "dep",
        "ns_dep",
        vec![WitFile { name: "dep.wit".to_string(), content: "package ns:dep;\n".to_string() }],
    )];
    let stub = stub_root(deps);
    let dest = plain_dest();
    let mut state = FileState::new();
    let out = add_stub_dependency(&stub, &dest, &mut state, true, true, true).unwrap();
    match out.manifest {
        ManifestFollowUp::UpdateManifest(names) => {
            assert_eq!(names, vec!["ns_dep".to_string(), "ns_target-stub".to_string()]);
        },
        _ => panic!("expected a manifest update"),
    }

    let mut state2 = FileState::new();
    let out2 = add_stub_dependency(&stub, &dest, &mut state2, true, false, true).unwrap();
    assert!(matches!(out2.manifest, ManifestFollowUp::WarnManualUpdate));

    let mut state3 = FileState::new();
    let out3 = add_stub_dependency(&stub, &dest, &mut state3, true, false, false).unwrap();
    assert!(matches!(out3.manifest, ManifestFollowUp::NothingToDo));
}
