use wasm_rpc_stubgen::model::{
    FunctionParamStub, FunctionResultStub, PackageName, ResolveModel, TypeBinding, TypeDef,
    TypeOwner, WitFunction, WitInterface, WitType, WitWorld, WorldExport, WorldItem,
};
use wasm_rpc_stubgen::stub::{
    collect_stub_functions, collect_stub_interfaces, generate_stub_wit, select_world,
    wit_type_string, StubError, StubTypeGen,
};

fn name(ns: &str, n: &str) -> PackageName {
    PackageName { namespace: ns.to_string(), name: n.to_string() }
}

fn get_name_function() -> WitFunction {
    WitFunction {
        name: "get-name".to_string(),
        freestanding: true,
        params: vec![FunctionParamStub { name: "id".to_string(), typ: WitType::U64 }],
        results: FunctionResultStub::Single(WitType::Str),
    }
}

/// A world `api` exporting one interface `users` with one function.
fn users_api_resolve() -> ResolveModel {
    ResolveModel {
        types: Vec::new(),
        interfaces: vec![WitInterface {
            name: Some("users".to_string()),
            package: Some(0),
            functions: vec![get_name_function()],
            types: Vec::new(),
        }],
        worlds: vec![WitWorld {
            name: "api".to_string(),
            exports: vec![WorldExport {
                name: "users".to_string(),
                item: WorldItem::Interface(0),
            }],
        }],
        packages: vec![name("test", "main")],
    }
}

#[test]
fn stub_for_users_api_world() {
    let resolve = users_api_resolve();
    let text = generate_stub_wit(&resolve, &name("test", "main"), 0, StubTypeGen::ImportRootTypes)
        .expect("synthesis succeeds");
    let expected = "package test:main-stub;\n\
                    \n\
                    interface stub-api {\n  \
                    use golem:rpc/types@0.1.0.{uri};\n\
                    \n  \
                    resource users {\n    \
                    constructor(location: uri);\n    \
                    get-name: func(id: u64) -> string;\n  \
                    }\n\
                    \n\
                    }\n\
                    \n\
                    world stub-api {\n  \
                    export stub-api;\n\
                    }\n";
    assert_eq!(text, expected);
}

#[test]
fn synthesis_is_deterministic() {
    let a = generate_stub_wit(
        &users_api_resolve(),
        &name("test", "main"),
        0,
        StubTypeGen::ImportRootTypes,
    )
    .unwrap();
    let b = generate_stub_wit(
        &users_api_resolve(),
        &name("test", "main"),
        0,
        StubTypeGen::ImportRootTypes,
    )
    .unwrap();
    assert_eq!(a, b);
}

#[test]
fn empty_world_is_rejected() {
    let resolve = ResolveModel {
        types: Vec::new(),
        interfaces: Vec::new(),
        worlds: vec![WitWorld { name: "empty".to_string(), exports: Vec::new() }],
        packages: Vec::new(),
    };
    assert_eq!(
        generate_stub_wit(&resolve, &name("test", "main"), 0, StubTypeGen::ImportRootTypes),
        Err(StubError::EmptyWorld)
    );
}

#[test]
fn dangling_type_reference_is_rejected() {
    let mut resolve = users_api_resolve();
    resolve.interfaces[0].functions[0].params[0].typ = WitType::Id(7);
    assert_eq!(
        generate_stub_wit(&resolve, &name("test", "main"), 0, StubTypeGen::ImportRootTypes),
        Err(StubError::UnresolvedReference)
    );
}

#[test]
fn primitive_type_names_are_canonical() {
    let resolve = users_api_resolve();
    assert_eq!(wit_type_string(&resolve, &WitType::Bool).unwrap(), "bool");
    assert_eq!(wit_type_string(&resolve, &WitType::U64).unwrap(), "u64");
    assert_eq!(wit_type_string(&resolve, &WitType::S8).unwrap(), "s8");
    assert_eq!(wit_type_string(&resolve, &WitType::Float32).unwrap(), "f32");
    assert_eq!(wit_type_string(&resolve, &WitType::Float64).unwrap(), "f64");
    assert_eq!(wit_type_string(&resolve, &WitType::Char).unwrap(), "char");
    assert_eq!(wit_type_string(&resolve, &WitType::Str).unwrap(), "string");
}

#[test]
fn named_type_resolves_through_the_arena() {
    let mut resolve = users_api_resolve();
    resolve.types.push(TypeDef {
        name: Some("user-id".to_string()),
        owner: TypeOwner::Unowned,
        decl: None,
    });
    assert_eq!(wit_type_string(&resolve, &WitType::Id(0)).unwrap(), "user-id");
    assert_eq!(
        wit_type_string(&resolve, &WitType::Id(1)),
        Err(StubError::UnresolvedReference)
    );
}

#[test]
fn methods_bound_to_resources_are_excluded() {
    let fns = vec![
        get_name_function(),
        WitFunction {
            name: "bound-method".to_string(),
            freestanding: false,
            params: Vec::new(),
            results: FunctionResultStub::Multi(Vec::new()),
        },
    ];
    let stubs = collect_stub_functions(&fns);
    assert_eq!(stubs.len(), 1);
    assert_eq!(stubs[0].name, "get-name");
}

#[test]
fn named_multi_results_are_rendered_as_a_list() {
    let mut resolve = users_api_resolve();
    resolve.interfaces[0].functions[0].results = FunctionResultStub::Multi(vec![
        FunctionParamStub { name: "id".to_string(), typ: WitType::U32 },
        FunctionParamStub { name: "label".to_string(), typ: WitType::Str },
    ]);
    let text = generate_stub_wit(&resolve, &name("test", "main"), 0, StubTypeGen::ImportRootTypes)
        .unwrap();
    assert!(text.contains("get-name: func(id: u64) -> (id: u32, label: string);\n"));
}

#[test]
fn function_without_results_has_no_arrow() {
    let mut resolve = users_api_resolve();
    resolve.interfaces[0].functions[0].results = FunctionResultStub::Multi(Vec::new());
    let text = generate_stub_wit(&resolve, &name("test", "main"), 0, StubTypeGen::ImportRootTypes)
        .unwrap();
    assert!(text.contains("get-name: func(id: u64);\n"));
}

#[test]
fn result_emptiness_follows_the_shape() {
    assert!(!FunctionResultStub::Single(WitType::U32).is_empty());
    assert!(FunctionResultStub::Multi(Vec::new()).is_empty());
    assert!(!FunctionResultStub::Multi(vec![FunctionParamStub {
        name: "a".to_string(),
        typ: WitType::U32,
    }])
    .is_empty());
}

/// A resolve arena where the exported interface uses a type declared by
/// another package's interface.
fn cross_package_resolve() -> ResolveModel {
    ResolveModel {
        types: vec![TypeDef {
            name: Some("point".to_string()),
            owner: TypeOwner::Interface(1),
            decl: Some("record point { x: u32, y: u32 }".to_string()),
        }],
        interfaces: vec![
            WitInterface {
                name: Some("draw".to_string()),
                package: Some(0),
                functions: vec![WitFunction {
                    name: "plot".to_string(),
                    freestanding: true,
                    params: vec![FunctionParamStub { name: "p".to_string(), typ: WitType::Id(0) }],
                    results: FunctionResultStub::Multi(Vec::new()),
                }],
                types: vec![TypeBinding { name: "point".to_string(), ty: 0 }],
            },
            WitInterface {
                name: Some("geometry".to_string()),
                package: Some(1),
                functions: Vec::new(),
                types: Vec::new(),
            },
        ],
        worlds: vec![WitWorld {
            name: "canvas".to_string(),
            exports: vec![WorldExport {
                name: "draw".to_string(),
                item: WorldItem::Interface(0),
            }],
        }],
        packages: vec![name("test", "main"), name("test", "shapes")],
    }
}

#[test]
fn cross_package_types_become_use_lines() {
    let resolve = cross_package_resolve();
    let text = generate_stub_wit(&resolve, &name("test", "main"), 0, StubTypeGen::ImportRootTypes)
        .unwrap();
    assert!(text.contains("  use test:shapes/geometry.{point};\n"));
    assert!(text.contains("plot: func(p: point);\n"));
}

#[test]
fn inline_policy_copies_types_owned_by_the_source_package() {
    let mut resolve = cross_package_resolve();
    // make the type's owning interface belong to the source package
    resolve.interfaces[1].package = Some(0);
    let text = generate_stub_wit(&resolve, &name("test", "main"), 0, StubTypeGen::InlineRootTypes)
        .unwrap();
    assert!(text.contains("  record point { x: u32, y: u32 }\n"));
    assert!(!text.contains("use test:main/geometry"));
    // the reference policy keeps the import instead
    let by_ref =
        generate_stub_wit(&resolve, &name("test", "main"), 0, StubTypeGen::ImportRootTypes)
            .unwrap();
    assert!(by_ref.contains("  use test:main/geometry.{point};\n"));
}

#[test]
fn duplicate_imports_are_emitted_once() {
    let mut resolve = cross_package_resolve();
    // a second exported interface using the same foreign type
    let second = WitInterface {
        name: Some("paint".to_string()),
        package: Some(0),
        functions: Vec::new(),
        types: vec![TypeBinding { name: "point".to_string(), ty: 0 }],
    };
    resolve.interfaces.push(second);
    resolve.worlds[0].exports.push(WorldExport {
        name: "paint".to_string(),
        item: WorldItem::Interface(2),
    });
    let text = generate_stub_wit(&resolve, &name("test", "main"), 0, StubTypeGen::ImportRootTypes)
        .unwrap();
    assert_eq!(text.matches("use test:shapes/geometry.{point};").count(), 1);
}

#[test]
fn standalone_world_exports_fold_into_a_world_interface() {
    let resolve = ResolveModel {
        types: Vec::new(),
        interfaces: Vec::new(),
        worlds: vec![WitWorld {
            name: "api".to_string(),
            exports: vec![WorldExport {
                name: "ping".to_string(),
                item: WorldItem::Function(WitFunction {
                    name: "ping".to_string(),
                    freestanding: true,
                    params: Vec::new(),
                    results: FunctionResultStub::Single(WitType::Bool),
                }),
            }],
        }],
        packages: Vec::new(),
    };
    let stubs = collect_stub_interfaces(&resolve, &resolve.worlds[0]).unwrap();
    assert_eq!(stubs.len(), 1);
    assert_eq!(stubs[0].name, "api");
    assert_eq!(stubs[0].functions.len(), 1);
    let text = generate_stub_wit(&resolve, &name("test", "main"), 0, StubTypeGen::ImportRootTypes)
        .unwrap();
    assert!(text.contains("  resource api {\n"));
    assert!(text.contains("ping: func() -> bool;\n"));
}

#[test]
fn a_world_with_only_type_exports_has_nothing_to_stub() {
    let resolve = ResolveModel {
        types: vec![TypeDef {
            name: Some("token".to_string()),
            owner: TypeOwner::Unowned,
            decl: None,
        }],
        interfaces: Vec::new(),
        worlds: vec![WitWorld {
            name: "api".to_string(),
            exports: vec![WorldExport {
                name: "token".to_string(),
                item: WorldItem::Type(0),
            }],
        }],
        packages: Vec::new(),
    };
    assert_eq!(
        generate_stub_wit(&resolve, &name("test", "main"), 0, StubTypeGen::ImportRootTypes),
        Err(StubError::EmptyWorld)
    );
}

#[test]
fn select_world_by_name_and_by_uniqueness() {
    let mut resolve = users_api_resolve();
    resolve.worlds.push(WitWorld { name: "other".to_string(), exports: Vec::new() });
    let both = vec![0usize, 1usize];
    assert_eq!(select_world(&resolve, &both, &Some("other".to_string())), Ok(1));
    assert_eq!(
        select_world(&resolve, &both, &Some("nowhere".to_string())),
        Err(StubError::WorldNotFound)
    );
    assert_eq!(select_world(&resolve, &both, &None), Err(StubError::AmbiguousWorld));
    let single = vec![0usize];
    assert_eq!(select_world(&resolve, &single, &None), Ok(0));
    let empty: Vec<usize> = Vec::new();
    assert_eq!(select_world(&resolve, &empty, &None), Err(StubError::WorldNotFound));
}
