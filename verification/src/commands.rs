//! The command surface: argument types and the verified cores of the
//! commands that generate a stub crate, plan workspace automation, and
//! read file names.
//!
//! Reading WIT directories, writing files and invoking the toolchain
//! happen outside this crate; the functions here work on parsed models
//! and return planned outputs.

use vstd::prelude::*;
use vstd::string::*;

use crate::model::{DepDir, DepDirV, PackageName, WitPackage, WitRoot, WitRootV};
use crate::resolver::{
    distinct_identities, has_ref_cycle, name_in, refs_resolvable, resolve_dependency_order,
    topo_sorted, distinct_entries, dep_names_has, GraphError,
};
use crate::stub::{
    generate_stub_wit, select_world, select_world_spec, stub_text_spec, StubError, StubTypeGen,
};

verus! {

/// The command to run, with its arguments.
pub enum Command {
    /// Generate a stub crate from a source WIT root.
    Generate(GenerateArgs),
    /// Build a stub crate into a compiled binary and its WIT root.
    Build(BuildArgs),
    /// Merge a generated stub as a dependency into another component's
    /// WIT root.
    AddStubDependency(AddStubDependencyArgs),
    /// Compose a caller binary with one or more stub binaries.
    Compose(ComposeArgs),
    /// Initialize repeated-build automation for target and caller
    /// projects.
    InitializeWorkspace(InitializeWorkspaceArgs),
}

/// Where the RPC runtime library is taken from, if not the released one.
pub struct WasmRpcOverride {
    pub wasm_rpc_path_override: Option<String>,
    pub wasm_rpc_version_override: Option<String>,
}

impl Default for WasmRpcOverride {
    fn default() -> (r: WasmRpcOverride)
        ensures
            r.wasm_rpc_path_override is None,
            r.wasm_rpc_version_override is None,
    {
        WasmRpcOverride { wasm_rpc_path_override: None, wasm_rpc_version_override: None }
    }
}

impl WasmRpcOverride {
    pub fn duplicate(&self) -> (r: WasmRpcOverride)
        ensures
            r.wasm_rpc_path_override.deep_view() == self.wasm_rpc_path_override.deep_view(),
            r.wasm_rpc_version_override.deep_view() == self.wasm_rpc_version_override.deep_view(),
    {
        WasmRpcOverride {
            wasm_rpc_path_override: match &self.wasm_rpc_path_override {
                Some(p) => Some(p.clone()),
                None => None,
            },
            wasm_rpc_version_override: match &self.wasm_rpc_version_override {
                Some(v) => Some(v.clone()),
                None => None,
            },
        }
    }
}

/// Arguments of stub generation.
pub struct GenerateArgs {
    pub source_wit_root: String,
    pub dest_crate_root: String,
    pub world: Option<String>,
    pub stub_crate_version: String,
    pub wasm_rpc_override: WasmRpcOverride,
    pub always_inline_types: bool,
}

/// Arguments of a stub build.
pub struct BuildArgs {
    pub source_wit_root: String,
    pub dest_wasm: String,
    pub dest_wit_root: String,
    pub world: Option<String>,
    pub stub_crate_version: String,
    pub wasm_rpc_override: WasmRpcOverride,
    pub always_inline_types: bool,
}

/// Arguments of a dependency merge.
pub struct AddStubDependencyArgs {
    pub stub_wit_root: String,
    pub dest_wit_root: String,
    pub overwrite: bool,
    pub update_cargo_toml: bool,
}

/// Arguments of binary composition.
pub struct ComposeArgs {
    pub source_wasm: String,
    pub stub_wasm: Vec<String>,
    pub dest_wasm: String,
}

/// Arguments of workspace initialization.
pub struct InitializeWorkspaceArgs {
    pub targets: Vec<String>,
    pub callers: Vec<String>,
    pub wasm_rpc_override: WasmRpcOverride,
}

// ---------------------------------------------------------------------------
// The build manifest plan.
// ---------------------------------------------------------------------------

/// One WIT dependency entry of the build manifest: a package key and the
/// directory it is found under.
pub struct WitDependency {
    pub key: String,
    pub path: String,
}

pub ghost struct WitDependencyV {
    pub key: Seq<char>,
    pub path: Seq<char>,
}

impl View for WitDependency {
    type V = WitDependencyV;

    open spec fn view(&self) -> WitDependencyV {
        WitDependencyV { key: self.key@, path: self.path@ }
    }
}

impl DeepView for WitDependency {
    type V = WitDependencyV;

    open spec fn deep_view(&self) -> WitDependencyV {
        self.view()
    }
}

/// The planned build manifest of a generated stub crate: its package
/// name and version, the component target world, and the path-keyed WIT
/// dependency table.  The fixed library dependencies (the binding
/// generator and the RPC runtime) are implied by every plan.
pub struct ManifestPlan {
    pub name: String,
    pub version: String,
    pub package: String,
    pub world: String,
    pub wit_dependencies: Vec<WitDependency>,
    pub wasm_rpc_override: WasmRpcOverride,
}

/// The manifest's WIT dependency entry for the RPC runtime's own types.
pub open spec fn rpc_dep_entry() -> WitDependencyV {
    WitDependencyV { key: "golem:rpc"@, path: "wit/deps/wasm-rpc"@ }
}

/// The manifest entry of one dependency directory.
pub open spec fn dep_entry(d: DepDirV) -> WitDependencyV {
    WitDependencyV {
        key: d.package.name.namespace + ":"@ + d.package.name.name,
        path: "wit/deps/"@ + d.dir_name,
    }
}

pub open spec fn dep_entries(deps: Seq<DepDirV>) -> Seq<WitDependencyV>
    decreases deps.len(),
{
    if deps.len() == 0 {
        Seq::empty()
    } else {
        dep_entries(deps.drop_last()).push(dep_entry(deps.last()))
    }
}

/// The manifest's WIT dependency table: the RPC runtime entry followed
/// by one entry per dependency directory; an empty dependency set needs
/// no entries.
pub open spec fn wit_dependencies_spec(deps: Seq<DepDirV>) -> Seq<WitDependencyV> {
    if deps.len() == 0 {
        Seq::empty()
    } else {
        seq![rpc_dep_entry()] + dep_entries(deps)
    }
}

/// Plans the build manifest of a generated stub crate.
pub fn generate_cargo_toml(
    source: &WitRoot,
    world_name: &String,
    stub_world_name: &String,
    version: &String,
    wasm_rpc_override: &WasmRpcOverride,
) -> (r: ManifestPlan)
    ensures
        r.name@ == world_name@,
        r.version@ == version@,
        r.package@ == source@.package.name.namespace + ":"@ + source@.package.name.name,
        r.world@ == stub_world_name@,
        r.wit_dependencies.deep_view() == wit_dependencies_spec(source@.deps),
{
    let mut package = source.package.name.namespace.clone();
    package.append(":");
    package.append(source.package.name.name.as_str());

    let ghost dv = source@.deps;
    let mut wit_dependencies: Vec<WitDependency> = Vec::new();
    if source.deps.len() > 0 {
        wit_dependencies.push(
            WitDependency { key: "golem:rpc".to_owned(), path: "wit/deps/wasm-rpc".to_owned() },
        );
        assert(wit_dependencies.deep_view() =~= seq![rpc_dep_entry()] + dep_entries(
            dv.subrange(0, 0),
        ));
    }
    let mut i: usize = 0;
    while i < source.deps.len()
        invariant
            i <= source.deps.len(),
            dv == source.deps.deep_view(),
            dv.len() == source.deps.len(),
            dv.len() > 0 ==> wit_dependencies.deep_view() == seq![rpc_dep_entry()] + dep_entries(
                dv.subrange(0, i as int),
            ),
            dv.len() == 0 ==> wit_dependencies.deep_view() == Seq::<WitDependencyV>::empty(),
        decreases source.deps.len() - i,
    {
        assert(dv[i as int] == source.deps[i as int]@);
        let ghost before = wit_dependencies.deep_view();
        let dep = &source.deps[i];
        let mut key = dep.package.name.namespace.clone();
        key.append(":");
        key.append(dep.package.name.name.as_str());
        let mut path = "wit/deps/".to_owned();
        path.append(dep.dir_name.as_str());
        wit_dependencies.push(WitDependency { key, path });
        proof {
            let sub1 = dv.subrange(0, i + 1);
            assert(sub1.drop_last() =~= dv.subrange(0, i as int));
            assert(sub1.last() == dv[i as int]);
            assert(wit_dependencies.deep_view() =~= before.push(dep_entry(dv[i as int])));
            assert(wit_dependencies.deep_view() =~= seq![rpc_dep_entry()] + dep_entries(sub1));
        }
        i += 1;
    }
    assert(dv.subrange(0, dv.len() as int) =~= dv);

    ManifestPlan {
        name: world_name.clone(),
        version: version.clone(),
        package,
        world: stub_world_name.clone(),
        wit_dependencies,
        wasm_rpc_override: wasm_rpc_override.duplicate(),
    }
}

// ---------------------------------------------------------------------------
// Stub generation.
// ---------------------------------------------------------------------------

/// Failure of stub generation.
#[derive(Debug)]
pub enum GenerateError {
    /// Dependency graph resolution failed.
    Graph(GraphError),
    /// World selection or stub synthesis failed.
    Synthesis(StubError),
}

/// Everything a generation run produces: the resolved dependency order,
/// the stub document text, the dependency directories to copy beside it,
/// and the build manifest plan.
pub struct GenerateOutput {
    pub dependency_order: Vec<PackageName>,
    pub stub_wit: String,
    pub dep_dirs: Vec<DepDir>,
    pub manifest: ManifestPlan,
}

/// The packages of the dependency directories.
pub open spec fn dep_packages_spec(deps: Seq<DepDirV>) -> Seq<crate::model::WitPackageV> {
    deps.map_values(|d: DepDirV| d.package)
}

fn dep_packages(deps: &Vec<DepDir>) -> (r: Vec<WitPackage>)
    ensures
        r.deep_view() == dep_packages_spec(deps.deep_view()),
{
    let mut out: Vec<WitPackage> = Vec::new();
    let mut i: usize = 0;
    while i < deps.len()
        invariant
            i <= deps.len(),
            out.deep_view().len() == i,
            forall|k: int|
                0 <= k < i ==> out.deep_view()[k] == deps.deep_view()[k].package,
        decreases deps.len() - i,
    {
        assert(deps.deep_view()[i as int] == deps[i as int]@);
        let ghost before = out.deep_view();
        out.push(deps[i].package.duplicate());
        proof {
            assert(out.deep_view() =~= before.push(deps.deep_view()[i as int].package));
        }
        i += 1;
    }
    assert(out.deep_view() =~= dep_packages_spec(deps.deep_view()));
    out
}

fn duplicate_deps(deps: &Vec<DepDir>) -> (r: Vec<DepDir>)
    ensures
        r.deep_view() == deps.deep_view(),
{
    let mut out: Vec<DepDir> = Vec::new();
    let mut i: usize = 0;
    while i < deps.len()
        invariant
            i <= deps.len(),
            out.deep_view().len() == i,
            forall|k: int| 0 <= k < i ==> out.deep_view()[k] == deps.deep_view()[k],
        decreases deps.len() - i,
    {
        assert(deps.deep_view()[i as int] == deps[i as int]@);
        out.push(deps[i].duplicate());
        i += 1;
    }
    assert(out.deep_view() =~= deps.deep_view());
    out
}

/// The dependency graph of the source root is in order: identities are
/// distinct, every reference resolves, and no package depends on
/// itself.
pub open spec fn graph_ok(source: WitRootV) -> bool {
    &&& distinct_identities(source.package, dep_packages_spec(source.deps))
    &&& refs_resolvable(source.package, dep_packages_spec(source.deps))
    &&& !has_ref_cycle(dep_packages_spec(source.deps))
}

/// The stub text a generation run emits, as a function of the parsed
/// source root, the requested world and the inlining policy.
pub open spec fn generate_wit_spec(
    source: WitRootV,
    requested: Option<Seq<char>>,
    policy: StubTypeGen,
) -> Result<Seq<char>, StubError> {
    match select_world_spec(source.resolve, source.root_worlds, requested) {
        Err(e) => Err(e),
        Ok(wi) => stub_text_spec(
            source.resolve,
            source.resolve.worlds[wi as int],
            source.package.name,
            policy,
        ),
    }
}

/// Generates a stub crate plan from a parsed source WIT root: resolves
/// the dependency graph, selects the world, synthesizes the stub
/// document, and plans the build manifest.  Nothing is read or written
/// here; the caller performs the filesystem work.
pub fn generate(args: &GenerateArgs, source: &WitRoot) -> (r: Result<
    GenerateOutput,
    GenerateError,
>)
    ensures
        r is Ok <==> graph_ok(source@) && generate_wit_spec(
            source@,
            args.world.deep_view(),
            if args.always_inline_types {
                StubTypeGen::InlineRootTypes
            } else {
                StubTypeGen::ImportRootTypes
            },
        ) is Ok,
        r matches Ok(out) ==> {
            &&& generate_wit_spec(
                source@,
                args.world.deep_view(),
                if args.always_inline_types {
                    StubTypeGen::InlineRootTypes
                } else {
                    StubTypeGen::ImportRootTypes
                },
            ) == Ok::<Seq<char>, StubError>(out.stub_wit@)
            &&& topo_sorted(dep_packages_spec(source@.deps), out.dependency_order.deep_view())
            &&& distinct_entries(out.dependency_order.deep_view())
            &&& forall|i: int|
                0 <= i < dep_packages_spec(source@.deps).len() ==> name_in(
                    out.dependency_order.deep_view(),
                    (#[trigger] dep_packages_spec(source@.deps)[i]).name,
                )
            &&& forall|k: int|
                0 <= k < out.dependency_order.deep_view().len() ==> dep_names_has(
                    dep_packages_spec(source@.deps),
                    #[trigger] out.dependency_order.deep_view()[k],
                )
            &&& out.dep_dirs.deep_view() == source@.deps
            &&& out.manifest.wit_dependencies.deep_view() == wit_dependencies_spec(source@.deps)
            &&& out.manifest.version@ == args.stub_crate_version@
            &&& (select_world_spec(
                source@.resolve,
                source@.root_worlds,
                args.world.deep_view(),
            ) matches Ok(wi) ==> out.manifest.name@ == source@.resolve.worlds[wi as int].name
                && out.manifest.world@ == "stub-"@ + source@.resolve.worlds[wi as int].name
                && out.manifest.package@ == source@.package.name.namespace + ":"@
                + source@.package.name.name)
        },
        r matches Err(GenerateError::Graph(e)) ==> !(distinct_identities(
            source@.package,
            dep_packages_spec(source@.deps),
        ) && refs_resolvable(source@.package, dep_packages_spec(source@.deps)) && !has_ref_cycle(
            dep_packages_spec(source@.deps),
        )),
        r matches Err(GenerateError::Synthesis(e)) ==> generate_wit_spec(
            source@,
            args.world.deep_view(),
            if args.always_inline_types {
                StubTypeGen::InlineRootTypes
            } else {
                StubTypeGen::ImportRootTypes
            },
        ) == Err::<Seq<char>, StubError>(e),
{
    let deps_pkgs = dep_packages(&source.deps);
    let order = match resolve_dependency_order(&source.package, &deps_pkgs) {
        Err(e) => {
            return Err(GenerateError::Graph(e));
        },
        Ok(order) => order,
    };
    let wi = match select_world(&source.resolve, &source.root_worlds, &args.world) {
        Err(e) => {
            return Err(GenerateError::Synthesis(e));
        },
        Ok(wi) => wi,
    };
    let policy = if args.always_inline_types {
        StubTypeGen::InlineRootTypes
    } else {
        StubTypeGen::ImportRootTypes
    };
    let text = match generate_stub_wit(&source.resolve, &source.package.name, wi, policy) {
        Err(e) => {
            return Err(GenerateError::Synthesis(e));
        },
        Ok(t) => t,
    };
    assert(source@.resolve.worlds[wi as int] == source.resolve.worlds[wi as int]@);
    let world_name = source.resolve.worlds[wi].name.clone();
    let mut stub_world_name = "stub-".to_owned();
    stub_world_name.append(world_name.as_str());
    let manifest = generate_cargo_toml(
        source,
        &world_name,
        &stub_world_name,
        &args.stub_crate_version,
        &args.wasm_rpc_override,
    );
    let dep_dirs = duplicate_deps(&source.deps);
    Ok(GenerateOutput { dependency_order: order, stub_wit: text, dep_dirs, manifest })
}

// ---------------------------------------------------------------------------
// Workspace initialization.
// ---------------------------------------------------------------------------

/// One planned dependency link: a caller project consuming a target
/// project's stub.
pub struct LinkTask {
    pub caller: String,
    pub target: String,
}

pub ghost struct LinkTaskV {
    pub caller: Seq<char>,
    pub target: Seq<char>,
}

impl View for LinkTask {
    type V = LinkTaskV;

    open spec fn view(&self) -> LinkTaskV {
        LinkTaskV { caller: self.caller@, target: self.target@ }
    }
}

impl DeepView for LinkTask {
    type V = LinkTaskV;

    open spec fn deep_view(&self) -> LinkTaskV {
        self.view()
    }
}

/// The planned build automation of a workspace: the command that builds
/// stubs, one build task per target, and one link task per caller and
/// target pair.
pub struct WorkspacePlan {
    pub command: String,
    pub prefix: Vec<String>,
    pub build_tasks: Vec<String>,
    pub link_tasks: Vec<LinkTask>,
}

pub open spec fn pairs_for(c: Seq<char>, targets: Seq<Seq<char>>) -> Seq<LinkTaskV>
    decreases targets.len(),
{
    if targets.len() == 0 {
        Seq::empty()
    } else {
        pairs_for(c, targets.drop_last()).push(LinkTaskV { caller: c, target: targets.last() })
    }
}

/// Every caller paired with every target, caller-major, in the given
/// order.
pub open spec fn link_pairs(callers: Seq<Seq<char>>, targets: Seq<Seq<char>>) -> Seq<LinkTaskV>
    decreases callers.len(),
{
    if callers.len() == 0 {
        Seq::empty()
    } else {
        link_pairs(callers.drop_last(), targets) + pairs_for(callers.last(), targets)
    }
}

fn duplicate_strings(v: &Vec<String>) -> (r: Vec<String>)
    ensures
        r.deep_view() == v.deep_view(),
{
    let mut out: Vec<String> = Vec::new();
    let mut i: usize = 0;
    while i < v.len()
        invariant
            i <= v.len(),
            out.deep_view().len() == i,
            forall|k: int| 0 <= k < i ==> out.deep_view()[k] == v.deep_view()[k],
        decreases v.len() - i,
    {
        assert(v.deep_view()[i as int] == v[i as int]@);
        out.push(v[i].clone());
        i += 1;
    }
    assert(out.deep_view() =~= v.deep_view());
    out
}

/// Plans repeated-build automation for a workspace: a stub build per
/// target, and a dependency link from every caller to every target.
pub fn initialize_workspace(
    args: &InitializeWorkspaceArgs,
    stubgen_command: &String,
    stubgen_prefix: &Vec<String>,
) -> (r: WorkspacePlan)
    ensures
        r.command@ == stubgen_command@,
        r.prefix.deep_view() == stubgen_prefix.deep_view(),
        r.build_tasks.deep_view() == args.targets.deep_view(),
        r.link_tasks.deep_view() == link_pairs(args.callers.deep_view(), args.targets.deep_view()),
{
    let ghost cv = args.callers.deep_view();
    let ghost tv = args.targets.deep_view();
    let mut link_tasks: Vec<LinkTask> = Vec::new();
    let mut i: usize = 0;
    while i < args.callers.len()
        invariant
            i <= args.callers.len(),
            cv == args.callers.deep_view(),
            cv.len() == args.callers.len(),
            tv == args.targets.deep_view(),
            tv.len() == args.targets.len(),
            link_tasks.deep_view() == link_pairs(cv.subrange(0, i as int), tv),
        decreases args.callers.len() - i,
    {
        assert(cv[i as int] == args.callers[i as int]@);
        let ghost before = link_tasks.deep_view();
        let caller = &args.callers[i];
        let mut j: usize = 0;
        while j < args.targets.len()
            invariant
                j <= args.targets.len(),
                i < args.callers.len(),
                cv == args.callers.deep_view(),
                cv.len() == args.callers.len(),
                tv == args.targets.deep_view(),
                tv.len() == args.targets.len(),
                caller@ == cv[i as int],
                link_tasks.deep_view() == before + pairs_for(cv[i as int], tv.subrange(0, j as int)),
            decreases args.targets.len() - j,
        {
            assert(tv[j as int] == args.targets[j as int]@);
            let ghost ab = link_tasks.deep_view();
            link_tasks.push(LinkTask { caller: caller.clone(), target: args.targets[j].clone() });
            proof {
                let sub1 = tv.subrange(0, j + 1);
                assert(sub1.drop_last() =~= tv.subrange(0, j as int));
                assert(sub1.last() == tv[j as int]);
                assert(link_tasks.deep_view() =~= ab.push(
                    LinkTaskV { caller: cv[i as int], target: tv[j as int] },
                ));
                assert(link_tasks.deep_view() =~= before + pairs_for(cv[i as int], sub1));
            }
            j += 1;
        }
        proof {
            assert(tv.subrange(0, tv.len() as int) =~= tv);
            let sub1 = cv.subrange(0, i + 1);
            assert(sub1.drop_last() =~= cv.subrange(0, i as int));
            assert(sub1.last() == cv[i as int]);
        }
        i += 1;
    }
    assert(cv.subrange(0, cv.len() as int) =~= cv);
    WorkspacePlan {
        command: stubgen_command.clone(),
        prefix: duplicate_strings(stubgen_prefix),
        build_tasks: duplicate_strings(&args.targets),
        link_tasks,
    }
}

// ---------------------------------------------------------------------------
// File names.
// ---------------------------------------------------------------------------

/// A path has no usable file name.
#[derive(Debug)]
pub enum PathError {
    NoFileName,
}

/// The component after the last `/` of a path.
pub open spec fn file_name_of(s: Seq<char>) -> Seq<char>
    decreases s.len(),
{
    if s.len() == 0 {
        s
    } else if s.last() == '/' {
        Seq::empty()
    } else {
        file_name_of(s.drop_last()).push(s.last())
    }
}

proof fn lemma_file_name_suffix(s: Seq<char>, k: int)
    requires
        0 <= k <= s.len(),
        forall|t: int| k <= t < s.len() ==> s[t] != '/',
        k > 0 ==> s[k - 1] == '/',
    ensures
        file_name_of(s) == s.subrange(k, s.len() as int),
    decreases s.len(),
{
    if k == s.len() {
        if s.len() == 0 {
            assert(s.subrange(0, 0) =~= s);
        } else {
            assert(s.subrange(k, s.len() as int).len() == 0);
            assert(file_name_of(s) =~= s.subrange(k, s.len() as int));
        }
    } else {
        assert(s.last() != '/');
        let pre = s.drop_last();
        lemma_file_name_suffix(pre, k);
        assert(pre.subrange(k, pre.len() as int).push(s.last()) =~= s.subrange(
            k,
            s.len() as int,
        ));
    }
}

/// The file name of a path: the component after the last `/`.  A path
/// ending in a separator, or whose last component is `.` or `..`, has
/// none.
pub fn get_file_name(path: &String) -> (r: Result<String, PathError>)
    ensures
        r matches Ok(f) ==> f@ == file_name_of(path@) && f@.len() > 0 && f@ != "."@ && f@
            != ".."@,
        r is Err <==> (file_name_of(path@).len() == 0 || file_name_of(path@) == "."@
            || file_name_of(path@) == ".."@),
{
    let n = path.as_str().unicode_len();
    let ghost pv = path@;
    let mut k: usize = n;
    while k > 0 && non_slash_at(path, k - 1)
        invariant
            k <= n,
            n == pv.len(),
            pv == path@,
            forall|t: int| k <= t < n ==> pv[t] != '/',
        decreases k,
    {
        k -= 1;
    }
    proof {
        lemma_file_name_suffix(pv, k as int);
    }
    let tail = path.as_str().substring_char(k, n).to_owned();
    assert(tail@ == file_name_of(pv));
    if tail.as_str().unicode_len() == 0 {
        return Err(PathError::NoFileName);
    }
    let dot = ".".to_owned();
    let dotdot = "..".to_owned();
    if tail == dot || tail == dotdot {
        return Err(PathError::NoFileName);
    }
    Ok(tail)
}

fn non_slash_at(s: &String, i: usize) -> (r: bool)
    requires
        i < s@.len(),
    ensures
        r == (s@[i as int] != '/'),
{
    let c = s.as_str().get_char(i);
    c != '/'
}

} // verus!
