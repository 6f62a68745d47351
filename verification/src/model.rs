//! Data model for WIT packages, worlds, interfaces and functions.
//!
//! The types here mirror the surface of a parsed WIT document that the
//! generator and the merge engine read: package identities, the exports of
//! a world, and the shapes of functions.  Named types are held in an arena
//! (`ResolveModel`) and referenced by index.

use vstd::prelude::*;

verus! {

/// A package identity: `namespace:name`.
#[derive(Debug)]
pub struct PackageName {
    pub namespace: String,
    pub name: String,
}

impl View for PackageName {
    type V = PackageNameV;

    open spec fn view(&self) -> PackageNameV {
        PackageNameV { namespace: self.namespace@, name: self.name@ }
    }
}

impl DeepView for PackageName {
    type V = PackageNameV;

    open spec fn deep_view(&self) -> PackageNameV {
        self.view()
    }
}

pub ghost struct PackageNameV {
    pub namespace: Seq<char>,
    pub name: Seq<char>,
}

impl PackageName {
    /// Whether two package identities are the same pair of namespace and name.
    pub fn same_as(&self, other: &PackageName) -> (r: bool)
        ensures
            r <==> self@ == other@,
    {
        let r = self.namespace == other.namespace && self.name == other.name;
        if r {
            assert(self@ == other@);
        }
        r
    }

    /// A copy of this package identity with the same contents.
    pub fn duplicate(&self) -> (r: PackageName)
        ensures
            r@ == self@,
    {
        PackageName { namespace: self.namespace.clone(), name: self.name.clone() }
    }
}

/// The surface of one parsed WIT package that graph resolution and the
/// merge engine read: its identity, the identities of the foreign packages
/// it references, and the names of its worlds and interfaces.
pub struct WitPackage {
    pub name: PackageName,
    pub foreign_deps: Vec<PackageName>,
    pub world_names: Vec<String>,
    pub interface_names: Vec<Option<String>>,
}

pub ghost struct WitPackageV {
    pub name: PackageNameV,
    pub foreign_deps: Seq<PackageNameV>,
    pub world_names: Seq<Seq<char>>,
    pub interface_names: Seq<Option<Seq<char>>>,
}

impl View for WitPackage {
    type V = WitPackageV;

    open spec fn view(&self) -> WitPackageV {
        WitPackageV {
            name: self.name@,
            foreign_deps: self.foreign_deps.deep_view(),
            world_names: self.world_names.deep_view(),
            interface_names: self.interface_names.deep_view(),
        }
    }
}

impl DeepView for WitPackage {
    type V = WitPackageV;

    open spec fn deep_view(&self) -> WitPackageV {
        self.view()
    }
}

/// A copy of a name list with the same contents.
pub fn duplicate_package_names(v: &Vec<PackageName>) -> (r: Vec<PackageName>)
    ensures
        r.deep_view() == v.deep_view(),
{
    let mut out: Vec<PackageName> = Vec::new();
    let mut i: usize = 0;
    while i < v.len()
        invariant
            i <= v.len(),
            out.deep_view().len() == i,
            forall|k: int| 0 <= k < i ==> out.deep_view()[k] == v.deep_view()[k],
        decreases v.len() - i,
    {
        assert(v.deep_view()[i as int] == v[i as int]@);
        out.push(v[i].duplicate());
        i += 1;
    }
    assert(out.deep_view() =~= v.deep_view());
    out
}

/// A copy of a string list with the same contents.
pub fn duplicate_names(v: &Vec<String>) -> (r: Vec<String>)
    ensures
        r.deep_view() == v.deep_view(),
{
    let mut out: Vec<String> = Vec::new();
    let mut i: usize = 0;
    while i < v.len()
        invariant
            i <= v.len(),
            out.deep_view().len() == i,
            forall|k: int| 0 <= k < i ==> out.deep_view()[k] == v.deep_view()[k],
        decreases v.len() - i,
    {
        assert(v.deep_view()[i as int] == v[i as int]@);
        out.push(v[i].clone());
        i += 1;
    }
    assert(out.deep_view() =~= v.deep_view());
    out
}

/// A copy of an optional-name list with the same contents.
pub fn duplicate_opt_names(v: &Vec<Option<String>>) -> (r: Vec<Option<String>>)
    ensures
        r.deep_view() == v.deep_view(),
{
    let mut out: Vec<Option<String>> = Vec::new();
    let mut i: usize = 0;
    while i < v.len()
        invariant
            i <= v.len(),
            out.deep_view().len() == i,
            forall|k: int| 0 <= k < i ==> out.deep_view()[k] == v.deep_view()[k],
        decreases v.len() - i,
    {
        assert(v.deep_view()[i as int] == v[i as int].deep_view());
        let e: Option<String> = match &v[i] {
            Some(s) => Some(s.clone()),
            None => None,
        };
        out.push(e);
        i += 1;
    }
    assert(out.deep_view() =~= v.deep_view());
    out
}

impl WitPackage {
    /// A copy of this package surface with the same contents.
    pub fn duplicate(&self) -> (r: WitPackage)
        ensures
            r@ == self@,
    {
        let r = WitPackage {
            name: self.name.duplicate(),
            foreign_deps: duplicate_package_names(&self.foreign_deps),
            world_names: duplicate_names(&self.world_names),
            interface_names: duplicate_opt_names(&self.interface_names),
        };
        assert(r@ == self@);
        r
    }
}

// ---------------------------------------------------------------------------
// The resolved type arena read by stub synthesis.
// ---------------------------------------------------------------------------

/// A WIT type as it appears in a function signature: a primitive, or an
/// index into the resolve arena for a named type.
#[derive(Clone, Copy)]
pub enum WitType {
    Bool,
    U8,
    U16,
    U32,
    U64,
    S8,
    S16,
    S32,
    S64,
    Float32,
    Float64,
    Char,
    Str,
    Id(usize),
}

/// Who declared a named type.
#[derive(Clone, Copy)]
pub enum TypeOwner {
    World(usize),
    Interface(usize),
    Unowned,
}

/// A named type held in the resolve arena.  `decl` carries the type's
/// textual WIT declaration, used when the inlining policy copies a
/// definition instead of importing it.
pub struct TypeDef {
    pub name: Option<String>,
    pub owner: TypeOwner,
    pub decl: Option<String>,
}

pub ghost struct TypeDefV {
    pub name: Option<Seq<char>>,
    pub owner: TypeOwner,
    pub decl: Option<Seq<char>>,
}

impl View for TypeDef {
    type V = TypeDefV;

    open spec fn view(&self) -> TypeDefV {
        TypeDefV {
            name: self.name.deep_view(),
            owner: self.owner,
            decl: self.decl.deep_view(),
        }
    }
}

impl DeepView for TypeDef {
    type V = TypeDefV;

    open spec fn deep_view(&self) -> TypeDefV {
        self.view()
    }
}

/// A function parameter or a named result value.
pub struct FunctionParamStub {
    pub name: String,
    pub typ: WitType,
}

pub ghost struct FunctionParamStubV {
    pub name: Seq<char>,
    pub typ: WitType,
}

impl View for FunctionParamStub {
    type V = FunctionParamStubV;

    open spec fn view(&self) -> FunctionParamStubV {
        FunctionParamStubV { name: self.name@, typ: self.typ }
    }
}

impl DeepView for FunctionParamStub {
    type V = FunctionParamStubV;

    open spec fn deep_view(&self) -> FunctionParamStubV {
        self.view()
    }
}

impl FunctionParamStub {
    pub fn duplicate(&self) -> (r: FunctionParamStub)
        ensures
            r@ == self@,
    {
        FunctionParamStub { name: self.name.clone(), typ: self.typ }
    }
}

/// The result shape of a function: one anonymous type, or a named list.
pub enum FunctionResultStub {
    Single(WitType),
    Multi(Vec<FunctionParamStub>),
}

pub ghost enum FunctionResultStubV {
    Single(WitType),
    Multi(Seq<FunctionParamStubV>),
}

impl View for FunctionResultStub {
    type V = FunctionResultStubV;

    open spec fn view(&self) -> FunctionResultStubV {
        match self {
            FunctionResultStub::Single(t) => FunctionResultStubV::Single(*t),
            FunctionResultStub::Multi(ps) => FunctionResultStubV::Multi(ps.deep_view()),
        }
    }
}

impl DeepView for FunctionResultStub {
    type V = FunctionResultStubV;

    open spec fn deep_view(&self) -> FunctionResultStubV {
        self.view()
    }
}

/// The result shape carries no value at all.
pub open spec fn result_is_empty(r: FunctionResultStubV) -> bool {
    match r {
        FunctionResultStubV::Single(_) => false,
        FunctionResultStubV::Multi(ps) => ps.len() == 0,
    }
}

impl FunctionResultStub {
    /// Whether the function returns nothing.
    pub fn is_empty(&self) -> (r: bool)
        ensures
            r == result_is_empty(self@),
    {
        match self {
            FunctionResultStub::Single(_) => false,
            FunctionResultStub::Multi(ps) => ps.len() == 0,
        }
    }

    pub fn duplicate(&self) -> (r: FunctionResultStub)
        ensures
            r@ == self@,
    {
        match self {
            FunctionResultStub::Single(t) => FunctionResultStub::Single(*t),
            FunctionResultStub::Multi(ps) => FunctionResultStub::Multi(duplicate_params(ps)),
        }
    }
}

/// A copy of a parameter list with the same contents.
pub fn duplicate_params(ps: &Vec<FunctionParamStub>) -> (r: Vec<FunctionParamStub>)
    ensures
        r.deep_view() == ps.deep_view(),
{
    let mut out: Vec<FunctionParamStub> = Vec::new();
    let mut i: usize = 0;
    while i < ps.len()
        invariant
            i <= ps.len(),
            out.deep_view().len() == i,
            forall|k: int| 0 <= k < i ==> out.deep_view()[k] == ps.deep_view()[k],
        decreases ps.len() - i,
    {
        out.push(ps[i].duplicate());
        i += 1;
    }
    assert(out.deep_view() =~= ps.deep_view());
    out
}

/// A function of the source document.
pub struct WitFunction {
    pub name: String,
    pub freestanding: bool,
    pub params: Vec<FunctionParamStub>,
    pub results: FunctionResultStub,
}

pub ghost struct WitFunctionV {
    pub name: Seq<char>,
    pub freestanding: bool,
    pub params: Seq<FunctionParamStubV>,
    pub results: FunctionResultStubV,
}

impl View for WitFunction {
    type V = WitFunctionV;

    open spec fn view(&self) -> WitFunctionV {
        WitFunctionV {
            name: self.name@,
            freestanding: self.freestanding,
            params: self.params.deep_view(),
            results: self.results@,
        }
    }
}

impl DeepView for WitFunction {
    type V = WitFunctionV;

    open spec fn deep_view(&self) -> WitFunctionV {
        self.view()
    }
}

/// A named type bound inside an interface or exported by a world.
pub struct TypeBinding {
    pub name: String,
    pub ty: usize,
}

pub ghost struct TypeBindingV {
    pub name: Seq<char>,
    pub ty: usize,
}

impl View for TypeBinding {
    type V = TypeBindingV;

    open spec fn view(&self) -> TypeBindingV {
        TypeBindingV { name: self.name@, ty: self.ty }
    }
}

impl DeepView for TypeBinding {
    type V = TypeBindingV;

    open spec fn deep_view(&self) -> TypeBindingV {
        self.view()
    }
}

/// An interface of the resolve arena.
pub struct WitInterface {
    pub name: Option<String>,
    pub package: Option<usize>,
    pub functions: Vec<WitFunction>,
    pub types: Vec<TypeBinding>,
}

pub ghost struct WitInterfaceV {
    pub name: Option<Seq<char>>,
    pub package: Option<usize>,
    pub functions: Seq<WitFunctionV>,
    pub types: Seq<TypeBindingV>,
}

impl View for WitInterface {
    type V = WitInterfaceV;

    open spec fn view(&self) -> WitInterfaceV {
        WitInterfaceV {
            name: self.name.deep_view(),
            package: self.package,
            functions: self.functions.deep_view(),
            types: self.types.deep_view(),
        }
    }
}

impl DeepView for WitInterface {
    type V = WitInterfaceV;

    open spec fn deep_view(&self) -> WitInterfaceV {
        self.view()
    }
}

/// One export of a world.
pub enum WorldItem {
    Interface(usize),
    Function(WitFunction),
    Type(usize),
}

pub ghost enum WorldItemV {
    Interface(usize),
    Function(WitFunctionV),
    Type(usize),
}

impl View for WorldItem {
    type V = WorldItemV;

    open spec fn view(&self) -> WorldItemV {
        match self {
            WorldItem::Interface(i) => WorldItemV::Interface(*i),
            WorldItem::Function(f) => WorldItemV::Function(f@),
            WorldItem::Type(t) => WorldItemV::Type(*t),
        }
    }
}

impl DeepView for WorldItem {
    type V = WorldItemV;

    open spec fn deep_view(&self) -> WorldItemV {
        self.view()
    }
}

pub struct WorldExport {
    pub name: String,
    pub item: WorldItem,
}

pub ghost struct WorldExportV {
    pub name: Seq<char>,
    pub item: WorldItemV,
}

impl View for WorldExport {
    type V = WorldExportV;

    open spec fn view(&self) -> WorldExportV {
        WorldExportV { name: self.name@, item: self.item@ }
    }
}

impl DeepView for WorldExport {
    type V = WorldExportV;

    open spec fn deep_view(&self) -> WorldExportV {
        self.view()
    }
}

/// A world of the resolve arena: a named export surface.
pub struct WitWorld {
    pub name: String,
    pub exports: Vec<WorldExport>,
}

pub ghost struct WitWorldV {
    pub name: Seq<char>,
    pub exports: Seq<WorldExportV>,
}

impl View for WitWorld {
    type V = WitWorldV;

    open spec fn view(&self) -> WitWorldV {
        WitWorldV { name: self.name@, exports: self.exports.deep_view() }
    }
}

impl DeepView for WitWorld {
    type V = WitWorldV;

    open spec fn deep_view(&self) -> WitWorldV {
        self.view()
    }
}

/// The arena of a resolved WIT document set: types, interfaces, worlds and
/// package identities referenced by index.
pub struct ResolveModel {
    pub types: Vec<TypeDef>,
    pub interfaces: Vec<WitInterface>,
    pub worlds: Vec<WitWorld>,
    pub packages: Vec<PackageName>,
}

pub ghost struct ResolveModelV {
    pub types: Seq<TypeDefV>,
    pub interfaces: Seq<WitInterfaceV>,
    pub worlds: Seq<WitWorldV>,
    pub packages: Seq<PackageNameV>,
}

impl View for ResolveModel {
    type V = ResolveModelV;

    open spec fn view(&self) -> ResolveModelV {
        ResolveModelV {
            types: self.types.deep_view(),
            interfaces: self.interfaces.deep_view(),
            worlds: self.worlds.deep_view(),
            packages: self.packages.deep_view(),
        }
    }
}

// ---------------------------------------------------------------------------
// Parsed WIT directories.
// ---------------------------------------------------------------------------

/// One WIT file: its file name and its text.
pub struct WitFile {
    pub name: String,
    pub content: String,
}

pub ghost struct WitFileV {
    pub name: Seq<char>,
    pub content: Seq<char>,
}

impl View for WitFile {
    type V = WitFileV;

    open spec fn view(&self) -> WitFileV {
        WitFileV { name: self.name@, content: self.content@ }
    }
}

impl DeepView for WitFile {
    type V = WitFileV;

    open spec fn deep_view(&self) -> WitFileV {
        self.view()
    }
}

impl WitFile {
    pub fn duplicate(&self) -> (r: WitFile)
        ensures
            r@ == self@,
    {
        WitFile { name: self.name.clone(), content: self.content.clone() }
    }
}

/// One dependency directory of a WIT root: its directory name, the
/// package it declares, and its files.
pub struct DepDir {
    pub dir_name: String,
    pub package: WitPackage,
    pub files: Vec<WitFile>,
}

pub ghost struct DepDirV {
    pub dir_name: Seq<char>,
    pub package: WitPackageV,
    pub files: Seq<WitFileV>,
}

impl View for DepDir {
    type V = DepDirV;

    open spec fn view(&self) -> DepDirV {
        DepDirV {
            dir_name: self.dir_name@,
            package: self.package@,
            files: self.files.deep_view(),
        }
    }
}

impl DeepView for DepDir {
    type V = DepDirV;

    open spec fn deep_view(&self) -> DepDirV {
        self.view()
    }
}

/// A copy of a file list with the same contents.
pub fn duplicate_wit_files(v: &Vec<WitFile>) -> (r: Vec<WitFile>)
    ensures
        r.deep_view() == v.deep_view(),
{
    let mut out: Vec<WitFile> = Vec::new();
    let mut i: usize = 0;
    while i < v.len()
        invariant
            i <= v.len(),
            out.deep_view().len() == i,
            forall|k: int| 0 <= k < i ==> out.deep_view()[k] == v.deep_view()[k],
        decreases v.len() - i,
    {
        assert(v.deep_view()[i as int] == v[i as int]@);
        out.push(v[i].duplicate());
        i += 1;
    }
    assert(out.deep_view() =~= v.deep_view());
    out
}

impl DepDir {
    /// A copy of this dependency directory with the same contents.
    pub fn duplicate(&self) -> (r: DepDir)
        ensures
            r@ == self@,
    {
        let r = DepDir {
            dir_name: self.dir_name.clone(),
            package: self.package.duplicate(),
            files: duplicate_wit_files(&self.files),
        };
        assert(r@ == self@);
        r
    }
}

/// A parsed WIT root directory: the package its main document declares,
/// the dependency directories under `deps/`, and the resolved arena for
/// stub synthesis, with the indices of the root package's own worlds.
pub struct WitRoot {
    pub package: WitPackage,
    pub main_file: WitFile,
    pub deps: Vec<DepDir>,
    pub resolve: ResolveModel,
    pub root_worlds: Vec<usize>,
}

pub ghost struct WitRootV {
    pub package: WitPackageV,
    pub main_file: WitFileV,
    pub deps: Seq<DepDirV>,
    pub resolve: ResolveModelV,
    pub root_worlds: Seq<usize>,
}

impl View for WitRoot {
    type V = WitRootV;

    open spec fn view(&self) -> WitRootV {
        WitRootV {
            package: self.package@,
            main_file: self.main_file@,
            deps: self.deps.deep_view(),
            resolve: self.resolve@,
            root_worlds: self.root_worlds@,
        }
    }
}

} // verus!
