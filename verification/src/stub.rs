//! Stub interface synthesis.
//!
//! A selected world of a resolved package is transformed into the text of
//! a stub WIT document: one resource per exported interface (plus one for
//! the world's standalone exports), each resource carrying a single
//! `constructor(location: uri)` and one method per original freestanding
//! function.  The emitted text is a function of the world's content and
//! the type-inlining policy alone, so synthesis is deterministic.

use vstd::prelude::*;
use vstd::string::*;

use crate::model::{
    FunctionParamStub, FunctionParamStubV, FunctionResultStub, FunctionResultStubV, PackageName,
    PackageNameV, ResolveModel, ResolveModelV, TypeBinding, TypeBindingV, TypeOwner, WitFunction,
    WitFunctionV, WitType, WitWorld, WitWorldV, WorldItem, WorldItemV, WorldExportV,
    duplicate_params,
};

verus! {

/// Failure of stub synthesis.
#[derive(Clone, Copy, Debug, PartialEq, Eq, Structural)]
pub enum StubError {
    /// A type, interface or world reference cannot be resolved to a
    /// canonical name.
    UnresolvedReference,
    /// The selected world exports neither interfaces nor functions.
    EmptyWorld,
    /// No world with the requested name exists in the source package.
    WorldNotFound,
    /// No world name was requested and the source package does not
    /// declare exactly one world.
    AmbiguousWorld,
}

/// Policy for types owned by the source package: import them from their
/// original package, or copy their declarations into the stub document.
#[derive(Clone, Copy)]
pub enum StubTypeGen {
    ImportRootTypes,
    InlineRootTypes,
}

/// A synthesized stub method.
pub struct FunctionStub {
    pub name: String,
    pub params: Vec<FunctionParamStub>,
    pub results: FunctionResultStub,
}

pub ghost struct FunctionStubV {
    pub name: Seq<char>,
    pub params: Seq<FunctionParamStubV>,
    pub results: FunctionResultStubV,
}

impl View for FunctionStub {
    type V = FunctionStubV;

    open spec fn view(&self) -> FunctionStubV {
        FunctionStubV {
            name: self.name@,
            params: self.params.deep_view(),
            results: self.results@,
        }
    }
}

impl DeepView for FunctionStub {
    type V = FunctionStubV;

    open spec fn deep_view(&self) -> FunctionStubV {
        self.view()
    }
}

/// A cross-package type import required by a stub interface, keyed by
/// name and source path.
pub struct InterfaceStubImport {
    pub name: String,
    pub path: String,
    pub ty: usize,
}

pub ghost struct InterfaceStubImportV {
    pub name: Seq<char>,
    pub path: Seq<char>,
    pub ty: usize,
}

impl View for InterfaceStubImport {
    type V = InterfaceStubImportV;

    open spec fn view(&self) -> InterfaceStubImportV {
        InterfaceStubImportV { name: self.name@, path: self.path@, ty: self.ty }
    }
}

impl DeepView for InterfaceStubImport {
    type V = InterfaceStubImportV;

    open spec fn deep_view(&self) -> InterfaceStubImportV {
        self.view()
    }
}

impl InterfaceStubImport {
    pub fn duplicate(&self) -> (r: InterfaceStubImport)
        ensures
            r@ == self@,
    {
        InterfaceStubImport { name: self.name.clone(), path: self.path.clone(), ty: self.ty }
    }
}

/// A synthesized stub interface: one resource.
pub struct InterfaceStub {
    pub name: String,
    pub functions: Vec<FunctionStub>,
    pub imports: Vec<InterfaceStubImport>,
}

pub ghost struct InterfaceStubV {
    pub name: Seq<char>,
    pub functions: Seq<FunctionStubV>,
    pub imports: Seq<InterfaceStubImportV>,
}

impl View for InterfaceStub {
    type V = InterfaceStubV;

    open spec fn view(&self) -> InterfaceStubV {
        InterfaceStubV {
            name: self.name@,
            functions: self.functions.deep_view(),
            imports: self.imports.deep_view(),
        }
    }
}

impl DeepView for InterfaceStub {
    type V = InterfaceStubV;

    open spec fn deep_view(&self) -> InterfaceStubV {
        self.view()
    }
}

// ---------------------------------------------------------------------------
// Canonical type names.
// ---------------------------------------------------------------------------

/// The canonical textual form of a type reference, if it has one.
pub open spec fn wit_type_name(r: ResolveModelV, t: WitType) -> Option<Seq<char>> {
    match t {
        WitType::Bool => Some("bool"@),
        WitType::U8 => Some("u8"@),
        WitType::U16 => Some("u16"@),
        WitType::U32 => Some("u32"@),
        WitType::U64 => Some("u64"@),
        WitType::S8 => Some("s8"@),
        WitType::S16 => Some("s16"@),
        WitType::S32 => Some("s32"@),
        WitType::S64 => Some("s64"@),
        WitType::Float32 => Some("f32"@),
        WitType::Float64 => Some("f64"@),
        WitType::Char => Some("char"@),
        WitType::Str => Some("string"@),
        WitType::Id(i) => if i < r.types.len() {
            r.types[i as int].name
        } else {
            None
        },
    }
}

/// The canonical textual form of a type reference; a dangling reference
/// or an unnamed type is an error.
pub fn wit_type_string(resolve: &ResolveModel, typ: &WitType) -> (r: Result<String, StubError>)
    ensures
        r matches Ok(s) ==> wit_type_name(resolve@, *typ) == Some(s@),
        r matches Err(e) ==> wit_type_name(resolve@, *typ) is None && e
            == StubError::UnresolvedReference,
{
    match typ {
        WitType::Bool => Ok("bool".to_owned()),
        WitType::U8 => Ok("u8".to_owned()),
        WitType::U16 => Ok("u16".to_owned()),
        WitType::U32 => Ok("u32".to_owned()),
        WitType::U64 => Ok("u64".to_owned()),
        WitType::S8 => Ok("s8".to_owned()),
        WitType::S16 => Ok("s16".to_owned()),
        WitType::S32 => Ok("s32".to_owned()),
        WitType::S64 => Ok("s64".to_owned()),
        WitType::Float32 => Ok("f32".to_owned()),
        WitType::Float64 => Ok("f64".to_owned()),
        WitType::Char => Ok("char".to_owned()),
        WitType::Str => Ok("string".to_owned()),
        WitType::Id(i) => {
            if *i < resolve.types.len() {
                assert(resolve@.types[*i as int] == resolve.types[*i as int]@);
                match &resolve.types[*i].name {
                    Some(n) => Ok(n.clone()),
                    None => Err(StubError::UnresolvedReference),
                }
            } else {
                Err(StubError::UnresolvedReference)
            }
        },
    }
}

// ---------------------------------------------------------------------------
// Rendering of parameters, results and functions.
// ---------------------------------------------------------------------------

/// `name: type` for one parameter.
pub open spec fn param_text(r: ResolveModelV, p: FunctionParamStubV) -> Option<Seq<char>> {
    match wit_type_name(r, p.typ) {
        Some(t) => Some(p.name + ": "@ + t),
        None => None,
    }
}

/// The parameters joined with `, `.
pub open spec fn params_text(r: ResolveModelV, ps: Seq<FunctionParamStubV>) -> Option<Seq<char>>
    decreases ps.len(),
{
    if ps.len() == 0 {
        Some(Seq::empty())
    } else {
        match (params_text(r, ps.drop_last()), param_text(r, ps.last())) {
            (Some(pre), Some(x)) => if ps.len() == 1 {
                Some(x)
            } else {
                Some(pre + ", "@ + x)
            },
            _ => None,
        }
    }
}

/// The textual result shape: nothing, ` -> type`, or ` -> (named list)`.
pub open spec fn result_text(r: ResolveModelV, res: FunctionResultStubV) -> Option<Seq<char>> {
    match res {
        FunctionResultStubV::Single(t) => match wit_type_name(r, t) {
            Some(tn) => Some(" -> "@ + tn),
            None => None,
        },
        FunctionResultStubV::Multi(ps) => if ps.len() == 0 {
            Some(Seq::empty())
        } else {
            match params_text(r, ps) {
                Some(pt) => Some(" -> ("@ + pt + ")"@),
                None => None,
            }
        },
    }
}

/// One resource method line.
pub open spec fn function_text(r: ResolveModelV, f: FunctionStubV) -> Option<Seq<char>> {
    match (params_text(r, f.params), result_text(r, f.results)) {
        (Some(pt), Some(rt)) => Some(
            "    "@ + f.name + ": func("@ + pt + ")"@ + rt + ";\n"@,
        ),
        _ => None,
    }
}

fn render_param(resolve: &ResolveModel, p: &FunctionParamStub) -> (r: Result<String, StubError>)
    ensures
        r matches Ok(s) ==> param_text(resolve@, p@) == Some(s@),
        r matches Err(e) ==> param_text(resolve@, p@) is None && e
            == StubError::UnresolvedReference,
{
    match wit_type_string(resolve, &p.typ) {
        Err(e) => Err(e),
        Ok(t) => {
            let mut s = p.name.clone();
            s.append(": ");
            s.append(t.as_str());
            Ok(s)
        },
    }
}

fn render_params(resolve: &ResolveModel, ps: &Vec<FunctionParamStub>) -> (r: Result<
    String,
    StubError,
>)
    ensures
        r matches Ok(s) ==> params_text(resolve@, ps.deep_view()) == Some(s@),
        r matches Err(e) ==> params_text(resolve@, ps.deep_view()) is None && e
            == StubError::UnresolvedReference,
{
    let ghost psv = ps.deep_view();
    let mut acc = String::new();
    let mut i: usize = 0;
    while i < ps.len()
        invariant
            i <= ps.len(),
            psv == ps.deep_view(),
            psv.len() == ps.len(),
            params_text(resolve@, psv.subrange(0, i as int)) == Some(acc@),
        decreases ps.len() - i,
    {
        assert(psv[i as int] == ps[i as int]@);
        let ghost pre = acc@;
        match render_param(resolve, &ps[i]) {
            Err(e) => {
                proof {
                    lemma_params_text_prefix_err(resolve@, psv, i as int);
                }
                return Err(e);
            },
            Ok(x) => {
                if i > 0 {
                    acc.append(", ");
                }
                acc.append(x.as_str());
                proof {
                    let sub1 = psv.subrange(0, i + 1);
                    assert(sub1.drop_last() =~= psv.subrange(0, i as int));
                    assert(sub1.last() == psv[i as int]);
                    if i == 0 {
                        assert(sub1.len() == 1);
                        assert(pre + x@ =~= x@);
                        assert(acc@ == x@);
                    }
                }
            },
        }
        i += 1;
    }
    assert(psv.subrange(0, psv.len() as int) =~= psv);
    Ok(acc)
}

/// If a parameter has no canonical type name, the whole list has none.
proof fn lemma_params_text_prefix_err(r: ResolveModelV, ps: Seq<FunctionParamStubV>, i: int)
    requires
        0 <= i < ps.len(),
        param_text(r, ps[i]) is None,
    ensures
        params_text(r, ps) is None,
    decreases ps.len(),
{
    if ps.len() > 0 {
        if i == ps.len() - 1 {
            assert(ps.last() == ps[i]);
        } else {
            assert(ps.drop_last()[i] == ps[i]);
            lemma_params_text_prefix_err(r, ps.drop_last(), i);
        }
    }
}

fn render_result(resolve: &ResolveModel, res: &FunctionResultStub) -> (r: Result<
    String,
    StubError,
>)
    ensures
        r matches Ok(s) ==> result_text(resolve@, res@) == Some(s@),
        r matches Err(e) ==> result_text(resolve@, res@) is None && e
            == StubError::UnresolvedReference,
{
    match res {
        FunctionResultStub::Single(t) => {
            match wit_type_string(resolve, t) {
                Err(e) => Err(e),
                Ok(tn) => {
                    let mut s = " -> ".to_owned();
                    s.append(tn.as_str());
                    Ok(s)
                },
            }
        },
        FunctionResultStub::Multi(ps) => {
            if ps.len() == 0 {
                Ok(String::new())
            } else {
                match render_params(resolve, ps) {
                    Err(e) => Err(e),
                    Ok(pt) => {
                        let mut s = " -> (".to_owned();
                        s.append(pt.as_str());
                        s.append(")");
                        Ok(s)
                    },
                }
            }
        },
    }
}

fn render_function(resolve: &ResolveModel, f: &FunctionStub) -> (r: Result<String, StubError>)
    ensures
        r matches Ok(s) ==> function_text(resolve@, f@) == Some(s@),
        r matches Err(e) ==> function_text(resolve@, f@) is None && e
            == StubError::UnresolvedReference,
{
    match render_params(resolve, &f.params) {
        Err(e) => Err(e),
        Ok(pt) => {
            match render_result(resolve, &f.results) {
                Err(e) => Err(e),
                Ok(rt) => {
                    let mut s = "    ".to_owned();
                    s.append(f.name.as_str());
                    s.append(": func(");
                    s.append(pt.as_str());
                    s.append(")");
                    s.append(rt.as_str());
                    s.append(";\n");
                    Ok(s)
                },
            }
        },
    }
}

/// The method lines of one resource, concatenated.
pub open spec fn functions_text(r: ResolveModelV, fs: Seq<FunctionStubV>) -> Option<Seq<char>>
    decreases fs.len(),
{
    if fs.len() == 0 {
        Some(Seq::empty())
    } else {
        match (functions_text(r, fs.drop_last()), function_text(r, fs.last())) {
            (Some(pre), Some(x)) => if fs.len() == 1 {
                Some(x)
            } else {
                Some(pre + x)
            },
            _ => None,
        }
    }
}

proof fn lemma_functions_text_prefix_err(r: ResolveModelV, fs: Seq<FunctionStubV>, i: int)
    requires
        0 <= i < fs.len(),
        function_text(r, fs[i]) is None,
    ensures
        functions_text(r, fs) is None,
    decreases fs.len(),
{
    if fs.len() > 0 {
        if i == fs.len() - 1 {
            assert(fs.last() == fs[i]);
        } else {
            assert(fs.drop_last()[i] == fs[i]);
            lemma_functions_text_prefix_err(r, fs.drop_last(), i);
        }
    }
}

fn render_functions(resolve: &ResolveModel, fs: &Vec<FunctionStub>) -> (r: Result<
    String,
    StubError,
>)
    ensures
        r matches Ok(s) ==> functions_text(resolve@, fs.deep_view()) == Some(s@),
        r matches Err(e) ==> functions_text(resolve@, fs.deep_view()) is None && e
            == StubError::UnresolvedReference,
{
    let ghost fsv = fs.deep_view();
    let mut acc = String::new();
    let mut i: usize = 0;
    while i < fs.len()
        invariant
            i <= fs.len(),
            fsv == fs.deep_view(),
            fsv.len() == fs.len(),
            functions_text(resolve@, fsv.subrange(0, i as int)) == Some(acc@),
        decreases fs.len() - i,
    {
        assert(fsv[i as int] == fs[i as int]@);
        let ghost pre = acc@;
        match render_function(resolve, &fs[i]) {
            Err(e) => {
                proof {
                    lemma_functions_text_prefix_err(resolve@, fsv, i as int);
                }
                return Err(e);
            },
            Ok(x) => {
                acc.append(x.as_str());
                proof {
                    let sub1 = fsv.subrange(0, i + 1);
                    assert(sub1.drop_last() =~= fsv.subrange(0, i as int));
                    assert(sub1.last() == fsv[i as int]);
                    if i == 0 {
                        assert(pre + x@ =~= x@);
                    }
                }
            },
        }
        i += 1;
    }
    assert(fsv.subrange(0, fsv.len() as int) =~= fsv);
    Ok(acc)
}

// ---------------------------------------------------------------------------
// Rendering of resources.
// ---------------------------------------------------------------------------

/// One resource block: header, the fixed single-parameter constructor,
/// the methods, and the closing brace.
pub open spec fn resource_text(r: ResolveModelV, s: InterfaceStubV) -> Option<Seq<char>> {
    match functions_text(r, s.functions) {
        Some(ft) => Some(
            "  resource "@ + s.name + " {\n    constructor(location: uri);\n"@ + ft + "  }\n\n"@,
        ),
        None => None,
    }
}

fn render_resource(resolve: &ResolveModel, s: &InterfaceStub) -> (r: Result<String, StubError>)
    ensures
        r matches Ok(out) ==> resource_text(resolve@, s@) == Some(out@),
        r matches Err(e) ==> resource_text(resolve@, s@) is None && e
            == StubError::UnresolvedReference,
{
    match render_functions(resolve, &s.functions) {
        Err(e) => Err(e),
        Ok(ft) => {
            let mut out = "  resource ".to_owned();
            out.append(s.name.as_str());
            out.append(" {\n    constructor(location: uri);\n");
            out.append(ft.as_str());
            out.append("  }\n\n");
            Ok(out)
        },
    }
}

/// The resource blocks of all stub interfaces, concatenated.
pub open spec fn resources_text(r: ResolveModelV, ss: Seq<InterfaceStubV>) -> Option<Seq<char>>
    decreases ss.len(),
{
    if ss.len() == 0 {
        Some(Seq::empty())
    } else {
        match (resources_text(r, ss.drop_last()), resource_text(r, ss.last())) {
            (Some(pre), Some(x)) => if ss.len() == 1 {
                Some(x)
            } else {
                Some(pre + x)
            },
            _ => None,
        }
    }
}

proof fn lemma_resources_text_prefix_err(r: ResolveModelV, ss: Seq<InterfaceStubV>, i: int)
    requires
        0 <= i < ss.len(),
        resource_text(r, ss[i]) is None,
    ensures
        resources_text(r, ss) is None,
    decreases ss.len(),
{
    if ss.len() > 0 {
        if i == ss.len() - 1 {
            assert(ss.last() == ss[i]);
        } else {
            assert(ss.drop_last()[i] == ss[i]);
            lemma_resources_text_prefix_err(r, ss.drop_last(), i);
        }
    }
}

fn render_resources(resolve: &ResolveModel, ss: &Vec<InterfaceStub>) -> (r: Result<
    String,
    StubError,
>)
    ensures
        r matches Ok(s) ==> resources_text(resolve@, ss.deep_view()) == Some(s@),
        r matches Err(e) ==> resources_text(resolve@, ss.deep_view()) is None && e
            == StubError::UnresolvedReference,
{
    let ghost ssv = ss.deep_view();
    let mut acc = String::new();
    let mut i: usize = 0;
    while i < ss.len()
        invariant
            i <= ss.len(),
            ssv == ss.deep_view(),
            ssv.len() == ss.len(),
            resources_text(resolve@, ssv.subrange(0, i as int)) == Some(acc@),
        decreases ss.len() - i,
    {
        assert(ssv[i as int] == ss[i as int]@);
        let ghost pre = acc@;
        match render_resource(resolve, &ss[i]) {
            Err(e) => {
                proof {
                    lemma_resources_text_prefix_err(resolve@, ssv, i as int);
                }
                return Err(e);
            },
            Ok(x) => {
                acc.append(x.as_str());
                proof {
                    let sub1 = ssv.subrange(0, i + 1);
                    assert(sub1.drop_last() =~= ssv.subrange(0, i as int));
                    assert(sub1.last() == ssv[i as int]);
                    if i == 0 {
                        assert(pre + x@ =~= x@);
                    }
                }
            },
        }
        i += 1;
    }
    assert(ssv.subrange(0, ssv.len() as int) =~= ssv);
    Ok(acc)
}

// ---------------------------------------------------------------------------
// Collecting stub functions, imports and interfaces.
// ---------------------------------------------------------------------------

pub open spec fn stub_of_function(f: WitFunctionV) -> FunctionStubV {
    FunctionStubV { name: f.name, params: f.params, results: f.results }
}

/// The freestanding functions of a list, as stub methods, in declaration
/// order.  Functions already bound to a resource are excluded.
pub open spec fn collect_stub_functions_spec(fs: Seq<WitFunctionV>) -> Seq<FunctionStubV>
    decreases fs.len(),
{
    if fs.len() == 0 {
        Seq::empty()
    } else {
        let pre = collect_stub_functions_spec(fs.drop_last());
        if fs.last().freestanding {
            pre.push(stub_of_function(fs.last()))
        } else {
            pre
        }
    }
}

/// Keeps the freestanding functions as stub methods.
pub fn collect_stub_functions(fs: &Vec<WitFunction>) -> (r: Vec<FunctionStub>)
    ensures
        r.deep_view() == collect_stub_functions_spec(fs.deep_view()),
{
    let ghost fsv = fs.deep_view();
    let mut out: Vec<FunctionStub> = Vec::new();
    let mut i: usize = 0;
    while i < fs.len()
        invariant
            i <= fs.len(),
            fsv == fs.deep_view(),
            fsv.len() == fs.len(),
            out.deep_view() == collect_stub_functions_spec(fsv.subrange(0, i as int)),
        decreases fs.len() - i,
    {
        assert(fsv[i as int] == fs[i as int]@);
        let ghost before = out.deep_view();
        if fs[i].freestanding {
            let f = &fs[i];
            out.push(
                FunctionStub {
                    name: f.name.clone(),
                    params: duplicate_params(&f.params),
                    results: f.results.duplicate(),
                },
            );
            assert(out.deep_view() =~= before.push(stub_of_function(fsv[i as int])));
        }
        proof {
            let sub1 = fsv.subrange(0, i + 1);
            assert(sub1.drop_last() =~= fsv.subrange(0, i as int));
            assert(sub1.last() == fsv[i as int]);
        }
        i += 1;
    }
    assert(fsv.subrange(0, fsv.len() as int) =~= fsv);
    out
}

/// The import path of an interface of the arena: `namespace:name/iface`
/// when the owning package is known, the bare interface name otherwise.
pub open spec fn interface_path(r: ResolveModelV, iid: int) -> Seq<char> {
    let iname = match r.interfaces[iid].name {
        Some(n) => n,
        None => "unknown"@,
    };
    match r.interfaces[iid].package {
        Some(p) => if p < r.packages.len() {
            r.packages[p as int].namespace + ":"@ + r.packages[p as int].name + "/"@ + iname
        } else {
            iname
        },
        None => iname,
    }
}

fn render_interface_path(resolve: &ResolveModel, iid: usize) -> (r: String)
    requires
        iid < resolve@.interfaces.len(),
    ensures
        r@ == interface_path(resolve@, iid as int),
{
    assert(resolve@.interfaces[iid as int] == resolve.interfaces[iid as int]@);
    let iface = &resolve.interfaces[iid];
    let iname: String = match &iface.name {
        Some(n) => n.clone(),
        None => "unknown".to_owned(),
    };
    match iface.package {
        Some(p) => {
            if p < resolve.packages.len() {
                assert(resolve@.packages[p as int] == resolve.packages[p as int]@);
                let pkg = &resolve.packages[p];
                let mut s = pkg.namespace.clone();
                s.append(":");
                s.append(pkg.name.as_str());
                s.append("/");
                s.append(iname.as_str());
                s
            } else {
                iname
            }
        },
        None => iname,
    }
}

/// The imports required by a list of named type bindings: one per type
/// owned by an interface, pointing at that interface's path.  Types owned
/// by a world or by nobody need no import.  A dangling reference has no
/// import list.
pub open spec fn collect_stub_imports_spec(r: ResolveModelV, types: Seq<TypeBindingV>) -> Option<
    Seq<InterfaceStubImportV>,
>
    decreases types.len(),
{
    if types.len() == 0 {
        Some(Seq::empty())
    } else {
        match collect_stub_imports_spec(r, types.drop_last()) {
            None => None,
            Some(pre) => {
                let b = types.last();
                if b.ty >= r.types.len() {
                    None
                } else {
                    match r.types[b.ty as int].owner {
                        TypeOwner::Interface(iid) => if iid >= r.interfaces.len() {
                            None
                        } else {
                            Some(
                                pre.push(
                                    InterfaceStubImportV {
                                        name: b.name,
                                        path: interface_path(r, iid as int),
                                        ty: b.ty,
                                    },
                                ),
                            )
                        },
                        _ => Some(pre),
                    }
                }
            },
        }
    }
}

proof fn lemma_collect_imports_prefix_err(r: ResolveModelV, types: Seq<TypeBindingV>, i: int)
    requires
        0 <= i < types.len(),
        types[i].ty >= r.types.len() || (types[i].ty < r.types.len()
            && match r.types[types[i].ty as int].owner {
            TypeOwner::Interface(iid) => iid >= r.interfaces.len(),
            _ => false,
        }),
    ensures
        collect_stub_imports_spec(r, types) is None,
    decreases types.len(),
{
    if types.len() > 0 {
        if i == types.len() - 1 {
            assert(types.last() == types[i]);
        } else {
            assert(types.drop_last()[i] == types[i]);
            lemma_collect_imports_prefix_err(r, types.drop_last(), i);
        }
    }
}

/// Collects the cross-package imports required by the given bindings.
pub fn collect_stub_imports(resolve: &ResolveModel, types: &Vec<TypeBinding>) -> (r: Result<
    Vec<InterfaceStubImport>,
    StubError,
>)
    ensures
        r matches Ok(v) ==> collect_stub_imports_spec(resolve@, types.deep_view()) == Some(
            v.deep_view(),
        ),
        r matches Err(e) ==> collect_stub_imports_spec(resolve@, types.deep_view()) is None && e
            == StubError::UnresolvedReference,
{
    let ghost tv = types.deep_view();
    let mut out: Vec<InterfaceStubImport> = Vec::new();
    let mut i: usize = 0;
    while i < types.len()
        invariant
            i <= types.len(),
            tv == types.deep_view(),
            tv.len() == types.len(),
            collect_stub_imports_spec(resolve@, tv.subrange(0, i as int)) == Some(out.deep_view()),
        decreases types.len() - i,
    {
        assert(tv[i as int] == types[i as int]@);
        let b = &types[i];
        let ghost before = out.deep_view();
        if b.ty >= resolve.types.len() {
            proof {
                lemma_collect_imports_prefix_err(resolve@, tv, i as int);
            }
            return Err(StubError::UnresolvedReference);
        }
        assert(resolve@.types[b.ty as int] == resolve.types[b.ty as int]@);
        match resolve.types[b.ty].owner {
            TypeOwner::Interface(iid) => {
                if iid >= resolve.interfaces.len() {
                    proof {
                        lemma_collect_imports_prefix_err(resolve@, tv, i as int);
                    }
                    return Err(StubError::UnresolvedReference);
                }
                let path = render_interface_path(resolve, iid);
                out.push(InterfaceStubImport { name: b.name.clone(), path, ty: b.ty });
                assert(out.deep_view() =~= before.push(
                    InterfaceStubImportV {
                        name: tv[i as int].name,
                        path: interface_path(resolve@, iid as int),
                        ty: tv[i as int].ty,
                    },
                ));
            },
            _ => {},
        }
        proof {
            let sub1 = tv.subrange(0, i + 1);
            assert(sub1.drop_last() =~= tv.subrange(0, i as int));
            assert(sub1.last() == tv[i as int]);
        }
        i += 1;
    }
    assert(tv.subrange(0, tv.len() as int) =~= tv);
    Ok(out)
}

/// The world's standalone function exports, in declaration order.
pub open spec fn top_level_functions(exports: Seq<WorldExportV>) -> Seq<WitFunctionV>
    decreases exports.len(),
{
    if exports.len() == 0 {
        Seq::empty()
    } else {
        let pre = top_level_functions(exports.drop_last());
        match exports.last().item {
            WorldItemV::Function(f) => pre.push(f),
            _ => pre,
        }
    }
}

/// The world's standalone type exports, as bindings named by their export
/// name, in declaration order.
pub open spec fn top_level_types(exports: Seq<WorldExportV>) -> Seq<TypeBindingV>
    decreases exports.len(),
{
    if exports.len() == 0 {
        Seq::empty()
    } else {
        let pre = top_level_types(exports.drop_last());
        match exports.last().item {
            WorldItemV::Type(t) => pre.push(TypeBindingV { name: exports.last().name, ty: t }),
            _ => pre,
        }
    }
}

/// The stub interfaces derived from the world's interface exports, in
/// declaration order.
pub open spec fn interface_stubs(r: ResolveModelV, exports: Seq<WorldExportV>) -> Option<
    Seq<InterfaceStubV>,
>
    decreases exports.len(),
{
    if exports.len() == 0 {
        Some(Seq::empty())
    } else {
        match interface_stubs(r, exports.drop_last()) {
            None => None,
            Some(pre) => match exports.last().item {
                WorldItemV::Interface(id) => if id >= r.interfaces.len() {
                    None
                } else {
                    let iface = r.interfaces[id as int];
                    let nm = match iface.name {
                        Some(n) => n,
                        None => exports.last().name,
                    };
                    match collect_stub_imports_spec(r, iface.types) {
                        None => None,
                        Some(imps) => Some(
                            pre.push(
                                InterfaceStubV {
                                    name: nm,
                                    functions: collect_stub_functions_spec(iface.functions),
                                    imports: imps,
                                },
                            ),
                        ),
                    }
                },
                _ => Some(pre),
            },
        }
    }
}

/// All stub interfaces of a world: one per exported interface, plus one
/// named after the world itself when the world exports standalone
/// functions.
pub open spec fn collect_stub_interfaces_spec(r: ResolveModelV, w: WitWorldV) -> Option<
    Seq<InterfaceStubV>,
> {
    match interface_stubs(r, w.exports) {
        None => None,
        Some(ifs) => {
            let tlf = top_level_functions(w.exports);
            if tlf.len() == 0 {
                Some(ifs)
            } else {
                match collect_stub_imports_spec(r, top_level_types(w.exports)) {
                    None => None,
                    Some(imps) => Some(
                        ifs.push(
                            InterfaceStubV {
                                name: w.name,
                                functions: collect_stub_functions_spec(tlf),
                                imports: imps,
                            },
                        ),
                    ),
                }
            }
        },
    }
}

proof fn lemma_interface_stubs_prefix_err(r: ResolveModelV, exports: Seq<WorldExportV>, i: int)
    requires
        0 <= i < exports.len(),
        match exports[i].item {
            WorldItemV::Interface(id) => id >= r.interfaces.len() || collect_stub_imports_spec(
                r,
                r.interfaces[id as int].types,
            ) is None,
            _ => false,
        },
    ensures
        interface_stubs(r, exports) is None,
    decreases exports.len(),
{
    if exports.len() > 0 {
        if i == exports.len() - 1 {
            assert(exports.last() == exports[i]);
        } else {
            assert(exports.drop_last()[i] == exports[i]);
            lemma_interface_stubs_prefix_err(r, exports.drop_last(), i);
        }
    }
}

/// Partitions the world's exports into stub interfaces.
pub fn collect_stub_interfaces(resolve: &ResolveModel, world: &WitWorld) -> (r: Result<
    Vec<InterfaceStub>,
    StubError,
>)
    ensures
        r matches Ok(v) ==> collect_stub_interfaces_spec(resolve@, world@) == Some(v.deep_view()),
        r matches Err(e) ==> collect_stub_interfaces_spec(resolve@, world@) is None && e
            == StubError::UnresolvedReference,
{
    let ghost ev = world.exports.deep_view();
    assert(world@.exports == ev);

    let mut out: Vec<InterfaceStub> = Vec::new();
    let mut tlf: Vec<WitFunction> = Vec::new();
    let mut tlt: Vec<TypeBinding> = Vec::new();
    let mut i: usize = 0;
    while i < world.exports.len()
        invariant
            i <= world.exports.len(),
            ev == world.exports.deep_view(),
            ev.len() == world.exports.len(),
            interface_stubs(resolve@, ev.subrange(0, i as int)) == Some(out.deep_view()),
            tlf.deep_view() == top_level_functions(ev.subrange(0, i as int)),
            tlt.deep_view() == top_level_types(ev.subrange(0, i as int)),
        decreases world.exports.len() - i,
    {
        assert(ev[i as int] == world.exports[i as int]@);
        let ghost out_before = out.deep_view();
        let ghost tlf_before = tlf.deep_view();
        let ghost tlt_before = tlt.deep_view();
        let export = &world.exports[i];
        match &export.item {
            WorldItem::Interface(id) => {
                if *id >= resolve.interfaces.len() {
                    proof {
                        lemma_interface_stubs_prefix_err(resolve@, ev, i as int);
                    }
                    return Err(StubError::UnresolvedReference);
                }
                assert(resolve@.interfaces[*id as int] == resolve.interfaces[*id as int]@);
                let iface = &resolve.interfaces[*id];
                let nm: String = match &iface.name {
                    Some(n) => n.clone(),
                    None => export.name.clone(),
                };
                let functions = collect_stub_functions(&iface.functions);
                match collect_stub_imports(resolve, &iface.types) {
                    Err(e) => {
                        proof {
                            lemma_interface_stubs_prefix_err(resolve@, ev, i as int);
                        }
                        return Err(e);
                    },
                    Ok(imports) => {
                        out.push(InterfaceStub { name: nm, functions, imports });
                        assert(out.deep_view() =~= out_before.push(
                            InterfaceStubV {
                                name: match resolve@.interfaces[*id as int].name {
                                    Some(n) => n,
                                    None => ev[i as int].name,
                                },
                                functions: collect_stub_functions_spec(
                                    resolve@.interfaces[*id as int].functions,
                                ),
                                imports: collect_stub_imports_spec(
                                    resolve@,
                                    resolve@.interfaces[*id as int].types,
                                )->Some_0,
                            },
                        ));
                    },
                }
            },
            WorldItem::Function(f) => {
                tlf.push(
                    WitFunction {
                        name: f.name.clone(),
                        freestanding: f.freestanding,
                        params: duplicate_params(&f.params),
                        results: f.results.duplicate(),
                    },
                );
                assert(tlf.deep_view() =~= tlf_before.push(ev[i as int].item->Function_0));
            },
            WorldItem::Type(t) => {
                tlt.push(TypeBinding { name: export.name.clone(), ty: *t });
                assert(tlt.deep_view() =~= tlt_before.push(
                    TypeBindingV { name: ev[i as int].name, ty: ev[i as int].item->Type_0 },
                ));
            },
        }
        proof {
            let sub1 = ev.subrange(0, i + 1);
            assert(sub1.drop_last() =~= ev.subrange(0, i as int));
            assert(sub1.last() == ev[i as int]);
        }
        i += 1;
    }
    assert(ev.subrange(0, ev.len() as int) =~= ev);

    if tlf.len() > 0 {
        let functions = collect_stub_functions(&tlf);
        match collect_stub_imports(resolve, &tlt) {
            Err(e) => {
                return Err(e);
            },
            Ok(imports) => {
                let ghost out_before = out.deep_view();
                let nm = world.name.clone();
                out.push(InterfaceStub { name: nm, functions, imports });
                assert(out.deep_view() =~= out_before.push(
                    InterfaceStubV {
                        name: world@.name,
                        functions: collect_stub_functions_spec(top_level_functions(ev)),
                        imports: collect_stub_imports_spec(resolve@, top_level_types(ev))->Some_0,
                    },
                ));
            },
        }
    }
    Ok(out)
}

// ---------------------------------------------------------------------------
// Import aggregation and rendering.
// ---------------------------------------------------------------------------

/// The imports of all stub interfaces, concatenated in order.
pub open spec fn all_imports(ss: Seq<InterfaceStubV>) -> Seq<InterfaceStubImportV>
    decreases ss.len(),
{
    if ss.len() == 0 {
        Seq::empty()
    } else {
        all_imports(ss.drop_last()) + ss.last().imports
    }
}

/// An import with this name and source path occurs in `s`.
pub open spec fn contains_import_key(
    s: Seq<InterfaceStubImportV>,
    name: Seq<char>,
    path: Seq<char>,
) -> bool {
    exists|k: int| 0 <= k < s.len() && (#[trigger] s[k]).name == name && s[k].path == path
}

/// The imports with the first occurrence of each name and source path
/// kept, later duplicates dropped.
pub open spec fn dedup_imports(s: Seq<InterfaceStubImportV>) -> Seq<InterfaceStubImportV>
    decreases s.len(),
{
    if s.len() == 0 {
        Seq::empty()
    } else {
        let pre = dedup_imports(s.drop_last());
        if contains_import_key(s.drop_last(), s.last().name, s.last().path) {
            pre
        } else {
            pre.push(s.last())
        }
    }
}

fn contains_import(v: &Vec<InterfaceStubImport>, name: &String, path: &String) -> (r: bool)
    ensures
        r == contains_import_key(v.deep_view(), name@, path@),
{
    let ghost vv = v.deep_view();
    let mut k: usize = 0;
    while k < v.len()
        invariant
            k <= v.len(),
            vv == v.deep_view(),
            vv.len() == v.len(),
            forall|t: int| 0 <= t < k ==> !((#[trigger] vv[t]).name == name@ && vv[t].path == path@),
        decreases v.len() - k,
    {
        assert(vv[k as int] == v[k as int]@);
        if v[k].name == *name && v[k].path == *path {
            return true;
        }
        k += 1;
    }
    false
}

/// Deduplication keeps exactly the keys of its input.
proof fn lemma_dedup_imports_keys(s: Seq<InterfaceStubImportV>)
    ensures
        forall|n: Seq<char>, p: Seq<char>|
            contains_import_key(#[trigger] dedup_imports(s), n, p) == contains_import_key(s, n, p),
    decreases s.len(),
{
    if s.len() > 0 {
        let pre = s.drop_last();
        lemma_dedup_imports_keys(pre);
        let d = dedup_imports(s);
        let dup = contains_import_key(pre, s.last().name, s.last().path);
        assert forall|n: Seq<char>, p: Seq<char>|
            contains_import_key(#[trigger] dedup_imports(s), n, p) == contains_import_key(
                s,
                n,
                p,
            ) by {
            if contains_import_key(d, n, p) {
                let t = choose|t: int|
                    0 <= t < d.len() && (#[trigger] d[t]).name == n && d[t].path == p;
                if t < dedup_imports(pre).len() {
                    assert(d[t] == dedup_imports(pre)[t]);
                    assert(contains_import_key(dedup_imports(pre), n, p));
                    assert(contains_import_key(pre, n, p));
                    let u = choose|u: int|
                        0 <= u < pre.len() && (#[trigger] pre[u]).name == n && pre[u].path == p;
                    assert(s[u] == pre[u]);
                    assert(contains_import_key(s, n, p));
                } else {
                    assert(d[t] == s.last());
                    assert(s[s.len() - 1] == s.last());
                    assert(contains_import_key(s, n, p));
                }
            }
            if contains_import_key(s, n, p) {
                let t = choose|t: int|
                    0 <= t < s.len() && (#[trigger] s[t]).name == n && s[t].path == p;
                if t < s.len() - 1 {
                    assert(pre[t] == s[t]);
                    assert(contains_import_key(pre, n, p));
                    assert(contains_import_key(dedup_imports(pre), n, p));
                    let u = choose|u: int|
                        0 <= u < dedup_imports(pre).len() && (#[trigger] dedup_imports(
                            pre,
                        )[u]).name == n && dedup_imports(pre)[u].path == p;
                    if dup {
                        assert(d == dedup_imports(pre));
                        assert(contains_import_key(d, n, p));
                    } else {
                        assert(d[u] == dedup_imports(pre)[u]);
                        assert(contains_import_key(d, n, p));
                    }
                } else {
                    // the key is the last element's key
                    assert(s[t] == s.last());
                    if dup {
                        assert(contains_import_key(pre, n, p));
                        assert(contains_import_key(dedup_imports(pre), n, p));
                        let u = choose|u: int|
                            0 <= u < dedup_imports(pre).len() && (#[trigger] dedup_imports(
                                pre,
                            )[u]).name == n && dedup_imports(pre)[u].path == p;
                        assert(d == dedup_imports(pre));
                        assert(contains_import_key(d, n, p));
                    } else {
                        assert(d[d.len() - 1] == s.last());
                        assert(contains_import_key(d, n, p));
                    }
                }
            }
        }
    }
}

/// Flattens and deduplicates the imports of the given stub interfaces.
fn gather_imports(ss: &Vec<InterfaceStub>) -> (r: Vec<InterfaceStubImport>)
    ensures
        r.deep_view() == dedup_imports(all_imports(ss.deep_view())),
{
    let ghost ssv = ss.deep_view();
    // flatten
    let mut flat: Vec<InterfaceStubImport> = Vec::new();
    let mut i: usize = 0;
    while i < ss.len()
        invariant
            i <= ss.len(),
            ssv == ss.deep_view(),
            ssv.len() == ss.len(),
            flat.deep_view() == all_imports(ssv.subrange(0, i as int)),
        decreases ss.len() - i,
    {
        assert(ssv[i as int] == ss[i as int]@);
        let ghost flat_before = flat.deep_view();
        let imps = &ss[i].imports;
        let ghost iv = imps.deep_view();
        let mut j: usize = 0;
        while j < imps.len()
            invariant
                j <= imps.len(),
                iv == imps.deep_view(),
                iv.len() == imps.len(),
                flat.deep_view() == flat_before + iv.subrange(0, j as int),
            decreases imps.len() - j,
        {
            assert(iv[j as int] == imps[j as int]@);
            let ghost fb = flat.deep_view();
            flat.push(imps[j].duplicate());
            proof {
                assert(flat.deep_view() =~= fb.push(iv[j as int]));
                assert(fb.push(iv[j as int]) =~= flat_before + iv.subrange(0, j + 1));
            }
            j += 1;
        }
        proof {
            assert(iv.subrange(0, iv.len() as int) =~= iv);
            let sub1 = ssv.subrange(0, i + 1);
            assert(sub1.drop_last() =~= ssv.subrange(0, i as int));
            assert(sub1.last() == ssv[i as int]);
            assert(flat.deep_view() == all_imports(ssv.subrange(0, i as int))
                + ssv[i as int].imports);
        }
        i += 1;
    }
    assert(ssv.subrange(0, ssv.len() as int) =~= ssv);
    let ghost fv = flat.deep_view();

    // keep the first occurrence of each name and path
    let mut out: Vec<InterfaceStubImport> = Vec::new();
    let mut k: usize = 0;
    while k < flat.len()
        invariant
            k <= flat.len(),
            fv == flat.deep_view(),
            fv.len() == flat.len(),
            out.deep_view() == dedup_imports(fv.subrange(0, k as int)),
        decreases flat.len() - k,
    {
        assert(fv[k as int] == flat[k as int]@);
        let ghost out_before = out.deep_view();
        let ghost subk = fv.subrange(0, k as int);
        let present = contains_import(&out, &flat[k].name, &flat[k].path);
        proof {
            lemma_dedup_imports_keys(subk);
            assert(present == contains_import_key(subk, fv[k as int].name, fv[k as int].path));
        }
        if !present {
            out.push(flat[k].duplicate());
        }
        proof {
            let sub1 = fv.subrange(0, k + 1);
            assert(sub1.drop_last() =~= subk);
            assert(sub1.last() == fv[k as int]);
            if present {
                assert(out.deep_view() == dedup_imports(sub1));
            } else {
                assert(out.deep_view() =~= out_before.push(fv[k as int]));
                assert(out.deep_view() == dedup_imports(sub1));
            }
        }
        k += 1;
    }
    assert(fv.subrange(0, fv.len() as int) =~= fv);
    out
}

/// Whether the type behind an import is owned by an interface of the
/// source package itself.
pub open spec fn import_is_root_owned(
    r: ResolveModelV,
    imp: InterfaceStubImportV,
    src: PackageNameV,
) -> bool {
    imp.ty < r.types.len() && match r.types[imp.ty as int].owner {
        TypeOwner::Interface(iid) => iid < r.interfaces.len()
            && match r.interfaces[iid as int].package {
            Some(p) => p < r.packages.len() && r.packages[p as int] == src,
            None => false,
        },
        _ => false,
    }
}

/// One import declaration: a `use` line, or, under the inlining policy
/// for a type owned by the source package, the type's own declaration.
pub open spec fn import_line(
    r: ResolveModelV,
    imp: InterfaceStubImportV,
    src: PackageNameV,
    policy: StubTypeGen,
) -> Option<Seq<char>> {
    if policy is InlineRootTypes && import_is_root_owned(r, imp, src) {
        match r.types[imp.ty as int].decl {
            Some(d) => Some("  "@ + d + "\n"@),
            None => None,
        }
    } else {
        Some("  use "@ + imp.path + ".{"@ + imp.name + "};\n"@)
    }
}

fn render_import(
    resolve: &ResolveModel,
    imp: &InterfaceStubImport,
    src: &PackageName,
    policy: StubTypeGen,
) -> (r: Result<String, StubError>)
    ensures
        r matches Ok(s) ==> import_line(resolve@, imp@, src@, policy) == Some(s@),
        r matches Err(e) ==> import_line(resolve@, imp@, src@, policy) is None && e
            == StubError::UnresolvedReference,
{
    let inline_this = match policy {
        StubTypeGen::InlineRootTypes => {
            if imp.ty < resolve.types.len() {
                assert(resolve@.types[imp.ty as int] == resolve.types[imp.ty as int]@);
                match resolve.types[imp.ty].owner {
                    TypeOwner::Interface(iid) => {
                        if iid < resolve.interfaces.len() {
                            assert(resolve@.interfaces[iid as int]
                                == resolve.interfaces[iid as int]@);
                            match resolve.interfaces[iid].package {
                                Some(p) => {
                                    if p < resolve.packages.len() {
                                        assert(resolve@.packages[p as int]
                                            == resolve.packages[p as int]@);
                                        resolve.packages[p].same_as(src)
                                    } else {
                                        false
                                    }
                                },
                                None => false,
                            }
                        } else {
                            false
                        }
                    },
                    _ => false,
                }
            } else {
                false
            }
        },
        StubTypeGen::ImportRootTypes => false,
    };
    assert(inline_this == (policy is InlineRootTypes && import_is_root_owned(
        resolve@,
        imp@,
        src@,
    )));
    if inline_this {
        assert(resolve@.types[imp.ty as int] == resolve.types[imp.ty as int]@);
        match &resolve.types[imp.ty].decl {
            Some(d) => {
                let mut s = "  ".to_owned();
                s.append(d.as_str());
                s.append("\n");
                Ok(s)
            },
            None => Err(StubError::UnresolvedReference),
        }
    } else {
        let mut s = "  use ".to_owned();
        s.append(imp.path.as_str());
        s.append(".{");
        s.append(imp.name.as_str());
        s.append("};\n");
        Ok(s)
    }
}

/// The import declarations, concatenated in order.
pub open spec fn imports_text(
    r: ResolveModelV,
    imps: Seq<InterfaceStubImportV>,
    src: PackageNameV,
    policy: StubTypeGen,
) -> Option<Seq<char>>
    decreases imps.len(),
{
    if imps.len() == 0 {
        Some(Seq::empty())
    } else {
        match (
            imports_text(r, imps.drop_last(), src, policy),
            import_line(r, imps.last(), src, policy),
        ) {
            (Some(pre), Some(x)) => if imps.len() == 1 {
                Some(x)
            } else {
                Some(pre + x)
            },
            _ => None,
        }
    }
}

proof fn lemma_imports_text_prefix_err(
    r: ResolveModelV,
    imps: Seq<InterfaceStubImportV>,
    src: PackageNameV,
    policy: StubTypeGen,
    i: int,
)
    requires
        0 <= i < imps.len(),
        import_line(r, imps[i], src, policy) is None,
    ensures
        imports_text(r, imps, src, policy) is None,
    decreases imps.len(),
{
    if imps.len() > 0 {
        if i == imps.len() - 1 {
            assert(imps.last() == imps[i]);
        } else {
            assert(imps.drop_last()[i] == imps[i]);
            lemma_imports_text_prefix_err(r, imps.drop_last(), src, policy, i);
        }
    }
}

fn render_imports(
    resolve: &ResolveModel,
    imps: &Vec<InterfaceStubImport>,
    src: &PackageName,
    policy: StubTypeGen,
) -> (r: Result<String, StubError>)
    ensures
        r matches Ok(s) ==> imports_text(resolve@, imps.deep_view(), src@, policy) == Some(s@),
        r matches Err(e) ==> imports_text(resolve@, imps.deep_view(), src@, policy) is None && e
            == StubError::UnresolvedReference,
{
    let ghost iv = imps.deep_view();
    let mut acc = String::new();
    let mut i: usize = 0;
    while i < imps.len()
        invariant
            i <= imps.len(),
            iv == imps.deep_view(),
            iv.len() == imps.len(),
            imports_text(resolve@, iv.subrange(0, i as int), src@, policy) == Some(acc@),
        decreases imps.len() - i,
    {
        assert(iv[i as int] == imps[i as int]@);
        let ghost pre = acc@;
        match render_import(resolve, &imps[i], src, policy) {
            Err(e) => {
                proof {
                    lemma_imports_text_prefix_err(resolve@, iv, src@, policy, i as int);
                }
                return Err(e);
            },
            Ok(x) => {
                acc.append(x.as_str());
                proof {
                    let sub1 = iv.subrange(0, i + 1);
                    assert(sub1.drop_last() =~= iv.subrange(0, i as int));
                    assert(sub1.last() == iv[i as int]);
                    if i == 0 {
                        assert(pre + x@ =~= x@);
                    }
                }
            },
        }
        i += 1;
    }
    assert(iv.subrange(0, iv.len() as int) =~= iv);
    Ok(acc)
}

// ---------------------------------------------------------------------------
// The whole document.
// ---------------------------------------------------------------------------

/// The full text of the stub document for a world, or the error that
/// synthesis reports: a dangling reference, or a world with nothing to
/// stub.  The text is a function of the world's content, the source
/// package identity and the policy alone.
pub open spec fn stub_text_spec(
    r: ResolveModelV,
    w: WitWorldV,
    src: PackageNameV,
    policy: StubTypeGen,
) -> Result<Seq<char>, StubError> {
    match collect_stub_interfaces_spec(r, w) {
        None => Err(StubError::UnresolvedReference),
        Some(stubs) => if stubs.len() == 0 {
            Err(StubError::EmptyWorld)
        } else {
            let imps = dedup_imports(all_imports(stubs));
            match (imports_text(r, imps, src, policy), resources_text(r, stubs)) {
                (Some(it), Some(rt)) => Ok(
                    "package "@ + src.namespace + ":"@ + src.name + "-stub;\n\n"@
                        + "interface stub-"@ + w.name + " {\n"@
                        + "  use golem:rpc/types@0.1.0.{uri};\n"@ + it + "\n"@ + rt + "}\n\n"@
                        + "world stub-"@ + w.name + " {\n  export stub-"@ + w.name + ";\n}\n"@,
                ),
                _ => Err(StubError::UnresolvedReference),
            }
        },
    }
}

/// Synthesizes the stub WIT document for the world at `world_idx`.
///
/// The output is byte-identical for identical inputs; interfaces,
/// functions and imports appear in declaration order.
pub fn generate_stub_wit(
    resolve: &ResolveModel,
    source_package: &PackageName,
    world_idx: usize,
    policy: StubTypeGen,
) -> (r: Result<String, StubError>)
    ensures
        world_idx < resolve@.worlds.len() ==> match stub_text_spec(
            resolve@,
            resolve@.worlds[world_idx as int],
            source_package@,
            policy,
        ) {
            Ok(text) => r matches Ok(s) && s@ == text,
            Err(e) => r matches Err(e2) && e2 == e,
        },
        world_idx >= resolve@.worlds.len() ==> (r matches Err(e) && e
            == StubError::UnresolvedReference),
{
    if world_idx >= resolve.worlds.len() {
        return Err(StubError::UnresolvedReference);
    }
    assert(resolve@.worlds[world_idx as int] == resolve.worlds[world_idx as int]@);
    let world = &resolve.worlds[world_idx];
    let stubs = match collect_stub_interfaces(resolve, world) {
        Err(e) => {
            return Err(e);
        },
        Ok(stubs) => stubs,
    };
    if stubs.len() == 0 {
        return Err(StubError::EmptyWorld);
    }
    let imports = gather_imports(&stubs);
    let it = match render_imports(resolve, &imports, source_package, policy) {
        Err(e) => {
            return Err(e);
        },
        Ok(it) => it,
    };
    let rt = match render_resources(resolve, &stubs) {
        Err(e) => {
            return Err(e);
        },
        Ok(rt) => rt,
    };
    let mut out = "package ".to_owned();
    out.append(source_package.namespace.as_str());
    out.append(":");
    out.append(source_package.name.as_str());
    out.append("-stub;\n\n");
    out.append("interface stub-");
    out.append(world.name.as_str());
    out.append(" {\n");
    out.append("  use golem:rpc/types@0.1.0.{uri};\n");
    out.append(it.as_str());
    out.append("\n");
    out.append(rt.as_str());
    out.append("}\n\n");
    out.append("world stub-");
    out.append(world.name.as_str());
    out.append(" {\n  export stub-");
    out.append(world.name.as_str());
    out.append(";\n}\n");
    Ok(out)
}

// ---------------------------------------------------------------------------
// World selection.
// ---------------------------------------------------------------------------

/// The first of the source package's worlds carrying the requested name;
/// entries that do not resolve are passed over.
pub open spec fn find_world_index(
    r: ResolveModelV,
    root_worlds: Seq<usize>,
    name: Seq<char>,
) -> Option<usize>
    decreases root_worlds.len(),
{
    if root_worlds.len() == 0 {
        None
    } else {
        let w = root_worlds[0];
        if w < r.worlds.len() && r.worlds[w as int].name == name {
            Some(w)
        } else {
            find_world_index(r, root_worlds.drop_first(), name)
        }
    }
}

/// The outcome of world selection: the world with the requested name,
/// or, when no name is requested, the source package's only world.
pub open spec fn select_world_spec(
    r: ResolveModelV,
    root_worlds: Seq<usize>,
    requested: Option<Seq<char>>,
) -> Result<usize, StubError> {
    match requested {
        Some(n) => match find_world_index(r, root_worlds, n) {
            Some(i) => Ok(i),
            None => Err(StubError::WorldNotFound),
        },
        None => if root_worlds.len() == 0 {
            Err(StubError::WorldNotFound)
        } else if root_worlds.len() > 1 {
            Err(StubError::AmbiguousWorld)
        } else if root_worlds[0] < r.worlds.len() {
            Ok(root_worlds[0])
        } else {
            Err(StubError::UnresolvedReference)
        },
    }
}

/// Selects the world stub generation targets: the named one, or, when no
/// name is requested, the source package's only world.
pub fn select_world(
    resolve: &ResolveModel,
    root_worlds: &Vec<usize>,
    requested: &Option<String>,
) -> (r: Result<usize, StubError>)
    ensures
        r == select_world_spec(resolve@, root_worlds@, requested.deep_view()),
        r matches Ok(i) ==> i < resolve@.worlds.len(),
        requested matches Some(n) ==> match find_world_index(
            resolve@,
            root_worlds@,
            n@,
        ) {
            Some(i) => r == Ok::<usize, StubError>(i),
            None => r matches Err(e) && e == StubError::WorldNotFound,
        },
        requested is None && root_worlds@.len() == 0 ==> (r matches Err(e) && e
            == StubError::WorldNotFound),
        requested is None && root_worlds@.len() > 1 ==> (r matches Err(e) && e
            == StubError::AmbiguousWorld),
        requested is None && root_worlds@.len() == 1 ==> if root_worlds@[0]
            < resolve@.worlds.len() {
            r == Ok::<usize, StubError>(root_worlds@[0])
        } else {
            r matches Err(e) && e == StubError::UnresolvedReference
        },
{
    match requested {
        Some(n) => {
            let ghost rwv = root_worlds@;
            assert(rwv.skip(0) =~= rwv);
            let mut k: usize = 0;
            while k < root_worlds.len()
                invariant
                    k <= root_worlds.len(),
                    rwv == root_worlds@,
                    requested matches Some(m) && m@ == n@,
                    find_world_index(resolve@, rwv, n@) == find_world_index(
                        resolve@,
                        rwv.skip(k as int),
                        n@,
                    ),
                decreases root_worlds.len() - k,
            {
                let w = root_worlds[k];
                assert(rwv.skip(k as int)[0] == rwv[k as int]);
                let hit = if w < resolve.worlds.len() {
                    assert(resolve@.worlds[w as int] == resolve.worlds[w as int]@);
                    resolve.worlds[w].name == *n
                } else {
                    false
                };
                if hit {
                    proof {
                        assert(find_world_index(resolve@, rwv.skip(k as int), n@) == Some(w));
                        assert(find_world_index(resolve@, rwv, n@) == Some(w));
                    }
                    return Ok(w);
                }
                proof {
                    assert(rwv.skip(k as int).drop_first() =~= rwv.skip(k + 1));
                }
                k += 1;
            }
            assert(rwv.skip(rwv.len() as int).len() == 0);
            Err(StubError::WorldNotFound)
        },
        None => {
            if root_worlds.len() == 0 {
                Err(StubError::WorldNotFound)
            } else if root_worlds.len() > 1 {
                Err(StubError::AmbiguousWorld)
            } else {
                let w = root_worlds[0];
                if w < resolve.worlds.len() {
                    Ok(w)
                } else {
                    Err(StubError::UnresolvedReference)
                }
            }
        },
    }
}

} // verus!
