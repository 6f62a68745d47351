//! Exported-instance discovery for binary composition.
//!
//! Each compiled stub binary declares top-level instance exports.  The
//! composition configuration maps every exported instance name to the
//! stub file that provides it; a name exported by two different stub
//! files is ambiguous and rejected rather than silently resolved.

use vstd::prelude::*;

verus! {

/// The top-level instance exports of one compiled stub binary.
pub struct StubExports {
    pub path: String,
    pub instance_names: Vec<String>,
}

pub ghost struct StubExportsV {
    pub path: Seq<char>,
    pub instance_names: Seq<Seq<char>>,
}

impl View for StubExports {
    type V = StubExportsV;

    open spec fn view(&self) -> StubExportsV {
        StubExportsV { path: self.path@, instance_names: self.instance_names.deep_view() }
    }
}

impl DeepView for StubExports {
    type V = StubExportsV;

    open spec fn deep_view(&self) -> StubExportsV {
        self.view()
    }
}

/// One resolved dependency of the composition configuration.
pub struct InstanceMapping {
    pub name: String,
    pub path: String,
}

pub ghost struct InstanceMappingV {
    pub name: Seq<char>,
    pub path: Seq<char>,
}

impl View for InstanceMapping {
    type V = InstanceMappingV;

    open spec fn view(&self) -> InstanceMappingV {
        InstanceMappingV { name: self.name@, path: self.path@ }
    }
}

impl DeepView for InstanceMapping {
    type V = InstanceMappingV;

    open spec fn deep_view(&self) -> InstanceMappingV {
        self.view()
    }
}

/// Failure of composition input construction.
#[derive(Debug)]
pub enum ComposeError {
    /// The named instance is exported by two different stub files.
    AmbiguousDependency(String),
}

/// Some supplied stub with file `path` exports the instance `name`.
pub open spec fn exports_pair(
    stubs: Seq<StubExportsV>,
    name: Seq<char>,
    path: Seq<char>,
) -> bool {
    exists|i: int, j: int|
        0 <= i < stubs.len() && 0 <= j < stubs[i].instance_names.len() && (
        #[trigger] stubs[i].instance_names[j]) == name && stubs[i].path == path
}

/// Two different stub files export one instance name.
pub open spec fn has_conflict(stubs: Seq<StubExportsV>) -> bool {
    exists|n: Seq<char>, p1: Seq<char>, p2: Seq<char>|
        #[trigger] exports_pair(stubs, n, p1) && #[trigger] exports_pair(stubs, n, p2) && p1 != p2
}

/// Every mapping entry is an exported pair.
pub open spec fn mapping_sound(stubs: Seq<StubExportsV>, m: Seq<InstanceMappingV>) -> bool {
    forall|k: int|
        0 <= k < m.len() ==> exports_pair(stubs, (#[trigger] m[k]).name, m[k].path)
}

/// Every exported pair has its mapping entry.
pub open spec fn mapping_complete(stubs: Seq<StubExportsV>, m: Seq<InstanceMappingV>) -> bool {
    forall|n: Seq<char>, p: Seq<char>|
        #[trigger] exports_pair(stubs, n, p) ==> exists|k: int|
            0 <= k < m.len() && (#[trigger] m[k]).name == n && m[k].path == p
}

/// No instance name is mapped twice.
pub open spec fn mapping_names_distinct(m: Seq<InstanceMappingV>) -> bool {
    forall|k1: int, k2: int|
        0 <= k1 < k2 < m.len() ==> (#[trigger] m[k1]).name != (#[trigger] m[k2]).name
}

/// The pairs among the first `i` stubs, plus the first `j` instance
/// names of stub `i`.
pub open spec fn pair_upto(
    stubs: Seq<StubExportsV>,
    i: int,
    j: int,
    name: Seq<char>,
    path: Seq<char>,
) -> bool {
    exports_pair(stubs.subrange(0, i), name, path) || (0 <= i < stubs.len() && exists|b: int|
        0 <= b < j && j <= stubs[i].instance_names.len() && (#[trigger] stubs[i].instance_names[b])
            == name && stubs[i].path == path)
}

proof fn lemma_pair_upto_is_pair(
    stubs: Seq<StubExportsV>,
    i: int,
    j: int,
    name: Seq<char>,
    path: Seq<char>,
)
    requires
        0 <= i <= stubs.len(),
        pair_upto(stubs, i, j, name, path),
    ensures
        exports_pair(stubs, name, path),
{
    if exports_pair(stubs.subrange(0, i), name, path) {
        let (a, b) = choose|a: int, b: int|
            0 <= a < stubs.subrange(0, i).len() && 0 <= b < stubs.subrange(
                0,
                i,
            )[a].instance_names.len() && (#[trigger] stubs.subrange(0, i)[a].instance_names[b])
                == name && stubs.subrange(0, i)[a].path == path;
        assert(stubs.subrange(0, i)[a] == stubs[a]);
        assert(exports_pair(stubs, name, path));
    } else {
        let b = choose|b: int|
            0 <= b < j && j <= stubs[i].instance_names.len() && (
            #[trigger] stubs[i].instance_names[b]) == name && stubs[i].path == path;
        assert(exports_pair(stubs, name, path));
    }
}

fn find_mapping(m: &Vec<InstanceMapping>, name: &String) -> (r: Option<usize>)
    ensures
        r matches Some(k) ==> k < m.len() && m.deep_view()[k as int].name == name@,
        r is None ==> forall|k: int|
            0 <= k < m.deep_view().len() ==> (#[trigger] m.deep_view()[k]).name != name@,
{
    let ghost mv = m.deep_view();
    let mut k: usize = 0;
    while k < m.len()
        invariant
            k <= m.len(),
            mv == m.deep_view(),
            mv.len() == m.len(),
            forall|t: int| 0 <= t < k ==> (#[trigger] mv[t]).name != name@,
        decreases m.len() - k,
    {
        assert(mv[k as int] == m[k as int]@);
        if m[k].name == *name {
            return Some(k);
        }
        k += 1;
    }
    None
}

/// Builds the composition configuration from the supplied stubs'
/// top-level instance exports.
///
/// Succeeds exactly when no instance name is exported by two different
/// stub files; the result then maps each exported name to its one file,
/// with no name listed twice.
#[verifier::rlimit(60)]
pub fn compose(stubs: &Vec<StubExports>) -> (r: Result<Vec<InstanceMapping>, ComposeError>)
    ensures
        r is Ok <==> !has_conflict(stubs.deep_view()),
        r matches Ok(m) ==> mapping_sound(stubs.deep_view(), m.deep_view())
            && mapping_complete(stubs.deep_view(), m.deep_view()) && mapping_names_distinct(
            m.deep_view(),
        ),
{
    let ghost sv = stubs.deep_view();
    let mut m: Vec<InstanceMapping> = Vec::new();
    let mut i: usize = 0;
    while i < stubs.len()
        invariant
            i <= stubs.len(),
            sv == stubs.deep_view(),
            sv.len() == stubs.len(),
            forall|k: int|
                0 <= k < m.deep_view().len() ==> pair_upto(
                    sv,
                    i as int,
                    0,
                    (#[trigger] m.deep_view()[k]).name,
                    m.deep_view()[k].path,
                ),
            forall|n: Seq<char>, p: Seq<char>|
                #[trigger] pair_upto(sv, i as int, 0, n, p) ==> exists|k: int|
                    0 <= k < m.deep_view().len() && (#[trigger] m.deep_view()[k]).name == n
                        && m.deep_view()[k].path == p,
            forall|k1: int, k2: int|
                0 <= k1 < k2 < m.deep_view().len() ==> (#[trigger] m.deep_view()[k1]).name != (
                #[trigger] m.deep_view()[k2]).name,
        decreases stubs.len() - i,
    {
        assert(sv[i as int] == stubs[i as int]@);
        let stub = &stubs[i];
        let ghost nv = stub.instance_names.deep_view();
        let mut j: usize = 0;
        while j < stub.instance_names.len()
            invariant
                j <= stub.instance_names.len(),
                i < stubs.len(),
                sv == stubs.deep_view(),
                sv.len() == stubs.len(),
                nv == stub.instance_names.deep_view(),
                nv.len() == stub.instance_names.len(),
                sv[i as int] == stub@,
                forall|k: int|
                    0 <= k < m.deep_view().len() ==> pair_upto(
                        sv,
                        i as int,
                        j as int,
                        (#[trigger] m.deep_view()[k]).name,
                        m.deep_view()[k].path,
                    ),
                forall|n: Seq<char>, p: Seq<char>|
                    #[trigger] pair_upto(sv, i as int, j as int, n, p) ==> exists|k: int|
                        0 <= k < m.deep_view().len() && (#[trigger] m.deep_view()[k]).name == n
                            && m.deep_view()[k].path == p,
                forall|k1: int, k2: int|
                    0 <= k1 < k2 < m.deep_view().len() ==> (#[trigger] m.deep_view()[k1]).name
                        != (#[trigger] m.deep_view()[k2]).name,
            decreases stub.instance_names.len() - j,
        {
            assert(nv[j as int] == stub.instance_names[j as int]@);
            let name = &stub.instance_names[j];
            let ghost mv0 = m.deep_view();
            match find_mapping(&m, name) {
                Some(k) => {
                    let same = m[k].path == stub.path;
                    if !same {
                        // the same instance name from two different files
                        proof {
                            assert(pair_upto(sv, i as int, j as int, name@, mv0[k as int].path));
                            lemma_pair_upto_is_pair(
                                sv,
                                i as int,
                                j as int,
                                name@,
                                mv0[k as int].path,
                            );
                            assert(0 <= j < sv[i as int].instance_names.len()
                                && sv[i as int].instance_names[j as int] == name@
                                && sv[i as int].path == stub@.path);
                            assert(exports_pair(sv, name@, stub@.path));
                            assert(has_conflict(sv));
                        }
                        return Err(ComposeError::AmbiguousDependency(name.clone()));
                    }
                    proof {
                        assert forall|n: Seq<char>, p: Seq<char>|
                            #[trigger] pair_upto(sv, i as int, j + 1, n, p) implies exists|k2: int|
                            0 <= k2 < m.deep_view().len() && (#[trigger] m.deep_view()[k2]).name
                                == n && m.deep_view()[k2].path == p by {
                            if !pair_upto(sv, i as int, j as int, n, p) {
                                // the new pair is this very name and path
                                assert(n == name@ && p == stub@.path);
                                assert(m.deep_view()[k as int].name == n);
                                assert(m.deep_view()[k as int].path == p);
                            }
                        }
                        assert forall|k2: int|
                            0 <= k2 < m.deep_view().len() implies pair_upto(
                            sv,
                            i as int,
                            j + 1,
                            (#[trigger] m.deep_view()[k2]).name,
                            m.deep_view()[k2].path,
                        ) by {
                            assert(pair_upto(
                                sv,
                                i as int,
                                j as int,
                                m.deep_view()[k2].name,
                                m.deep_view()[k2].path,
                            ));
                        }
                    }
                },
                None => {
                    m.push(InstanceMapping { name: name.clone(), path: stub.path.clone() });
                    proof {
                        let mv1 = m.deep_view();
                        assert(mv1 =~= mv0.push(
                            InstanceMappingV { name: name@, path: stub@.path },
                        ));
                        assert forall|n: Seq<char>, p: Seq<char>|
                            #[trigger] pair_upto(sv, i as int, j + 1, n, p) implies exists|k2: int|
                            0 <= k2 < mv1.len() && (#[trigger] mv1[k2]).name == n && mv1[k2].path
                                == p by {
                            if pair_upto(sv, i as int, j as int, n, p) {
                                let k2 = choose|k2: int|
                                    0 <= k2 < mv0.len() && (#[trigger] mv0[k2]).name == n
                                        && mv0[k2].path == p;
                                assert(mv1[k2].name == n && mv1[k2].path == p);
                            } else {
                                assert(n == name@ && p == stub@.path);
                                assert(mv1[mv1.len() - 1].name == n);
                                assert(mv1[mv1.len() - 1].path == p);
                            }
                        }
                        assert forall|k2: int|
                            0 <= k2 < mv1.len() implies pair_upto(
                            sv,
                            i as int,
                            j + 1,
                            (#[trigger] mv1[k2]).name,
                            mv1[k2].path,
                        ) by {
                            if k2 < mv0.len() {
                                assert(mv1[k2] == mv0[k2]);
                                assert(pair_upto(sv, i as int, j as int, mv0[k2].name, mv0[k2].path));
                            } else {
                                assert(mv1[k2].name == name@ && mv1[k2].path == stub@.path);
                                assert(0 <= j < sv[i as int].instance_names.len());
                            }
                        }
                        assert forall|k1: int, k2: int|
                            0 <= k1 < k2 < mv1.len() implies (#[trigger] mv1[k1]).name != (
                        #[trigger] mv1[k2]).name by {
                            if k2 == mv1.len() - 1 {
                                assert(mv1[k1] == mv0[k1]);
                            }
                        }
                    }
                },
            }
            j += 1;
        }
        proof {
            // a full stub processed: pairs up to (i, full) are pairs up to (i + 1, 0)
            assert forall|n: Seq<char>, p: Seq<char>|
                #[trigger] pair_upto(sv, i + 1, 0, n, p) implies pair_upto(
                sv,
                i as int,
                nv.len() as int,
                n,
                p,
            ) by {
                assert(exports_pair(sv.subrange(0, i + 1), n, p));
                let (a, b) = choose|a: int, b: int|
                    0 <= a < sv.subrange(0, i + 1).len() && 0 <= b < sv.subrange(
                        0,
                        i + 1,
                    )[a].instance_names.len() && (#[trigger] sv.subrange(
                        0,
                        i + 1,
                    )[a].instance_names[b]) == n && sv.subrange(0, i + 1)[a].path == p;
                assert(sv.subrange(0, i + 1)[a] == sv[a]);
                if a < i {
                    assert(sv.subrange(0, i as int)[a] == sv[a]);
                    assert(exports_pair(sv.subrange(0, i as int), n, p));
                } else {
                    assert(a == i);
                }
            }
            assert forall|n: Seq<char>, p: Seq<char>|
                #[trigger] pair_upto(sv, i as int, nv.len() as int, n, p) implies pair_upto(
                sv,
                i + 1,
                0,
                n,
                p,
            ) by {
                lemma_pair_upto_is_pair(sv, i as int, nv.len() as int, n, p);
                let (a, b) = choose|a: int, b: int|
                    0 <= a < sv.len() && 0 <= b < sv[a].instance_names.len() && (
                    #[trigger] sv[a].instance_names[b]) == n && sv[a].path == p;
                if a <= i {
                    assert(sv.subrange(0, i + 1)[a] == sv[a]);
                    assert(exports_pair(sv.subrange(0, i + 1), n, p));
                } else {
                    // the exporting stub is not yet processed; but the pair
                    // was reachable below (i, full), so it also stands in a
                    // processed stub
                    if exports_pair(sv.subrange(0, i as int), n, p) {
                        let (a2, b2) = choose|a2: int, b2: int|
                            0 <= a2 < sv.subrange(0, i as int).len() && 0 <= b2 < sv.subrange(
                                0,
                                i as int,
                            )[a2].instance_names.len() && (#[trigger] sv.subrange(
                                0,
                                i as int,
                            )[a2].instance_names[b2]) == n && sv.subrange(0, i as int)[a2].path
                                == p;
                        assert(sv.subrange(0, i as int)[a2] == sv[a2]);
                        assert(sv.subrange(0, i + 1)[a2] == sv[a2]);
                        assert(exports_pair(sv.subrange(0, i + 1), n, p));
                    } else {
                        assert(sv.subrange(0, i + 1)[i as int] == sv[i as int]);
                        assert(exports_pair(sv.subrange(0, i + 1), n, p));
                    }
                }
            }
        }
        i += 1;
    }
    proof {
        let mv = m.deep_view();
        assert(sv.subrange(0, sv.len() as int) =~= sv);
        // every mapping entry is an exported pair
        assert forall|k: int|
            0 <= k < mv.len() implies exports_pair(sv, (#[trigger] mv[k]).name, mv[k].path) by {
            lemma_pair_upto_is_pair(sv, sv.len() as int, 0, mv[k].name, mv[k].path);
        }
        // every exported pair has its mapping entry
        assert forall|n: Seq<char>, p: Seq<char>|
            #[trigger] exports_pair(sv, n, p) implies exists|k: int|
            0 <= k < mv.len() && (#[trigger] mv[k]).name == n && mv[k].path == p by {
            assert(pair_upto(sv, sv.len() as int, 0, n, p));
        }
        // a mapped name with two exporting paths would collide in the map
        assert(!has_conflict(sv)) by {
            if has_conflict(sv) {
                let (n, p1, p2) = choose|n: Seq<char>, p1: Seq<char>, p2: Seq<char>|
                    #[trigger] exports_pair(sv, n, p1) && #[trigger] exports_pair(sv, n, p2) && p1
                        != p2;
                let k1 = choose|k: int|
                    0 <= k < mv.len() && (#[trigger] mv[k]).name == n && mv[k].path == p1;
                let k2 = choose|k: int|
                    0 <= k < mv.len() && (#[trigger] mv[k]).name == n && mv[k].path == p2;
                assert(k1 != k2);
                if k1 < k2 {
                    assert(mv[k1].name != mv[k2].name);
                } else {
                    assert(mv[k2].name != mv[k1].name);
                }
                assert(false);
            }
        }
        assert(mapping_sound(sv, mv));
        assert(mapping_complete(sv, mv));
        assert(mapping_names_distinct(mv));
        assert(!has_conflict(stubs.deep_view()));
    }
    Ok(m)
}

} // verus!
