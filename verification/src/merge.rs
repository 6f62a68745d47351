//! Dependency-merge linking.
//!
//! A generated stub's WIT root is merged into a destination component's
//! WIT root by a plan of filesystem actions.  Planning, verification and
//! application are separate phases: all actions are planned, every action
//! is checked against the destination's current content, and only then is
//! anything written.  A merge either fully applies or leaves the
//! destination untouched.

use vstd::prelude::*;
use vstd::string::*;

use crate::imports::{replace_self_imports_from_dependencies, self_stub_pattern, strip_spec};
use crate::model::{
    duplicate_wit_files, DepDirV, PackageName, PackageNameV, WitFile, WitFileV, WitPackage,
    WitRoot, WitRootV,
};
use crate::stub::{
    find_world_index, generate_stub_wit, select_world, stub_text_spec, StubError, StubTypeGen,
};

verus! {

/// Failure of a dependency merge.
#[derive(Debug)]
pub enum MergeError {
    /// Caller and target components use one package name.
    SamePackageName,
    /// The stub document's package name does not carry the stub suffix.
    MalformedStubPackage,
    /// No interface of the stub document carries the stub name prefix.
    NoStubInterface,
    /// Regenerating the inlined stub against the destination failed.
    Synthesis(StubError),
    /// A planned write conflicts: with existing destination content in
    /// the named dependency directory while overwrite was not forced, or
    /// with another planned write at the named path.
    ConflictingContent(String),
    /// A manifest update was requested but the destination has no
    /// manifest file.
    ManifestMissing,
}

/// A planned, idempotent filesystem mutation under the destination's
/// `deps/` directory.  Actions are pure data: they carry the content they
/// write.
pub enum WitAction {
    /// Copy a dependency directory verbatim.
    CopyDepDir { dir_name: String, files: Vec<WitFile> },
    /// Copy the stub's main document verbatim into a dependency directory.
    CopyDepWit { dir_name: String, file: WitFile },
    /// Write freshly generated WIT text to a named file under a named
    /// dependency directory.
    WriteWit { source_wit: String, dir_name: String, file_name: String },
}

pub ghost enum WitActionV {
    CopyDepDir { dir_name: Seq<char>, files: Seq<WitFileV> },
    CopyDepWit { dir_name: Seq<char>, file: WitFileV },
    WriteWit { source_wit: Seq<char>, dir_name: Seq<char>, file_name: Seq<char> },
}

impl View for WitAction {
    type V = WitActionV;

    open spec fn view(&self) -> WitActionV {
        match self {
            WitAction::CopyDepDir { dir_name, files } => WitActionV::CopyDepDir {
                dir_name: dir_name@,
                files: files.deep_view(),
            },
            WitAction::CopyDepWit { dir_name, file } => WitActionV::CopyDepWit {
                dir_name: dir_name@,
                file: file@,
            },
            WitAction::WriteWit { source_wit, dir_name, file_name } => WitActionV::WriteWit {
                source_wit: source_wit@,
                dir_name: dir_name@,
                file_name: file_name@,
            },
        }
    }
}

impl DeepView for WitAction {
    type V = WitActionV;

    open spec fn deep_view(&self) -> WitActionV {
        self.view()
    }
}

/// The dependency directory an action populates.
pub open spec fn action_dir(a: WitActionV) -> Seq<char> {
    match a {
        WitActionV::CopyDepDir { dir_name, .. } => dir_name,
        WitActionV::CopyDepWit { dir_name, .. } => dir_name,
        WitActionV::WriteWit { dir_name, .. } => dir_name,
    }
}

impl WitAction {
    /// The name of the dependency directory this action populates.
    pub fn get_dep_dir_name(&self) -> (r: String)
        ensures
            r@ == action_dir(self@),
    {
        match self {
            WitAction::CopyDepDir { dir_name, .. } => dir_name.clone(),
            WitAction::CopyDepWit { dir_name, .. } => dir_name.clone(),
            WitAction::WriteWit { dir_name, .. } => dir_name.clone(),
        }
    }
}

/// The path of a file in a dependency directory, relative to the
/// destination WIT root.
pub open spec fn dep_path(dir: Seq<char>, name: Seq<char>) -> Seq<char> {
    "deps/"@ + dir + "/"@ + name
}

fn render_dep_path(dir: &String, name: &String) -> (r: String)
    ensures
        r@ == dep_path(dir@, name@),
{
    let mut s = "deps/".to_owned();
    s.append(dir.as_str());
    s.append("/");
    s.append(name.as_str());
    s
}

// ---------------------------------------------------------------------------
// The destination's file contents, as a path-to-text map.
// ---------------------------------------------------------------------------

/// One file of the destination tree, named by its path relative to the
/// destination WIT root.
pub struct FileEntry {
    pub path: String,
    pub content: String,
}

pub ghost struct FileEntryV {
    pub path: Seq<char>,
    pub content: Seq<char>,
}

impl View for FileEntry {
    type V = FileEntryV;

    open spec fn view(&self) -> FileEntryV {
        FileEntryV { path: self.path@, content: self.content@ }
    }
}

impl DeepView for FileEntry {
    type V = FileEntryV;

    open spec fn deep_view(&self) -> FileEntryV {
        self.view()
    }
}

/// The files of the destination tree.  Later entries shadow earlier ones
/// with the same path; the view is the resulting path-to-text map.
pub struct FileState {
    pub entries: Vec<FileEntry>,
}

pub open spec fn state_map(entries: Seq<FileEntryV>) -> Map<Seq<char>, Seq<char>>
    decreases entries.len(),
{
    if entries.len() == 0 {
        Map::empty()
    } else {
        state_map(entries.drop_last()).insert(entries.last().path, entries.last().content)
    }
}

impl View for FileState {
    type V = Map<Seq<char>, Seq<char>>;

    open spec fn view(&self) -> Map<Seq<char>, Seq<char>> {
        state_map(self.entries.deep_view())
    }
}

impl FileState {
    /// An empty destination tree.
    pub fn new() -> (r: FileState)
        ensures
            r@ == Map::<Seq<char>, Seq<char>>::empty(),
    {
        FileState { entries: Vec::new() }
    }

    /// The content at a path, if the path exists.
    pub fn get(&self, path: &String) -> (r: Option<String>)
        ensures
            r matches Some(c) ==> self@.contains_key(path@) && self@[path@] == c@,
            r is None ==> !self@.contains_key(path@),
    {
        let ghost ev = self.entries.deep_view();
        let mut k: usize = self.entries.len();
        assert(ev.subrange(0, k as int) =~= ev);
        while k > 0
            invariant
                k <= self.entries.len(),
                ev == self.entries.deep_view(),
                ev.len() == self.entries.len(),
                state_map(ev).contains_key(path@) == state_map(
                    ev.subrange(0, k as int),
                ).contains_key(path@),
                state_map(ev).contains_key(path@) ==> state_map(ev)[path@] == state_map(
                    ev.subrange(0, k as int),
                )[path@],
            decreases k,
        {
            let ghost subk = ev.subrange(0, k as int);
            assert(ev[k - 1] == self.entries[k - 1]@);
            assert(subk.drop_last() =~= ev.subrange(0, k - 1));
            assert(subk.last() == ev[k - 1]);
            if self.entries[k - 1].path == *path {
                return Some(self.entries[k - 1].content.clone());
            }
            k -= 1;
        }
        assert(ev.subrange(0, 0).len() == 0);
        None
    }

    /// Writes content at a path, replacing what was there.
    pub fn set(&mut self, path: String, content: String)
        ensures
            final(self)@ == old(self)@.insert(path@, content@),
    {
        let ghost before = self.entries.deep_view();
        self.entries.push(FileEntry { path, content });
        proof {
            let after = self.entries.deep_view();
            assert(after.drop_last() =~= before);
        }
    }
}

// ---------------------------------------------------------------------------
// Applying actions.
// ---------------------------------------------------------------------------

/// The map after writing each file of a directory copy, in order.
pub open spec fn apply_files(
    m: Map<Seq<char>, Seq<char>>,
    dir: Seq<char>,
    files: Seq<WitFileV>,
) -> Map<Seq<char>, Seq<char>>
    decreases files.len(),
{
    if files.len() == 0 {
        m
    } else {
        apply_files(m, dir, files.drop_last()).insert(
            dep_path(dir, files.last().name),
            files.last().content,
        )
    }
}

/// The map after one action.
pub open spec fn apply_action(m: Map<Seq<char>, Seq<char>>, a: WitActionV) -> Map<
    Seq<char>,
    Seq<char>,
> {
    match a {
        WitActionV::CopyDepDir { dir_name, files } => apply_files(m, dir_name, files),
        WitActionV::CopyDepWit { dir_name, file } => m.insert(
            dep_path(dir_name, file.name),
            file.content,
        ),
        WitActionV::WriteWit { source_wit, dir_name, file_name } => m.insert(
            dep_path(dir_name, file_name),
            source_wit,
        ),
    }
}

/// The map after a plan of actions, applied in order.
pub open spec fn apply_actions(m: Map<Seq<char>, Seq<char>>, acts: Seq<WitActionV>) -> Map<
    Seq<char>,
    Seq<char>,
>
    decreases acts.len(),
{
    if acts.len() == 0 {
        m
    } else {
        apply_action(apply_actions(m, acts.drop_last()), acts.last())
    }
}

// ---------------------------------------------------------------------------
// What a plan writes, pointwise.
// ---------------------------------------------------------------------------

/// The content the files of one directory copy leave at `key`, if any;
/// the last write wins.
pub open spec fn files_lookup(dir: Seq<char>, files: Seq<WitFileV>, key: Seq<char>) -> Option<
    Seq<char>,
>
    decreases files.len(),
{
    if files.len() == 0 {
        None
    } else if dep_path(dir, files.last().name) == key {
        Some(files.last().content)
    } else {
        files_lookup(dir, files.drop_last(), key)
    }
}

/// The content one action leaves at `key`, if it writes that path.
pub open spec fn action_lookup(a: WitActionV, key: Seq<char>) -> Option<Seq<char>> {
    match a {
        WitActionV::CopyDepDir { dir_name, files } => files_lookup(dir_name, files, key),
        WitActionV::CopyDepWit { dir_name, file } => if dep_path(dir_name, file.name) == key {
            Some(file.content)
        } else {
            None
        },
        WitActionV::WriteWit { source_wit, dir_name, file_name } => if dep_path(
            dir_name,
            file_name,
        ) == key {
            Some(source_wit)
        } else {
            None
        },
    }
}

/// The content a plan leaves at `key`, if any action writes that path;
/// the last write wins.
pub open spec fn actions_lookup(acts: Seq<WitActionV>, key: Seq<char>) -> Option<Seq<char>>
    decreases acts.len(),
{
    if acts.len() == 0 {
        None
    } else {
        match action_lookup(acts.last(), key) {
            Some(v) => Some(v),
            None => actions_lookup(acts.drop_last(), key),
        }
    }
}

proof fn lemma_apply_files_lookup(
    m: Map<Seq<char>, Seq<char>>,
    dir: Seq<char>,
    files: Seq<WitFileV>,
    key: Seq<char>,
)
    ensures
        apply_files(m, dir, files).contains_key(key) == (m.contains_key(key) || files_lookup(
            dir,
            files,
            key,
        ) is Some),
        apply_files(m, dir, files).contains_key(key) ==> apply_files(m, dir, files)[key]
            == (match files_lookup(dir, files, key) {
            Some(v) => v,
            None => m[key],
        }),
    decreases files.len(),
{
    if files.len() > 0 {
        lemma_apply_files_lookup(m, dir, files.drop_last(), key);
    }
}

proof fn lemma_apply_action_lookup(m: Map<Seq<char>, Seq<char>>, a: WitActionV, key: Seq<char>)
    ensures
        apply_action(m, a).contains_key(key) == (m.contains_key(key) || action_lookup(
            a,
            key,
        ) is Some),
        apply_action(m, a).contains_key(key) ==> apply_action(m, a)[key] == (match action_lookup(
            a,
            key,
        ) {
            Some(v) => v,
            None => m[key],
        }),
{
    match a {
        WitActionV::CopyDepDir { dir_name, files } => {
            lemma_apply_files_lookup(m, dir_name, files, key);
        },
        _ => {},
    }
}

/// What a plan of actions leaves at each path: the plan's own last write
/// of the path, or what the starting state had there.
pub proof fn lemma_apply_actions_lookup(
    m: Map<Seq<char>, Seq<char>>,
    acts: Seq<WitActionV>,
    key: Seq<char>,
)
    ensures
        apply_actions(m, acts).contains_key(key) == (m.contains_key(key) || actions_lookup(
            acts,
            key,
        ) is Some),
        apply_actions(m, acts).contains_key(key) ==> apply_actions(m, acts)[key]
            == (match actions_lookup(acts, key) {
            Some(v) => v,
            None => m[key],
        }),
    decreases acts.len(),
{
    if acts.len() > 0 {
        lemma_apply_actions_lookup(m, acts.drop_last(), key);
        lemma_apply_action_lookup(apply_actions(m, acts.drop_last()), acts.last(), key);
    }
}

/// Merge idempotence: applying the same plan a second time changes
/// nothing, whatever the starting state was.  With overwrite enabled a
/// repeated merge therefore leaves the file contents of the first run.
pub proof fn lemma_apply_actions_idempotent(m: Map<Seq<char>, Seq<char>>, acts: Seq<WitActionV>)
    ensures
        apply_actions(apply_actions(m, acts), acts) == apply_actions(m, acts),
{
    let m1 = apply_actions(m, acts);
    let m2 = apply_actions(m1, acts);
    assert forall|key: Seq<char>| #[trigger] m2.contains_key(key) == m1.contains_key(key) && (
    m1.contains_key(key) ==> m2[key] == m1[key]) by {
        lemma_apply_actions_lookup(m, acts, key);
        lemma_apply_actions_lookup(m1, acts, key);
    }
    assert(m2 =~= m1);
}

// ---------------------------------------------------------------------------
// Verifying actions against the destination.
// ---------------------------------------------------------------------------

/// A write of `content` at `key` would change an existing file.
pub open spec fn write_conflicts(
    m: Map<Seq<char>, Seq<char>>,
    key: Seq<char>,
    content: Seq<char>,
) -> bool {
    m.contains_key(key) && m[key] != content
}

/// No file of a directory copy would change existing content.
pub open spec fn dir_files_ok(
    m: Map<Seq<char>, Seq<char>>,
    dir: Seq<char>,
    files: Seq<WitFileV>,
) -> bool {
    forall|j: int|
        0 <= j < files.len() ==> !write_conflicts(
            m,
            dep_path(dir, (#[trigger] files[j]).name),
            files[j].content,
        )
}

/// No file the action writes would change existing content.
pub open spec fn action_ok(m: Map<Seq<char>, Seq<char>>, a: WitActionV) -> bool {
    match a {
        WitActionV::CopyDepDir { dir_name, files } => dir_files_ok(m, dir_name, files),
        WitActionV::CopyDepWit { dir_name, file } => !write_conflicts(
            m,
            dep_path(dir_name, file.name),
            file.content,
        ),
        WitActionV::WriteWit { source_wit, dir_name, file_name } => !write_conflicts(
            m,
            dep_path(dir_name, file_name),
            source_wit,
        ),
    }
}

/// Every action of the plan passes verification against the given state.
pub open spec fn actions_ok(m: Map<Seq<char>, Seq<char>>, acts: Seq<WitActionV>) -> bool {
    forall|k: int| 0 <= k < acts.len() ==> action_ok(m, #[trigger] acts[k])
}

fn verify_write(state: &FileState, path: &String, content: &String) -> (r: bool)
    ensures
        r == !write_conflicts(state@, path@, content@),
{
    match state.get(path) {
        None => true,
        Some(existing) => existing == *content,
    }
}

fn verify_dir_files(state: &FileState, dir_name: &String, files: &Vec<WitFile>) -> (r: bool)
    ensures
        r == dir_files_ok(state@, dir_name@, files.deep_view()),
{
    let ghost fv = files.deep_view();
    let mut j: usize = 0;
    while j < files.len()
        invariant
            j <= files.len(),
            fv == files.deep_view(),
            fv.len() == files.len(),
            forall|t: int|
                0 <= t < j ==> !write_conflicts(
                    state@,
                    dep_path(dir_name@, (#[trigger] fv[t]).name),
                    fv[t].content,
                ),
        decreases files.len() - j,
    {
        assert(fv[j as int] == files[j as int]@);
        let path = render_dep_path(dir_name, &files[j].name);
        if !verify_write(state, &path, &files[j].content) {
            assert(write_conflicts(
                state@,
                dep_path(dir_name@, fv[j as int].name),
                fv[j as int].content,
            ));
            return false;
        }
        j += 1;
    }
    true
}

/// Checks one planned action against the destination's current content:
/// it passes when every file it writes is absent or already identical.
pub fn verify_action(action: &WitAction, state: &FileState) -> (r: bool)
    ensures
        r == action_ok(state@, action@),
{
    match action {
        WitAction::CopyDepDir { dir_name, files } => verify_dir_files(state, dir_name, files),
        WitAction::CopyDepWit { dir_name, file } => {
            let path = render_dep_path(dir_name, &file.name);
            verify_write(state, &path, &file.content)
        },
        WitAction::WriteWit { source_wit, dir_name, file_name } => {
            let path = render_dep_path(dir_name, file_name);
            verify_write(state, &path, source_wit)
        },
    }
}

/// Applies one action to the destination state.
fn perform_action(state: &mut FileState, action: &WitAction)
    ensures
        final(state)@ == apply_action(old(state)@, action@),
{
    match action {
        WitAction::CopyDepDir { dir_name, files } => {
            let ghost m0 = state@;
            let ghost fv = files.deep_view();
            let mut j: usize = 0;
            while j < files.len()
                invariant
                    j <= files.len(),
                    fv == files.deep_view(),
                    fv.len() == files.len(),
                    state@ == apply_files(m0, dir_name@, fv.subrange(0, j as int)),
                decreases files.len() - j,
            {
                assert(fv[j as int] == files[j as int]@);
                let path = render_dep_path(dir_name, &files[j].name);
                state.set(path, files[j].content.clone());
                proof {
                    let sub1 = fv.subrange(0, j + 1);
                    assert(sub1.drop_last() =~= fv.subrange(0, j as int));
                    assert(sub1.last() == fv[j as int]);
                }
                j += 1;
            }
            assert(fv.subrange(0, fv.len() as int) =~= fv);
        },
        WitAction::CopyDepWit { dir_name, file } => {
            let path = render_dep_path(dir_name, &file.name);
            state.set(path, file.content.clone());
        },
        WitAction::WriteWit { source_wit, dir_name, file_name } => {
            let path = render_dep_path(dir_name, file_name);
            state.set(path, source_wit.clone());
        },
    }
}

/// Applies a whole plan, in order.
pub fn perform_actions(state: &mut FileState, actions: &Vec<WitAction>)
    ensures
        final(state)@ == apply_actions(old(state)@, actions.deep_view()),
{
    let ghost av = actions.deep_view();
    let ghost m0 = state@;
    let mut k: usize = 0;
    while k < actions.len()
        invariant
            k <= actions.len(),
            av == actions.deep_view(),
            av.len() == actions.len(),
            state@ == apply_actions(m0, av.subrange(0, k as int)),
        decreases actions.len() - k,
    {
        assert(av[k as int] == actions[k as int]@);
        perform_action(state, &actions[k]);
        proof {
            let sub1 = av.subrange(0, k + 1);
            assert(sub1.drop_last() =~= av.subrange(0, k as int));
            assert(sub1.last() == av[k as int]);
        }
        k += 1;
    }
    assert(av.subrange(0, av.len() as int) =~= av);
}

// ---------------------------------------------------------------------------
// Text helpers.
// ---------------------------------------------------------------------------

/// `p` stands at the start of `s`.
pub open spec fn has_prefix(s: Seq<char>, p: Seq<char>) -> bool {
    s.len() >= p.len() && s.subrange(0, p.len() as int) == p
}

/// `p` stands at the end of `s`.
pub open spec fn has_suffix(s: Seq<char>, p: Seq<char>) -> bool {
    s.len() >= p.len() && s.subrange(s.len() - p.len(), s.len() as int) == p
}

fn str_has_prefix(s: &String, p: &str) -> (r: bool)
    ensures
        r == has_prefix(s@, p@),
{
    let n = s.as_str().unicode_len();
    let m = p.unicode_len();
    if n < m {
        return false;
    }
    let sub = s.as_str().substring_char(0, m).to_owned();
    let pp = p.to_owned();
    sub == pp
}

fn str_has_suffix(s: &String, p: &str) -> (r: bool)
    ensures
        r == has_suffix(s@, p@),
{
    let n = s.as_str().unicode_len();
    let m = p.unicode_len();
    if n < m {
        return false;
    }
    let sub = s.as_str().substring_char(n - m, n).to_owned();
    let pp = p.to_owned();
    sub == pp
}

fn str_skip(s: &String, k: usize) -> (r: String)
    requires
        k <= s@.len(),
    ensures
        r@ == s@.skip(k as int),
{
    let n = s.as_str().unicode_len();
    let r = s.as_str().substring_char(k, n).to_owned();
    assert(r@ =~= s@.skip(k as int));
    r
}

fn str_take(s: &String, k: usize) -> (r: String)
    requires
        k <= s@.len(),
    ensures
        r@ == s@.subrange(0, k as int),
{
    s.as_str().substring_char(0, k).to_owned()
}

/// The dependency directory name a package is stored under:
/// `namespace_name`.
pub open spec fn dep_dir_of(p: PackageNameV) -> Seq<char> {
    p.namespace + "_"@ + p.name
}

fn render_dep_dir_of(p: &PackageName) -> (r: String)
    ensures
        r@ == dep_dir_of(p@),
{
    let mut s = p.namespace.clone();
    s.append("_");
    s.append(p.name.as_str());
    s
}

// ---------------------------------------------------------------------------
// Merge decisions.
// ---------------------------------------------------------------------------

/// The stub interface name prefix.
pub open spec fn stub_prefix() -> Seq<char> {
    "stub-"@
}

/// The world name recoverable from a stub document: the remainder of the
/// first interface name carrying the stub prefix.
pub open spec fn find_world_name_spec(names: Seq<Option<Seq<char>>>) -> Option<Seq<char>>
    decreases names.len(),
{
    if names.len() == 0 {
        None
    } else {
        match names[0] {
            Some(n) => if has_prefix(n, stub_prefix()) {
                Some(n.skip(stub_prefix().len() as int))
            } else {
                find_world_name_spec(names.drop_first())
            },
            None => find_world_name_spec(names.drop_first()),
        }
    }
}

/// Round-trip naming: the world name recovered from a synthesized stub
/// interface name equals the original world's name, for every world
/// name.
pub proof fn lemma_round_trip_naming(w: Seq<char>)
    ensures
        has_prefix(stub_prefix() + w, stub_prefix()),
        (stub_prefix() + w).skip(stub_prefix().len() as int) == w,
{
    let p = stub_prefix();
    let n = p + w;
    assert(n.subrange(0, p.len() as int) =~= p);
    assert(n.skip(p.len() as int) =~= w);
}

/// Round-trip naming applied to a stub document: synthesis names its
/// interface `stub-` followed by the world's name, and extraction from a
/// document whose first interface carries that name yields the world's
/// name again.
pub proof fn lemma_find_world_name_round_trip(w: Seq<char>, rest: Seq<Option<Seq<char>>>)
    ensures
        find_world_name_spec(seq![Some(stub_prefix() + w)] + rest) == Some(w),
{
    let names = seq![Some(stub_prefix() + w)] + rest;
    assert(names[0] == Some(stub_prefix() + w));
    lemma_round_trip_naming(w);
}

/// Recovers the proxied world's name from the stub document's interface
/// names.
pub fn find_world_name(stub_package: &WitPackage) -> (r: Result<String, MergeError>)
    ensures
        r matches Ok(w) ==> find_world_name_spec(stub_package@.interface_names) == Some(w@),
        r matches Err(e) ==> find_world_name_spec(stub_package@.interface_names) is None && e
            == MergeError::NoStubInterface,
{
    let ghost nv = stub_package@.interface_names;
    let names = &stub_package.interface_names;
    assert(nv == names.deep_view());
    assert(nv.skip(0) =~= nv);
    let mut k: usize = 0;
    while k < names.len()
        invariant
            k <= names.len(),
            nv == names.deep_view(),
            nv == stub_package@.interface_names,
            nv.len() == names.len(),
            find_world_name_spec(nv) == find_world_name_spec(nv.skip(k as int)),
        decreases names.len() - k,
    {
        assert(nv.skip(k as int)[0] == nv[k as int]);
        assert(nv[k as int] == names[k as int].deep_view());
        match &names[k] {
            Some(n) => {
                if str_has_prefix(n, "stub-") {
                    let m = "stub-".unicode_len();
                    let w = str_skip(n, m);
                    assert(find_world_name_spec(nv.skip(k as int)) == Some(w@));
                    return Ok(w);
                }
            },
            None => {},
        }
        proof {
            assert(nv.skip(k as int).drop_first() =~= nv.skip(k + 1));
        }
        k += 1;
    }
    assert(nv.skip(nv.len() as int).len() == 0);
    Err(MergeError::NoStubInterface)
}

/// A name occurs among a package's world names.
pub open spec fn world_names_has(names: Seq<Seq<char>>, w: Seq<char>) -> bool {
    exists|k: int| 0 <= k < names.len() && names[k] == w
}

/// Whether the destination package itself declares the stubbed world:
/// the direct self-referential case.
pub fn dest_owns_stub_world(world_name: &String, destination: &WitPackage) -> (r: bool)
    ensures
        r == world_names_has(destination@.world_names, world_name@),
{
    let ghost wv = destination@.world_names;
    let names = &destination.world_names;
    assert(wv == names.deep_view());
    let mut k: usize = 0;
    while k < names.len()
        invariant
            k <= names.len(),
            wv == names.deep_view(),
            wv == destination@.world_names,
            wv.len() == names.len(),
            forall|t: int| 0 <= t < k ==> wv[t] != world_name@,
        decreases names.len() - k,
    {
        assert(wv[k as int] == names[k as int]@);
        if names[k] == *world_name {
            assert(world_names_has(wv, world_name@));
            return true;
        }
        k += 1;
    }
    false
}

/// The dependency is kept in the self-referential merge: it is not the
/// destination package itself.
pub fn find_if_same_package(dep_package: &PackageName, destination: &PackageName) -> (r: bool)
    ensures
        r == (dep_package@ != destination@),
{
    !dep_package.same_as(destination)
}

/// The dependency must not be copied into the destination: it is the
/// destination package itself, or the destination's derived stub
/// package.
pub open spec fn is_invalid_dep_spec(dest: PackageNameV, dep: PackageNameV) -> bool {
    dep == dest || (dep.namespace == dest.namespace && dep.name == dest.name + "-stub"@)
}

/// Whether a dependency package would re-introduce the destination
/// itself, or its derived stub package, into the destination's tree.
pub fn is_invalid_dependency(destination: &WitPackage, dependency: &WitPackage) -> (r: bool)
    ensures
        r == is_invalid_dep_spec(destination@.name, dependency@.name),
{
    if dependency.name.same_as(&destination.name) {
        return true;
    }
    let mut self_stub = destination.name.name.clone();
    self_stub.append("-stub");
    let r = dependency.name.namespace == destination.name.namespace && dependency.name.name
        == self_stub;
    r
}

// ---------------------------------------------------------------------------
// Planning.
// ---------------------------------------------------------------------------

/// The directory copies of the self-referential merge: every stub
/// dependency whose package is not the destination itself.
pub open spec fn kept_dep_actions(deps: Seq<DepDirV>, dest_name: PackageNameV) -> Seq<WitActionV>
    decreases deps.len(),
{
    if deps.len() == 0 {
        Seq::empty()
    } else {
        let pre = kept_dep_actions(deps.drop_last(), dest_name);
        let d = deps.last();
        if d.package.name != dest_name {
            pre.push(WitActionV::CopyDepDir { dir_name: d.dir_name, files: d.files })
        } else {
            pre
        }
    }
}

/// The write actions for one dependency directory in the ordinary merge:
/// each file with the destination's self-imports stripped.
pub open spec fn stripped_file_actions(
    dir: Seq<char>,
    files: Seq<WitFileV>,
    pat: Seq<char>,
) -> Seq<WitActionV>
    decreases files.len(),
{
    if files.len() == 0 {
        Seq::empty()
    } else {
        stripped_file_actions(dir, files.drop_last(), pat).push(
            WitActionV::WriteWit {
                source_wit: strip_spec(files.last().content, pat),
                dir_name: dir,
                file_name: files.last().name,
            },
        )
    }
}

/// The write actions of the ordinary merge: every dependency directory
/// that is not the destination or its derived stub package, with
/// self-imports stripped from each file.
pub open spec fn cleaned_dep_actions(deps: Seq<DepDirV>, dest: PackageNameV) -> Seq<WitActionV>
    decreases deps.len(),
{
    if deps.len() == 0 {
        Seq::empty()
    } else {
        let pre = cleaned_dep_actions(deps.drop_last(), dest);
        let d = deps.last();
        if is_invalid_dep_spec(dest, d.package.name) {
            pre
        } else {
            pre + stripped_file_actions(d.dir_name, d.files, self_stub_pattern(dest))
        }
    }
}

/// The planned actions of a merge, or the error that rejects it.
///
/// The plan depends on the stub's and the destination's parsed content
/// alone.  When the destination owns the stubbed world the stub is
/// regenerated against the destination with inlined types and
/// self-dependencies are dropped; otherwise the stub's dependencies are
/// copied with self-imports stripped, followed by the stub's own
/// document.
pub open spec fn plan_spec(stub: WitRootV, dest: WitRootV) -> Result<Seq<WitActionV>, MergeError> {
    let spkg = stub.package.name;
    if !has_suffix(spkg.name, "-stub"@) {
        Err(MergeError::MalformedStubPackage)
    } else {
        let target = PackageNameV {
            namespace: spkg.namespace,
            name: spkg.name.subrange(0, spkg.name.len() - "-stub"@.len()),
        };
        if dest.package.name == target {
            Err(MergeError::SamePackageName)
        } else {
            match find_world_name_spec(stub.package.interface_names) {
                None => Err(MergeError::NoStubInterface),
                Some(w) => if world_names_has(dest.package.world_names, w) {
                    match find_world_index(dest.resolve, dest.root_worlds, w) {
                        None => Err(MergeError::Synthesis(StubError::WorldNotFound)),
                        Some(wi) => match stub_text_spec(
                            dest.resolve,
                            dest.resolve.worlds[wi as int],
                            dest.package.name,
                            StubTypeGen::InlineRootTypes,
                        ) {
                            Err(e) => Err(MergeError::Synthesis(e)),
                            Ok(text) => Ok(
                                kept_dep_actions(stub.deps, dest.package.name).push(
                                    WitActionV::WriteWit {
                                        source_wit: text,
                                        dir_name: dep_dir_of(spkg),
                                        file_name: "_stub.wit"@,
                                    },
                                ),
                            ),
                        },
                    }
                } else {
                    Ok(
                        cleaned_dep_actions(stub.deps, dest.package.name).push(
                            WitActionV::CopyDepWit {
                                dir_name: dep_dir_of(spkg),
                                file: stub.main_file,
                            },
                        ),
                    )
                },
            }
        }
    }
}

/// Computes the merge plan for a stub WIT root and a destination WIT
/// root, without touching any state.
pub fn plan_actions(stub: &WitRoot, dest: &WitRoot) -> (r: Result<Vec<WitAction>, MergeError>)
    ensures
        r matches Ok(v) ==> plan_spec(stub@, dest@) == Ok::<Seq<WitActionV>, MergeError>(
            v.deep_view(),
        ),
        r matches Err(e) ==> plan_spec(stub@, dest@) matches Err(e2) && e == e2,
{
    let spkg = &stub.package.name;
    if !str_has_suffix(&spkg.name, "-stub") {
        return Err(MergeError::MalformedStubPackage);
    }
    let n = spkg.name.as_str().unicode_len();
    let m = "-stub".unicode_len();
    let target = PackageName { namespace: spkg.namespace.clone(), name: str_take(&spkg.name, n - m) };
    if dest.package.name.same_as(&target) {
        return Err(MergeError::SamePackageName);
    }
    let world_name = match find_world_name(&stub.package) {
        Err(e) => {
            return Err(e);
        },
        Ok(w) => w,
    };
    let dir_name = render_dep_dir_of(spkg);

    if dest_owns_stub_world(&world_name, &dest.package) {
        // the destination owns the stubbed world: regenerate with
        // inlined types and keep only foreign dependency directories
        let requested = Some(world_name);
        let wi = match select_world(&dest.resolve, &dest.root_worlds, &requested) {
            Err(_) => {
                return Err(MergeError::Synthesis(StubError::WorldNotFound));
            },
            Ok(wi) => wi,
        };
        let text = match generate_stub_wit(
            &dest.resolve,
            &dest.package.name,
            wi,
            StubTypeGen::InlineRootTypes,
        ) {
            Err(e) => {
                return Err(MergeError::Synthesis(e));
            },
            Ok(t) => t,
        };
        let ghost dv = stub@.deps;
        let mut actions: Vec<WitAction> = Vec::new();
        let mut i: usize = 0;
        while i < stub.deps.len()
            invariant
                i <= stub.deps.len(),
                dv == stub.deps.deep_view(),
                dv.len() == stub.deps.len(),
                actions.deep_view() == kept_dep_actions(dv.subrange(0, i as int), dest@.package.name),
            decreases stub.deps.len() - i,
        {
            assert(dv[i as int] == stub.deps[i as int]@);
            let ghost before = actions.deep_view();
            let dep = &stub.deps[i];
            if find_if_same_package(&dep.package.name, &dest.package.name) {
                actions.push(
                    WitAction::CopyDepDir {
                        dir_name: dep.dir_name.clone(),
                        files: duplicate_wit_files(&dep.files),
                    },
                );
                assert(actions.deep_view() =~= before.push(
                    WitActionV::CopyDepDir {
                        dir_name: dv[i as int].dir_name,
                        files: dv[i as int].files,
                    },
                ));
            }
            proof {
                let sub1 = dv.subrange(0, i + 1);
                assert(sub1.drop_last() =~= dv.subrange(0, i as int));
                assert(sub1.last() == dv[i as int]);
            }
            i += 1;
        }
        assert(dv.subrange(0, dv.len() as int) =~= dv);
        let ghost before_write = actions.deep_view();
        actions.push(
            WitAction::WriteWit {
                source_wit: text,
                dir_name,
                file_name: "_stub.wit".to_owned(),
            },
        );
        proof {
            assert(actions.deep_view() =~= before_write.push(
                WitActionV::WriteWit {
                    source_wit: actions[actions.len() - 1]@->WriteWit_source_wit,
                    dir_name: dep_dir_of(stub@.package.name),
                    file_name: "_stub.wit"@,
                },
            ));
        }
        Ok(actions)
    } else {
        // ordinary external target: copy foreign dependencies with
        // self-imports stripped, then the stub's own document
        let ghost dv = stub@.deps;
        let ghost pat = self_stub_pattern(dest@.package.name);
        let mut actions: Vec<WitAction> = Vec::new();
        let mut i: usize = 0;
        while i < stub.deps.len()
            invariant
                i <= stub.deps.len(),
                dv == stub.deps.deep_view(),
                dv.len() == stub.deps.len(),
                pat == self_stub_pattern(dest@.package.name),
                actions.deep_view() == cleaned_dep_actions(
                    dv.subrange(0, i as int),
                    dest@.package.name,
                ),
            decreases stub.deps.len() - i,
        {
            assert(dv[i as int] == stub.deps[i as int]@);
            let ghost before = actions.deep_view();
            let dep = &stub.deps[i];
            if !is_invalid_dependency(&dest.package, &dep.package) {
                let ghost fv = dep.files.deep_view();
                let mut j: usize = 0;
                while j < dep.files.len()
                    invariant
                        j <= dep.files.len(),
                        fv == dep.files.deep_view(),
                        fv.len() == dep.files.len(),
                        pat == self_stub_pattern(dest@.package.name),
                        actions.deep_view() == before + stripped_file_actions(
                            dep@.dir_name,
                            fv.subrange(0, j as int),
                            pat,
                        ),
                    decreases dep.files.len() - j,
                {
                    assert(fv[j as int] == dep.files[j as int]@);
                    let ghost ab = actions.deep_view();
                    let cleaned = replace_self_imports_from_dependencies(
                        &dep.files[j].content,
                        &dest.package.name,
                    );
                    actions.push(
                        WitAction::WriteWit {
                            source_wit: cleaned,
                            dir_name: dep.dir_name.clone(),
                            file_name: dep.files[j].name.clone(),
                        },
                    );
                    proof {
                        let sub1 = fv.subrange(0, j + 1);
                        assert(sub1.drop_last() =~= fv.subrange(0, j as int));
                        assert(sub1.last() == fv[j as int]);
                        assert(actions.deep_view() =~= ab.push(
                            WitActionV::WriteWit {
                                source_wit: strip_spec(fv[j as int].content, pat),
                                dir_name: dep@.dir_name,
                                file_name: fv[j as int].name,
                            },
                        ));
                        assert(ab.push(
                            WitActionV::WriteWit {
                                source_wit: strip_spec(fv[j as int].content, pat),
                                dir_name: dep@.dir_name,
                                file_name: fv[j as int].name,
                            },
                        ) =~= before + stripped_file_actions(dep@.dir_name, sub1, pat));
                    }
                    j += 1;
                }
                assert(fv.subrange(0, fv.len() as int) =~= fv);
            }
            proof {
                let sub1 = dv.subrange(0, i + 1);
                assert(sub1.drop_last() =~= dv.subrange(0, i as int));
                assert(sub1.last() == dv[i as int]);
            }
            i += 1;
        }
        assert(dv.subrange(0, dv.len() as int) =~= dv);
        let ghost before_copy = actions.deep_view();
        actions.push(WitAction::CopyDepWit { dir_name, file: stub.main_file.duplicate() });
        proof {
            assert(actions.deep_view() =~= before_copy.push(
                WitActionV::CopyDepWit {
                    dir_name: dep_dir_of(stub@.package.name),
                    file: stub@.main_file,
                },
            ));
        }
        Ok(actions)
    }
}

// ---------------------------------------------------------------------------
// Plan self-consistency.
// ---------------------------------------------------------------------------

/// The files one directory copy writes, as path and content pairs.
pub open spec fn dir_file_entries(dir: Seq<char>, files: Seq<WitFileV>) -> Seq<FileEntryV>
    decreases files.len(),
{
    if files.len() == 0 {
        Seq::empty()
    } else {
        dir_file_entries(dir, files.drop_last()).push(
            FileEntryV {
                path: dep_path(dir, files.last().name),
                content: files.last().content,
            },
        )
    }
}

/// The files one action writes.
pub open spec fn action_file_entries(a: WitActionV) -> Seq<FileEntryV> {
    match a {
        WitActionV::CopyDepDir { dir_name, files } => dir_file_entries(dir_name, files),
        WitActionV::CopyDepWit { dir_name, file } => seq![
            FileEntryV { path: dep_path(dir_name, file.name), content: file.content },
        ],
        WitActionV::WriteWit { source_wit, dir_name, file_name } => seq![
            FileEntryV { path: dep_path(dir_name, file_name), content: source_wit },
        ],
    }
}

/// All files a plan writes, in order.
pub open spec fn plan_file_entries(acts: Seq<WitActionV>) -> Seq<FileEntryV>
    decreases acts.len(),
{
    if acts.len() == 0 {
        Seq::empty()
    } else {
        plan_file_entries(acts.drop_last()) + action_file_entries(acts.last())
    }
}

/// No two writes of the list target one path with different content.
pub open spec fn entries_consistent(s: Seq<FileEntryV>) -> bool {
    forall|i: int, j: int|
        #![trigger s[i], s[j]]
        0 <= i < j < s.len() && s[i].path == s[j].path ==> s[i].content == s[j].content
}

/// No two actions of the plan target one path with different content.
pub open spec fn plan_consistent(acts: Seq<WitActionV>) -> bool {
    entries_consistent(plan_file_entries(acts))
}

fn collect_plan_files(actions: &Vec<WitAction>) -> (r: Vec<FileEntry>)
    ensures
        r.deep_view() == plan_file_entries(actions.deep_view()),
{
    let ghost av = actions.deep_view();
    let mut out: Vec<FileEntry> = Vec::new();
    let mut k: usize = 0;
    while k < actions.len()
        invariant
            k <= actions.len(),
            av == actions.deep_view(),
            av.len() == actions.len(),
            out.deep_view() == plan_file_entries(av.subrange(0, k as int)),
        decreases actions.len() - k,
    {
        assert(av[k as int] == actions[k as int]@);
        let ghost before = out.deep_view();
        match &actions[k] {
            WitAction::CopyDepDir { dir_name, files } => {
                let ghost fv = files.deep_view();
                let mut j: usize = 0;
                while j < files.len()
                    invariant
                        j <= files.len(),
                        fv == files.deep_view(),
                        fv.len() == files.len(),
                        out.deep_view() == before + dir_file_entries(
                            dir_name@,
                            fv.subrange(0, j as int),
                        ),
                    decreases files.len() - j,
                {
                    assert(fv[j as int] == files[j as int]@);
                    let ghost ob = out.deep_view();
                    let path = render_dep_path(dir_name, &files[j].name);
                    out.push(FileEntry { path, content: files[j].content.clone() });
                    proof {
                        let sub1 = fv.subrange(0, j + 1);
                        assert(sub1.drop_last() =~= fv.subrange(0, j as int));
                        assert(sub1.last() == fv[j as int]);
                        assert(out.deep_view() =~= ob.push(
                            FileEntryV {
                                path: dep_path(dir_name@, fv[j as int].name),
                                content: fv[j as int].content,
                            },
                        ));
                        assert(out.deep_view() =~= before + dir_file_entries(dir_name@, sub1));
                    }
                    j += 1;
                }
                proof {
                    assert(fv.subrange(0, fv.len() as int) =~= fv);
                    assert(out.deep_view() =~= before + action_file_entries(av[k as int]));
                }
            },
            WitAction::CopyDepWit { dir_name, file } => {
                let path = render_dep_path(dir_name, &file.name);
                out.push(FileEntry { path, content: file.content.clone() });
                assert(out.deep_view() =~= before + action_file_entries(av[k as int]));
            },
            WitAction::WriteWit { source_wit, dir_name, file_name } => {
                let path = render_dep_path(dir_name, file_name);
                out.push(FileEntry { path, content: source_wit.clone() });
                assert(out.deep_view() =~= before + action_file_entries(av[k as int]));
            },
        }
        proof {
            let sub1 = av.subrange(0, k + 1);
            assert(sub1.drop_last() =~= av.subrange(0, k as int));
            assert(sub1.last() == av[k as int]);
        }
        k += 1;
    }
    assert(av.subrange(0, av.len() as int) =~= av);
    out
}

/// Checks that no two planned writes target one path with different
/// content; returns a conflicting path otherwise.
fn check_plan_consistent(actions: &Vec<WitAction>) -> (r: Option<String>)
    ensures
        r is None <==> plan_consistent(actions.deep_view()),
{
    let files = collect_plan_files(actions);
    let ghost fv = files.deep_view();
    let mut i: usize = 0;
    while i < files.len()
        invariant
            i <= files.len(),
            fv == files.deep_view(),
            fv.len() == files.len(),
            fv == plan_file_entries(actions.deep_view()),
            forall|a: int, b: int|
                #![trigger fv[a], fv[b]]
                0 <= a < b < fv.len() && a < i && fv[a].path == fv[b].path ==> fv[a].content
                    == fv[b].content,
        decreases files.len() - i,
    {
        let mut j: usize = i + 1;
        while j < files.len()
            invariant
                i < files.len(),
                i + 1 <= j <= files.len(),
                fv == files.deep_view(),
                fv.len() == files.len(),
                fv == plan_file_entries(actions.deep_view()),
                forall|b: int|
                    i < b < j && fv[i as int].path == (#[trigger] fv[b]).path ==> fv[i as int].content
                        == fv[b].content,
            decreases files.len() - j,
        {
            assert(fv[i as int] == files[i as int]@);
            assert(fv[j as int] == files[j as int]@);
            if files[i].path == files[j].path && !(files[i].content == files[j].content) {
                proof {
                    assert(!entries_consistent(fv));
                }
                return Some(files[i].path.clone());
            }
            j += 1;
        }
        i += 1;
    }
    None
}

// ---------------------------------------------------------------------------
// The whole merge.
// ---------------------------------------------------------------------------

/// What remains to be done about the destination's build manifest after
/// a merge.
pub enum ManifestFollowUp {
    /// Append an entry for each of the named dependency directories.
    UpdateManifest(Vec<String>),
    /// A manifest exists but no update was requested: it has to be
    /// brought up to date by hand.
    WarnManualUpdate,
    /// No manifest exists and none was to be updated.
    NothingToDo,
}

/// The result of a performed merge: the applied actions and the
/// manifest follow-up.
pub struct MergeOutcome {
    pub actions: Vec<WitAction>,
    pub manifest: ManifestFollowUp,
}

/// The dependency directories the plan's actions populate, in order.
pub open spec fn action_dirs(acts: Seq<WitActionV>) -> Seq<Seq<char>>
    decreases acts.len(),
{
    if acts.len() == 0 {
        Seq::empty()
    } else {
        action_dirs(acts.drop_last()).push(action_dir(acts.last()))
    }
}

fn collect_action_dirs(actions: &Vec<WitAction>) -> (r: Vec<String>)
    ensures
        r.deep_view() == action_dirs(actions.deep_view()),
{
    let ghost av = actions.deep_view();
    let mut out: Vec<String> = Vec::new();
    let mut k: usize = 0;
    while k < actions.len()
        invariant
            k <= actions.len(),
            av == actions.deep_view(),
            av.len() == actions.len(),
            out.deep_view() == action_dirs(av.subrange(0, k as int)),
        decreases actions.len() - k,
    {
        assert(av[k as int] == actions[k as int]@);
        let ghost before = out.deep_view();
        out.push(actions[k].get_dep_dir_name());
        proof {
            let sub1 = av.subrange(0, k + 1);
            assert(sub1.drop_last() =~= av.subrange(0, k as int));
            assert(sub1.last() == av[k as int]);
            assert(out.deep_view() =~= before.push(action_dir(av[k as int])));
        }
        k += 1;
    }
    assert(av.subrange(0, av.len() as int) =~= av);
    out
}

/// Merges a stub's WIT root into a destination's WIT root.
///
/// The planned actions are computed from the two parsed roots; the plan
/// is checked against itself (no two actions may target one path with
/// different content) and every action against the destination's current
/// content, and only a fully verified plan is applied: on any error the
/// destination is byte-identical to what it was before the call.
/// `has_manifest`
/// says whether a build manifest stands beside the destination root;
/// when `update_cargo_toml` is set without one, the merge is rejected.
pub fn add_stub_dependency(
    stub: &WitRoot,
    dest: &WitRoot,
    state: &mut FileState,
    overwrite: bool,
    update_cargo_toml: bool,
    has_manifest: bool,
) -> (r: Result<MergeOutcome, MergeError>)
    ensures
        r is Err ==> final(state)@ == old(state)@,
        (match plan_spec(stub@, dest@) {
            Err(e2) => r matches Err(e) && e == e2,
            Ok(p) => if !plan_consistent(p) {
                r matches Err(e) && (e matches MergeError::ConflictingContent(_))
            } else if update_cargo_toml && !has_manifest {
                r matches Err(e) && (e matches MergeError::ManifestMissing)
            } else if !overwrite && !actions_ok(old(state)@, p) {
                r matches Err(e) && (e matches MergeError::ConflictingContent(d) && exists|k: int|
                    0 <= k < p.len() && !action_ok(old(state)@, #[trigger] p[k]) && action_dir(
                        p[k],
                    ) == d@)
            } else {
                r matches Ok(out) && {
                    &&& out.actions.deep_view() == p
                    &&& final(state)@ == apply_actions(old(state)@, p)
                    &&& (if has_manifest && update_cargo_toml {
                        out.manifest matches ManifestFollowUp::UpdateManifest(names)
                            && names.deep_view() == action_dirs(p)
                    } else if has_manifest {
                        out.manifest matches ManifestFollowUp::WarnManualUpdate
                    } else {
                        out.manifest matches ManifestFollowUp::NothingToDo
                    })
                }
            },
        }),
{
    let plan = match plan_actions(stub, dest) {
        Err(e) => {
            return Err(e);
        },
        Ok(p) => p,
    };
    match check_plan_consistent(&plan) {
        Some(p) => {
            return Err(MergeError::ConflictingContent(p));
        },
        None => {},
    }
    if update_cargo_toml && !has_manifest {
        return Err(MergeError::ManifestMissing);
    }
    if !overwrite {
        match verify_actions(state, &plan) {
            Some(d) => {
                return Err(MergeError::ConflictingContent(d));
            },
            None => {},
        }
    }
    perform_actions(state, &plan);
    let manifest = if has_manifest {
        if update_cargo_toml {
            ManifestFollowUp::UpdateManifest(collect_action_dirs(&plan))
        } else {
            ManifestFollowUp::WarnManualUpdate
        }
    } else {
        ManifestFollowUp::NothingToDo
    };
    Ok(MergeOutcome { actions: plan, manifest })
}

/// Merge idempotence at the level of whole runs: the plan is a function
/// of the stub's and the destination's parsed content alone, so running
/// the same merge twice with overwrite enabled leaves the same file
/// contents after the second run as after the first.
pub proof fn lemma_merge_idempotent(stub: WitRootV, dest: WitRootV, m: Map<Seq<char>, Seq<char>>)
    requires
        plan_spec(stub, dest) is Ok,
    ensures
        apply_actions(apply_actions(m, plan_spec(stub, dest)->Ok_0), plan_spec(stub, dest)->Ok_0)
            == apply_actions(m, plan_spec(stub, dest)->Ok_0),
{
    lemma_apply_actions_idempotent(m, plan_spec(stub, dest)->Ok_0);
}

/// Checks a whole plan against the destination; `None` when every
/// action passes, otherwise the dependency directory of the first
/// action that would change existing content.
pub fn verify_actions(state: &FileState, actions: &Vec<WitAction>) -> (r: Option<String>)
    ensures
        r is None <==> actions_ok(state@, actions.deep_view()),
        r matches Some(d) ==> exists|k: int|
            0 <= k < actions.deep_view().len() && !action_ok(
                state@,
                #[trigger] actions.deep_view()[k],
            ) && action_dir(actions.deep_view()[k]) == d@,
{
    let ghost av = actions.deep_view();
    let mut k: usize = 0;
    while k < actions.len()
        invariant
            k <= actions.len(),
            av == actions.deep_view(),
            av.len() == actions.len(),
            forall|t: int| 0 <= t < k ==> action_ok(state@, #[trigger] av[t]),
        decreases actions.len() - k,
    {
        assert(av[k as int] == actions[k as int]@);
        if !verify_action(&actions[k], state) {
            return Some(actions[k].get_dep_dir_name());
        }
        k += 1;
    }
    None
}

} // verus!
