//! Choosing which workbench page the desktop window loads.
use vstd::prelude::*;
use crate::paths::{join_spec, path_join};
use crate::text::{chars_of, split_at_char, split_char, str_eq, views, owned};

verus! {

/// One component of a POSIX path.
pub enum CompSpec {
    Root,
    Cur,
    Parent,
    Normal(Seq<char>),
}

/// The component one piece between separators contributes.
pub open spec fn piece_comp(p: Seq<char>, first_relative: bool) -> Seq<CompSpec> {
    if p.len() == 0 {
        seq![]
    } else if p == "."@ {
        if first_relative { seq![CompSpec::Cur] } else { seq![] }
    } else if p == ".."@ {
        seq![CompSpec::Parent]
    } else {
        seq![CompSpec::Normal(p)]
    }
}

/// The components of the first `n` pieces of a path.
pub open spec fn pieces_comps(pieces: Seq<Seq<char>>, n: int, has_root: bool) -> Seq<CompSpec>
    decreases n,
{
    if n <= 0 {
        seq![]
    } else {
        pieces_comps(pieces, n - 1, has_root) + piece_comp(pieces[n - 1], n - 1 == 0 && !has_root)
    }
}

pub open spec fn has_root(s: Seq<char>) -> bool {
    s.len() > 0 && s[0] == '/'
}

/// The components of a POSIX path, as `Path::components` yields them: a
/// leading root, a leading `.` of a relative path, `..`, and the names;
/// empty pieces and other `.` pieces are dropped.
pub open spec fn components(s: Seq<char>) -> Seq<CompSpec> {
    let pieces = split_char(s, '/');
    (if has_root(s) { seq![CompSpec::Root] } else { seq![] }) + pieces_comps(pieces, pieces.len() as int, has_root(s))
}

/// Two paths are equal when their components are.
pub open spec fn path_eq(a: Seq<char>, b: Seq<char>) -> bool {
    components(a) == components(b)
}

/// Lexical normalisation: a root clears what came before, `.` is dropped,
/// `..` removes the last name (or is kept when there is no root and nothing
/// to remove).
pub open spec fn normalize_step(acc: (bool, Seq<Seq<char>>), c: CompSpec) -> (bool, Seq<Seq<char>>) {
    match c {
        CompSpec::Root => (true, seq![]),
        CompSpec::Cur => acc,
        CompSpec::Parent => if acc.1.len() > 0 && acc.1.last() != ".."@ {
            (acc.0, acc.1.drop_last())
        } else if !acc.0 {
            (acc.0, acc.1.push(".."@))
        } else {
            acc
        },
        CompSpec::Normal(x) => (acc.0, acc.1.push(x)),
    }
}

pub open spec fn normalize_comps(comps: Seq<CompSpec>) -> (bool, Seq<Seq<char>>)
    decreases comps.len(),
{
    if comps.len() == 0 {
        (false, seq![])
    } else {
        normalize_step(normalize_comps(comps.drop_last()), comps.last())
    }
}

/// The lexical normal form of a path: whether it is rooted, and its names.
pub open spec fn normalize_spec(s: Seq<char>) -> (bool, Seq<Seq<char>>) {
    normalize_comps(components(s))
}

/// A path in lexical normal form.
pub struct NormalizedPath {
    pub has_root: bool,
    pub parts: Vec<String>,
}

/// One component of a path.
pub enum PathComponent {
    RootDir,
    CurDir,
    ParentDir,
    Normal(String),
}

pub open spec fn comp_view(c: PathComponent) -> CompSpec {
    match c {
        PathComponent::RootDir => CompSpec::Root,
        PathComponent::CurDir => CompSpec::Cur,
        PathComponent::ParentDir => CompSpec::Parent,
        PathComponent::Normal(s) => CompSpec::Normal(s@),
    }
}

pub open spec fn comps_view(v: Seq<PathComponent>) -> Seq<CompSpec> {
    v.map_values(|c: PathComponent| comp_view(c))
}

fn piece_component(p: String, first_relative: bool, out: &mut Vec<PathComponent>)
    ensures
        comps_view(final(out)@) == comps_view(old(out)@) + piece_comp(p@, first_relative),
{
    proof { reveal_strlit("."); reveal_strlit(".."); }
    let ghost before = out@;
    if p.as_str().is_empty() {
        proof { assert(comps_view(out@) + seq![] =~= comps_view(out@)); }
    } else if str_eq(p.as_str(), ".") {
        if first_relative {
            out.push(PathComponent::CurDir);
            proof { assert(comps_view(out@) =~= comps_view(before) + seq![CompSpec::Cur]); }
        } else {
            proof { assert(comps_view(out@) + seq![] =~= comps_view(out@)); }
        }
    } else if str_eq(p.as_str(), "..") {
        out.push(PathComponent::ParentDir);
        proof { assert(comps_view(out@) =~= comps_view(before) + seq![CompSpec::Parent]); }
    } else {
        let ghost pv = p@;
        out.push(PathComponent::Normal(p));
        proof { assert(comps_view(out@) =~= comps_view(before) + seq![CompSpec::Normal(pv)]); }
    }
}

/// The components of a path.
pub fn path_components(path: &str) -> (out: Vec<PathComponent>)
    ensures
        comps_view(out@) == components(path@),
{
    let cs = chars_of(path);
    let rooted = cs.len() > 0 && cs[0] == '/';
    let pieces = split_at_char(path, '/');
    let ghost pv = views(pieces@);
    let mut out: Vec<PathComponent> = Vec::new();
    if rooted {
        out.push(PathComponent::RootDir);
    }
    let mut i: usize = 0;
    proof {
        assert(comps_view(out@) =~= (if has_root(path@) { seq![CompSpec::Root] } else { seq![] }) + pieces_comps(pv, 0, rooted));
    }
    while i < pieces.len()
        invariant
            i <= pieces.len(),
            pv == views(pieces@),
            pv == split_char(path@, '/'),
            rooted == has_root(path@),
            comps_view(out@) == (if has_root(path@) { seq![CompSpec::Root] } else { seq![] }) + pieces_comps(pv, i as int, rooted),
        decreases pieces.len() - i,
    {
        let piece = pieces[i].clone();
        proof { assert(piece@ == pv[i as int]); }
        piece_component(piece, i == 0 && !rooted, &mut out);
        proof {
            assert(pieces_comps(pv, i + 1, rooted) == pieces_comps(pv, i as int, rooted) + piece_comp(pv[i as int], i == 0 && !rooted));
        }
        i = i + 1;
    }
    proof { assert(pv.len() == pieces@.len()); }
    out
}

fn parts_eq(a: &Vec<String>, b: &Vec<String>) -> (r: bool)
    ensures
        r == (views(a@) == views(b@)),
{
    if a.len() != b.len() {
        proof { assert(views(a@).len() != views(b@).len()); }
        return false;
    }
    let mut i: usize = 0;
    while i < a.len()
        invariant
            a.len() == b.len(),
            i <= a.len(),
            forall|j: int| 0 <= j < i ==> views(a@)[j] == views(b@)[j],
        decreases a.len() - i,
    {
        if !str_eq(a[i].as_str(), b[i].as_str()) {
            proof { assert(views(a@)[i as int] != views(b@)[i as int]); }
            return false;
        }
        i = i + 1;
    }
    proof { assert(views(a@) =~= views(b@)); }
    true
}

/// Normalises a path lexically, without looking at the file system.
pub fn lexical_normalize_path(path: &str) -> (n: NormalizedPath)
    ensures
        (n.has_root, views(n.parts@)) == normalize_spec(path@),
{
    proof { reveal_strlit(".."); }
    let comps = path_components(path);
    let ghost cv = comps_view(comps@);
    let mut has_root = false;
    let mut parts: Vec<String> = Vec::new();
    let mut i: usize = 0;
    proof { assert(cv.take(0) =~= Seq::<CompSpec>::empty()); }
    while i < comps.len()
        invariant
            i <= comps.len(),
            cv == comps_view(comps@),
            cv == components(path@),
            (has_root, views(parts@)) == normalize_comps(cv.take(i as int)),
        decreases comps.len() - i,
    {
        proof {
            assert(cv.take(i + 1).drop_last() =~= cv.take(i as int));
            assert(cv.take(i + 1).last() == comp_view(comps@[i as int]));
        }
        match &comps[i] {
            PathComponent::RootDir => {
                has_root = true;
                parts = Vec::new();
                proof { assert(views(parts@) =~= Seq::<Seq<char>>::empty()); }
            },
            PathComponent::CurDir => {},
            PathComponent::ParentDir => {
                let n = parts.len();
                if n > 0 && !str_eq(parts[n - 1].as_str(), "..") {
                    let ghost before = parts@;
                    proof { assert(views(before).last() == before[n - 1]@); }
                    parts.pop();
                    proof { assert(views(parts@) =~= views(before).drop_last()); }
                } else if !has_root {
                    let ghost before = parts@;
                    proof { if n > 0 { assert(views(before).last() == before[n - 1]@); } }
                    parts.push(owned(".."));
                    proof { assert(views(parts@) =~= views(before).push(".."@)); }
                } else {
                    proof { if n > 0 { assert(views(parts@).last() == parts@[n - 1]@); } }
                }
            },
            PathComponent::Normal(part) => {
                let ghost before = parts@;
                let c = part.clone();
                parts.push(c);
                proof { assert(views(parts@) =~= views(before).push(part@)); }
            },
        }
        i = i + 1;
    }
    proof { assert(cv.take(cv.len() as int) =~= cv); }
    NormalizedPath { has_root, parts }
}


fn comps_eq(a: &Vec<PathComponent>, b: &Vec<PathComponent>) -> (r: bool)
    ensures
        r == (comps_view(a@) == comps_view(b@)),
{
    if a.len() != b.len() {
        proof { assert(comps_view(a@).len() != comps_view(b@).len()); }
        return false;
    }
    let mut i: usize = 0;
    while i < a.len()
        invariant
            a.len() == b.len(),
            i <= a.len(),
            forall|j: int| 0 <= j < i ==> comps_view(a@)[j] == comps_view(b@)[j],
        decreases a.len() - i,
    {
        let same = match (&a[i], &b[i]) {
            (PathComponent::RootDir, PathComponent::RootDir) => true,
            (PathComponent::CurDir, PathComponent::CurDir) => true,
            (PathComponent::ParentDir, PathComponent::ParentDir) => true,
            (PathComponent::Normal(x), PathComponent::Normal(y)) => str_eq(x.as_str(), y.as_str()),
            _ => false,
        };
        if !same {
            proof { assert(comps_view(a@)[i as int] != comps_view(b@)[i as int]); }
            return false;
        }
        i = i + 1;
    }
    proof { assert(comps_view(a@) =~= comps_view(b@)); }
    true
}

/// Whether two paths have the same components.
pub fn paths_equal(a: &str, b: &str) -> (r: bool)
    ensures
        r == path_eq(a@, b@),
{
    let x = path_components(a);
    let y = path_components(b);
    comps_eq(&x, &y)
}

/// What the resolver knows of the file system: which paths exist, and the
/// canonical form of those it may canonicalise.
pub struct WorkbenchFiles {
    pub existing: Vec<String>,
    pub canonical: Vec<(String, String)>,
}

pub open spec fn exists_in(existing: Seq<String>, p: Seq<char>) -> bool {
    exists|i: int| 0 <= i < existing.len() && path_eq(#[trigger] existing[i]@, p)
}

/// The canonical form of `p`: the first recorded pair whose path equals it.
pub open spec fn canonical_of(pairs: Seq<(String, String)>, p: Seq<char>) -> Option<Seq<char>>
    decreases pairs.len(),
{
    if pairs.len() == 0 {
        None
    } else if path_eq(pairs[0].0@, p) {
        Some(pairs[0].1@)
    } else {
        canonical_of(pairs.drop_first(), p)
    }
}

impl WorkbenchFiles {
    pub open spec fn file_exists_spec(&self, p: Seq<char>) -> bool {
        exists_in(self.existing@, p)
    }

    pub open spec fn canonicalize_spec(&self, p: Seq<char>) -> Option<Seq<char>> {
        canonical_of(self.canonical@, p)
    }

    /// Whether `p` exists.
    pub fn file_exists(&self, p: &str) -> (r: bool)
        ensures
            r == self.file_exists_spec(p@),
    {
        let mut i: usize = 0;
        while i < self.existing.len()
            invariant
                i <= self.existing.len(),
                forall|j: int| 0 <= j < i ==> !path_eq(#[trigger] self.existing@[j]@, p@),
            decreases self.existing.len() - i,
        {
            if paths_equal(self.existing[i].as_str(), p) {
                return true;
            }
            i = i + 1;
        }
        false
    }

    /// The canonical form of `p`, when it is known.
    pub fn canonicalize_existing_path(&self, p: &str) -> (r: Option<String>)
        ensures
            match self.canonicalize_spec(p@) {
                Some(c) => r matches Some(x) && x@ == c,
                None => r is None,
            },
    {
        let mut i: usize = 0;
        proof { assert(self.canonical@.skip(0) =~= self.canonical@); }
        while i < self.canonical.len()
            invariant
                i <= self.canonical.len(),
                canonical_of(self.canonical@, p@) == canonical_of(self.canonical@.skip(i as int), p@),
            decreases self.canonical.len() - i,
        {
            proof { assert(self.canonical@.skip(i as int).drop_first() =~= self.canonical@.skip(i + 1)); }
            if paths_equal(self.canonical[i].0.as_str(), p) {
                return Some(self.canonical[i].1.clone());
            }
            i = i + 1;
        }
        None
    }
}

/// `path` is `candidate`: lexically, or, when it exists, after both are
/// canonicalised.
pub open spec fn matches_candidate(files: WorkbenchFiles, path: Seq<char>, candidate: Seq<char>) -> bool {
    if normalize_spec(path) == normalize_spec(candidate) {
        true
    } else if !files.file_exists_spec(path) {
        false
    } else {
        match (files.canonicalize_spec(path), files.canonicalize_spec(candidate)) {
            (Some(p), Some(c)) => path_eq(p, c),
            _ => false,
        }
    }
}

fn path_matches_workbench_candidate(path: &str, candidate: &str, files: &WorkbenchFiles) -> (r: bool)
    ensures
        r == matches_candidate(*files, path@, candidate@),
{
    let a = lexical_normalize_path(path);
    let b = lexical_normalize_path(candidate);
    if a.has_root == b.has_root && parts_eq(&a.parts, &b.parts) {
        return true;
    }
    if !files.file_exists(path) {
        return false;
    }
    let p = match files.canonicalize_existing_path(path) {
        Some(p) => p,
        None => return false,
    };
    let c = match files.canonicalize_existing_path(candidate) {
        Some(c) => c,
        None => return false,
    };
    paths_equal(p.as_str(), c.as_str())
}

pub open spec fn default_workbench_entry() -> Seq<char> {
    "out/vs/code/browser/workbench/workbench.html"@
}

pub open spec fn packaged_path_spec(root: Seq<char>) -> Seq<char> {
    join_spec(join_spec(root, "src-tauri/www"@), default_workbench_entry())
}

pub open spec fn scaffold_path_spec(root: Seq<char>) -> Seq<char> {
    join_spec(root, "src-tauri/www/index.html"@)
}

pub open spec fn source_path_spec(root: Seq<char>) -> Seq<char> {
    join_spec(root, default_workbench_entry())
}

/// `<root>/src-tauri/www/out/vs/code/browser/workbench/workbench.html`.
pub fn packaged_app_workbench_path(repo_root: &str) -> (r: String)
    ensures
        r@ == packaged_path_spec(repo_root@),
{
    let dir = path_join(repo_root, "src-tauri/www");
    path_join(dir.as_str(), "out/vs/code/browser/workbench/workbench.html")
}

/// `path` when absolute, else `path` under `repo_root`.
pub fn resolve_workbench_path(repo_root: &str, path: &str) -> (r: String)
    ensures
        r@ == join_spec(repo_root@, path@),
{
    path_join(repo_root, path)
}

/// Whether `path` is the developer scaffold page.
pub fn is_scaffold_workbench_path(repo_root: &str, path: &str, files: &WorkbenchFiles) -> (r: bool)
    ensures
        r == matches_candidate(*files, path@, scaffold_path_spec(repo_root@)),
{
    let scaffold = path_join(repo_root, "src-tauri/www/index.html");
    path_matches_workbench_candidate(path, scaffold.as_str(), files)
}

/// Whether `path` is the built workbench, from a source checkout or packaged.
pub fn is_real_workbench_path(repo_root: &str, path: &str, files: &WorkbenchFiles) -> (r: bool)
    ensures
        r == (matches_candidate(*files, path@, source_path_spec(repo_root@))
            || matches_candidate(*files, path@, packaged_path_spec(repo_root@))),
{
    let source = path_join(repo_root, "out/vs/code/browser/workbench/workbench.html");
    let packaged = packaged_app_workbench_path(repo_root);
    path_matches_workbench_candidate(path, source.as_str(), files)
        || path_matches_workbench_candidate(path, packaged.as_str(), files)
}

pub open spec fn ascii_lower_seq(s: Seq<char>) -> Seq<char> {
    s.map_values(|c: char| crate::file_uri::ascii_lower(c))
}

/// The characters of a string with ASCII letters lowered.
pub fn ascii_lowercase(v: &str) -> (lower: Vec<char>)
    ensures
        lower@ == ascii_lower_seq(v@),
{
    let cs = chars_of(v);
    let mut lower: Vec<char> = Vec::new();
    let mut i: usize = 0;
    while i < cs.len()
        invariant
            i <= cs.len(),
            cs@ == v@,
            lower@ == ascii_lower_seq(cs@.take(i as int)),
        decreases cs.len() - i,
    {
        let c = cs[i];
        let l = if 'A' <= c && c <= 'Z' { ((c as u8) + 32) as char } else { c };
        proof {
            if 'A' <= c && c <= 'Z' { assert(((c as u8) + 32) as u32 == (c as u32) + 32); }
            assert(ascii_lower_seq(cs@.take(i + 1)) =~= ascii_lower_seq(cs@.take(i as int)).push(l));
        }
        lower.push(l);
        i = i + 1;
    }
    proof { assert(cs@.take(cs@.len() as int) =~= cs@); }
    lower
}

/// A flag value that turns the flag on.
pub open spec fn flag_on(v: Seq<char>) -> bool {
    let l = ascii_lower_seq(v);
    l == "1"@ || l == "true"@ || l == "yes"@ || l == "on"@
}

/// Whether an environment value turns a flag on (`1`, `true`, `yes`, `on`,
/// in any case).
pub fn env_flag(value: Option<&str>) -> (r: bool)
    ensures
        r == match value { Some(v) => flag_on(v@), None => false },
{
    match value {
        None => false,
        Some(v) => {
            let cs = chars_of(v);
            let mut lower: Vec<char> = Vec::new();
            let mut i: usize = 0;
            while i < cs.len()
                invariant
                    i <= cs.len(),
                    cs@ == v@,
                    lower@ == ascii_lower_seq(cs@.take(i as int)),
                decreases cs.len() - i,
            {
                let c = cs[i];
                let l = if 'A' <= c && c <= 'Z' { ((c as u8) + 32) as char } else { c };
                proof {
                    if 'A' <= c && c <= 'Z' { assert(((c as u8) + 32) as u32 == (c as u32) + 32); }
                    assert(ascii_lower_seq(cs@.take(i + 1)) =~= ascii_lower_seq(cs@.take(i as int)).push(l));
                }
                lower.push(l);
                i = i + 1;
            }
            proof { assert(cs@.take(cs@.len() as int) =~= cs@); }
            let s = crate::text::string_from_chars(&lower);
            str_eq(s.as_str(), "1") || str_eq(s.as_str(), "true") || str_eq(s.as_str(), "yes")
                || str_eq(s.as_str(), "on")
        },
    }
}

/// The environment values the resolver reads.
pub struct WorkbenchEnvironment {
    /// `CODE_TAURI_WORKBENCH_URL`.
    pub url: Option<String>,
    /// `CODE_TAURI_WORKBENCH_PATH`.
    pub path: Option<String>,
    /// `CODE_TAURI_REQUIRE_REAL_WORKBENCH`.
    pub require_real_workbench: Option<String>,
}

/// Where the window loads the workbench from.
#[derive(Debug, PartialEq, Eq)]
pub enum ResolvedWorkbenchUrl {
    External(String),
    File(String),
    App(&'static str),
}

/// Why no workbench could be chosen when a real workbench is required.
#[derive(Debug, Clone, Copy, PartialEq, Eq)]
pub enum WorkbenchResolveError {
    /// An explicit URL was given but a real, bundled workbench is required.
    ExternalUrlRejected,
    /// Only the developer scaffold (or a path that is not the workbench) was found.
    RealWorkbenchRequired,
}

impl WorkbenchResolveError {
    /// The text the desktop shell stops with.
    pub fn message(&self) -> (m: &'static str)
        ensures
            m@ == match self {
                WorkbenchResolveError::ExternalUrlRejected => "CODE_TAURI_REQUIRE_REAL_WORKBENCH=1 rejects CODE_TAURI_WORKBENCH_URL; bundled workbench out/vs/code/browser/workbench/workbench.html is required"@,
                WorkbenchResolveError::RealWorkbenchRequired => "CODE_TAURI_REQUIRE_REAL_WORKBENCH=1 requires existing CODE_TAURI_WORKBENCH_PATH or bundled workbench out/vs/code/browser/workbench/workbench.html; refusing developer scaffold fallback src-tauri/www/index.html"@,
            },
    {
        match self {
            WorkbenchResolveError::ExternalUrlRejected => "CODE_TAURI_REQUIRE_REAL_WORKBENCH=1 rejects CODE_TAURI_WORKBENCH_URL; bundled workbench out/vs/code/browser/workbench/workbench.html is required",
            WorkbenchResolveError::RealWorkbenchRequired => "CODE_TAURI_REQUIRE_REAL_WORKBENCH=1 requires existing CODE_TAURI_WORKBENCH_PATH or bundled workbench out/vs/code/browser/workbench/workbench.html; refusing developer scaffold fallback src-tauri/www/index.html",
        }
    }
}

/// The outcome of resolution, as mathematical values.
pub enum ResolvedSpec {
    External(Seq<char>),
    File(Seq<char>),
    App(Seq<char>),
    Rejected(WorkbenchResolveError),
}

/// The workbench resolution rule: an explicit URL wins (unless a real
/// workbench is required); then an existing explicit path (which must be
/// the real workbench when one is required); then the packaged asset; then
/// the source checkout build; then, unless a real workbench is required,
/// the developer scaffold.
pub open spec fn resolve_spec(env: WorkbenchEnvironment, files: WorkbenchFiles, root: Seq<char>, release: bool) -> ResolvedSpec {
    let require = release || match env.require_real_workbench { Some(v) => flag_on(v@), None => false };
    match env.url {
        Some(u) => if require { ResolvedSpec::Rejected(WorkbenchResolveError::ExternalUrlRejected) } else { ResolvedSpec::External(u@) },
        None => {
            let explicit = match env.path {
                Some(p) => {
                    let path = join_spec(root, p@);
                    if require && (matches_candidate(files, path, scaffold_path_spec(root))
                        || !(matches_candidate(files, path, source_path_spec(root))
                        || matches_candidate(files, path, packaged_path_spec(root)))) {
                        Some(ResolvedSpec::Rejected(WorkbenchResolveError::RealWorkbenchRequired))
                    } else if files.file_exists_spec(path) {
                        Some(ResolvedSpec::File(path))
                    } else {
                        None
                    }
                },
                None => None,
            };
            match explicit {
                Some(r) => r,
                None => if files.file_exists_spec(packaged_path_spec(root)) {
                    ResolvedSpec::App(default_workbench_entry())
                } else if files.file_exists_spec(source_path_spec(root)) {
                    ResolvedSpec::File(source_path_spec(root))
                } else if require {
                    ResolvedSpec::Rejected(WorkbenchResolveError::RealWorkbenchRequired)
                } else {
                    ResolvedSpec::App("index.html"@)
                },
            }
        },
    }
}

pub open spec fn result_spec(r: Result<ResolvedWorkbenchUrl, WorkbenchResolveError>) -> ResolvedSpec {
    match r {
        Ok(ResolvedWorkbenchUrl::External(u)) => ResolvedSpec::External(u@),
        Ok(ResolvedWorkbenchUrl::File(p)) => ResolvedSpec::File(p@),
        Ok(ResolvedWorkbenchUrl::App(a)) => ResolvedSpec::App(a@),
        Err(e) => ResolvedSpec::Rejected(e),
    }
}

/// The workbench URL, or why the desktop shell must stop.
fn resolve_or_reject(
    env: &WorkbenchEnvironment,
    files: &WorkbenchFiles,
    repo_root: &str,
    release_build_requires_real_workbench: bool,
) -> (r: Result<ResolvedWorkbenchUrl, WorkbenchResolveError>)
    ensures
        result_spec(r) == resolve_spec(*env, *files, repo_root@, release_build_requires_real_workbench),
{
    proof {
        reveal_strlit("index.html");
        reveal_strlit("out/vs/code/browser/workbench/workbench.html");
    }
    let require_real_workbench = release_build_requires_real_workbench || env_flag(
        match &env.require_real_workbench { Some(v) => Some(v.as_str()), None => None },
    );
    match &env.url {
        Some(url) => {
            if require_real_workbench {
                return Err(WorkbenchResolveError::ExternalUrlRejected);
            }
            return Ok(ResolvedWorkbenchUrl::External(url.clone()));
        },
        None => {},
    }
    match &env.path {
        Some(p) => {
            let path = resolve_workbench_path(repo_root, p.as_str());
            if require_real_workbench && (is_scaffold_workbench_path(repo_root, path.as_str(), files)
                || !is_real_workbench_path(repo_root, path.as_str(), files)) {
                return Err(WorkbenchResolveError::RealWorkbenchRequired);
            }
            if files.file_exists(path.as_str()) {
                return Ok(ResolvedWorkbenchUrl::File(path));
            }
        },
        None => {},
    }
    let packaged = packaged_app_workbench_path(repo_root);
    if files.file_exists(packaged.as_str()) {
        return Ok(ResolvedWorkbenchUrl::App("out/vs/code/browser/workbench/workbench.html"));
    }
    let default_workbench_path = path_join(repo_root, "out/vs/code/browser/workbench/workbench.html");
    if files.file_exists(default_workbench_path.as_str()) {
        return Ok(ResolvedWorkbenchUrl::File(default_workbench_path));
    }
    if require_real_workbench {
        return Err(WorkbenchResolveError::RealWorkbenchRequired);
    }
    Ok(ResolvedWorkbenchUrl::App("index.html"))
}

pub open spec fn url_spec(r: ResolvedWorkbenchUrl) -> ResolvedSpec {
    result_spec(Ok(r))
}

/// Whether resolution stops the desktop shell, and why: a real workbench is
/// required and an explicit URL is given, or the explicit path is the
/// developer scaffold or not the real workbench, or no workbench is found.
pub fn check_workbench_resolution(
    env: &WorkbenchEnvironment,
    files: &WorkbenchFiles,
    repo_root: &str,
    release_build_requires_real_workbench: bool,
) -> (r: Result<(), WorkbenchResolveError>)
    ensures
        match r {
            Ok(()) => !(resolve_spec(*env, *files, repo_root@, release_build_requires_real_workbench) is Rejected),
            Err(e) => resolve_spec(*env, *files, repo_root@, release_build_requires_real_workbench)
                == ResolvedSpec::Rejected(e),
        },
{
    match resolve_or_reject(env, files, repo_root, release_build_requires_real_workbench) {
        Ok(_) => Ok(()),
        Err(e) => Err(e),
    }
}

/// Resolves the workbench URL under an explicit release policy, on the
/// inputs where the desktop shell does not stop (see
/// [`check_workbench_resolution`]).
pub fn resolve_workbench_url_with_release_policy(
    env: &WorkbenchEnvironment,
    files: &WorkbenchFiles,
    repo_root: &str,
    release_build_requires_real_workbench: bool,
) -> (r: ResolvedWorkbenchUrl)
    requires
        !(resolve_spec(*env, *files, repo_root@, release_build_requires_real_workbench) is Rejected),
    ensures
        url_spec(r) == resolve_spec(*env, *files, repo_root@, release_build_requires_real_workbench),
{
    match resolve_or_reject(env, files, repo_root, release_build_requires_real_workbench) {
        Ok(resolved) => resolved,
        Err(_) => {
            proof { assert(false); }
            ResolvedWorkbenchUrl::App("index.html")
        },
    }
}

/// Resolves the workbench URL; the caller says whether this build requires
/// a real workbench (release builds do).
pub fn resolve_workbench_url_with(
    env: &WorkbenchEnvironment,
    files: &WorkbenchFiles,
    repo_root: &str,
    release_build_requires_real_workbench: bool,
) -> (r: ResolvedWorkbenchUrl)
    requires
        !(resolve_spec(*env, *files, repo_root@, release_build_requires_real_workbench) is Rejected),
    ensures
        url_spec(r) == resolve_spec(*env, *files, repo_root@, release_build_requires_real_workbench),
{
    resolve_workbench_url_with_release_policy(env, files, repo_root, release_build_requires_real_workbench)
}

} // verus!
