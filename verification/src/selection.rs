//! Selecting the packages in scope and the paths to resolve for them.

use vstd::prelude::*;

use crate::config::{known_scope, spec_known_scope, Config, PackagePaths};
use crate::error::CoverageError;
use crate::names::{contains_string, insert_name, lemma_insert_sorted, push_names, sorted_names, string_views};
use crate::plan::{copy_path, path_eq, same_path, PathParts};
use crate::text::{lemma_seq_lt_irreflexive, lemma_seq_lt_total, lemma_seq_lt_transitive, seq_lt, str_eq, string_lt};

verus! {


/// A workspace member with its resolved manifest and package root.
#[derive(Debug)]
pub struct MemberPackage {
    /// The package name.
    pub name: String,
    /// Whether the package is a default workspace member.
    pub is_default: bool,
    /// The canonical path of the package manifest.
    pub manifest: PathParts,
    /// The directory holding the manifest.
    pub root: PathParts,
}

/// A package name with its root directory.
#[derive(Debug)]
pub struct PackageRoot {
    /// The package name.
    pub name: String,
    /// The package root directory.
    pub root: PathParts,
}

/// Whether a configured path names a source directory or an exempt file.
#[derive(Clone, Copy, Debug, PartialEq, Eq, Structural)]
pub enum PathKind {
    SourceDir,
    ExemptFile,
}

/// A configured path to check on disk and resolve, relative to a package
/// root.
#[derive(Debug)]
pub struct PathRequest {
    /// The package the path is configured for.
    pub package: String,
    /// The package root directory.
    pub root: PathParts,
    /// The configured relative path.
    pub relative: String,
    /// What must exist at the path.
    pub kind: PathKind,
}

/// The packages in scope and what must be resolved for them.
#[derive(Debug)]
pub struct PackageSelection {
    /// Every workspace member's root, in ascending name order.
    pub package_roots: Vec<PackageRoot>,
    /// The selected package names, in ascending order.
    pub selected: Vec<String>,
    /// The configured paths of the selected packages, in order.
    pub requests: Vec<PathRequest>,
    /// Cargo flags selecting exactly the selected packages.
    pub cargo_args: Vec<String>,
}

/// The scope in force; `None` means `default-members`.
pub open spec fn spec_scope(c: Config) -> Seq<char> {
    match c.scope {
        Some(s) => s@,
        None => "default-members"@,
    }
}

/// Whether a member belongs to the scope and is not excluded.
pub open spec fn member_included(c: Config, p: MemberPackage, root_manifest: Seq<String>) -> bool {
    &&& {
        ||| spec_scope(c) == "workspace"@
        ||| spec_scope(c) == "default-members"@ && p.is_default
        ||| spec_scope(c) == "package"@ && path_eq(p.manifest@, root_manifest)
    }
    &&& !string_views(c.exclude_packages@).contains(p.name@)
}

/// The names of the members.
pub open spec fn member_names(members: Seq<MemberPackage>) -> Seq<Seq<char>> {
    members.map_values(|p: MemberPackage| p.name@)
}

/// Whether some included member has this name.
pub open spec fn is_selected_name(c: Config, members: Seq<MemberPackage>, root_manifest: Seq<String>, x: Seq<char>) -> bool {
    exists|k: int|
        0 <= k < members.len() && (#[trigger] members[k]).name@ == x && member_included(c, members[k], root_manifest)
}

/// The root of the last member with this name.
pub open spec fn last_root(members: Seq<MemberPackage>, name: Seq<char>) -> Option<Seq<String>>
    decreases members.len(),
{
    if members.len() == 0 {
        None
    } else if members.last().name@ == name {
        Some(members.last().root@)
    } else {
        last_root(members.drop_last(), name)
    }
}

/// The names of the root entries.
pub open spec fn root_names(roots: Seq<PackageRoot>) -> Seq<Seq<char>> {
    roots.map_values(|r: PackageRoot| r.name@)
}

/// Whether `roots` maps every member name, in ascending order, to the root
/// of the last member with that name.
pub open spec fn roots_of_members(roots: Seq<PackageRoot>, members: Seq<MemberPackage>) -> bool {
    &&& sorted_names(root_names(roots))
    &&& forall|x: Seq<char>| root_names(roots).contains(x) <==> member_names(members).contains(x)
    &&& forall|i: int| 0 <= i < roots.len() ==> last_root(members, (#[trigger] roots[i]).name@) == Some(roots[i].root@)
}

/// The package names the configuration mentions: excluded packages, then
/// the keys of `source_dirs`, then those of `threshold_exempt_files`.
pub open spec fn configured_names(c: Config) -> Seq<String> {
    c.exclude_packages@ + entry_names(c.source_dirs@) + entry_names(c.threshold_exempt_files@)
}

/// The package names for which paths are configured.
pub open spec fn path_names(c: Config) -> Seq<String> {
    entry_names(c.source_dirs@) + entry_names(c.threshold_exempt_files@)
}

/// The keys of a path map.
pub open spec fn entry_names(entries: Seq<PackagePaths>) -> Seq<String> {
    entries.map_values(|e: PackagePaths| e.package)
}

/// The first name that is not a member name.
pub open spec fn first_unknown(names: Seq<String>, members: Seq<MemberPackage>) -> Option<String>
    decreases names.len(),
{
    if names.len() == 0 {
        None
    } else if !member_names(members).contains(names[0]@) {
        Some(names[0])
    } else {
        first_unknown(names.drop_first(), members)
    }
}

/// The first name that is not a selected name.
pub open spec fn first_unselected(
    names: Seq<String>,
    c: Config,
    members: Seq<MemberPackage>,
    root_manifest: Seq<String>,
) -> Option<String>
    decreases names.len(),
{
    if names.len() == 0 {
        None
    } else if !is_selected_name(c, members, root_manifest, names[0]@) {
        Some(names[0])
    } else {
        first_unselected(names.drop_first(), c, members, root_manifest)
    }
}

/// The error, if any, of selecting packages: an unknown scope (once there
/// is a member to judge), an unknown package name, a package with paths
/// outside the scope, or an empty selection, in that order.
pub open spec fn spec_selection_error(c: Config, members: Seq<MemberPackage>, root_manifest: Seq<String>) -> Option<CoverageError> {
    if members.len() > 0 && !spec_known_scope(spec_scope(c)) {
        Some(CoverageError::UnknownScope(c.scope->0))
    } else if first_unknown(configured_names(c), members) is Some {
        Some(CoverageError::UnknownPackage(first_unknown(configured_names(c), members)->0))
    } else if first_unselected(path_names(c), c, members, root_manifest) is Some {
        Some(CoverageError::UnselectedPackage(first_unselected(path_names(c), c, members, root_manifest)->0))
    } else if !exists|k: int| 0 <= k < members.len() && member_included(c, #[trigger] members[k], root_manifest) {
        Some(CoverageError::NoPackagesSelected)
    } else {
        None
    }
}

/// Whether `selected` lists, in ascending order, the names of the included
/// members.
pub open spec fn selected_of(selected: Seq<String>, c: Config, members: Seq<MemberPackage>, root_manifest: Seq<String>) -> bool {
    &&& sorted_names(string_views(selected))
    &&& forall|x: Seq<char>| string_views(selected).contains(x) <==> is_selected_name(c, members, root_manifest, x)
}

} // verus!

verus! {

fn root_position(roots: &Vec<PackageRoot>, name: &String) -> (res: usize)
    requires
        sorted_names(root_names(roots@)),
    ensures
        res <= roots@.len(),
        forall|i: int| 0 <= i < res ==> seq_lt((#[trigger] roots@[i]).name@, name@),
        res < roots@.len() ==> !seq_lt(roots@[res as int].name@, name@),
{
    let n = roots.len();
    let mut pos: usize = 0;
    while pos < n && string_lt(&roots[pos].name, name)
        invariant
            n == roots@.len(),
            0 <= pos <= n,
            forall|i: int| 0 <= i < pos ==> seq_lt((#[trigger] roots@[i]).name@, name@),
        decreases n - pos,
    {
        pos = pos + 1;
    }
    pos
}

/// Maps `name` to `root` in an ascending list of package roots, replacing
/// an earlier root of that name, as `BTreeMap::insert`.
fn insert_root(roots: &mut Vec<PackageRoot>, name: &String, root: &PathParts)
    requires
        sorted_names(root_names(old(roots)@)),
    ensures
        sorted_names(root_names(final(roots)@)),
        forall|x: Seq<char>|
            root_names(final(roots)@).contains(x) <==> (root_names(old(roots)@).contains(x) || x
                == name@),
        forall|i: int|
            0 <= i < final(roots)@.len() ==> ((#[trigger] final(roots)@[i]).name@ == name@
                && final(roots)@[i].root@ == root@) || (final(roots)@[i].name@ != name@ && exists|j: int|
                0 <= j < old(roots)@.len() && (#[trigger] old(roots)@[j]).name@ == final(roots)@[i].name@
                    && old(roots)@[j].root@ == final(roots)@[i].root@),
{
    let ghost old_roots = roots@;
    let ghost old_views = root_names(roots@);
    let pos = root_position(roots, name);
    if pos < roots.len() && roots[pos].name == *name {
        let entry = PackageRoot { name: name.clone(), root: copy_path(root) };
        roots[pos] = entry;
        proof {
            assert(root_names(roots@) =~= old_views);
            assert forall|i: int|
                0 <= i < roots@.len() implies ((#[trigger] roots@[i]).name@ == name@ && roots@[i].root@
                == root@) || (roots@[i].name@ != name@ && exists|j: int|
                0 <= j < old_roots.len() && (#[trigger] old_roots[j]).name@ == roots@[i].name@
                    && old_roots[j].root@ == roots@[i].root@) by {
                if i != pos {
                    assert(old_roots[i] == roots@[i]);
                    if roots@[i].name@ == name@ {
                        lemma_seq_lt_irreflexive(name@);
                        assert(old_views[i] == old_views[pos as int]);
                        if i < pos {
                            assert(seq_lt(old_views[i], old_views[pos as int]));
                        } else {
                            assert(seq_lt(old_views[pos as int], old_views[i]));
                        }
                    }
                }
            }
            assert(forall|x: Seq<char>|
                root_names(roots@).contains(x) <==> (old_views.contains(x) || x == name@)) by {
                assert(old_views[pos as int] == name@);
            }
        }
        return;
    }
    proof {
        if pos < roots@.len() {
            lemma_seq_lt_total(roots@[pos as int].name@, name@);
        }
        lemma_insert_sorted(old_views, pos as int, name@);
    }
    roots.insert(pos, PackageRoot { name: name.clone(), root: copy_path(root) });
    proof {
        assert(root_names(roots@) =~= old_views.insert(pos as int, name@));
        assert forall|x: Seq<char>|
            root_names(roots@).contains(x) <==> (old_views.contains(x) || x == name@) by {
            if old_views.contains(x) {
                let k = choose|k: int| 0 <= k < old_views.len() && old_views[k] == x;
                if k < pos {
                    assert(root_names(roots@)[k] == x);
                } else {
                    assert(root_names(roots@)[k + 1] == x);
                }
            }
            if x == name@ {
                assert(root_names(roots@)[pos as int] == x);
            }
            if root_names(roots@).contains(x) {
                let k = choose|k: int| 0 <= k < root_names(roots@).len() && root_names(roots@)[k] == x;
                if k < pos {
                    assert(old_views[k] == x);
                } else if k > pos {
                    assert(old_views[k - 1] == x);
                }
            }
        }
        assert forall|i: int|
            0 <= i < roots@.len() implies ((#[trigger] roots@[i]).name@ == name@ && roots@[i].root@
            == root@) || (roots@[i].name@ != name@ && exists|j: int|
            0 <= j < old_roots.len() && (#[trigger] old_roots[j]).name@ == roots@[i].name@
                && old_roots[j].root@ == roots@[i].root@) by {
            if i < pos {
                assert(old_roots[i] == roots@[i]);
                assert(seq_lt(old_views[i], name@));
                lemma_seq_lt_irreflexive(name@);
            } else if i > pos {
                assert(old_roots[i - 1] == roots@[i]);
                assert(seq_lt(name@, old_views[pos as int]));
                if i - 1 > pos {
                    assert(seq_lt(old_views[pos as int], old_views[i - 1]));
                    lemma_seq_lt_transitive(name@, old_views[pos as int], old_views[i - 1]);
                }
                lemma_seq_lt_irreflexive(name@);
            }
        }
        assert(forall|x: Seq<char>|
            root_names(roots@).contains(x) <==> (root_names(old(roots)@).contains(x) || x == name@));
    }
}

} // verus!

verus! {

/// Returns the index of the root entry named `name`.
fn find_root(roots: &Vec<PackageRoot>, name: &String) -> (res: usize)
    requires
        root_names(roots@).contains(name@),
    ensures
        res < roots@.len(),
        roots@[res as int].name@ == name@,
{
    let n = roots.len();
    let mut k: usize = 0;
    while k < n
        invariant
            n == roots@.len(),
            0 <= k <= n,
            root_names(roots@).contains(name@),
            forall|j: int| 0 <= j < k ==> (#[trigger] roots@[j]).name@ != name@,
        decreases n - k,
    {
        if roots[k].name == *name {
            return k;
        }
        k = k + 1;
    }
    proof {
        let j = choose|j: int| 0 <= j < root_names(roots@).len() && root_names(roots@)[j] == name@;
        assert(roots@[j].name@ == name@);
    }
    0
}

/// How the scope decides membership.
enum ScopeRule {
    Workspace,
    DefaultMembers,
    RootPackage,
    Unknown,
}

fn scope_rule(config: &Config) -> (res: ScopeRule)
    ensures
        res is Workspace <==> spec_scope(*config) == "workspace"@,
        res is DefaultMembers <==> spec_scope(*config) == "default-members"@,
        res is RootPackage <==> spec_scope(*config) == "package"@,
        res is Unknown <==> !spec_known_scope(spec_scope(*config)),
{
    proof {
        reveal_strlit("workspace");
        reveal_strlit("default-members");
        reveal_strlit("package");
        assert("workspace"@.len() == 9);
        assert("default-members"@.len() == 15);
        assert("package"@.len() == 7);
        assert("workspace"@ != "default-members"@);
        assert("workspace"@ != "package"@);
        assert("package"@ != "default-members"@);
    }
    match &config.scope {
        None => ScopeRule::DefaultMembers,
        Some(s) => {
            if str_eq(s.as_str(), "workspace") {
                ScopeRule::Workspace
            } else if str_eq(s.as_str(), "default-members") {
                ScopeRule::DefaultMembers
            } else if str_eq(s.as_str(), "package") {
                ScopeRule::RootPackage
            } else {
                ScopeRule::Unknown
            }
        },
    }
}

/// Records every member's root and the included member names.
#[verifier::loop_isolation(false)]
fn collect_members(config: &Config, members: &Vec<MemberPackage>, root_manifest: &PathParts) -> (res: (
    Vec<PackageRoot>,
    Vec<String>,
))
    requires
        members@.len() == 0 || spec_known_scope(spec_scope(*config)),
    ensures
        roots_of_members(res.0@, members@),
        selected_of(res.1@, *config, members@, root_manifest@),
{
    let rule = scope_rule(config);
    let mut roots: Vec<PackageRoot> = Vec::new();
    let mut selected: Vec<String> = Vec::new();
    let n = members.len();
    let mut k: usize = 0;
    while k < n
        invariant
            0 <= k <= n,
            n == members@.len(),
            roots_of_members(roots@, members@.take(k as int)),
            selected_of(selected@, *config, members@.take(k as int), root_manifest@),
        decreases n - k,
    {
        let p = &members[k];
        let ghost before = members@.take(k as int);
        let ghost after = members@.take(k + 1);
        let ghost old_roots = roots@;
        let ghost old_selected = selected@;
        proof {
            assert(after.drop_last() =~= before);
            assert(after.last() == *p);
            assert(member_names(after) =~= member_names(before).push(p.name@));
        }
        insert_root(&mut roots, &p.name, &p.root);
        let scoped = match rule {
            ScopeRule::Workspace => true,
            ScopeRule::DefaultMembers => p.is_default,
            ScopeRule::RootPackage => same_path(&p.manifest, root_manifest),
            ScopeRule::Unknown => false,
        };
        let included = scoped && !contains_string(&config.exclude_packages, &p.name);
        proof {
            assert(included == member_included(*config, *p, root_manifest@));
        }
        if included {
            insert_name(&mut selected, &p.name);
        }
        proof {
            assert(member_names(after)[k as int] == p.name@);
            assert forall|x: Seq<char>| root_names(roots@).contains(x) <==> member_names(after).contains(x) by {
                if member_names(before).contains(x) {
                    let j = choose|j: int| 0 <= j < member_names(before).len() && member_names(before)[j] == x;
                    assert(member_names(after)[j] == x);
                }
                if member_names(after).contains(x) && x != p.name@ {
                    let j = choose|j: int| 0 <= j < member_names(after).len() && member_names(after)[j] == x;
                    assert(member_names(before)[j] == x);
                }
            }
            assert forall|i: int| 0 <= i < roots@.len() implies last_root(after, (#[trigger] roots@[i]).name@) == Some(roots@[i].root@) by {
                if roots@[i].name@ != p.name@ {
                    let j = choose|j: int|
                        0 <= j < old_roots.len() && (#[trigger] old_roots[j]).name@ == roots@[i].name@
                            && old_roots[j].root@ == roots@[i].root@;
                    assert(last_root(before, old_roots[j].name@) == Some(old_roots[j].root@));
                }
            }
            assert forall|x: Seq<char>| string_views(selected@).contains(x) <==> is_selected_name(*config, after, root_manifest@, x) by {
                if is_selected_name(*config, after, root_manifest@, x) {
                    let j = choose|j: int|
                        0 <= j < after.len() && (#[trigger] after[j]).name@ == x && member_included(*config, after[j], root_manifest@);
                    if j < k {
                        assert(before[j] == after[j]);
                        assert(is_selected_name(*config, before, root_manifest@, x));
                    }
                }
                if string_views(old_selected).contains(x) {
                    assert(is_selected_name(*config, before, root_manifest@, x));
                    let j = choose|j: int|
                        0 <= j < before.len() && (#[trigger] before[j]).name@ == x && member_included(*config, before[j], root_manifest@);
                    assert(after[j] == before[j]);
                }
                if included && x == p.name@ {
                    assert(after[k as int] == *p);
                }
            }
        }
        k = k + 1;
    }
    proof {
        assert(members@.take(n as int) =~= members@);
    }
    (roots, selected)
}

} // verus!

verus! {

/// The paths of the first entry for package `name`.
pub open spec fn lookup_paths(entries: Seq<PackagePaths>, name: Seq<char>) -> Option<Seq<String>>
    decreases entries.len(),
{
    if entries.len() == 0 {
        None
    } else if entries[0].package@ == name {
        Some(entries[0].paths@)
    } else {
        lookup_paths(entries.drop_first(), name)
    }
}

/// A path request as plain values: package, root, relative path, kind.
pub open spec fn request_view(r: PathRequest) -> (Seq<char>, Seq<String>, Seq<char>, PathKind) {
    (r.package@, r.root@, r.relative@, r.kind)
}

/// The request views of a list of requests.
pub open spec fn request_views(rs: Seq<PathRequest>) -> Seq<(Seq<char>, Seq<String>, Seq<char>, PathKind)> {
    rs.map_values(|r: PathRequest| request_view(r))
}

/// The requests of one kind for each of `paths`.
pub open spec fn requests_for(name: Seq<char>, root: Seq<String>, paths: Seq<String>, kind: PathKind) -> Seq<
    (Seq<char>, Seq<String>, Seq<char>, PathKind),
> {
    paths.map_values(|p: String| (name, root, p@, kind))
}

/// The source directories of a package: its configured ones, or `src`.
pub open spec fn dir_requests(c: Config, name: Seq<char>, root: Seq<String>) -> Seq<(Seq<char>, Seq<String>, Seq<char>, PathKind)> {
    match lookup_paths(c.source_dirs@, name) {
        Some(paths) => requests_for(name, root, paths, PathKind::SourceDir),
        None => seq![(name, root, "src"@, PathKind::SourceDir)],
    }
}

/// The exempt files of a package.
pub open spec fn exempt_requests(c: Config, name: Seq<char>, root: Seq<String>) -> Seq<(Seq<char>, Seq<String>, Seq<char>, PathKind)> {
    match lookup_paths(c.threshold_exempt_files@, name) {
        Some(paths) => requests_for(name, root, paths, PathKind::ExemptFile),
        None => Seq::empty(),
    }
}

/// For each selected package in order, its source directories and then its
/// exempt files, each relative to the package's root.
pub open spec fn spec_requests(c: Config, selected: Seq<Seq<char>>, members: Seq<MemberPackage>) -> Seq<
    (Seq<char>, Seq<String>, Seq<char>, PathKind),
>
    decreases selected.len(),
{
    if selected.len() == 0 {
        Seq::empty()
    } else {
        let name = selected.last();
        let root = last_root(members, name)->0;
        spec_requests(c, selected.drop_last(), members) + dir_requests(c, name, root) + exempt_requests(c, name, root)
    }
}

/// `--package` with each selected name.
pub open spec fn package_args(selected: Seq<Seq<char>>) -> Seq<Seq<char>>
    decreases selected.len(),
{
    if selected.len() == 0 {
        Seq::empty()
    } else {
        package_args(selected.drop_last()) + seq!["--package"@, selected.last()]
    }
}

/// `--exclude` with each name that is not selected.
pub open spec fn exclude_args(names: Seq<Seq<char>>, selected: Seq<Seq<char>>) -> Seq<Seq<char>>
    decreases names.len(),
{
    if names.len() == 0 {
        Seq::empty()
    } else if selected.contains(names.last()) {
        exclude_args(names.drop_last(), selected)
    } else {
        exclude_args(names.drop_last(), selected) + seq!["--exclude"@, names.last()]
    }
}

/// The Cargo flags for a selection: each selected package by name in
/// `package` scope; otherwise the workspace with every unselected member
/// excluded.
pub open spec fn spec_cargo_args(c: Config, selected: Seq<Seq<char>>, all_names: Seq<Seq<char>>) -> Seq<Seq<char>> {
    if spec_scope(c) == "package"@ {
        package_args(selected)
    } else {
        seq!["--workspace"@] + exclude_args(all_names, selected)
    }
}

/// Returns the index of the first entry for package `name`.
fn find_entry(entries: &Vec<PackagePaths>, name: &String) -> (res: Option<usize>)
    ensures
        match res {
            Some(i) => i < entries@.len() && lookup_paths(entries@, name@) == Some(entries@[i as int].paths@),
            None => lookup_paths(entries@, name@) is None,
        },
{
    let n = entries.len();
    let mut k: usize = 0;
    assert(entries@.skip(0) =~= entries@);
    while k < n
        invariant
            n == entries@.len(),
            0 <= k <= n,
            lookup_paths(entries@, name@) == lookup_paths(entries@.skip(k as int), name@),
        decreases n - k,
    {
        assert(entries@.skip(k as int)[0] == entries@[k as int]);
        assert(entries@.skip(k as int).drop_first() =~= entries@.skip(k + 1));
        if entries[k].package == *name {
            return Some(k);
        }
        k = k + 1;
    }
    None
}

/// Appends one request per path.
fn push_requests(
    requests: &mut Vec<PathRequest>,
    name: &String,
    root: &PathParts,
    paths: &Vec<String>,
    kind: PathKind,
)
    ensures
        request_views(final(requests)@) == request_views(old(requests)@) + requests_for(name@, root@, paths@, kind),
{
    let ghost start = request_views(requests@);
    let n = paths.len();
    let mut k: usize = 0;
    while k < n
        invariant
            n == paths@.len(),
            0 <= k <= n,
            request_views(requests@) == start + requests_for(name@, root@, paths@.take(k as int), kind),
        decreases n - k,
    {
        let ghost prev = requests@;
        let request = PathRequest { package: name.clone(), root: copy_path(root), relative: paths[k].clone(), kind };
        assert(request_view(request) == (name@, root@, paths@[k as int]@, kind));
        requests.push(request);
        proof {
            assert(request_views(requests@) =~= request_views(prev).push(request_view(request)));
            assert(requests_for(name@, root@, paths@.take(k + 1), kind) =~= requests_for(name@, root@, paths@.take(k as int), kind).push((name@, root@, paths@[k as int]@, kind)));
            assert(request_views(requests@) =~= start + requests_for(name@, root@, paths@.take(k + 1), kind));
        }
        k = k + 1;
    }
    proof {
        assert(paths@.take(n as int) =~= paths@);
    }
}

/// Builds the path requests of the selected packages.
#[verifier::loop_isolation(false)]
fn build_requests(config: &Config, roots: &Vec<PackageRoot>, selected: &Vec<String>, members: &Vec<MemberPackage>) -> (res: Vec<PathRequest>)
    requires
        roots_of_members(roots@, members@),
        forall|x: Seq<char>| string_views(selected@).contains(x) ==> member_names(members@).contains(x),
    ensures
        request_views(res@) == spec_requests(*config, string_views(selected@), members@),
{
    let mut requests: Vec<PathRequest> = Vec::new();
    let n = selected.len();
    let mut k: usize = 0;
    while k < n
        invariant
            0 <= k <= n,
            n == selected@.len(),
            request_views(requests@) == spec_requests(*config, string_views(selected@.take(k as int)), members@),
        decreases n - k,
    {
        let name = &selected[k];
        proof {
            assert(string_views(selected@)[k as int] == name@);
            assert(member_names(members@).contains(name@));
        }
        let r = find_root(roots, name);
        let root = &roots[r].root;
        proof {
            assert(last_root(members@, roots@[r as int].name@) == Some(roots@[r as int].root@));
            assert(string_views(selected@.take(k + 1)).drop_last() =~= string_views(selected@.take(k as int)));
            assert(string_views(selected@.take(k + 1)).last() == name@);
        }
        match find_entry(&config.source_dirs, name) {
            Some(i) => push_requests(&mut requests, name, root, &config.source_dirs[i].paths, PathKind::SourceDir),
            None => {
                let default_dirs: Vec<String> = vec!["src".to_owned()];
                proof {
                    assert(requests_for(name@, root@, default_dirs@, PathKind::SourceDir) =~= seq![(name@, root@, "src"@, PathKind::SourceDir)]);
                }
                push_requests(&mut requests, name, root, &default_dirs, PathKind::SourceDir);
            },
        }
        match find_entry(&config.threshold_exempt_files, name) {
            Some(i) => push_requests(&mut requests, name, root, &config.threshold_exempt_files[i].paths, PathKind::ExemptFile),
            None => {
                proof {
                    assert(exempt_requests(*config, name@, root@) =~= Seq::empty());
                    assert(request_views(requests@) + exempt_requests(*config, name@, root@) =~= request_views(requests@));
                }
            },
        }
        k = k + 1;
    }
    proof {
        assert(selected@.take(n as int) =~= selected@);
    }
    requests
}

} // verus!

verus! {

/// Builds the Cargo flags for a selection.
#[verifier::loop_isolation(false)]
fn build_cargo_args(config: &Config, roots: &Vec<PackageRoot>, selected: &Vec<String>) -> (res: Vec<String>)
    ensures
        string_views(res@) == spec_cargo_args(*config, string_views(selected@), root_names(roots@)),
{
    proof {
        reveal_strlit("package");
        reveal_strlit("default-members");
        assert("package"@ != "default-members"@) by {
            assert("package"@.len() != "default-members"@.len());
        }
    }
    let package_scope = match &config.scope {
        Some(s) => str_eq(s.as_str(), "package"),
        None => false,
    };
    let mut args: Vec<String> = Vec::new();
    if package_scope {
        let n = selected.len();
        let mut k: usize = 0;
        while k < n
            invariant
                0 <= k <= n,
                n == selected@.len(),
                string_views(args@) == package_args(string_views(selected@.take(k as int))),
            decreases n - k,
        {
            let ghost prev = args@;
            args.push("--package".to_owned());
            args.push(selected[k].clone());
            proof {
                assert(string_views(selected@.take(k + 1)).drop_last() =~= string_views(selected@.take(k as int)));
                assert(string_views(args@) =~= string_views(prev) + seq!["--package"@, selected@[k as int]@]);
            }
            k = k + 1;
        }
        proof {
            assert(selected@.take(n as int) =~= selected@);
        }
    } else {
        args.push("--workspace".to_owned());
        let n = roots.len();
        let mut k: usize = 0;
        while k < n
            invariant
                0 <= k <= n,
                n == roots@.len(),
                string_views(args@) == seq!["--workspace"@] + exclude_args(root_names(roots@.take(k as int)), string_views(selected@)),
            decreases n - k,
        {
            let ghost prev = args@;
            proof {
                assert(root_names(roots@.take(k + 1)).drop_last() =~= root_names(roots@.take(k as int)));
                assert(root_names(roots@.take(k + 1)).last() == roots@[k as int].name@);
            }
            if !contains_string(selected, &roots[k].name) {
                args.push("--exclude".to_owned());
                args.push(roots[k].name.clone());
                proof {
                    assert(string_views(args@) =~= string_views(prev) + seq!["--exclude"@, roots@[k as int].name@]);
                }
            }
            k = k + 1;
        }
        proof {
            assert(roots@.take(n as int) =~= roots@);
        }
    }
    args
}

/// Appends the package names of path entries.
fn push_entry_names(out: &mut Vec<String>, entries: &Vec<PackagePaths>)
    ensures
        final(out)@ == old(out)@ + entry_names(entries@),
{
    let ghost start = out@;
    let n = entries.len();
    let mut k: usize = 0;
    while k < n
        invariant
            n == entries@.len(),
            0 <= k <= n,
            out@ == start + entry_names(entries@.take(k as int)),
        decreases n - k,
    {
        out.push(entries[k].package.clone());
        proof {
            assert(start + entry_names(entries@.take(k + 1)) =~= (start + entry_names(entries@.take(k as int))).push(entries@[k as int].package));
        }
        k = k + 1;
    }
    proof {
        assert(entries@.take(n as int) =~= entries@);
    }
}

/// Reports whether some root entry is named `name`.
fn contains_root_name(roots: &Vec<PackageRoot>, name: &String) -> (res: bool)
    ensures
        res == root_names(roots@).contains(name@),
{
    let m = roots.len();
    let mut j: usize = 0;
    while j < m
        invariant
            0 <= j <= m,
            m == roots@.len(),
            forall|i: int| 0 <= i < j ==> (#[trigger] roots@[i]).name@ != name@,
        decreases m - j,
    {
        if roots[j].name == *name {
            assert(root_names(roots@)[j as int] == name@);
            return true;
        }
        j = j + 1;
    }
    proof {
        if root_names(roots@).contains(name@) {
            let i = choose|i: int| 0 <= i < root_names(roots@).len() && root_names(roots@)[i] == name@;
            assert(roots@[i].name@ == name@);
        }
    }
    false
}

/// Returns the first configured package name that is not a member.
#[verifier::loop_isolation(false)]
fn find_unknown(config: &Config, roots: &Vec<PackageRoot>, members: &Vec<MemberPackage>) -> (res: Option<String>)
    requires
        roots_of_members(roots@, members@),
    ensures
        res == first_unknown(configured_names(*config), members@),
{
    let mut names: Vec<String> = Vec::new();
    push_names(&mut names, &config.exclude_packages);
    push_entry_names(&mut names, &config.source_dirs);
    push_entry_names(&mut names, &config.threshold_exempt_files);
    assert(names@ =~= configured_names(*config));
    let n = names.len();
    let mut k: usize = 0;
    assert(names@.skip(0) =~= names@);
    while k < n
        invariant
            n == names@.len(),
            0 <= k <= n,
            first_unknown(names@, members@) == first_unknown(names@.skip(k as int), members@),
        decreases n - k,
    {
        assert(names@.skip(k as int)[0] == names@[k as int]);
        assert(names@.skip(k as int).drop_first() =~= names@.skip(k + 1));
        let found = contains_root_name(roots, &names[k]);
        if !found {
            return Some(names[k].clone());
        }
        k = k + 1;
    }
    None
}

/// Returns the first package name with configured paths that is not
/// selected.
#[verifier::loop_isolation(false)]
fn find_unselected(config: &Config, selected: &Vec<String>, members: &Vec<MemberPackage>, root_manifest: &PathParts) -> (res: Option<String>)
    requires
        selected_of(selected@, *config, members@, root_manifest@),
    ensures
        res == first_unselected(path_names(*config), *config, members@, root_manifest@),
{
    let mut names: Vec<String> = Vec::new();
    push_entry_names(&mut names, &config.source_dirs);
    push_entry_names(&mut names, &config.threshold_exempt_files);
    assert(names@ =~= path_names(*config));
    let n = names.len();
    let mut k: usize = 0;
    assert(names@.skip(0) =~= names@);
    while k < n
        invariant
            n == names@.len(),
            0 <= k <= n,
            first_unselected(names@, *config, members@, root_manifest@) == first_unselected(names@.skip(k as int), *config, members@, root_manifest@),
        decreases n - k,
    {
        assert(names@.skip(k as int)[0] == names@[k as int]);
        assert(names@.skip(k as int).drop_first() =~= names@.skip(k + 1));
        if !contains_string(selected, &names[k]) {
            return Some(names[k].clone());
        }
        k = k + 1;
    }
    None
}

/// Selects the packages in scope from the workspace members, in the order
/// of the metadata, and prepares the paths to resolve and the Cargo flags.
///
/// `root_manifest` is the canonical path of the project's `Cargo.toml`;
/// the `package` scope selects the member whose manifest it is.
#[verifier::loop_isolation(false)]
pub fn select_packages(config: &Config, members: &Vec<MemberPackage>, root_manifest: &PathParts) -> (res: Result<PackageSelection, CoverageError>)
    ensures
        match spec_selection_error(*config, members@, root_manifest@) {
            Some(e) => res == Err::<PackageSelection, CoverageError>(e),
            None => res matches Ok(sel) && {
                &&& roots_of_members(sel.package_roots@, members@)
                &&& selected_of(sel.selected@, *config, members@, root_manifest@)
                &&& request_views(sel.requests@) == spec_requests(*config, string_views(sel.selected@), members@)
                &&& string_views(sel.cargo_args@) == spec_cargo_args(*config, string_views(sel.selected@), root_names(sel.package_roots@))
            },
        },
{
    if members.len() > 0 {
        if let Some(s) = &config.scope {
            if !known_scope(s.as_str()) {
                return Err(CoverageError::UnknownScope(s.clone()));
            }
        }
    }
    proof {
        reveal_strlit("default-members");
        assert(spec_known_scope("default-members"@));
    }
    let (roots, selected) = collect_members(config, members, root_manifest);
    if let Some(name) = find_unknown(config, &roots, members) {
        return Err(CoverageError::UnknownPackage(name));
    }
    if let Some(name) = find_unselected(config, &selected, members, root_manifest) {
        return Err(CoverageError::UnselectedPackage(name));
    }
    if selected.len() == 0 {
        proof {
            if exists|k: int| 0 <= k < members@.len() && member_included(*config, #[trigger] members@[k], root_manifest@) {
                let k = choose|k: int| 0 <= k < members@.len() && member_included(*config, #[trigger] members@[k], root_manifest@);
                assert(is_selected_name(*config, members@, root_manifest@, members@[k].name@));
                assert(string_views(selected@).contains(members@[k].name@));
            }
        }
        return Err(CoverageError::NoPackagesSelected);
    }
    proof {
        assert(string_views(selected@)[0] == selected@[0]@);
        assert(string_views(selected@).contains(selected@[0]@));
        assert(is_selected_name(*config, members@, root_manifest@, selected@[0]@));
        assert forall|x: Seq<char>| string_views(selected@).contains(x) implies member_names(members@).contains(x) by {
            assert(is_selected_name(*config, members@, root_manifest@, x));
            let k = choose|k: int|
                0 <= k < members@.len() && (#[trigger] members@[k]).name@ == x && member_included(*config, members@[k], root_manifest@);
            assert(member_names(members@)[k] == x);
        }
    }
    let requests = build_requests(config, &roots, &selected, members);
    let cargo_args = build_cargo_args(config, &roots, &selected);
    Ok(PackageSelection { package_roots: roots, selected, requests, cargo_args })
}

} // verus!
