//! Resolution of a registry release and its required-dependency closure.
//!
//! The registry is read through a snapshot of the releases fetched so far.
//! When resolution needs a release that the snapshot lacks, it stops with
//! `ResolveError::NotFetched`; the caller fetches that release, adds it to the
//! snapshot and resolves again. Since resolution is a function of its inputs,
//! the same snapshot always gives the same result.
use vstd::prelude::*;

verus! {

/// How a release depends on another project.
#[derive(Debug, Clone, PartialEq, Eq)]
pub enum ModrinthApiDependencyType {
    Required,
    Optional,
}

/// One file attached to a release.
#[derive(Debug, Clone, PartialEq, Eq)]
pub struct ModrinthApiFile {
    pub url: String,
    pub filename: String,
    pub primary: bool,
}

/// One dependency edge of a release.
#[derive(Debug, Clone, PartialEq, Eq)]
pub struct ModrinthApiDependency {
    pub version_id: Option<String>,
    pub project_id: String,
    pub dependency_type: ModrinthApiDependencyType,
}

impl ModrinthApiDependency {
    /// Whether the edge is classified optional.
    pub fn optional(&self) -> (r: bool)
        ensures
            r == (self.dependency_type is Optional),
    {
        match self.dependency_type {
            ModrinthApiDependencyType::Optional => true,
            ModrinthApiDependencyType::Required => false,
        }
    }
}

/// A release record of the registry.
#[derive(Debug, Clone, PartialEq, Eq)]
pub struct ModrinthApiVersion {
    pub name: String,
    pub id: String,
    pub files: Vec<ModrinthApiFile>,
    pub dependencies: Vec<ModrinthApiDependency>,
}

/// What an override entry says of a dependency.
#[derive(Debug, Clone, PartialEq, Eq)]
pub enum ModrinthDepVersion {
    VersionId(String),
    Ignore(bool),
}

/// One override entry of the override table.
///
/// The entries whose `scope` is `s` form the override mapping `s`; `deps` is
/// the mapping that applies to the dependencies of the overridden release.
#[derive(Debug, Clone, PartialEq, Eq)]
pub struct ModrinthDep {
    pub scope: usize,
    pub project_id: String,
    pub version: ModrinthDepVersion,
    pub deps: Option<usize>,
}

/// All override mappings of one resolution, flattened into one table.
#[derive(Debug, Clone, PartialEq, Eq)]
pub struct OverrideTable {
    pub entries: Vec<ModrinthDep>,
}

impl OverrideTable {
    /// The table with no mapping.
    pub fn new() -> (r: OverrideTable)
        ensures
            r.entries@.len() == 0,
    {
        OverrideTable { entries: Vec::new() }
    }

    /// Adds to mapping `scope` the override of `project_id`.
    pub fn add(&mut self, scope: usize, project_id: String, version: ModrinthDepVersion, deps: Option<usize>)
        ensures
            final(self).entries@ == old(self).entries@.push(ModrinthDep { scope, project_id, version, deps }),
    {
        self.entries.push(ModrinthDep { scope, project_id, version, deps });
    }
}

/// What is done with one dependency edge.
#[derive(Debug, Clone, PartialEq, Eq)]
pub enum EdgeAction {
    /// The edge is discarded.
    Skip,
    /// The release `version_id` is resolved, its own edges under override
    /// mapping `scope` (`None`: the empty mapping).
    Fetch { version_id: String, scope: Option<usize> },
}

/// Why a resolution failed.
#[derive(Debug, Clone, PartialEq, Eq)]
pub enum ResolveError {
    /// A required edge names only a project, and no override names it.
    Unresolved { project_id: String },
    /// An override sets `ignore` to false, which has no meaning.
    IgnoreFalse { project_id: String },
    /// The snapshot lacks this release; fetch it and resolve again.
    NotFetched { version_id: String },
    /// The release has no file flagged primary.
    NoPrimaryArtifact { version_id: String },
    /// The dependency chain is deeper than the bound given.
    TooDeep { version_id: String },
}

/// The primary file of a resolved release.
#[derive(Debug, Clone, PartialEq, Eq)]
pub struct ResolvedJar {
    pub filename: String,
    pub url: String,
}

/// Index of the first entry of mapping `scope` that names `project`, or -1.
pub open spec fn first_override(entries: Seq<ModrinthDep>, scope: Option<usize>, project: Seq<char>, i: int) -> int
    decreases entries.len() - i,
{
    if i < 0 || i >= entries.len() {
        -1
    } else if scope == Some(entries[i].scope) && entries[i].project_id@ == project {
        i
    } else {
        first_override(entries, scope, project, i + 1)
    }
}

/// Index of the first release of the snapshot with identifier `id`, or -1.
pub open spec fn first_release(reg: Seq<ModrinthApiVersion>, id: Seq<char>, i: int) -> int
    decreases reg.len() - i,
{
    if i < 0 || i >= reg.len() {
        -1
    } else if reg[i].id@ == id {
        i
    } else {
        first_release(reg, id, i + 1)
    }
}

/// Index of the first file flagged primary, or -1.
pub open spec fn first_primary(files: Seq<ModrinthApiFile>, i: int) -> int
    decreases files.len() - i,
{
    if i < 0 || i >= files.len() {
        -1
    } else if files[i].primary {
        i
    } else {
        first_primary(files, i + 1)
    }
}

/// The decision on one dependency edge under override mapping `scope`.
pub open spec fn edge_step(dep: ModrinthApiDependency, entries: Seq<ModrinthDep>, scope: Option<usize>) -> Result<EdgeAction, ResolveError> {
    if dep.dependency_type is Optional {
        Ok(EdgeAction::Skip)
    } else {
        match dep.version_id {
            Some(v) => Ok(EdgeAction::Fetch { version_id: v, scope: None }),
            None => {
                let k = first_override(entries, scope, dep.project_id@, 0);
                if k < 0 {
                    Err(ResolveError::Unresolved { project_id: dep.project_id })
                } else {
                    match entries[k].version {
                        ModrinthDepVersion::VersionId(v) => Ok(EdgeAction::Fetch { version_id: v, scope: entries[k].deps }),
                        ModrinthDepVersion::Ignore(b) => if b {
                            Ok(EdgeAction::Skip)
                        } else {
                            Err(ResolveError::IgnoreFalse { project_id: dep.project_id })
                        },
                    }
                }
            },
        }
    }
}

/// The jar of a release: its first primary file.
pub open spec fn jar_of(v: ModrinthApiVersion) -> ResolvedJar {
    let f = v.files@[first_primary(v.files@, 0)];
    ResolvedJar { filename: f.filename, url: f.url }
}

/// Resolution of release `v`, appending to `acc`: the jars of its required
/// dependency closure, depth first in edge order, then its own jar.
pub open spec fn release_spec(
    reg: Seq<ModrinthApiVersion>,
    v: ModrinthApiVersion,
    entries: Seq<ModrinthDep>,
    scope: Option<usize>,
    fuel: nat,
    acc: Seq<ResolvedJar>,
) -> Result<Seq<ResolvedJar>, ResolveError>
    decreases fuel, 1nat, 0nat,
{
    if first_primary(v.files@, 0) < 0 {
        Err(ResolveError::NoPrimaryArtifact { version_id: v.id })
    } else {
        match edges_spec(reg, v, entries, scope, fuel, 0, acc) {
            Ok(a) => Ok(a.push(jar_of(v))),
            Err(e) => Err(e),
        }
    }
}

/// Resolution of the edges of `v` from edge `i` on, appending to `acc`.
pub open spec fn edges_spec(
    reg: Seq<ModrinthApiVersion>,
    v: ModrinthApiVersion,
    entries: Seq<ModrinthDep>,
    scope: Option<usize>,
    fuel: nat,
    i: nat,
    acc: Seq<ResolvedJar>,
) -> Result<Seq<ResolvedJar>, ResolveError>
    decreases fuel, 0nat, v.dependencies@.len() - i,
{
    if i >= v.dependencies@.len() {
        Ok(acc)
    } else {
        match edge_step(v.dependencies@[i as int], entries, scope) {
            Err(e) => Err(e),
            Ok(EdgeAction::Skip) => edges_spec(reg, v, entries, scope, fuel, i + 1, acc),
            Ok(EdgeAction::Fetch { version_id, scope: sc }) => {
                if fuel == 0 {
                    Err(ResolveError::TooDeep { version_id })
                } else {
                    let k = first_release(reg, version_id@, 0);
                    if k < 0 {
                        Err(ResolveError::NotFetched { version_id })
                    } else {
                        match release_spec(reg, reg[k], entries, sc, (fuel - 1) as nat, acc) {
                            Ok(a) => edges_spec(reg, v, entries, scope, fuel, i + 1, a),
                            Err(e) => Err(e),
                        }
                    }
                }
            },
        }
    }
}

proof fn lemma_first_primary_range(files: Seq<ModrinthApiFile>, i: int)
    requires
        0 <= i,
    ensures
        first_primary(files, i) == -1 || (i <= first_primary(files, i) < files.len() && files[first_primary(files, i)].primary),
    decreases files.len() - i,
{
    if i < files.len() && !files[i].primary {
        lemma_first_primary_range(files, i + 1);
    }
}

proof fn lemma_first_release_range(reg: Seq<ModrinthApiVersion>, id: Seq<char>, i: int)
    requires
        0 <= i,
    ensures
        first_release(reg, id, i) == -1 || (i <= first_release(reg, id, i) < reg.len() && reg[first_release(reg, id, i)].id@ == id),
    decreases reg.len() - i,
{
    if i < reg.len() && reg[i].id@ != id {
        lemma_first_release_range(reg, id, i + 1);
    }
}

proof fn lemma_first_override_range(entries: Seq<ModrinthDep>, scope: Option<usize>, project: Seq<char>, i: int)
    requires
        0 <= i,
    ensures
        first_override(entries, scope, project, i) == -1 || (i <= first_override(entries, scope, project, i) < entries.len()
            && scope == Some(entries[first_override(entries, scope, project, i)].scope)
            && entries[first_override(entries, scope, project, i)].project_id@ == project),
    decreases entries.len() - i,
{
    if i < entries.len() && !(scope == Some(entries[i].scope) && entries[i].project_id@ == project) {
        lemma_first_override_range(entries, scope, project, i + 1);
    }
}

/// Which release of a project a top-level mod asks for.
#[derive(Debug, Clone, PartialEq, Eq)]
pub enum ModrinthVersion {
    /// The release with this exact name.
    Version(String),
    /// The release with this exact identifier.
    VersionId(String),
}

/// Whether release `v` is the one that `sel` asks for.
pub open spec fn selects(sel: ModrinthVersion, v: ModrinthApiVersion) -> bool {
    match sel {
        ModrinthVersion::Version(n) => v.name@ == n@,
        ModrinthVersion::VersionId(id) => v.id@ == id@,
    }
}

/// Index of the first release of `versions` that `sel` asks for, or -1.
pub open spec fn first_selected(versions: Seq<ModrinthApiVersion>, sel: ModrinthVersion, i: int) -> int
    decreases versions.len() - i,
{
    if i < 0 || i >= versions.len() {
        -1
    } else if selects(sel, versions[i]) {
        i
    } else {
        first_selected(versions, sel, i + 1)
    }
}

proof fn lemma_first_selected_range(versions: Seq<ModrinthApiVersion>, sel: ModrinthVersion, i: int)
    requires
        0 <= i,
    ensures
        first_selected(versions, sel, i) == -1 || (i <= first_selected(versions, sel, i) < versions.len()
            && selects(sel, versions[first_selected(versions, sel, i)])),
    decreases versions.len() - i,
{
    if i < versions.len() && !selects(sel, versions[i]) {
        lemma_first_selected_range(versions, sel, i + 1);
    }
}

/// Picks, from a project's release listing, the release that `sel` asks for.
pub fn select_version(versions: &Vec<ModrinthApiVersion>, sel: &ModrinthVersion) -> (r: Option<usize>)
    ensures
        first_selected(versions@, *sel, 0) == match r {
            Some(k) => k as int,
            None => -1,
        },
        r is Some ==> r->Some_0 < versions@.len(),
{
    proof {
        lemma_first_selected_range(versions@, *sel, 0);
    }
    let mut i: usize = 0;
    while i < versions.len()
        invariant
            0 <= i <= versions@.len(),
            first_selected(versions@, *sel, 0) == first_selected(versions@, *sel, i as int),
        decreases versions@.len() - i,
    {
        let hit = match sel {
            ModrinthVersion::Version(n) => versions[i].name == *n,
            ModrinthVersion::VersionId(id) => versions[i].id == *id,
        };
        if hit {
            return Some(i);
        }
        i = i + 1;
    }
    None
}

/// Finds the override for `project` in mapping `scope`.
pub fn find_override(table: &OverrideTable, scope: Option<usize>, project: &String) -> (r: Option<usize>)
    ensures
        first_override(table.entries@, scope, project@, 0) == match r {
            Some(k) => k as int,
            None => -1,
        },
        r is Some ==> r->Some_0 < table.entries@.len(),
{
    proof {
        lemma_first_override_range(table.entries@, scope, project@, 0);
    }
    let mut i: usize = 0;
    while i < table.entries.len()
        invariant
            0 <= i <= table.entries@.len(),
            first_override(table.entries@, scope, project@, 0) == first_override(table.entries@, scope, project@, i as int),
        decreases table.entries@.len() - i,
    {
        let in_scope = match scope {
            Some(s) => table.entries[i].scope == s,
            None => false,
        };
        if in_scope && table.entries[i].project_id == *project {
            return Some(i);
        }
        i = i + 1;
    }
    None
}


/// Finds release `id` in the snapshot.
pub fn find_release(reg: &Vec<ModrinthApiVersion>, id: &String) -> (r: Option<usize>)
    ensures
        first_release(reg@, id@, 0) == match r {
            Some(k) => k as int,
            None => -1,
        },
        r is Some ==> r->Some_0 < reg@.len(),
{
    proof {
        lemma_first_release_range(reg@, id@, 0);
    }
    let mut i: usize = 0;
    while i < reg.len()
        invariant
            0 <= i <= reg@.len(),
            first_release(reg@, id@, 0) == first_release(reg@, id@, i as int),
        decreases reg@.len() - i,
    {
        if reg[i].id == *id {
            return Some(i);
        }
        i = i + 1;
    }
    None
}

/// Finds the primary file of a release.
pub fn find_primary(files: &Vec<ModrinthApiFile>) -> (r: Option<usize>)
    ensures
        first_primary(files@, 0) == match r {
            Some(k) => k as int,
            None => -1,
        },
        r is Some ==> r->Some_0 < files@.len(),
{
    proof {
        lemma_first_primary_range(files@, 0);
    }
    let mut i: usize = 0;
    while i < files.len()
        invariant
            0 <= i <= files@.len(),
            first_primary(files@, 0) == first_primary(files@, i as int),
        decreases files@.len() - i,
    {
        if files[i].primary {
            return Some(i);
        }
        i = i + 1;
    }
    None
}

/// Decides what is done with one dependency edge under override mapping `scope`.
pub fn classify_edge(dep: &ModrinthApiDependency, table: &OverrideTable, scope: Option<usize>) -> (r: Result<EdgeAction, ResolveError>)
    ensures
        r == edge_step(*dep, table.entries@, scope),
{
    if dep.optional() {
        return Ok(EdgeAction::Skip);
    }
    match &dep.version_id {
        Some(v) => Ok(EdgeAction::Fetch { version_id: v.clone(), scope: None }),
        None => match find_override(table, scope, &dep.project_id) {
            None => Err(ResolveError::Unresolved { project_id: dep.project_id.clone() }),
            Some(k) => match &table.entries[k].version {
                ModrinthDepVersion::VersionId(v) => Ok(EdgeAction::Fetch { version_id: v.clone(), scope: table.entries[k].deps }),
                ModrinthDepVersion::Ignore(b) => if *b {
                    Ok(EdgeAction::Skip)
                } else {
                    Err(ResolveError::IgnoreFalse { project_id: dep.project_id.clone() })
                },
            },
        },
    }
}

/// Resolves release `v` under override mapping `scope`, appending the jars of
/// its required-dependency closure and then its own jar to `out`.
/// A chain of more than `fuel` dependency edges fails with `TooDeep`.
pub fn resolve_release_into(
    reg: &Vec<ModrinthApiVersion>,
    v: &ModrinthApiVersion,
    table: &OverrideTable,
    scope: Option<usize>,
    fuel: usize,
    out: &mut Vec<ResolvedJar>,
) -> (r: Result<(), ResolveError>)
    ensures
        match release_spec(reg@, *v, table.entries@, scope, fuel as nat, old(out)@) {
            Ok(a) => r is Ok && final(out)@ == a,
            Err(e) => r == Err::<(), ResolveError>(e),
        },
    decreases fuel,
{
    let p = match find_primary(&v.files) {
        Some(p) => p,
        None => {
            return Err(ResolveError::NoPrimaryArtifact { version_id: v.id.clone() });
        },
    };
    let ghost acc0 = out@;
    let mut i: usize = 0;
    while i < v.dependencies.len()
        invariant
            0 <= i <= v.dependencies@.len(),
            first_primary(v.files@, 0) == p as int,
            p < v.files@.len(),
            acc0 == old(out)@,
            edges_spec(reg@, *v, table.entries@, scope, fuel as nat, 0, acc0)
                == edges_spec(reg@, *v, table.entries@, scope, fuel as nat, i as nat, out@),
        decreases v.dependencies@.len() - i,
    {
        match classify_edge(&v.dependencies[i], table, scope) {
            Err(e) => {
                return Err(e);
            },
            Ok(EdgeAction::Skip) => {},
            Ok(EdgeAction::Fetch { version_id, scope: sc }) => {
                if fuel == 0 {
                    return Err(ResolveError::TooDeep { version_id });
                }
                match find_release(reg, &version_id) {
                    None => {
                        return Err(ResolveError::NotFetched { version_id });
                    },
                    Some(k) => {
                        let res = resolve_release_into(reg, &reg[k], table, sc, fuel - 1, out);
                        if res.is_err() {
                            return res;
                        }
                    },
                }
            },
        }
        i = i + 1;
    }
    let jar = ResolvedJar { filename: v.files[p].filename.clone(), url: v.files[p].url.clone() };
    out.push(jar);
    Ok(())
}

/// Resolves release `v` and its required-dependency closure into the list of
/// jars to install, in installation order.
pub fn resolve(reg: &Vec<ModrinthApiVersion>, v: &ModrinthApiVersion, table: &OverrideTable, scope: Option<usize>, fuel: usize) -> (r: Result<Vec<ResolvedJar>, ResolveError>)
    ensures
        match release_spec(reg@, *v, table.entries@, scope, fuel as nat, Seq::empty()) {
            Ok(a) => r is Ok && r->Ok_0@ == a,
            Err(e) => r == Err::<Vec<ResolvedJar>, ResolveError>(e),
        },
{
    let mut out: Vec<ResolvedJar> = Vec::new();
    match resolve_release_into(reg, v, table, scope, fuel, &mut out) {
        Ok(()) => Ok(out),
        Err(e) => Err(e),
    }
}


/// An edge classified optional contributes nothing to a resolution: whatever
/// the override mapping says, resolving from that edge on gives what resolving
/// from the next edge gives.
pub proof fn lemma_optional_edge_excluded(
    reg: Seq<ModrinthApiVersion>,
    v: ModrinthApiVersion,
    entries: Seq<ModrinthDep>,
    scope: Option<usize>,
    fuel: nat,
    i: nat,
    acc: Seq<ResolvedJar>,
)
    requires
        i < v.dependencies@.len(),
        v.dependencies@[i as int].dependency_type is Optional,
    ensures
        edges_spec(reg, v, entries, scope, fuel, i, acc) == edges_spec(reg, v, entries, scope, fuel, i + 1, acc),
{
}

/// A required edge whose project the override mapping marks `ignore = true`
/// contributes nothing to a resolution.
pub proof fn lemma_ignored_edge_excluded(
    reg: Seq<ModrinthApiVersion>,
    v: ModrinthApiVersion,
    entries: Seq<ModrinthDep>,
    scope: Option<usize>,
    fuel: nat,
    i: nat,
    acc: Seq<ResolvedJar>,
)
    requires
        i < v.dependencies@.len(),
        v.dependencies@[i as int].version_id is None,
        first_override(entries, scope, v.dependencies@[i as int].project_id@, 0) >= 0,
        entries[first_override(entries, scope, v.dependencies@[i as int].project_id@, 0)].version
            == ModrinthDepVersion::Ignore(true),
    ensures
        edges_spec(reg, v, entries, scope, fuel, i, acc) == edges_spec(reg, v, entries, scope, fuel, i + 1, acc),
{
}

/// A required edge that names only a project, with no override for it in the
/// current mapping, makes the resolution fail with `Unresolved` for that
/// project, whatever was resolved before it.
pub proof fn lemma_unresolved_edge_fails(
    reg: Seq<ModrinthApiVersion>,
    v: ModrinthApiVersion,
    entries: Seq<ModrinthDep>,
    scope: Option<usize>,
    fuel: nat,
    i: nat,
    acc: Seq<ResolvedJar>,
)
    requires
        i < v.dependencies@.len(),
        v.dependencies@[i as int].dependency_type is Required,
        v.dependencies@[i as int].version_id is None,
        first_override(entries, scope, v.dependencies@[i as int].project_id@, 0) == -1,
    ensures
        edges_spec(reg, v, entries, scope, fuel, i, acc)
            == Err::<Seq<ResolvedJar>, ResolveError>(ResolveError::Unresolved { project_id: v.dependencies@[i as int].project_id }),
{
}


/// The required edges of `deps`, in order.
pub open spec fn required_edges(deps: Seq<ModrinthApiDependency>) -> Seq<ModrinthApiDependency>
    decreases deps.len(),
{
    if deps.len() == 0 {
        deps
    } else if deps[0].dependency_type is Optional {
        required_edges(deps.drop_first())
    } else {
        seq![deps[0]] + required_edges(deps.drop_first())
    }
}

proof fn lemma_edges_same_required(
    reg: Seq<ModrinthApiVersion>,
    v: ModrinthApiVersion,
    w: ModrinthApiVersion,
    entries: Seq<ModrinthDep>,
    scope: Option<usize>,
    fuel: nat,
    i: nat,
    j: nat,
    acc: Seq<ResolvedJar>,
)
    requires
        i <= v.dependencies@.len(),
        j <= w.dependencies@.len(),
        required_edges(v.dependencies@.subrange(i as int, v.dependencies@.len() as int))
            == required_edges(w.dependencies@.subrange(j as int, w.dependencies@.len() as int)),
    ensures
        edges_spec(reg, v, entries, scope, fuel, i, acc) == edges_spec(reg, w, entries, scope, fuel, j, acc),
    decreases v.dependencies@.len() - i + w.dependencies@.len() - j,
{
    let vs = v.dependencies@.subrange(i as int, v.dependencies@.len() as int);
    let ws = w.dependencies@.subrange(j as int, w.dependencies@.len() as int);
    if i < v.dependencies@.len() && v.dependencies@[i as int].dependency_type is Optional {
        assert(vs.drop_first() =~= v.dependencies@.subrange((i + 1) as int, v.dependencies@.len() as int));
        assert(vs[0] == v.dependencies@[i as int]);
        lemma_edges_same_required(reg, v, w, entries, scope, fuel, i + 1, j, acc);
    } else if j < w.dependencies@.len() && w.dependencies@[j as int].dependency_type is Optional {
        assert(ws.drop_first() =~= w.dependencies@.subrange((j + 1) as int, w.dependencies@.len() as int));
        assert(ws[0] == w.dependencies@[j as int]);
        lemma_edges_same_required(reg, v, w, entries, scope, fuel, i, j + 1, acc);
    } else if i < v.dependencies@.len() && j < w.dependencies@.len() {
        assert(vs.drop_first() =~= v.dependencies@.subrange((i + 1) as int, v.dependencies@.len() as int));
        assert(ws.drop_first() =~= w.dependencies@.subrange((j + 1) as int, w.dependencies@.len() as int));
        assert(vs[0] == v.dependencies@[i as int]);
        assert(ws[0] == w.dependencies@[j as int]);
        let rv = required_edges(vs);
        let rw = required_edges(ws);
        assert(rv[0] == vs[0]);
        assert(rw[0] == ws[0]);
        assert(rv.drop_first() =~= required_edges(vs.drop_first()));
        assert(rw.drop_first() =~= required_edges(ws.drop_first()));
        let d = v.dependencies@[i as int];
        match edge_step(d, entries, scope) {
            Err(e) => {},
            Ok(EdgeAction::Skip) => {
                lemma_edges_same_required(reg, v, w, entries, scope, fuel, i + 1, j + 1, acc);
            },
            Ok(EdgeAction::Fetch { version_id, scope: sc }) => {
                if fuel > 0 {
                    let k = first_release(reg, version_id@, 0);
                    if k >= 0 {
                        match release_spec(reg, reg[k], entries, sc, (fuel - 1) as nat, acc) {
                            Ok(a) => {
                                lemma_edges_same_required(reg, v, w, entries, scope, fuel, i + 1, j + 1, a);
                            },
                            Err(e) => {},
                        }
                    }
                }
            },
        }
    } else if i < v.dependencies@.len() {
        assert(vs[0] == v.dependencies@[i as int]);
        assert(required_edges(vs).len() > 0);
        assert(ws.len() == 0);
    } else if j < w.dependencies@.len() {
        assert(ws[0] == w.dependencies@[j as int]);
        assert(required_edges(ws).len() > 0);
        assert(vs.len() == 0);
    }
}

/// The resolution of a release does not depend on its optional edges: two
/// releases with the same identifier, the same files and the same required
/// edges in the same order resolve alike, whatever optional edges either has.
pub proof fn lemma_optional_edges_irrelevant(
    reg: Seq<ModrinthApiVersion>,
    v: ModrinthApiVersion,
    w: ModrinthApiVersion,
    entries: Seq<ModrinthDep>,
    scope: Option<usize>,
    fuel: nat,
    acc: Seq<ResolvedJar>,
)
    requires
        v.id == w.id,
        v.files@ == w.files@,
        required_edges(v.dependencies@) == required_edges(w.dependencies@),
    ensures
        release_spec(reg, v, entries, scope, fuel, acc) == release_spec(reg, w, entries, scope, fuel, acc),
{
    assert(v.dependencies@.subrange(0, v.dependencies@.len() as int) =~= v.dependencies@);
    assert(w.dependencies@.subrange(0, w.dependencies@.len() as int) =~= w.dependencies@);
    lemma_edges_same_required(reg, v, w, entries, scope, fuel, 0, 0, acc);
}

}
