//! Projects and how they depend on one another.
//!
//! A project is described by its `toylang.toml`. [`resolve_dep_graph`] puts a
//! project and all that it depends on in order, from what has been read so
//! far; where something has not been read yet, it says what to read.
use crate::names::{find, NameMap};
use crate::text::{duplicate_all, owned, same_text, views, Duplicate};
use vstd::prelude::*;
use vstd::string::*;

verus! {

broadcast use {vstd::seq::group_seq_axioms, vstd::std_specs::vec::group_vec_axioms};

/// What a `toylang.toml` says.
#[derive(Debug, PartialEq)]
pub struct Manifest {
    pub project: Project,
    pub rust_dependencies: NameMap<DepSpec>,
    /// The other toylang projects that this one depends on, by their names.
    pub toylang_dependencies: NameMap<ToylangDepSpec>,
}

/// The project itself.
#[derive(Debug, PartialEq)]
pub struct Project {
    pub name: String,
    pub source: String,
    pub edition: String,
    pub features: Vec<String>,
    /// A Rust source file that has the `main` of the binary, if there is one.
    pub rust_caller: Option<String>,
}

/// A dependency on a Rust crate.
#[derive(Debug, PartialEq)]
pub enum DepSpec {
    Version(String),
    /// A crate in another directory.
    Path { path: String },
    Detailed { version: String, features: Vec<String>, default_features: Option<bool> },
}

/// A dependency on another toylang project.
#[derive(Debug, PartialEq)]
pub struct ToylangDepSpec {
    pub path: String,
}

/// The edition of a project that names none.
pub fn default_edition() -> (r: String)
    ensures
        r@ == "2021"@,
{
    owned("2021")
}

/// What a [`Project`] says.
pub struct ProjectView {
    pub name: Seq<char>,
    pub source: Seq<char>,
    pub edition: Seq<char>,
    pub features: Seq<Seq<char>>,
    pub rust_caller: Option<Seq<char>>,
}

/// What a [`DepSpec`] says.
pub enum DepSpecView {
    Version(Seq<char>),
    Path { path: Seq<char> },
    Detailed { version: Seq<char>, features: Seq<Seq<char>>, default_features: Option<bool> },
}

/// What a [`ToylangDepSpec`] says.
pub struct ToylangDepSpecView {
    pub path: Seq<char>,
}

/// What a [`Manifest`] says.
pub struct ManifestView {
    pub project: ProjectView,
    pub rust_dependencies: Seq<(Seq<char>, DepSpecView)>,
    pub toylang_dependencies: Seq<(Seq<char>, ToylangDepSpecView)>,
}

impl View for Project {
    type V = ProjectView;

    open spec fn view(&self) -> ProjectView {
        ProjectView {
            name: self.name@,
            source: self.source@,
            edition: self.edition@,
            features: views(self.features@),
            rust_caller: match self.rust_caller {
                Some(s) => Some(s@),
                None => None,
            },
        }
    }
}

impl View for DepSpec {
    type V = DepSpecView;

    open spec fn view(&self) -> DepSpecView {
        match self {
            DepSpec::Version(v) => DepSpecView::Version(v@),
            DepSpec::Path { path } => DepSpecView::Path { path: path@ },
            DepSpec::Detailed { version, features, default_features } => DepSpecView::Detailed {
                version: version@,
                features: views(features@),
                default_features: *default_features,
            },
        }
    }
}

impl View for ToylangDepSpec {
    type V = ToylangDepSpecView;

    open spec fn view(&self) -> ToylangDepSpecView {
        ToylangDepSpecView { path: self.path@ }
    }
}

impl View for Manifest {
    type V = ManifestView;

    open spec fn view(&self) -> ManifestView {
        ManifestView {
            project: self.project@,
            rust_dependencies: self.rust_dependencies@,
            toylang_dependencies: self.toylang_dependencies@,
        }
    }
}

impl Duplicate for Project {
    fn duplicate(&self) -> (r: Self) {
        Project {
            name: self.name.clone(),
            source: self.source.clone(),
            edition: self.edition.clone(),
            features: duplicate_all(&self.features),
            rust_caller: match &self.rust_caller {
                Some(s) => Some(s.clone()),
                None => None,
            },
        }
    }
}

impl Duplicate for DepSpec {
    fn duplicate(&self) -> (r: Self) {
        match self {
            DepSpec::Version(v) => DepSpec::Version(v.clone()),
            DepSpec::Path { path } => DepSpec::Path { path: path.clone() },
            DepSpec::Detailed { version, features, default_features } => DepSpec::Detailed {
                version: version.clone(),
                features: duplicate_all(features),
                default_features: *default_features,
            },
        }
    }
}

impl Duplicate for ToylangDepSpec {
    fn duplicate(&self) -> (r: Self) {
        ToylangDepSpec { path: self.path.clone() }
    }
}

impl Duplicate for Manifest {
    fn duplicate(&self) -> (r: Self) {
        Manifest {
            project: self.project.duplicate(),
            rust_dependencies: self.rust_dependencies.duplicate(),
            toylang_dependencies: self.toylang_dependencies.duplicate(),
        }
    }
}

/// A project in its place among those that it depends on.
#[derive(Debug, PartialEq)]
pub struct ResolvedProject {
    pub manifest: Manifest,
    /// Where the `toylang.toml` is.
    pub manifest_path: String,
    /// The directory that holds it.
    pub project_dir: String,
    /// The names of the toylang projects that it depends on.
    pub toylang_dep_names: Vec<String>,
}

/// What a [`ResolvedProject`] says.
pub struct ResolvedProjectView {
    pub manifest: ManifestView,
    pub manifest_path: Seq<char>,
    pub project_dir: Seq<char>,
    pub toylang_dep_names: Seq<Seq<char>>,
}

impl View for ResolvedProject {
    type V = ResolvedProjectView;

    open spec fn view(&self) -> ResolvedProjectView {
        ResolvedProjectView {
            manifest: self.manifest@,
            manifest_path: self.manifest_path@,
            project_dir: self.project_dir@,
            toylang_dep_names: views(self.toylang_dep_names@),
        }
    }
}

/// What has been read of a project.
#[derive(Debug, PartialEq)]
pub struct LoadedProject {
    pub manifest: Manifest,
    pub project_dir: String,
    /// Where the manifests of its dependencies are, by their names, as far as
    /// that has been found out. There is one way to write each place.
    pub dep_paths: NameMap<String>,
}

/// What a [`LoadedProject`] says.
pub struct LoadedView {
    pub manifest: ManifestView,
    pub project_dir: Seq<char>,
    pub dep_paths: Seq<(Seq<char>, Seq<char>)>,
}

impl View for LoadedProject {
    type V = LoadedView;

    open spec fn view(&self) -> LoadedView {
        LoadedView {
            manifest: self.manifest@,
            project_dir: self.project_dir@,
            dep_paths: self.dep_paths@,
        }
    }
}

/// Why a project has no order, or none yet.
#[derive(Debug, PartialEq)]
pub enum GraphStop {
    /// The manifest there has to be read.
    ReadManifest { path: String },
    /// The place of a dependency has to be found out.
    LocateDep { path: String, dep: String },
    /// Projects depend on one another in a circle.
    Cycle { chain: Vec<String> },
    /// A dependency goes by another name than its own.
    NameMismatch { key: String, name: String, path: String },
    /// Two projects have the same name.
    SharedName { name: String, first: String, second: String },
}

/// What a [`GraphStop`] says.
pub enum GraphStopView {
    ReadManifest { path: Seq<char> },
    LocateDep { path: Seq<char>, dep: Seq<char> },
    Cycle { chain: Seq<Seq<char>> },
    NameMismatch { key: Seq<char>, name: Seq<char>, path: Seq<char> },
    SharedName { name: Seq<char>, first: Seq<char>, second: Seq<char> },
}

impl View for GraphStop {
    type V = GraphStopView;

    open spec fn view(&self) -> GraphStopView {
        match self {
            GraphStop::ReadManifest { path } => GraphStopView::ReadManifest { path: path@ },
            GraphStop::LocateDep { path, dep } => GraphStopView::LocateDep {
                path: path@,
                dep: dep@,
            },
            GraphStop::Cycle { chain } => GraphStopView::Cycle { chain: views(chain@) },
            GraphStop::NameMismatch { key, name, path } => GraphStopView::NameMismatch {
                key: key@,
                name: name@,
                path: path@,
            },
            GraphStop::SharedName { name, first, second } => GraphStopView::SharedName {
                name: name@,
                first: first@,
                second: second@,
            },
        }
    }
}

/// Text with an arrow between the parts.
pub open spec fn arrows(parts: Seq<Seq<char>>) -> Seq<char>
    decreases parts.len(),
{
    if parts.len() == 0 {
        Seq::empty()
    } else if parts.len() == 1 {
        parts[0]
    } else {
        arrows(parts.drop_last()) + " -> "@ + parts.last()
    }
}

/// How a stop reads.
pub open spec fn stop_text(e: GraphStopView) -> Seq<char> {
    match e {
        GraphStopView::ReadManifest { path } => "manifest to be read: "@ + path,
        GraphStopView::LocateDep { path, dep } => "toylang dependency '"@ + dep
            + "' to be located for "@ + path,
        GraphStopView::Cycle { chain } => "toylang dependency cycle: "@ + arrows(chain),
        GraphStopView::NameMismatch { key, name, path } => "toylang-dependency key '"@ + key
            + "' does not match its [project].name '"@ + name + "' at "@ + path,
        GraphStopView::SharedName { name, first, second } =>
            "two distinct toylang projects share the name '"@ + name + "': "@ + first + " and "@
            + second,
    }
}

impl GraphStop {
    /// How the stop reads.
    pub fn to_text(&self) -> (r: String)
        ensures
            r@ == stop_text(self@),
    {
        match self {
            GraphStop::ReadManifest { path } => {
                let mut s = owned("manifest to be read: ");
                s.append(path);
                s
            },
            GraphStop::LocateDep { path, dep } => {
                let mut s = owned("toylang dependency '");
                s.append(dep);
                s.append("' to be located for ");
                s.append(path);
                s
            },
            GraphStop::Cycle { chain } => {
                let mut s = owned("toylang dependency cycle: ");
                let joined = join_arrows(chain);
                s.append(&joined);
                s
            },
            GraphStop::NameMismatch { key, name, path } => {
                let mut s = owned("toylang-dependency key '");
                s.append(key);
                s.append("' does not match its [project].name '");
                s.append(name);
                s.append("' at ");
                s.append(path);
                s
            },
            GraphStop::SharedName { name, first, second } => {
                let mut s = owned("two distinct toylang projects share the name '");
                s.append(name);
                s.append("': ");
                s.append(first);
                s.append(" and ");
                s.append(second);
                s
            },
        }
    }
}

fn join_arrows(parts: &Vec<String>) -> (r: String)
    ensures
        r@ == arrows(views(parts@)),
{
    let ghost all = views(parts@);
    let mut s = String::new();
    let mut i: usize = 0;
    assert(all.take(0) =~= Seq::empty());
    while i < parts.len()
        invariant
            i <= parts@.len(),
            all == views(parts@),
            s@ == arrows(all.take(i as int)),
        decreases parts@.len() - i,
    {
        assert(all.take(i + 1).drop_last() =~= all.take(i as int));
        assert(all.take(i + 1).last() == parts@[i as int]@);
        if i > 0 {
            s.append(" -> ");
        }
        s.append(&parts[i]);
        assert(s@ =~= arrows(all.take(i + 1)));
        i += 1;
    }
    assert(all.take(parts@.len() as int) =~= all);
    s
}

/// The project whose manifest is there.
pub open spec fn project_at(done: Seq<ResolvedProjectView>, path: Seq<char>) -> Option<
    ResolvedProjectView,
>
    decreases done.len(),
{
    if done.len() == 0 {
        None
    } else if done.last().manifest_path == path {
        Some(done.last())
    } else {
        project_at(done.drop_last(), path)
    }
}

/// How many of the projects that have been read are not among `visiting`.
pub open spec fn unvisited(
    loaded: Seq<(Seq<char>, LoadedView)>,
    visiting: Seq<Seq<char>>,
) -> nat
    decreases loaded.len(),
{
    if loaded.len() == 0 {
        0
    } else {
        unvisited(loaded.drop_first(), visiting) + if visiting.contains(loaded[0].0) {
            0nat
        } else {
            1nat
        }
    }
}

/// A project that is entered is no longer among those that are not.
pub proof fn lemma_unvisited_drops(
    loaded: Seq<(Seq<char>, LoadedView)>,
    visiting: Seq<Seq<char>>,
    path: Seq<char>,
)
    ensures
        unvisited(loaded, visiting.push(path)) <= unvisited(loaded, visiting),
        find(loaded, path) is Some && !visiting.contains(path) ==> unvisited(
            loaded,
            visiting.push(path),
        ) < unvisited(loaded, visiting),
    decreases loaded.len(),
{
    assert(visiting.push(path).contains(path)) by {
        assert(visiting.push(path).last() == path);
        assert(visiting.push(path)[visiting.len() as int] == path);
    }
    assert forall|s: Seq<char>| visiting.contains(s) implies visiting.push(path).contains(s) by {
        let k = choose|k: int| 0 <= k < visiting.len() && visiting[k] == s;
        assert(visiting.push(path)[k] == s);
    }
    assert forall|s: Seq<char>| visiting.push(path).contains(s) && s != path implies visiting.contains(
        s,
    ) by {
        let k = choose|k: int| 0 <= k < visiting.push(path).len() && visiting.push(path)[k] == s;
        assert(visiting[k] == s);
    }
    if loaded.len() > 0 {
        lemma_unvisited_drops(loaded.drop_first(), visiting, path);
    }
}

/// Puts a project behind those that it depends on, unless it has its place
/// already. `visiting` are the projects on the way to it.
pub open spec fn visit(
    path: Seq<char>,
    done: Seq<ResolvedProjectView>,
    visiting: Seq<Seq<char>>,
    loaded: Seq<(Seq<char>, LoadedView)>,
) -> Result<Seq<ResolvedProjectView>, GraphStopView>
    decreases unvisited(loaded, visiting), 1int, 0nat,
{
    if project_at(done, path) is Some {
        Ok(done)
    } else if visiting.contains(path) {
        Err(GraphStopView::Cycle { chain: visiting.push(path) })
    } else {
        match find(loaded, path) {
            None => Err(GraphStopView::ReadManifest { path }),
            Some(p) => {
                proof {
                    lemma_unvisited_drops(loaded, visiting, path);
                }
                match visit_deps(
                    p.manifest.toylang_dependencies,
                    path,
                    p,
                    done,
                    visiting.push(path),
                    loaded,
                ) {
                    Err(e) => Err(e),
                    Ok((before, names)) => Ok(
                        before.push(
                            ResolvedProjectView {
                                manifest: p.manifest,
                                manifest_path: path,
                                project_dir: p.project_dir,
                                toylang_dep_names: names,
                            },
                        ),
                    ),
                }
            },
        }
    }
}

/// Gives dependencies of a project their places, and their names.
pub open spec fn visit_deps(
    deps: Seq<(Seq<char>, ToylangDepSpecView)>,
    path: Seq<char>,
    p: LoadedView,
    done: Seq<ResolvedProjectView>,
    visiting: Seq<Seq<char>>,
    loaded: Seq<(Seq<char>, LoadedView)>,
) -> Result<(Seq<ResolvedProjectView>, Seq<Seq<char>>), GraphStopView>
    decreases unvisited(loaded, visiting), 2int, deps.len(),
{
    if deps.len() == 0 {
        Ok((done, Seq::empty()))
    } else {
        let name = deps[0].0;
        match find(p.dep_paths, name) {
            None => Err(GraphStopView::LocateDep { path, dep: name }),
            Some(place) => match visit(place, done, visiting, loaded) {
                Err(e) => Err(e),
                Ok(after) => match project_at(after, place) {
                    None => arbitrary(),
                    Some(dep) => if dep.manifest.project.name != name {
                        Err(
                            GraphStopView::NameMismatch {
                                key: name,
                                name: dep.manifest.project.name,
                                path: place,
                            },
                        )
                    } else {
                        match visit_deps(
                            deps.drop_first(),
                            path,
                            p,
                            after,
                            visiting,
                            loaded,
                        ) {
                            Err(e) => Err(e),
                            Ok((last, names)) => Ok((last, seq![name] + names)),
                        }
                    },
                },
            },
        }
    }
}

/// The project of that name.
pub open spec fn project_named(done: Seq<ResolvedProjectView>, name: Seq<char>) -> Option<
    ResolvedProjectView,
>
    decreases done.len(),
{
    if done.len() == 0 {
        None
    } else if done.last().manifest.project.name == name {
        Some(done.last())
    } else {
        project_named(done.drop_last(), name)
    }
}

/// The first project that has the name of an earlier one: the name, and where
/// the two are.
pub open spec fn shared_name(done: Seq<ResolvedProjectView>) -> Option<GraphStopView>
    decreases done.len(),
{
    if done.len() == 0 {
        None
    } else {
        match shared_name(done.drop_last()) {
            Some(e) => Some(e),
            None => {
                let name = done.last().manifest.project.name;
                match project_named(done.drop_last(), name) {
                    Some(first) => Some(
                        GraphStopView::SharedName {
                            name,
                            first: first.manifest_path,
                            second: done.last().manifest_path,
                        },
                    ),
                    None => None,
                }
            },
        }
    }
}

/// A project and all that it depends on, in order.
pub open spec fn dep_graph(root: Seq<char>, loaded: Seq<(Seq<char>, LoadedView)>) -> Result<
    Seq<ResolvedProjectView>,
    GraphStopView,
> {
    match visit(root, Seq::empty(), Seq::empty(), loaded) {
        Err(e) => Err(e),
        Ok(done) => match shared_name(done) {
            Some(e) => Err(e),
            None => Ok(done),
        },
    }
}

/// Whether projects have their places behind those that they depend on: each
/// name that one depends on is that of an earlier one.
pub open spec fn in_order(done: Seq<ResolvedProjectView>) -> bool {
    forall|i: int, k: int|
        0 <= i < done.len() && 0 <= k < done[i].toylang_dep_names.len() ==> is_before(
            done,
            i,
            #[trigger] done[i].toylang_dep_names[k],
        )
}

/// Whether one of the first `i` projects has the name.
pub open spec fn is_before(done: Seq<ResolvedProjectView>, i: int, name: Seq<char>) -> bool {
    exists|j: int| 0 <= j < i && (#[trigger] done[j]).manifest.project.name == name
}

/// Whether the projects are at different places.
pub open spec fn places_differ(done: Seq<ResolvedProjectView>) -> bool {
    forall|i: int, j: int|
        0 <= i < j < done.len() ==> (#[trigger] done[i]).manifest_path != (
        #[trigger] done[j]).manifest_path
}

/// Whether the projects have different names.
pub open spec fn names_differ(done: Seq<ResolvedProjectView>) -> bool {
    forall|i: int, j: int|
        0 <= i < j < done.len() ==> (#[trigger] done[i]).manifest.project.name != (
        #[trigger] done[j]).manifest.project.name
}

proof fn lemma_project_at(done: Seq<ResolvedProjectView>, path: Seq<char>)
    ensures
        project_at(done, path) matches Some(p) ==> exists|i: int|
            0 <= i < done.len() && #[trigger] done[i] == p && p.manifest_path == path,
        project_at(done, path) is None ==> forall|i: int|
            0 <= i < done.len() ==> (#[trigger] done[i]).manifest_path != path,
    decreases done.len(),
{
    if done.len() > 0 {
        lemma_project_at(done.drop_last(), path);
        if done.last().manifest_path != path {
            match project_at(done.drop_last(), path) {
                Some(p) => {
                    let i = choose|i: int|
                        0 <= i < done.drop_last().len() && #[trigger] done.drop_last()[i] == p;
                    assert(done[i] == p);
                },
                None => {
                    assert forall|i: int| 0 <= i < done.len() implies (
                    #[trigger] done[i]).manifest_path != path by {
                        if i < done.len() - 1 {
                            assert(done.drop_last()[i] == done[i]);
                        }
                    }
                },
            }
        } else {
            assert(done[done.len() - 1] == done.last());
        }
    }
}

/// What a visit keeps and adds: the order stays, everything that had a place
/// keeps it, and the project that was visited has one, at the end if it is new.
proof fn lemma_visit(
    path: Seq<char>,
    done: Seq<ResolvedProjectView>,
    visiting: Seq<Seq<char>>,
    loaded: Seq<(Seq<char>, LoadedView)>,
)
    requires
        in_order(done),
        places_differ(done),
        forall|i: int| 0 <= i < done.len() ==> !visiting.contains((#[trigger] done[i]).manifest_path),
        visit(path, done, visiting, loaded) is Ok,
    ensures
        ({
            let after = visit(path, done, visiting, loaded)->Ok_0;
            &&& in_order(after)
            &&& places_differ(after)
            &&& after.len() >= done.len()
            &&& after.take(done.len() as int) == done
            &&& project_at(after, path) is Some
            &&& project_at(done, path) is None ==> after.len() > 0 && after.last().manifest_path
                == path
            &&& forall|i: int|
                0 <= i < after.len() ==> !visiting.contains((#[trigger] after[i]).manifest_path)
        }),
    decreases unvisited(loaded, visiting), 1int, 0nat,
{
    let after = visit(path, done, visiting, loaded)->Ok_0;
    if project_at(done, path) is Some {
        assert(done.take(done.len() as int) =~= done);
    } else {
        let p = find(loaded, path)->Some_0;
        lemma_unvisited_drops(loaded, visiting, path);
        let inner = visiting.push(path);
        lemma_project_at(done, path);
        assert forall|i: int| 0 <= i < done.len() implies !inner.contains(
            (#[trigger] done[i]).manifest_path,
        ) by {
            lemma_push_contains(visiting, path, done[i].manifest_path);
        }
        lemma_visit_deps(p.manifest.toylang_dependencies, path, p, done, inner, loaded);
        let (before, names) = visit_deps(
            p.manifest.toylang_dependencies,
            path,
            p,
            done,
            inner,
            loaded,
        )->Ok_0;
        assert(after.take(done.len() as int) =~= before.take(done.len() as int));
        assert(after.last().manifest_path == path);
        lemma_push_contains(visiting, path, path);
        assert forall|i: int, j: int| 0 <= i < j < after.len() implies (
        #[trigger] after[i]).manifest_path != (#[trigger] after[j]).manifest_path by {
            if j < before.len() {
                assert(before[i].manifest_path != before[j].manifest_path);
            } else {
                assert(!inner.contains(before[i].manifest_path));
            }
        }
        assert forall|i: int| 0 <= i < after.len() implies !visiting.contains(
            (#[trigger] after[i]).manifest_path,
        ) by {
            if i < before.len() {
                assert(!inner.contains(before[i].manifest_path));
                lemma_push_contains(visiting, path, before[i].manifest_path);
            }
        }
        assert forall|i: int, k: int|
            0 <= i < after.len() && 0 <= k < after[i].toylang_dep_names.len() implies is_before(
            after,
            i,
            #[trigger] after[i].toylang_dep_names[k],
        ) by {
            let name = after[i].toylang_dep_names[k];
            if i < before.len() {
                assert(is_before(before, i, before[i].toylang_dep_names[k]));
                let j = choose|j: int|
                    0 <= j < i && (#[trigger] before[j]).manifest.project.name == name;
                assert(after[j].manifest.project.name == name);
            } else {
                assert(is_before(before, before.len() as int, names[k]));
                let j = choose|j: int|
                    0 <= j < before.len() && (#[trigger] before[j]).manifest.project.name == name;
                assert(after[j].manifest.project.name == name);
            }
        }
    }
}

proof fn lemma_push_contains(s: Seq<Seq<char>>, x: Seq<char>, y: Seq<char>)
    ensures
        s.push(x).contains(y) <==> s.contains(y) || y == x,
{
    assert(s.push(x)[s.len() as int] == x);
    if s.contains(y) {
        let k = choose|k: int| 0 <= k < s.len() && s[k] == y;
        assert(s.push(x)[k] == y);
    }
    if s.push(x).contains(y) && y != x {
        let k = choose|k: int| 0 <= k < s.push(x).len() && s.push(x)[k] == y;
        assert(s[k] == y);
    }
}

proof fn lemma_visit_deps(
    deps: Seq<(Seq<char>, ToylangDepSpecView)>,
    path: Seq<char>,
    p: LoadedView,
    done: Seq<ResolvedProjectView>,
    visiting: Seq<Seq<char>>,
    loaded: Seq<(Seq<char>, LoadedView)>,
)
    requires
        in_order(done),
        places_differ(done),
        forall|i: int| 0 <= i < done.len() ==> !visiting.contains((#[trigger] done[i]).manifest_path),
        visit_deps(deps, path, p, done, visiting, loaded) is Ok,
    ensures
        ({
            let (after, names) = visit_deps(deps, path, p, done, visiting, loaded)->Ok_0;
            &&& in_order(after)
            &&& places_differ(after)
            &&& after.len() >= done.len()
            &&& after.take(done.len() as int) == done
            &&& names.len() == deps.len()
            &&& forall|k: int|
                0 <= k < names.len() ==> names[k] == deps[k].0 && is_before(
                    after,
                    after.len() as int,
                    #[trigger] names[k],
                )
            &&& forall|i: int|
                0 <= i < after.len() ==> !visiting.contains((#[trigger] after[i]).manifest_path)
        }),
    decreases unvisited(loaded, visiting), 2int, deps.len(),
{
    if deps.len() == 0 {
        assert(done.take(done.len() as int) =~= done);
    } else {
        let name = deps[0].0;
        let place = find(p.dep_paths, name)->Some_0;
        lemma_visit(place, done, visiting, loaded);
        let middle = visit(place, done, visiting, loaded)->Ok_0;
        lemma_project_at(middle, place);
        lemma_visit_deps(deps.drop_first(), path, p, middle, visiting, loaded);
        let (after, names) = visit_deps(deps, path, p, done, visiting, loaded)->Ok_0;
        let rest = visit_deps(deps.drop_first(), path, p, middle, visiting, loaded)->Ok_0.1;
        assert(after.take(done.len() as int) =~= after.take(middle.len() as int).take(
            done.len() as int,
        ));
        assert forall|k: int| 0 <= k < names.len() implies names[k] == deps[k].0 && is_before(
            after,
            after.len() as int,
            #[trigger] names[k],
        ) by {
            if k == 0 {
                let j = choose|j: int|
                    0 <= j < middle.len() && #[trigger] middle[j] == project_at(
                        middle,
                        place,
                    )->Some_0;
                assert(after.take(middle.len() as int)[j] == after[j]);
                assert(after[j].manifest.project.name == name);
            } else {
                assert(names[k] == rest[k - 1]);
                assert(is_before(after, after.len() as int, rest[k - 1]));
            }
        }
    }
}

proof fn lemma_names_differ(done: Seq<ResolvedProjectView>)
    requires
        shared_name(done) is None,
    ensures
        names_differ(done),
    decreases done.len(),
{
    if done.len() > 0 {
        let before = done.drop_last();
        lemma_names_differ(before);
        lemma_named_none(before, done.last().manifest.project.name);
        assert forall|i: int, j: int| 0 <= i < j < done.len() implies (
        #[trigger] done[i]).manifest.project.name != (
        #[trigger] done[j]).manifest.project.name by {
            assert(before[i] == done[i]);
            if j < before.len() {
                assert(before[j] == done[j]);
            }
        }
    }
}

proof fn lemma_named_none(done: Seq<ResolvedProjectView>, name: Seq<char>)
    requires
        project_named(done, name) is None,
    ensures
        forall|i: int| 0 <= i < done.len() ==> (#[trigger] done[i]).manifest.project.name != name,
    decreases done.len(),
{
    if done.len() > 0 {
        lemma_named_none(done.drop_last(), name);
        assert forall|i: int| 0 <= i < done.len() implies (
        #[trigger] done[i]).manifest.project.name != name by {
            if i < done.len() - 1 {
                assert(done.drop_last()[i] == done[i]);
            }
        }
    }
}

/// Dependencies come before the projects that depend on them, and the root
/// comes last. No two projects are at the same place or have the same name.
pub proof fn lemma_graph_in_order(root: Seq<char>, loaded: Seq<(Seq<char>, LoadedView)>)
    requires
        dep_graph(root, loaded) is Ok,
    ensures
        ({
            let done = dep_graph(root, loaded)->Ok_0;
            &&& in_order(done)
            &&& done.len() > 0
            &&& done.last().manifest_path == root
            &&& places_differ(done)
            &&& names_differ(done)
        }),
{
    lemma_visit(root, Seq::empty(), Seq::empty(), loaded);
    lemma_names_differ(dep_graph(root, loaded)->Ok_0);
}

/// A link from a project to one that it depends on.
pub open spec fn depends(
    from: Seq<char>,
    to: Seq<char>,
    loaded: Seq<(Seq<char>, LoadedView)>,
) -> bool {
    find(loaded, from) matches Some(p) && exists|k: int|
        0 <= k < p.manifest.toylang_dependencies.len() && find(
            p.dep_paths,
            (#[trigger] p.manifest.toylang_dependencies[k]).0,
        ) == Some(to)
}

/// Whether each of some places depends on the next.
pub open spec fn linked(chain: Seq<Seq<char>>, loaded: Seq<(Seq<char>, LoadedView)>) -> bool {
    forall|i: int| 0 <= i < chain.len() - 1 ==> depends(#[trigger] chain[i], chain[i + 1], loaded)
}

/// A circle that is reported is one: the chain starts at the root, each project
/// of it depends on the next, and the last occurs before.
pub proof fn lemma_reported_cycle(root: Seq<char>, loaded: Seq<(Seq<char>, LoadedView)>)
    requires
        dep_graph(root, loaded) is Err,
        dep_graph(root, loaded)->Err_0 is Cycle,
    ensures
        ({
            let chain = dep_graph(root, loaded)->Err_0->Cycle_chain;
            &&& linked(chain, loaded)
            &&& chain.len() > 0
            &&& chain[0] == root
            &&& chain.drop_last().contains(chain.last())
        }),
{
    let whole = visit(root, Seq::empty(), Seq::empty(), loaded);
    if whole is Ok {
        lemma_shared_is_shared(whole->Ok_0);
    } else {
        lemma_cycle(root, root, Seq::empty(), Seq::empty(), loaded);
    }
}

proof fn lemma_shared_is_shared(done: Seq<ResolvedProjectView>)
    ensures
        shared_name(done) matches Some(e) ==> e is SharedName,
    decreases done.len(),
{
    if done.len() > 0 {
        lemma_shared_is_shared(done.drop_last());
    }
}

proof fn lemma_cycle(
    root: Seq<char>,
    path: Seq<char>,
    done: Seq<ResolvedProjectView>,
    visiting: Seq<Seq<char>>,
    loaded: Seq<(Seq<char>, LoadedView)>,
)
    requires
        visit(path, done, visiting, loaded) is Err,
        visit(path, done, visiting, loaded)->Err_0 is Cycle,
        in_order(done),
        places_differ(done),
        forall|i: int| 0 <= i < done.len() ==> !visiting.contains((#[trigger] done[i]).manifest_path),
        linked(visiting.push(path), loaded),
        visiting.push(path)[0] == root,
    ensures
        ({
            let chain = visit(path, done, visiting, loaded)->Err_0->Cycle_chain;
            &&& linked(chain, loaded)
            &&& chain.len() > 0
            &&& chain[0] == root
            &&& chain.drop_last().contains(chain.last())
        }),
    decreases unvisited(loaded, visiting), 1int, 0nat,
{
    if visiting.contains(path) {
        assert(visiting.push(path).drop_last() =~= visiting);
    } else {
        let p = find(loaded, path)->Some_0;
        lemma_unvisited_drops(loaded, visiting, path);
        let inner = visiting.push(path);
        lemma_project_at(done, path);
        assert forall|i: int| 0 <= i < done.len() implies !inner.contains(
            (#[trigger] done[i]).manifest_path,
        ) by {
            lemma_push_contains(visiting, path, done[i].manifest_path);
        }
        assert(p.manifest.toylang_dependencies.skip(0) =~= p.manifest.toylang_dependencies);
        lemma_cycle_deps(root, 0, path, p, done, inner, loaded);
    }
}

proof fn lemma_cycle_deps(
    root: Seq<char>,
    at: int,
    path: Seq<char>,
    p: LoadedView,
    done: Seq<ResolvedProjectView>,
    visiting: Seq<Seq<char>>,
    loaded: Seq<(Seq<char>, LoadedView)>,
)
    requires
        0 <= at <= p.manifest.toylang_dependencies.len(),
        find(loaded, path) == Some(p),
        visiting.len() > 0,
        visiting.last() == path,
        visit_deps(
            p.manifest.toylang_dependencies.skip(at),
            path,
            p,
            done,
            visiting,
            loaded,
        ) is Err,
        visit_deps(
            p.manifest.toylang_dependencies.skip(at),
            path,
            p,
            done,
            visiting,
            loaded,
        )->Err_0 is Cycle,
        in_order(done),
        places_differ(done),
        forall|i: int| 0 <= i < done.len() ==> !visiting.contains((#[trigger] done[i]).manifest_path),
        linked(visiting, loaded),
        visiting[0] == root,
    ensures
        ({
            let chain = visit_deps(
                p.manifest.toylang_dependencies.skip(at),
                path,
                p,
                done,
                visiting,
                loaded,
            )->Err_0->Cycle_chain;
            &&& linked(chain, loaded)
            &&& chain.len() > 0
            &&& chain[0] == root
            &&& chain.drop_last().contains(chain.last())
        }),
    decreases unvisited(loaded, visiting), 2int, p.manifest.toylang_dependencies.len() - at,
{
    let all = p.manifest.toylang_dependencies;
    let deps = all.skip(at);
    let name = deps[0].0;
    assert(all[at].0 == name);
    let place = find(p.dep_paths, name)->Some_0;
    assert(depends(path, place, loaded));
    let longer = visiting.push(place);
    assert forall|i: int| 0 <= i < longer.len() - 1 implies depends(
        #[trigger] longer[i],
        longer[i + 1],
        loaded,
    ) by {
        if i < visiting.len() - 1 {
            assert(depends(visiting[i], visiting[i + 1], loaded));
        }
    }
    let first = visit(place, done, visiting, loaded);
    if first is Err {
        lemma_cycle(root, place, done, visiting, loaded);
    } else {
        lemma_visit(place, done, visiting, loaded);
        assert(deps.drop_first() =~= all.skip(at + 1));
        lemma_cycle_deps(root, at + 1, path, p, first->Ok_0, visiting, loaded);
    }
}

/// Whether the places lead from the root to a place, each depending on the
/// next.
pub open spec fn leads(
    chain: Seq<Seq<char>>,
    root: Seq<char>,
    place: Seq<char>,
    loaded: Seq<(Seq<char>, LoadedView)>,
) -> bool {
    chain.len() > 0 && chain[0] == root && chain.last() == place && linked(chain, loaded)
}

/// Whether the root depends on a place, itself or through others, or is there.
pub open spec fn reaches(
    root: Seq<char>,
    place: Seq<char>,
    loaded: Seq<(Seq<char>, LoadedView)>,
) -> bool {
    exists|chain: Seq<Seq<char>>| leads(chain, root, place, loaded)
}

/// Whether a project is what has been read at its place, and depends on the
/// names that its manifest says, in their order.
pub open spec fn is_as_read(
    project: ResolvedProjectView,
    loaded: Seq<(Seq<char>, LoadedView)>,
) -> bool {
    match find(loaded, project.manifest_path) {
        None => false,
        Some(p) => {
            let deps = p.manifest.toylang_dependencies;
            &&& project.manifest == p.manifest
            &&& project.project_dir == p.project_dir
            &&& project.toylang_dep_names.len() == deps.len()
            &&& forall|k: int|
                0 <= k < deps.len() ==> #[trigger] project.toylang_dep_names[k] == deps[k].0
        },
    }
}

/// Whether one of the first `i` projects is at the place.
pub open spec fn place_before(done: Seq<ResolvedProjectView>, i: int, place: Seq<char>) -> bool {
    exists|j: int| 0 <= j < i && (#[trigger] done[j]).manifest_path == place
}

/// Whether all places that a project depends on come before it.
pub open spec fn deps_before(
    done: Seq<ResolvedProjectView>,
    i: int,
    loaded: Seq<(Seq<char>, LoadedView)>,
) -> bool {
    forall|to: Seq<char>| #[trigger]
        depends(done[i].manifest_path, to, loaded) ==> place_before(done, i, to)
}

spec fn grounded(
    done: Seq<ResolvedProjectView>,
    root: Seq<char>,
    loaded: Seq<(Seq<char>, LoadedView)>,
) -> bool {
    forall|i: int|
        0 <= i < done.len() ==> is_as_read(#[trigger] done[i], loaded) && deps_before(
            done,
            i,
            loaded,
        ) && reaches(root, done[i].manifest_path, loaded)
}

proof fn lemma_longer_chain(
    chain: Seq<Seq<char>>,
    root: Seq<char>,
    place: Seq<char>,
    to: Seq<char>,
    loaded: Seq<(Seq<char>, LoadedView)>,
)
    requires
        leads(chain, root, place, loaded),
        depends(place, to, loaded),
    ensures
        leads(chain.push(to), root, to, loaded),
{
    let longer = chain.push(to);
    assert forall|i: int| 0 <= i < longer.len() - 1 implies depends(
        #[trigger] longer[i],
        longer[i + 1],
        loaded,
    ) by {
        if i < chain.len() - 1 {
            assert(depends(chain[i], chain[i + 1], loaded));
        }
    }
}

proof fn lemma_grounded(
    root: Seq<char>,
    path: Seq<char>,
    done: Seq<ResolvedProjectView>,
    visiting: Seq<Seq<char>>,
    loaded: Seq<(Seq<char>, LoadedView)>,
)
    requires
        in_order(done),
        places_differ(done),
        forall|i: int| 0 <= i < done.len() ==> !visiting.contains((#[trigger] done[i]).manifest_path),
        visit(path, done, visiting, loaded) is Ok,
        grounded(done, root, loaded),
        leads(visiting.push(path), root, path, loaded),
    ensures
        grounded(visit(path, done, visiting, loaded)->Ok_0, root, loaded),
    decreases unvisited(loaded, visiting), 1int, 0nat,
{
    if project_at(done, path) is None {
        let p = find(loaded, path)->Some_0;
        let all = p.manifest.toylang_dependencies;
        lemma_unvisited_drops(loaded, visiting, path);
        let inner = visiting.push(path);
        lemma_project_at(done, path);
        assert forall|i: int| 0 <= i < done.len() implies !inner.contains(
            (#[trigger] done[i]).manifest_path,
        ) by {
            lemma_push_contains(visiting, path, done[i].manifest_path);
        }
        assert(all.skip(0) =~= all);
        lemma_visit_deps(all, path, p, done, inner, loaded);
        lemma_grounded_deps(0, root, path, p, done, inner, loaded);
        let (before, names) = visit_deps(all, path, p, done, inner, loaded)->Ok_0;
        let after = visit(path, done, visiting, loaded)->Ok_0;
        let n = before.len() as int;
        assert forall|k: int| 0 <= k < all.len() implies #[trigger] after[n].toylang_dep_names[k]
            == all[k].0 by {
            assert(names[k] == all[k].0);
        }
        assert(is_as_read(after[n], loaded));
        assert forall|i: int| 0 <= i < after.len() implies is_as_read(#[trigger] after[i], loaded)
            && deps_before(after, i, loaded) && reaches(
            root,
            after[i].manifest_path,
            loaded,
        ) by {
            if i < n {
                assert(after[i] == before[i]);
                assert(is_as_read(before[i], loaded) && deps_before(before, i, loaded));
            }
            assert forall|to: Seq<char>| #[trigger]
                depends(after[i].manifest_path, to, loaded) implies place_before(after, i, to) by {
                if i < n {
                    assert(place_before(before, i, to));
                } else {
                    let k = choose|k: int|
                        0 <= k < all.len() && find(p.dep_paths, (#[trigger] all[k]).0) == Some(to);
                    assert(has_place(before, p, k));
                }
                let j = choose|j: int|
                    0 <= j < i && (#[trigger] before[j]).manifest_path == to;
                assert(after[j].manifest_path == to);
            }
        }
    }
}

/// Whether the dependency `k` of a project is among those that have a place.
spec fn has_place(done: Seq<ResolvedProjectView>, p: LoadedView, k: int) -> bool {
    match find(p.dep_paths, p.manifest.toylang_dependencies[k].0) {
        Some(place) => place_before(done, done.len() as int, place),
        None => false,
    }
}

proof fn lemma_grounded_deps(
    at: int,
    root: Seq<char>,
    path: Seq<char>,
    p: LoadedView,
    done: Seq<ResolvedProjectView>,
    visiting: Seq<Seq<char>>,
    loaded: Seq<(Seq<char>, LoadedView)>,
)
    requires
        0 <= at <= p.manifest.toylang_dependencies.len(),
        find(loaded, path) == Some(p),
        in_order(done),
        places_differ(done),
        forall|i: int| 0 <= i < done.len() ==> !visiting.contains((#[trigger] done[i]).manifest_path),
        visit_deps(
            p.manifest.toylang_dependencies.skip(at),
            path,
            p,
            done,
            visiting,
            loaded,
        ) is Ok,
        grounded(done, root, loaded),
        leads(visiting, root, path, loaded),
    ensures
        ({
            let after = visit_deps(
                p.manifest.toylang_dependencies.skip(at),
                path,
                p,
                done,
                visiting,
                loaded,
            )->Ok_0.0;
            &&& grounded(after, root, loaded)
            &&& forall|k: int|
                at <= k < p.manifest.toylang_dependencies.len() ==> #[trigger] has_place(after, p, k)
        }),
    decreases unvisited(loaded, visiting), 2int, p.manifest.toylang_dependencies.len() - at,
{
    let all = p.manifest.toylang_dependencies;
    let deps = all.skip(at);
    if deps.len() > 0 {
        let name = deps[0].0;
        assert(all[at].0 == name);
        let place = find(p.dep_paths, name)->Some_0;
        assert(depends(path, place, loaded));
        lemma_longer_chain(visiting, root, path, place, loaded);
        lemma_visit(place, done, visiting, loaded);
        lemma_grounded(root, place, done, visiting, loaded);
        let middle = visit(place, done, visiting, loaded)->Ok_0;
        lemma_project_at(middle, place);
        assert(deps.drop_first() =~= all.skip(at + 1));
        lemma_visit_deps(all.skip(at + 1), path, p, middle, visiting, loaded);
        lemma_grounded_deps(at + 1, root, path, p, middle, visiting, loaded);
        let after = visit_deps(all.skip(at + 1), path, p, middle, visiting, loaded)->Ok_0.0;
        assert forall|k: int| at <= k < all.len() implies #[trigger] has_place(after, p, k) by {
            if k == at {
                let dep = project_at(middle, place)->Some_0;
                let j = choose|j: int| 0 <= j < middle.len() && #[trigger] middle[j] == dep;
                assert(after.take(middle.len() as int)[j] == after[j]);
                assert(after[j].manifest_path == place);
            }
        }
    }
}

/// The projects are exactly those at the places that the root reaches, each as
/// it was read, with the names that its manifest says it depends on, and behind
/// all places that it depends on.
pub proof fn lemma_graph_complete(root: Seq<char>, loaded: Seq<(Seq<char>, LoadedView)>)
    requires
        dep_graph(root, loaded) is Ok,
    ensures
        ({
            let done = dep_graph(root, loaded)->Ok_0;
            &&& forall|i: int|
                0 <= i < done.len() ==> is_as_read(#[trigger] done[i], loaded) && deps_before(
                    done,
                    i,
                    loaded,
                )
            &&& forall|place: Seq<char>| #[trigger]
                place_before(done, done.len() as int, place) <==> reaches(root, place, loaded)
        }),
{
    let start = Seq::<Seq<char>>::empty();
    let done = dep_graph(root, loaded)->Ok_0;
    assert(leads(start.push(root), root, root, loaded));
    lemma_visit(root, Seq::empty(), start, loaded);
    lemma_grounded(root, root, Seq::empty(), start, loaded);
    assert(done.last() == done[done.len() - 1]);
    assert forall|place: Seq<char>| #[trigger]
        place_before(done, done.len() as int, place) <==> reaches(root, place, loaded) by {
        if place_before(done, done.len() as int, place) {
            let j = choose|j: int|
                0 <= j < done.len() && (#[trigger] done[j]).manifest_path == place;
            assert(reaches(root, done[j].manifest_path, loaded));
        }
        if reaches(root, place, loaded) {
            let chain = choose|chain: Seq<Seq<char>>| leads(chain, root, place, loaded);
            lemma_chain_in(chain, chain.len() - 1, root, done, loaded);
        }
    }
}

/// What a chain from the root leads through has its place.
proof fn lemma_chain_in(
    chain: Seq<Seq<char>>,
    i: int,
    root: Seq<char>,
    done: Seq<ResolvedProjectView>,
    loaded: Seq<(Seq<char>, LoadedView)>,
)
    requires
        0 <= i < chain.len(),
        chain[0] == root,
        linked(chain, loaded),
        grounded(done, root, loaded),
        place_before(done, done.len() as int, root),
    ensures
        place_before(done, done.len() as int, chain[i]),
    decreases i,
{
    if i > 0 {
        lemma_chain_in(chain, i - 1, root, done, loaded);
        let j = choose|j: int|
            0 <= j < done.len() && (#[trigger] done[j]).manifest_path == chain[i - 1];
        assert(depends(chain[i - 1], chain[i - 1 + 1], loaded));
        assert(is_as_read(done[j], loaded) && deps_before(done, j, loaded));
        assert(place_before(done, j, chain[i]));
        let k = choose|k: int| 0 <= k < j && (#[trigger] done[k]).manifest_path == chain[i];
        assert(done[k].manifest_path == chain[i]);
    }
}

/// Whether all that the root reaches has been read, and goes by its own name
/// where it is depended on.
pub open spec fn all_read(root: Seq<char>, loaded: Seq<(Seq<char>, LoadedView)>) -> bool {
    forall|place: Seq<char>| #[trigger]
        reaches(root, place, loaded) ==> (match find(loaded, place) {
            None => false,
            Some(p) => forall|k: int|
                0 <= k < p.manifest.toylang_dependencies.len() ==> is_located(
                    p,
                    (#[trigger] p.manifest.toylang_dependencies[k]).0,
                    loaded,
                ),
        })
}

/// Whether a dependency has been found, under the name that it has itself.
pub open spec fn is_located(
    p: LoadedView,
    name: Seq<char>,
    loaded: Seq<(Seq<char>, LoadedView)>,
) -> bool {
    match find(p.dep_paths, name) {
        None => false,
        Some(place) => match find(loaded, place) {
            None => false,
            Some(dep) => dep.manifest.project.name == name,
        },
    }
}

proof fn lemma_only_cycle(
    root: Seq<char>,
    path: Seq<char>,
    done: Seq<ResolvedProjectView>,
    visiting: Seq<Seq<char>>,
    loaded: Seq<(Seq<char>, LoadedView)>,
)
    requires
        in_order(done),
        places_differ(done),
        forall|i: int| 0 <= i < done.len() ==> !visiting.contains((#[trigger] done[i]).manifest_path),
        grounded(done, root, loaded),
        leads(visiting.push(path), root, path, loaded),
        all_read(root, loaded),
    ensures
        visit(path, done, visiting, loaded) matches Err(e) ==> e is Cycle,
    decreases unvisited(loaded, visiting), 1int, 0nat,
{
    if project_at(done, path) is None && !visiting.contains(path) {
        assert(reaches(root, path, loaded));
        let p = find(loaded, path)->Some_0;
        let all = p.manifest.toylang_dependencies;
        lemma_unvisited_drops(loaded, visiting, path);
        let inner = visiting.push(path);
        lemma_project_at(done, path);
        assert forall|i: int| 0 <= i < done.len() implies !inner.contains(
            (#[trigger] done[i]).manifest_path,
        ) by {
            lemma_push_contains(visiting, path, done[i].manifest_path);
        }
        assert(all.skip(0) =~= all);
        lemma_only_cycle_deps(0, root, path, p, done, inner, loaded);
    }
}

proof fn lemma_only_cycle_deps(
    at: int,
    root: Seq<char>,
    path: Seq<char>,
    p: LoadedView,
    done: Seq<ResolvedProjectView>,
    visiting: Seq<Seq<char>>,
    loaded: Seq<(Seq<char>, LoadedView)>,
)
    requires
        0 <= at <= p.manifest.toylang_dependencies.len(),
        find(loaded, path) == Some(p),
        in_order(done),
        places_differ(done),
        forall|i: int| 0 <= i < done.len() ==> !visiting.contains((#[trigger] done[i]).manifest_path),
        grounded(done, root, loaded),
        leads(visiting, root, path, loaded),
        all_read(root, loaded),
    ensures
        visit_deps(
            p.manifest.toylang_dependencies.skip(at),
            path,
            p,
            done,
            visiting,
            loaded,
        ) matches Err(e) ==> e is Cycle,
    decreases unvisited(loaded, visiting), 2int, p.manifest.toylang_dependencies.len() - at,
{
    let all = p.manifest.toylang_dependencies;
    let deps = all.skip(at);
    if deps.len() > 0 {
        let name = deps[0].0;
        assert(all[at].0 == name);
        assert(reaches(root, path, loaded));
        assert(is_located(p, all[at].0, loaded));
        let place = find(p.dep_paths, name)->Some_0;
        assert(depends(path, place, loaded));
        lemma_longer_chain(visiting, root, path, place, loaded);
        lemma_only_cycle(root, place, done, visiting, loaded);
        if visit(place, done, visiting, loaded) is Ok {
            let middle = visit(place, done, visiting, loaded)->Ok_0;
            lemma_visit(place, done, visiting, loaded);
            lemma_grounded(root, place, done, visiting, loaded);
            lemma_project_at(middle, place);
            let dep = project_at(middle, place)->Some_0;
            let j = choose|j: int| 0 <= j < middle.len() && #[trigger] middle[j] == dep;
            assert(is_as_read(middle[j], loaded));
            assert(deps.drop_first() =~= all.skip(at + 1));
            lemma_only_cycle_deps(at + 1, root, path, p, middle, visiting, loaded);
        }
    }
}

/// A circle that the root leads into is never given an order. Where all has
/// been read, and goes by its own name, a circle is what is reported.
pub proof fn lemma_cycle_reported(
    root: Seq<char>,
    loaded: Seq<(Seq<char>, LoadedView)>,
    chain: Seq<Seq<char>>,
)
    requires
        leads(chain, root, chain.last(), loaded),
        chain.drop_last().contains(chain.last()),
    ensures
        dep_graph(root, loaded) is Err,
        all_read(root, loaded) ==> dep_graph(root, loaded)->Err_0 is Cycle,
{
    let start = Seq::<Seq<char>>::empty();
    assert(leads(start.push(root), root, root, loaded));
    let whole = visit(root, Seq::empty(), start, loaded);
    if whole is Ok {
        let done = whole->Ok_0;
        lemma_visit(root, Seq::empty(), start, loaded);
        lemma_grounded(root, root, Seq::empty(), start, loaded);
        assert(done.last() == done[done.len() - 1]);
        assert(place_before(done, done.len() as int, root));
        let i = choose|i: int|
            0 <= i < chain.drop_last().len() && chain.drop_last()[i] == chain.last();
        let n = chain.len() - 1;
        lemma_chain_in(chain, i, root, done, loaded);
        let a = choose|a: int| 0 <= a < done.len() && (#[trigger] done[a]).manifest_path == chain[i];
        lemma_chain_falls(chain, i, n, a, root, done, loaded);
        assert(chain[i] == chain[n]);
    } else if all_read(root, loaded) {
        lemma_only_cycle(root, root, Seq::empty(), start, loaded);
    }
}

/// Along a chain the places in the order fall: what stands at the end of a
/// part of it is before what stands at its start.
proof fn lemma_chain_falls(
    chain: Seq<Seq<char>>,
    i: int,
    n: int,
    a: int,
    root: Seq<char>,
    done: Seq<ResolvedProjectView>,
    loaded: Seq<(Seq<char>, LoadedView)>,
)
    requires
        0 <= i < n < chain.len(),
        linked(chain, loaded),
        grounded(done, root, loaded),
        places_differ(done),
        0 <= a < done.len(),
        done[a].manifest_path == chain[i],
    ensures
        chain[n] != chain[i],
{
    let b = lemma_chain_goes(chain, i, n, a, root, done, loaded);
    assert(done[b].manifest_path != done[a].manifest_path);
}

proof fn lemma_chain_goes(
    chain: Seq<Seq<char>>,
    i: int,
    n: int,
    a: int,
    root: Seq<char>,
    done: Seq<ResolvedProjectView>,
    loaded: Seq<(Seq<char>, LoadedView)>,
) -> (b: int)
    requires
        0 <= i < n < chain.len(),
        linked(chain, loaded),
        grounded(done, root, loaded),
        0 <= a < done.len(),
        done[a].manifest_path == chain[i],
    ensures
        0 <= b < a,
        done[b].manifest_path == chain[n],
    decreases n - i,
{
    assert(depends(chain[i], chain[i + 1], loaded));
    assert(is_as_read(done[a], loaded) && deps_before(done, a, loaded));
    assert(place_before(done, a, chain[i + 1]));
    let c = choose|c: int| 0 <= c < a && (#[trigger] done[c]).manifest_path == chain[i + 1];
    if i + 1 == n {
        c
    } else {
        lemma_chain_goes(chain, i + 1, n, c, root, done, loaded)
    }
}

fn find_project(done: &Vec<ResolvedProject>, path: &str) -> (r: Option<usize>)
    ensures
        match r {
            Some(i) => i < done@.len() && project_at(views(done@), path@) == Some(done@[i as int]@),
            None => project_at(views(done@), path@) is None,
        },
{
    let ghost all = views(done@);
    let mut n: usize = done.len();
    assert(all.take(n as int) =~= all);
    while n > 0
        invariant
            n <= done@.len(),
            all == views(done@),
            project_at(all, path@) == project_at(all.take(n as int), path@),
        decreases n,
    {
        assert(all.take(n as int).drop_last() =~= all.take(n - 1));
        assert(all.take(n as int).last() == done@[n - 1]@);
        if same_text(&done[n - 1].manifest_path, path) {
            return Some(n - 1);
        }
        n -= 1;
    }
    None
}

fn find_named(done: &Vec<ResolvedProject>, count: usize, name: &str) -> (r: Option<usize>)
    requires
        count <= done@.len(),
    ensures
        match r {
            Some(i) => i < count && project_named(views(done@).take(count as int), name@) == Some(
                done@[i as int]@,
            ),
            None => project_named(views(done@).take(count as int), name@) is None,
        },
{
    let ghost all = views(done@);
    let mut n: usize = count;
    while n > 0
        invariant
            n <= count <= done@.len(),
            all == views(done@),
            project_named(all.take(count as int), name@) == project_named(
                all.take(n as int),
                name@,
            ),
        decreases n,
    {
        assert(all.take(n as int).drop_last() =~= all.take(n - 1));
        assert(all.take(n as int).last() == done@[n - 1]@);
        if same_text(&done[n - 1].manifest.project.name, name) {
            return Some(n - 1);
        }
        n -= 1;
    }
    None
}

fn is_among(paths: &Vec<String>, path: &str) -> (r: bool)
    ensures
        r == views(paths@).contains(path@),
{
    let mut i: usize = 0;
    while i < paths.len()
        invariant
            i <= paths@.len(),
            forall|j: int| 0 <= j < i ==> (#[trigger] views(paths@)[j]) != path@,
        decreases paths@.len() - i,
    {
        if same_text(&paths[i], path) {
            assert(views(paths@)[i as int] == path@);
            return true;
        }
        i += 1;
    }
    false
}

fn visit_project(
    path: &String,
    done: &mut Vec<ResolvedProject>,
    visiting: &mut Vec<String>,
    loaded: &NameMap<LoadedProject>,
) -> (r: Result<(), GraphStop>)
    requires
        in_order(views(old(done)@)),
        places_differ(views(old(done)@)),
        forall|i: int|
            0 <= i < old(done)@.len() ==> !views(old(visiting)@).contains(
                (#[trigger] views(old(done)@)[i]).manifest_path,
            ),
    ensures
        match visit(path@, views(old(done)@), views(old(visiting)@), loaded@) {
            Ok(after) => r is Ok && views(final(done)@) == after && views(final(visiting)@)
                == views(old(visiting)@),
            Err(e) => r is Err && r->Err_0@ == e,
        },
    decreases unvisited(loaded@, views(old(visiting)@)), 1int, 0nat,
{
    let ghost before = views(done@);
    let ghost outer = views(visiting@);
    if find_project(done, path).is_some() {
        return Ok(());
    }
    if is_among(visiting, path) {
        let mut chain = duplicate_all(visiting);
        chain.push(path.clone());
        assert(views(chain@) =~= outer.push(path@));
        return Err(GraphStop::Cycle { chain });
    }
    let p = match loaded.get(path) {
        None => {
            return Err(GraphStop::ReadManifest { path: path.clone() });
        },
        Some(p) => p,
    };
    proof {
        lemma_unvisited_drops(loaded@, outer, path@);
        lemma_project_at(before, path@);
        assert forall|i: int| 0 <= i < before.len() implies !outer.push(path@).contains(
            (#[trigger] before[i]).manifest_path,
        ) by {
            lemma_push_contains(outer, path@, before[i].manifest_path);
        }
    }
    visiting.push(path.clone());
    assert(views(visiting@) =~= outer.push(path@));
    let names = match visit_project_deps(path, p, done, visiting, loaded) {
        Err(e) => {
            return Err(e);
        },
        Ok(names) => names,
    };
    let ghost inner = visiting@;
    let _ = visiting.pop();
    proof {
        assert(views(inner) == outer.push(path@));
        assert(visiting@ == inner.drop_last());
        assert forall|i: int| 0 <= i < outer.len() implies #[trigger] views(visiting@)[i]
            == outer[i] by {
            assert(views(inner)[i] == outer.push(path@)[i]);
        }
        assert(views(inner).len() == outer.len() + 1);
    }
    assert(views(visiting@) =~= outer);
    let ghost middle = views(done@);
    let one = ResolvedProject {
        manifest: p.manifest.duplicate(),
        manifest_path: path.clone(),
        project_dir: p.project_dir.clone(),
        toylang_dep_names: names,
    };
    let ghost view = one@;
    done.push(one);
    assert(views(done@) =~= middle.push(view));
    Ok(())
}

fn visit_project_deps(
    path: &String,
    p: &LoadedProject,
    done: &mut Vec<ResolvedProject>,
    visiting: &mut Vec<String>,
    loaded: &NameMap<LoadedProject>,
) -> (r: Result<Vec<String>, GraphStop>)
    requires
        in_order(views(old(done)@)),
        places_differ(views(old(done)@)),
        forall|i: int|
            0 <= i < old(done)@.len() ==> !views(old(visiting)@).contains(
                (#[trigger] views(old(done)@)[i]).manifest_path,
            ),
    ensures
        match visit_deps(
            p@.manifest.toylang_dependencies,
            path@,
            p@,
            views(old(done)@),
            views(old(visiting)@),
            loaded@,
        ) {
            Ok((after, names)) => r is Ok && views(r->Ok_0@) == names && views(final(done)@)
                == after && views(final(visiting)@) == views(old(visiting)@),
            Err(e) => r is Err && r->Err_0@ == e,
        },
    decreases unvisited(loaded@, views(old(visiting)@)), 2int, 0nat,
{
    let ghost all = p@.manifest.toylang_dependencies;
    let ghost outer = views(visiting@);
    let ghost whole = visit_deps(all, path@, p@, views(done@), outer, loaded@);
    let n = p.manifest.toylang_dependencies.len();
    let mut names: Vec<String> = Vec::new();
    let mut i: usize = 0;
    assert(all.skip(0) =~= all);
    assert(views(names@) =~= Seq::empty());
    assert(whole is Ok ==> views(names@) + whole->Ok_0.1 =~= whole->Ok_0.1);
    while i < n
        invariant
            i <= n,
            n == all.len(),
            all == p.manifest.toylang_dependencies@,
            outer == views(visiting@),
            outer == views(old(visiting)@),
            in_order(views(done@)),
            places_differ(views(done@)),
            forall|k: int|
                0 <= k < done@.len() ==> !outer.contains(
                    (#[trigger] views(done@)[k]).manifest_path,
                ),
            whole == visit_deps(all, path@, p@, views(old(done)@), outer, loaded@),
            whole == (match visit_deps(
                all.skip(i as int),
                path@,
                p@,
                views(done@),
                outer,
                loaded@,
            ) {
                Ok((after, rest)) => Ok((after, views(names@) + rest)),
                Err(e) => Err(e),
            }),
        decreases n - i,
    {
        let ghost so_far = views(names@);
        let ghost before = views(done@);
        assert(all.skip(i as int).drop_first() =~= all.skip(i + 1));
        assert(all.skip(i as int)[0] == all[i as int]);
        let name = p.manifest.toylang_dependencies.key_at(i);
        let place = match p.dep_paths.get(name) {
            None => {
                return Err(GraphStop::LocateDep { path: path.clone(), dep: name.clone() });
            },
            Some(place) => place,
        };
        match visit_project(place, done, visiting, loaded) {
            Err(e) => {
                return Err(e);
            },
            Ok(_) => {},
        }
        proof {
            lemma_visit(place@, before, outer, loaded@);
        }
        match find_project(done, place) {
            None => {
                assert(false);
            },
            Some(at) => {
                if !same_text(&done[at].manifest.project.name, name) {
                    return Err(
                        GraphStop::NameMismatch {
                            key: name.clone(),
                            name: done[at].manifest.project.name.clone(),
                            path: place.clone(),
                        },
                    );
                }
            },
        }
        names.push(name.clone());
        assert(views(names@) =~= so_far.push(name@));
        assert(forall|rest: Seq<Seq<char>>|
            #[trigger] (views(names@) + rest) =~= so_far + (seq![name@] + rest));
        i += 1;
    }
    assert(all.skip(i as int).len() == 0);
    assert(views(names@) + Seq::<Seq<char>>::empty() =~= views(names@));
    Ok(names)
}

/// Puts a project and all that it depends on in order: dependencies come
/// before those that depend on them, and the root comes last. A place is
/// written in one way only.
pub fn resolve_dep_graph(root: &String, loaded: &NameMap<LoadedProject>) -> (r: Result<
    Vec<ResolvedProject>,
    GraphStop,
>)
    ensures
        (match r {
            Ok(done) => Ok(views(done@)),
            Err(e) => Err(e@),
        }) == dep_graph(root@, loaded@),
{
    let mut done: Vec<ResolvedProject> = Vec::new();
    let mut visiting: Vec<String> = Vec::new();
    assert(views(done@) =~= Seq::empty());
    assert(views(visiting@) =~= Seq::empty());
    match visit_project(root, &mut done, &mut visiting, loaded) {
        Err(e) => {
            return Err(e);
        },
        Ok(_) => {},
    }
    let ghost all = views(done@);
    let mut i: usize = 0;
    assert(all.take(0) =~= Seq::empty());
    while i < done.len()
        invariant
            i <= done@.len(),
            all == views(done@),
            visit(root@, Seq::empty(), Seq::empty(), loaded@) == Ok::<
                Seq<ResolvedProjectView>,
                GraphStopView,
            >(all),
            shared_name(all.take(i as int)) is None,
        decreases done@.len() - i,
    {
        assert(all.take(i + 1).drop_last() =~= all.take(i as int));
        assert(all.take(i + 1).last() == done@[i as int]@);
        match find_named(&done, i, &done[i].manifest.project.name) {
            None => {},
            Some(first) => {
                proof {
                    lemma_shared_prefix(all, i + 1);
                }
                return Err(
                    GraphStop::SharedName {
                        name: done[i].manifest.project.name.clone(),
                        first: done[first].manifest_path.clone(),
                        second: done[i].manifest_path.clone(),
                    },
                );
            },
        }
        i += 1;
    }
    assert(all.take(done@.len() as int) =~= all);
    Ok(done)
}

proof fn lemma_shared_prefix(done: Seq<ResolvedProjectView>, n: int)
    requires
        0 <= n <= done.len(),
        shared_name(done.take(n)) is Some,
    ensures
        shared_name(done) == shared_name(done.take(n)),
    decreases done.len() - n,
{
    if n < done.len() {
        assert(done.take(n + 1).drop_last() =~= done.take(n));
        lemma_shared_prefix(done, n + 1);
    } else {
        assert(done.take(n) =~= done);
    }
}

} // verus!
