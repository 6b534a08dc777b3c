//! What a build writes and which way a run of the compiler takes.
//!
//! A build lays out a workspace: one stub crate for each project, and a binary
//! that ties them together. This module says what the files hold; reading and
//! writing them is left to the program.
use crate::llvm_gen::types::{trim, trimmed};
use crate::manifest::{DepSpec, DepSpecView, Manifest, ManifestView, ResolvedProject, ResolvedProjectView};
use crate::names::{find, NameMap};
use crate::text::{chars_of, has_prefix, owned, same_text, starts_with, views, Duplicate};
use crate::toylang::lexer::{debug_str, debug_text};
use crate::toylang::registry::{ToyFunctionView, ToylangRegistry};
use vstd::prelude::*;
use vstd::slice::slice_subrange;
use vstd::string::*;

verus! {

broadcast use {vstd::seq::group_seq_axioms, vstd::std_specs::vec::group_vec_axioms};

/// The toolchain that the compiler is built for.
pub const TOYLANG_NIGHTLY: &'static str = "nightly-2026-01-20";

/// A name with underscores for hyphens.
pub open spec fn sanitized(name: Seq<char>) -> Seq<char> {
    Seq::new(
        name.len(),
        |i: int|
            if name[i] == '-' {
                '_'
            } else {
                name[i]
            },
    )
}

/// A name with underscores for hyphens.
pub fn sanitize_name(name: &str) -> (r: String)
    ensures
        r@ == sanitized(name@),
{
    let chars = chars_of(name);
    let mut s = String::new();
    let mut i: usize = 0;
    while i < chars.len()
        invariant
            i <= chars@.len(),
            chars@ == name@,
            s@.len() == i,
            forall|j: int| 0 <= j < i ==> #[trigger] s@[j] == sanitized(name@)[j],
        decreases chars@.len() - i,
    {
        if chars[i] == '-' {
            s.push('_');
        } else {
            s.push(chars[i]);
        }
        i += 1;
    }
    assert(s@ =~= sanitized(name@));
    s
}

/// The names of a stub crate.
#[derive(Debug, PartialEq)]
pub struct StubNames {
    /// Its directory in the workspace.
    pub dir_name: String,
    /// Its name in Rust source.
    pub crate_name: String,
    /// Its name as a package.
    pub pkg_name: String,
}

/// What a [`StubNames`] says.
pub struct StubNamesView {
    pub dir_name: Seq<char>,
    pub crate_name: Seq<char>,
    pub pkg_name: Seq<char>,
}

impl View for StubNames {
    type V = StubNamesView;

    open spec fn view(&self) -> StubNamesView {
        StubNamesView {
            dir_name: self.dir_name@,
            crate_name: self.crate_name@,
            pkg_name: self.pkg_name@,
        }
    }
}

impl Duplicate for StubNames {
    fn duplicate(&self) -> (r: Self) {
        StubNames {
            dir_name: self.dir_name.clone(),
            crate_name: self.crate_name.clone(),
            pkg_name: self.pkg_name.clone(),
        }
    }
}

/// The names of the stub crate of a project. That of the root has a directory
/// and a name that do not depend on the project.
pub open spec fn names_of(project: Seq<char>, is_root: bool) -> StubNamesView {
    StubNamesView {
        dir_name: if is_root {
            "lang_stubs_crate"@
        } else {
            "lang_stubs_"@ + sanitized(project)
        },
        crate_name: if is_root {
            "__lang_stubs"@
        } else {
            sanitized(project)
        },
        pkg_name: "lang_stubs_"@ + sanitized(project),
    }
}

/// The names of the stub crates of some projects, of which the last is the
/// root.
pub open spec fn all_names(graph: Seq<ResolvedProjectView>) -> Seq<StubNamesView> {
    Seq::new(
        graph.len(),
        |i: int| names_of(graph[i].manifest.project.name, i + 1 == graph.len()),
    )
}

/// The names of the stub crates of some projects, of which the last is the
/// root.
pub fn stub_names(graph: &Vec<ResolvedProject>) -> (r: Vec<StubNames>)
    ensures
        views(r@) == all_names(views(graph@)),
{
    let mut r: Vec<StubNames> = Vec::new();
    let n: usize = graph.len();
    let mut i: usize = 0;
    while i < n
        invariant
            i == r@.len(),
            i <= n,
            n == graph@.len(),
            forall|j: int| 0 <= j < i ==> (#[trigger] r@[j])@ == all_names(views(graph@))[j],
        decreases n - i,
    {
        let name = sanitize_name(&graph[i].manifest.project.name);
        let mut pkg_name = owned("lang_stubs_");
        pkg_name.append(&name);
        let one = if n - i == 1 {
            StubNames {
                dir_name: owned("lang_stubs_crate"),
                crate_name: owned("__lang_stubs"),
                pkg_name,
            }
        } else {
            StubNames { dir_name: pkg_name.clone(), crate_name: name, pkg_name }
        };
        assert(views(graph@)[i as int] == graph@[i as int]@);
        r.push(one);
        i += 1;
    }
    assert(views(r@) =~= all_names(views(graph@)));
    r
}

/// The names of the stub crate of the project of that name.
pub open spec fn names_for(
    graph: Seq<ResolvedProjectView>,
    names: Seq<StubNamesView>,
    project: Seq<char>,
) -> Option<StubNamesView>
    decreases graph.len(),
{
    if graph.len() == 0 || names.len() != graph.len() {
        None
    } else if graph.last().manifest.project.name == project {
        Some(names.last())
    } else {
        names_for(graph.drop_last(), names.drop_last(), project)
    }
}

/// The names of the stub crates that a project depends on. Nothing, where one
/// of them is not among the projects.
pub open spec fn names_of_deps(
    graph: Seq<ResolvedProjectView>,
    names: Seq<StubNamesView>,
    deps: Seq<Seq<char>>,
) -> Option<Seq<StubNamesView>>
    decreases deps.len(),
{
    if deps.len() == 0 {
        Some(Seq::empty())
    } else {
        match names_for(graph, names, deps[0]) {
            None => None,
            Some(first) => match names_of_deps(graph, names, deps.drop_first()) {
                None => None,
                Some(rest) => Some(seq![first] + rest),
            },
        }
    }
}

fn find_names(graph: &Vec<ResolvedProject>, names: &Vec<StubNames>, project: &String) -> (r: Option<
    StubNames,
>)
    requires
        graph@.len() == names@.len(),
    ensures
        (match r {
            Some(x) => Some(x@),
            None => None,
        }) == names_for(views(graph@), views(names@), project@),
{
    let ghost all = views(graph@);
    let ghost ns = views(names@);
    let mut n: usize = graph.len();
    assert(all.take(n as int) =~= all);
    assert(ns.take(n as int) =~= ns);
    while n > 0
        invariant
            n <= graph@.len(),
            graph@.len() == names@.len(),
            all == views(graph@),
            ns == views(names@),
            names_for(all, ns, project@) == names_for(
                all.take(n as int),
                ns.take(n as int),
                project@,
            ),
        decreases n,
    {
        assert(all.take(n as int).drop_last() =~= all.take(n - 1));
        assert(ns.take(n as int).drop_last() =~= ns.take(n - 1));
        assert(all.take(n as int).last() == graph@[n - 1]@);
        assert(ns.take(n as int).last() == names@[n - 1]@);
        if same_text(&graph[n - 1].manifest.project.name, project) {
            return Some(names[n - 1].duplicate());
        }
        n -= 1;
    }
    None
}

/// The names of the stub crates that a project depends on.
pub fn dep_stub_names(
    graph: &Vec<ResolvedProject>,
    names: &Vec<StubNames>,
    deps: &Vec<String>,
) -> (r: Option<Vec<StubNames>>)
    requires
        graph@.len() == names@.len(),
    ensures
        (match r {
            Some(v) => Some(views(v@)),
            None => None,
        }) == names_of_deps(views(graph@), views(names@), views(deps@)),
{
    let ghost all = views(deps@);
    let ghost g = views(graph@);
    let ghost ns = views(names@);
    let ghost whole = names_of_deps(g, ns, all);
    let mut out: Vec<StubNames> = Vec::new();
    let mut i: usize = 0;
    assert(all.skip(0) =~= all);
    assert(whole is Some ==> views(out@) + whole->Some_0 =~= whole->Some_0);
    while i < deps.len()
        invariant
            i <= deps@.len(),
            graph@.len() == names@.len(),
            all == views(deps@),
            g == views(graph@),
            ns == views(names@),
            whole == names_of_deps(g, ns, all),
            whole == (match names_of_deps(g, ns, all.skip(i as int)) {
                Some(rest) => Some(views(out@) + rest),
                None => None,
            }),
        decreases deps@.len() - i,
    {
        let ghost done = views(out@);
        assert(all.skip(i as int).drop_first() =~= all.skip(i + 1));
        assert(all.skip(i as int)[0] == deps@[i as int]@);
        let one = match find_names(graph, names, &deps[i]) {
            None => {
                return None;
            },
            Some(one) => one,
        };
        let ghost first = one@;
        out.push(one);
        assert(views(out@) =~= done.push(first));
        assert(forall|rest: Seq<StubNamesView>|
            #[trigger] (views(out@) + rest) =~= done + (seq![first] + rest));
        i += 1;
    }
    assert(all.skip(i as int).len() == 0);
    assert(views(out@) + Seq::<StubNamesView>::empty() =~= views(out@));
    Some(out)
}

/// Texts between double quotes, with commas between them.
pub open spec fn quoted_list(parts: Seq<Seq<char>>) -> Seq<char>
    decreases parts.len(),
{
    if parts.len() == 0 {
        Seq::empty()
    } else if parts.len() == 1 {
        "\""@ + parts[0] + "\""@
    } else {
        quoted_list(parts.drop_last()) + ", "@ + "\""@ + parts.last() + "\""@
    }
}

fn append_quoted_list(s: &mut String, parts: &Vec<String>)
    ensures
        final(s)@ == old(s)@ + quoted_list(views(parts@)),
{
    let ghost start = s@;
    let ghost all = views(parts@);
    let mut i: usize = 0;
    assert(all.take(0) =~= Seq::empty());
    assert(s@ =~= start + quoted_list(all.take(0)));
    while i < parts.len()
        invariant
            i <= parts@.len(),
            all == views(parts@),
            s@ == start + quoted_list(all.take(i as int)),
        decreases parts@.len() - i,
    {
        assert(all.take(i + 1).drop_last() =~= all.take(i as int));
        assert(all.take(i + 1).last() == parts@[i as int]@);
        if i > 0 {
            s.append(", ");
        }
        s.append("\"");
        s.append(&parts[i]);
        s.append("\"");
        assert(s@ =~= start + quoted_list(all.take(i + 1)));
        i += 1;
    }
    assert(all.take(parts@.len() as int) =~= all);
}

/// The directories of some stub crates.
pub open spec fn dirs(names: Seq<StubNamesView>) -> Seq<Seq<char>> {
    Seq::new(names.len(), |i: int| names[i].dir_name)
}

/// The manifest of the workspace.
pub open spec fn workspace_text(names: Seq<StubNamesView>) -> Seq<char> {
    "[workspace]\nmembers = ["@ + quoted_list(dirs(names).push("user_bin"@))
        + "]\nresolver = \"2\"\n"@
}

/// The manifest of the workspace.
pub fn workspace_toml(names: &Vec<StubNames>) -> (r: String)
    ensures
        r@ == workspace_text(views(names@)),
{
    let mut members: Vec<String> = Vec::new();
    let mut i: usize = 0;
    while i < names.len()
        invariant
            i == members@.len(),
            i <= names@.len(),
            forall|j: int| 0 <= j < i ==> (#[trigger] members@[j])@ == names@[j].dir_name@,
        decreases names@.len() - i,
    {
        members.push(names[i].dir_name.clone());
        i += 1;
    }
    members.push(owned("user_bin"));
    assert(views(members@) =~= dirs(views(names@)).push("user_bin"@));
    let mut s = owned("[workspace]\nmembers = [");
    append_quoted_list(&mut s, &members);
    s.append("]\nresolver = \"2\"\n");
    s
}

/// A dependency on a Rust crate as a manifest has it. `place` is where a crate
/// in another directory is.
pub open spec fn dep_text(spec: DepSpecView, place: Seq<char>) -> Seq<char> {
    match spec {
        DepSpecView::Version(v) => "\""@ + v + "\""@,
        DepSpecView::Path { path } => "{ path = "@ + debug_text(place) + " }"@,
        DepSpecView::Detailed { version, features, default_features } => "{ version = \""@
            + version + "\""@ + (if features.len() == 0 {
            Seq::empty()
        } else {
            ", features = ["@ + quoted_list(features) + "]"@
        }) + (match default_features {
            None => Seq::empty(),
            Some(true) => ", default-features = true"@,
            Some(false) => ", default-features = false"@,
        }) + " }"@,
    }
}

/// A dependency on a Rust crate as a manifest has it.
pub fn render_dep(spec: &DepSpec, place: &str) -> (r: String)
    ensures
        r@ == dep_text(spec@, place@),
{
    match spec {
        DepSpec::Version(v) => {
            let mut s = owned("\"");
            s.append(v);
            s.append("\"");
            s
        },
        DepSpec::Path { .. } => {
            let mut s = owned("{ path = ");
            let quoted = debug_str(place);
            s.append(&quoted);
            s.append(" }");
            s
        },
        DepSpec::Detailed { version, features, default_features } => {
            let mut s = owned("{ version = \"");
            s.append(version);
            s.append("\"");
            if features.len() > 0 {
                s.append(", features = [");
                append_quoted_list(&mut s, features);
                s.append("]");
            }
            match default_features {
                None => {},
                Some(d) => if *d {
                    s.append(", default-features = true");
                } else {
                    s.append(", default-features = false");
                },
            }
            s.append(" }");
            assert(s@ =~= dep_text(spec@, place@));
            s
        },
    }
}

/// Where a crate is: as was found out, or else as it is written.
pub open spec fn place_of(
    name: Seq<char>,
    spec: DepSpecView,
    places: Seq<(Seq<char>, Seq<char>)>,
) -> Seq<char> {
    match find(places, name) {
        Some(p) => p,
        None => match spec {
            DepSpecView::Path { path } => path,
            _ => Seq::empty(),
        },
    }
}

/// Dependencies on Rust crates, each on a line of its own.
pub open spec fn rust_dep_lines(
    deps: Seq<(Seq<char>, DepSpecView)>,
    places: Seq<(Seq<char>, Seq<char>)>,
) -> Seq<char>
    decreases deps.len(),
{
    if deps.len() == 0 {
        Seq::empty()
    } else {
        let (name, spec) = deps.last();
        rust_dep_lines(deps.drop_last(), places) + name + " = "@ + dep_text(
            spec,
            place_of(name, spec, places),
        ) + "\n"@
    }
}

fn append_rust_deps(s: &mut String, manifest: &Manifest, places: &NameMap<String>)
    ensures
        final(s)@ == old(s)@ + rust_dep_lines(manifest@.rust_dependencies, places@),
{
    let ghost start = s@;
    let ghost all = manifest@.rust_dependencies;
    let n: usize = manifest.rust_dependencies.len();
    let mut i: usize = 0;
    assert(all.take(0) =~= Seq::empty());
    assert(s@ =~= start + rust_dep_lines(all.take(0), places@));
    while i < n
        invariant
            i <= n,
            n == all.len(),
            all == manifest.rust_dependencies@,
            s@ == start + rust_dep_lines(all.take(i as int), places@),
        decreases n - i,
    {
        assert(all.take(i + 1).drop_last() =~= all.take(i as int));
        assert(all.take(i + 1).last() == all[i as int]);
        let name = manifest.rust_dependencies.key_at(i);
        let spec = manifest.rust_dependencies.value_at(i);
        let place = match places.get(name) {
            Some(p) => p.clone(),
            None => match spec {
                DepSpec::Path { path } => path.clone(),
                _ => {
                    let none = String::new();
                    assert(none@ =~= Seq::empty());
                    none
                },
            },
        };
        s.append(name);
        s.append(" = ");
        let rendered = render_dep(spec, &place);
        s.append(&rendered);
        s.append("\n");
        assert(s@ =~= start + rust_dep_lines(all.take(i + 1), places@));
        i += 1;
    }
    assert(all.take(n as int) =~= all);
}

/// Dependencies on stub crates of the workspace, each on a line of its own.
pub open spec fn stub_dep_lines(deps: Seq<StubNamesView>) -> Seq<char>
    decreases deps.len(),
{
    if deps.len() == 0 {
        Seq::empty()
    } else {
        stub_dep_lines(deps.drop_last()) + deps.last().crate_name + " = { package = \""@
            + deps.last().pkg_name + "\", path = \"../"@ + deps.last().dir_name + "\" }\n"@
    }
}

fn append_stub_deps(s: &mut String, deps: &Vec<StubNames>)
    ensures
        final(s)@ == old(s)@ + stub_dep_lines(views(deps@)),
{
    let ghost start = s@;
    let ghost all = views(deps@);
    let mut i: usize = 0;
    assert(all.take(0) =~= Seq::empty());
    assert(s@ =~= start + stub_dep_lines(all.take(0)));
    while i < deps.len()
        invariant
            i <= deps@.len(),
            all == views(deps@),
            s@ == start + stub_dep_lines(all.take(i as int)),
        decreases deps@.len() - i,
    {
        assert(all.take(i + 1).drop_last() =~= all.take(i as int));
        assert(all.take(i + 1).last() == deps@[i as int]@);
        s.append(&deps[i].crate_name);
        s.append(" = { package = \"");
        s.append(&deps[i].pkg_name);
        s.append("\", path = \"../");
        s.append(&deps[i].dir_name);
        s.append("\" }\n");
        assert(s@ =~= start + stub_dep_lines(all.take(i + 1)));
        i += 1;
    }
    assert(all.take(deps@.len() as int) =~= all);
}

/// The manifest of the binary. It depends on the stub crate of the root, on
/// all Rust crates that the root depends on, and on the stub crates that the
/// root depends on.
pub open spec fn user_bin_text(
    root: ManifestView,
    deps: Seq<StubNamesView>,
    places: Seq<(Seq<char>, Seq<char>)>,
) -> Seq<char> {
    let name = sanitized(root.project.name);
    "[package]\nname = \""@ + name + "\"\nversion = \"0.0.0\"\nedition = \""@ + root.project.edition
        + "\"\n\n[[bin]]\nname = \""@ + name
        + "\"\npath = \"src/main.rs\"\n\n[dependencies]\n__lang_stubs = { package = \"lang_stubs_"@
        + name + "\", path = \"../lang_stubs_crate\" }\n"@ + rust_dep_lines(
        root.rust_dependencies,
        places,
    ) + stub_dep_lines(deps)
}

/// The manifest of the binary.
pub fn user_bin_cargo_toml(root: &Manifest, deps: &Vec<StubNames>, places: &NameMap<String>) -> (r:
    String)
    ensures
        r@ == user_bin_text(root@, views(deps@), places@),
{
    let name = sanitize_name(&root.project.name);
    let mut s = owned("[package]\nname = \"");
    s.append(&name);
    s.append("\"\nversion = \"0.0.0\"\nedition = \"");
    s.append(&root.project.edition);
    s.append("\"\n\n[[bin]]\nname = \"");
    s.append(&name);
    s.append(
        "\"\npath = \"src/main.rs\"\n\n[dependencies]\n__lang_stubs = { package = \"lang_stubs_",
    );
    s.append(&name);
    s.append("\", path = \"../lang_stubs_crate\" }\n");
    append_rust_deps(&mut s, root, places);
    append_stub_deps(&mut s, deps);
    s
}

/// Language features, each on a line of its own, and an empty line behind
/// them.
pub open spec fn feature_lines(features: Seq<Seq<char>>) -> Seq<char>
    decreases features.len(),
{
    if features.len() == 0 {
        Seq::empty()
    } else {
        feature_lines(features.drop_last()) + "#![feature("@ + features.last() + ")]\n"@
    }
}

/// An empty line behind what is there.
pub open spec fn gap(any: bool) -> Seq<char> {
    if any {
        "\n"@
    } else {
        Seq::empty()
    }
}

fn append_features(s: &mut String, features: &Vec<String>)
    ensures
        final(s)@ == old(s)@ + feature_lines(views(features@)) + gap(features@.len() > 0),
{
    let ghost start = s@;
    let ghost all = views(features@);
    let mut i: usize = 0;
    assert(all.take(0) =~= Seq::empty());
    assert(s@ =~= start + feature_lines(all.take(0)));
    while i < features.len()
        invariant
            i <= features@.len(),
            all == views(features@),
            s@ == start + feature_lines(all.take(i as int)),
        decreases features@.len() - i,
    {
        assert(all.take(i + 1).drop_last() =~= all.take(i as int));
        assert(all.take(i + 1).last() == features@[i as int]@);
        s.append("#![feature(");
        s.append(&features[i]);
        s.append(")]\n");
        assert(s@ =~= start + feature_lines(all.take(i + 1)));
        i += 1;
    }
    assert(all.take(features@.len() as int) =~= all);
    if features.len() > 0 {
        s.append("\n");
    }
    assert(s@ =~= start + feature_lines(all) + gap(features@.len() > 0));
}

/// Lines that make the compiler load some crates.
pub open spec fn load_lines(crates: Seq<Seq<char>>) -> Seq<char>
    decreases crates.len(),
{
    if crates.len() == 0 {
        Seq::empty()
    } else {
        load_lines(crates.drop_last()) + "extern crate "@ + crates.last() + " as _;\n"@
    }
}

/// The names of some stub crates in Rust source.
pub open spec fn crates_of(names: Seq<StubNamesView>) -> Seq<Seq<char>> {
    Seq::new(names.len(), |i: int| names[i].crate_name)
}

fn append_load(s: &mut String, deps: &Vec<StubNames>)
    ensures
        final(s)@ == old(s)@ + load_lines(crates_of(views(deps@))),
{
    let ghost start = s@;
    let ghost all = crates_of(views(deps@));
    let mut i: usize = 0;
    assert(all.take(0) =~= Seq::empty());
    assert(s@ =~= start + load_lines(all.take(0)));
    while i < deps.len()
        invariant
            i <= deps@.len(),
            all == crates_of(views(deps@)),
            s@ == start + load_lines(all.take(i as int)),
        decreases deps@.len() - i,
    {
        assert(all.take(i + 1).drop_last() =~= all.take(i as int));
        assert(all.take(i + 1).last() == deps@[i as int].crate_name@);
        s.append("extern crate ");
        s.append(&deps[i].crate_name);
        s.append(" as _;\n");
        assert(s@ =~= start + load_lines(all.take(i + 1)));
        i += 1;
    }
    assert(all.take(deps@.len() as int) =~= all);
}

/// The lines that register the tool to which the tag of a stub belongs. A
/// feature is named once.
pub open spec fn tool_lines(features: Seq<Seq<char>>) -> Seq<char> {
    (if features.contains("register_tool"@) {
        Seq::empty()
    } else {
        "#![feature(register_tool)]\n"@
    }) + "#![register_tool(toylang)]\n\n"@
}

fn append_tool(s: &mut String, features: &Vec<String>)
    ensures
        final(s)@ == old(s)@ + tool_lines(views(features@)),
{
    let ghost start = s@;
    let ghost all = views(features@);
    let mut named = false;
    let mut i: usize = 0;
    while i < features.len()
        invariant
            i <= features@.len(),
            all == views(features@),
            s@ == start,
            start == old(s)@,
            named == all.take(i as int).contains("register_tool"@),
        decreases features@.len() - i,
    {
        let here = same_text(&features[i], "register_tool");
        proof {
            let before = all.take(i as int);
            let more = all.take(i + 1);
            assert(more[i as int] == features@[i as int]@);
            if before.contains("register_tool"@) {
                let k = choose|k: int| 0 <= k < before.len() && before[k] == "register_tool"@;
                assert(more[k] == "register_tool"@);
            }
            if more.contains("register_tool"@) && !here {
                let k = choose|k: int| 0 <= k < more.len() && more[k] == "register_tool"@;
                assert(before[k] == "register_tool"@);
            }
        }
        named = named || here;
        i += 1;
    }
    assert(all.take(features@.len() as int) =~= all);
    if !named {
        s.append("#![feature(register_tool)]\n");
    }
    s.append("#![register_tool(toylang)]\n\n");
    assert(s@ =~= start + tool_lines(all));
}

/// The source of a stub crate, around what the project declares.
pub open spec fn stub_lib_text(
    project: ResolvedProjectView,
    deps: Seq<StubNamesView>,
    stubs: Seq<char>,
) -> Seq<char> {
    let features = project.manifest.project.features;
    "#![no_builtins]\n\n"@ + tool_lines(features) + feature_lines(features) + gap(features.len() > 0) + load_lines(
        crates_of(deps),
    ) + gap(deps.len() > 0) + stubs
}

/// The source of a stub crate, around what the project declares.
pub fn stub_lib_source(project: &ResolvedProject, deps: &Vec<StubNames>, stubs: &str) -> (r: String)
    ensures
        r@ == stub_lib_text(project@, views(deps@), stubs@),
{
    let mut s = owned("#![no_builtins]\n\n");
    append_tool(&mut s, &project.manifest.project.features);
    append_features(&mut s, &project.manifest.project.features);
    append_load(&mut s, deps);
    if deps.len() > 0 {
        s.append("\n");
    }
    s.append(stubs);
    assert(s@ =~= stub_lib_text(project@, views(deps@), stubs@));
    s
}

/// The manifest of a stub crate.
pub open spec fn stub_cargo_text(
    project: ResolvedProjectView,
    names: StubNamesView,
    deps: Seq<StubNamesView>,
    places: Seq<(Seq<char>, Seq<char>)>,
) -> Seq<char> {
    "[package]\nname = \""@ + names.pkg_name + "\"\nversion = \"0.0.0\"\nedition = \""@
        + project.manifest.project.edition + "\"\n\n[lib]\nname = \""@ + names.crate_name
        + "\"\npath = \"src/lib.rs\"\ncrate-type = [\"rlib\"]\n"@ + (if project.manifest.rust_dependencies.len()
        > 0 || deps.len() > 0 {
        "\n[dependencies]\n"@ + rust_dep_lines(project.manifest.rust_dependencies, places)
            + stub_dep_lines(deps)
    } else {
        Seq::empty()
    })
}

/// The manifest of a stub crate.
pub fn stub_cargo_toml(
    project: &ResolvedProject,
    names: &StubNames,
    deps: &Vec<StubNames>,
    places: &NameMap<String>,
) -> (r: String)
    ensures
        r@ == stub_cargo_text(project@, names@, views(deps@), places@),
{
    let mut s = owned("[package]\nname = \"");
    s.append(&names.pkg_name);
    s.append("\"\nversion = \"0.0.0\"\nedition = \"");
    s.append(&project.manifest.project.edition);
    s.append("\"\n\n[lib]\nname = \"");
    s.append(&names.crate_name);
    s.append("\"\npath = \"src/lib.rs\"\ncrate-type = [\"rlib\"]\n");
    if project.manifest.rust_dependencies.len() > 0 || deps.len() > 0 {
        s.append("\n[dependencies]\n");
        append_rust_deps(&mut s, &project.manifest, places);
        append_stub_deps(&mut s, deps);
    }
    assert(s@ =~= stub_cargo_text(project@, names@, views(deps@), places@));
    s
}

/// The manifest that goes into the directory of a stub crate, so that the
/// compilation of that crate finds the source of its project.
pub open spec fn copied_text(manifest: ManifestView, source: Seq<char>) -> Seq<char> {
    "[project]\nname = \""@ + manifest.project.name + "\"\nsource = "@ + debug_text(source)
        + "\nedition = \""@ + manifest.project.edition + "\"\n"@ + (if manifest.project.features.len()
        == 0 {
        Seq::empty()
    } else {
        "features = ["@ + quoted_list(manifest.project.features) + "]\n"@
    })
}

/// The manifest that goes into the directory of a stub crate.
pub fn copied_manifest(manifest: &Manifest, source: &str) -> (r: String)
    ensures
        r@ == copied_text(manifest@, source@),
{
    let mut s = owned("[project]\nname = \"");
    s.append(&manifest.project.name);
    s.append("\"\nsource = ");
    let quoted = debug_str(source);
    s.append(&quoted);
    s.append("\nedition = \"");
    s.append(&manifest.project.edition);
    s.append("\"\n");
    if manifest.project.features.len() > 0 {
        s.append("features = [");
        append_quoted_list(&mut s, &manifest.project.features);
        s.append("]\n");
    }
    assert(s@ =~= copied_text(manifest@, source@));
    s
}

/// The names of some dependencies.
pub open spec fn dep_names(deps: Seq<(Seq<char>, DepSpecView)>) -> Seq<Seq<char>> {
    Seq::new(deps.len(), |i: int| deps[i].0)
}

/// Text that ends in a line break.
pub open spec fn ended_line(s: Seq<char>) -> Seq<char> {
    if s.len() > 0 && s.last() == '\n' {
        s
    } else {
        s.push('\n')
    }
}

/// The source of the binary: what makes it load all crates, and then the Rust
/// source that was given, or a `main` that calls toylang's.
pub open spec fn main_text(
    root: ManifestView,
    deps: Seq<StubNamesView>,
    caller: Option<Seq<char>>,
) -> Seq<char> {
    let features = root.project.features;
    feature_lines(features) + gap(features.len() > 0) + "use __lang_stubs::*;\n"@ + load_lines(
        dep_names(root.rust_dependencies),
    ) + load_lines(crates_of(deps)) + "\n"@ + (match caller {
        Some(source) => ended_line(source),
        None => "fn main() { __toylang_main(); }\n"@,
    })
}

/// The source of the binary.
pub fn main_shim(root: &Manifest, deps: &Vec<StubNames>, caller: Option<&String>) -> (r: String)
    ensures
        r@ == main_text(
            root@,
            views(deps@),
            match caller {
                Some(c) => Some(c@),
                None => None,
            },
        ),
{
    let mut s = String::new();
    assert(s@ =~= Seq::empty());
    append_features(&mut s, &root.project.features);
    s.append("use __lang_stubs::*;\n");
    let ghost start = s@;
    let ghost all = dep_names(root@.rust_dependencies);
    let n: usize = root.rust_dependencies.len();
    let mut i: usize = 0;
    assert(all.take(0) =~= Seq::empty());
    assert(s@ =~= start + load_lines(all.take(0)));
    while i < n
        invariant
            i <= n,
            n == all.len(),
            all == dep_names(root@.rust_dependencies),
            s@ == start + load_lines(all.take(i as int)),
        decreases n - i,
    {
        assert(all.take(i + 1).drop_last() =~= all.take(i as int));
        assert(all.take(i + 1).last() == root.rust_dependencies@[i as int].0);
        s.append("extern crate ");
        s.append(root.rust_dependencies.key_at(i));
        s.append(" as _;\n");
        assert(s@ =~= start + load_lines(all.take(i + 1)));
        i += 1;
    }
    assert(all.take(n as int) =~= all);
    append_load(&mut s, deps);
    s.append("\n");
    match caller {
        Some(source) => {
            s.append(source);
            let chars = chars_of(source);
            if chars.len() == 0 || chars[chars.len() - 1] != '\n' {
                s.push('\n');
            }
        },
        None => {
            s.append("fn main() { __toylang_main(); }\n");
        },
    }
    proof {
        let want = main_text(
            root@,
            views(deps@),
            match caller {
                Some(c) => Some(c@),
                None => None,
            },
        );
        assert(s@ =~= want);
    }
    s
}

/// The file that selects the toolchain.
pub fn toolchain_toml() -> (r: String)
    ensures
        r@ == "[toolchain]\nchannel = \""@ + TOYLANG_NIGHTLY@ + "\"\n"@,
{
    let mut s = owned("[toolchain]\nchannel = \"");
    s.append(TOYLANG_NIGHTLY);
    s.append("\"\n");
    s
}

/// Where the first line break stands, or the end.
pub open spec fn line_end(s: Seq<char>) -> nat
    decreases s.len(),
{
    if s.len() == 0 || s[0] == '\n' {
        0
    } else {
        1 + line_end(s.drop_first())
    }
}

/// The first line that starts with `host:`.
pub open spec fn host_line(s: Seq<char>) -> Option<Seq<char>>
    decreases s.len(),
{
    let end = line_end(s);
    if has_prefix(s.take(end as int), "host:"@) {
        Some(s.take(end as int))
    } else if end < s.len() {
        host_line(s.skip((end + 1) as int))
    } else {
        None
    }
}

/// A line without the `host:`s at its start.
pub open spec fn strip_host(s: Seq<char>) -> Seq<char>
    decreases s.len(),
{
    if has_prefix(s, "host:"@) && s.len() >= 5 {
        strip_host(s.skip(5))
    } else {
        s
    }
}

/// The target of the machine, from what the Rust compiler says of its version.
pub open spec fn host(s: Seq<char>) -> Option<Seq<char>> {
    match host_line(s) {
        Some(line) => Some(trim(strip_host(line))),
        None => None,
    }
}

fn has_host(s: &[char]) -> (r: bool)
    ensures
        r == has_prefix(s@, "host:"@),
        r ==> s@.len() >= 5,
{
    proof {
        reveal_strlit("host:");
    }
    let r = s.len() >= 5 && s[0] == 'h' && s[1] == 'o' && s[2] == 's' && s[3] == 't' && s[4]
        == ':';
    proof {
        if r {
            assert(s@.take(5) =~= "host:"@);
        } else if s@.len() >= 5 {
            assert(s@.take(5)[0] == s@[0]);
            assert(s@.take(5)[1] == s@[1]);
            assert(s@.take(5)[2] == s@[2]);
            assert(s@.take(5)[3] == s@[3]);
            assert(s@.take(5)[4] == s@[4]);
        }
    }
    r
}

/// The target of the machine, from what the Rust compiler says of its version.
pub fn host_triple(text: &str) -> (r: Option<String>)
    ensures
        (match r {
            Some(s) => Some(s@),
            None => None,
        }) == host(text@),
{
    let chars = chars_of(text);
    let mut rest = chars.as_slice();
    loop
        invariant
            host_line(text@) == host_line(rest@),
        decreases rest@.len(),
    {
        let n: usize = rest.len();
        let mut end: usize = 0;
        assert(rest@.skip(0) =~= rest@);
        while end < n && rest[end] != '\n'
            invariant
                end <= n,
                n == rest@.len(),
                line_end(rest@) == end + line_end(rest@.skip(end as int)),
            decreases n - end,
        {
            assert(rest@.skip(end as int).drop_first() =~= rest@.skip(end + 1));
            end += 1;
        }
        assert(line_end(rest@) == end);
        let line = slice_subrange(rest, 0, end);
        assert(line@ =~= rest@.take(end as int));
        if has_host(line) {
            let mut cut = line;
            while has_host(cut)
                invariant
                    strip_host(line@) == strip_host(cut@),
                decreases cut@.len(),
            {
                let m: usize = cut.len();
                assert(cut@.subrange(5, m as int) =~= cut@.skip(5));
                cut = slice_subrange(cut, 5, m);
            }
            let name = trimmed(cut);
            let mut s = String::new();
            let mut i: usize = 0;
            while i < name.len()
                invariant
                    i <= name@.len(),
                    s@ == name@.take(i as int),
                decreases name@.len() - i,
            {
                s.push(name[i]);
                assert(name@.take(i + 1) =~= name@.take(i as int).push(name@[i as int]));
                i += 1;
            }
            assert(name@.take(name@.len() as int) =~= name@);
            return Some(s);
        }
        if end >= n {
            return None;
        }
        assert(rest@.subrange(end + 1, n as int) =~= rest@.skip(end + 1));
        rest = slice_subrange(rest, end + 1, n);
    }
}

/// Which way a run takes.
#[derive(Debug, PartialEq)]
pub enum Mode {
    /// Builds the project of that manifest.
    Build { manifest: String },
    /// Stands in for the Rust compiler, with the arguments that are for it.
    Wrapper { args: Vec<String> },
    /// Neither.
    Usage,
}

/// What a [`Mode`] says.
pub enum ModeView {
    Build { manifest: Seq<char> },
    Wrapper { args: Seq<Seq<char>> },
    Usage,
}

impl View for Mode {
    type V = ModeView;

    open spec fn view(&self) -> ModeView {
        match self {
            Mode::Build { manifest } => ModeView::Build { manifest: manifest@ },
            Mode::Wrapper { args } => ModeView::Wrapper { args: views(args@) },
            Mode::Usage => ModeView::Usage,
        }
    }
}

/// Which way a run with these arguments takes. `stem` is the name of the file
/// that the first argument behind the program's own name points to, without
/// its extension.
pub open spec fn mode(argv: Seq<Seq<char>>, stem: Option<Seq<char>>) -> ModeView {
    if argv.len() > 1 && argv[1] == "build"@ {
        ModeView::Build {
            manifest: if argv.len() > 2 {
                argv[2]
            } else {
                "toylang.toml"@
            },
        }
    } else if argv.len() > 1 && stem == Some("rustc"@) {
        ModeView::Wrapper { args: argv.remove(1) }
    } else {
        ModeView::Usage
    }
}

/// Which way a run takes.
pub fn choose_mode(argv: &Vec<String>, stem: Option<&String>) -> (r: Mode)
    ensures
        r@ == mode(
            views(argv@),
            match stem {
                Some(s) => Some(s@),
                None => None,
            },
        ),
{
    if argv.len() > 1 && same_text(&argv[1], "build") {
        return Mode::Build {
            manifest: if argv.len() > 2 {
                argv[2].clone()
            } else {
                owned("toylang.toml")
            },
        };
    }
    let wraps = match stem {
        Some(s) => same_text(s, "rustc"),
        None => false,
    };
    if argv.len() > 1 && wraps {
        let mut args: Vec<String> = Vec::new();
        args.push(argv[0].clone());
        let mut i: usize = 2;
        while i < argv.len()
            invariant
                2 <= i <= argv@.len(),
                args@.len() == i - 1,
                args@[0]@ == argv@[0]@,
                forall|j: int| 1 <= j < i - 1 ==> (#[trigger] args@[j])@ == argv@[j + 1]@,
            decreases argv@.len() - i,
        {
            args.push(argv[i].clone());
            i += 1;
        }
        assert(views(args@) =~= views(argv@).remove(1));
        return Mode::Wrapper { args };
    }
    Mode::Usage
}

/// Whether a package is the binary, rather than a stub crate.
pub fn is_user_bin_compile(pkg_name: &str) -> (r: bool)
    ensures
        r == !has_prefix(pkg_name@, "lang_stubs_"@),
{
    !starts_with(pkg_name, "lang_stubs_")
}

/// Whether some function has a body.
pub open spec fn any_body(fs: Seq<(Seq<char>, ToyFunctionView)>) -> bool {
    exists|i: int| 0 <= i < fs.len() && (#[trigger] fs[i]).1.body is Some
}

/// Whether a registry has a function with a body.
pub fn has_functions(registry: &ToylangRegistry) -> (r: bool)
    ensures
        r == any_body(registry@.functions),
{
    let n: usize = registry.functions.len();
    let mut i: usize = 0;
    while i < n
        invariant
            i <= n,
            n == registry.functions@.len(),
            forall|j: int| 0 <= j < i ==> (#[trigger] registry@.functions[j]).1.body is None,
        decreases n - i,
    {
        assert(registry@.functions[i as int] == registry.functions@[i as int]);
        if registry.functions.value_at(i).body.is_some() {
            return true;
        }
        i += 1;
    }
    false
}

/// The arguments for the Rust compiler: with functions to emit, the number of
/// code generation units is fixed.
pub open spec fn compile_args(args: Seq<Seq<char>>, emits: bool) -> Seq<Seq<char>> {
    if emits {
        args.push("-C"@).push("codegen-units=16"@)
    } else {
        args
    }
}

/// The arguments for the Rust compiler.
pub fn compiler_args(registry: &ToylangRegistry, args: Vec<String>) -> (r: Vec<String>)
    ensures
        views(r@) == compile_args(views(args@), any_body(registry@.functions)),
{
    let ghost before = views(args@);
    let mut out = args;
    if has_functions(registry) {
        out.push(owned("-C"));
        out.push(owned("codegen-units=16"));
        assert(views(out@) =~= before.push("-C"@).push("codegen-units=16"@));
    }
    out
}

/// Whether a compilation emits an object file of its own: only that of the
/// binary does, and only with functions to emit.
pub fn emits_object(registry: &ToylangRegistry, is_user_bin: bool) -> (r: bool)
    ensures
        r == (is_user_bin && any_body(registry@.functions)),
{
    is_user_bin && has_functions(registry)
}

} // verus!
