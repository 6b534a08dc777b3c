//! The order of projects.
use toylangc::manifest::{default_edition, resolve_dep_graph, GraphStop, LoadedProject, Manifest, Project, ResolvedProject, ToylangDepSpec};
use toylangc::names::NameMap;

/// Projects by the places of their manifests. Where a dependency is follows
/// from the path that is written.
fn write_project(loaded: &mut NameMap<LoadedProject>, dir: &str, name: &str, toylang_deps: &[(&str, &str)]) {
    let mut toylang_dependencies = NameMap::new();
    let mut dep_paths = NameMap::new();
    for (dep_name, dep_path) in toylang_deps {
        toylang_dependencies.insert(dep_name.to_string(), ToylangDepSpec { path: dep_path.to_string() });
        dep_paths.insert(dep_name.to_string(), format!("/tmp/{}/toylang.toml", dep_path.trim_start_matches("../")));
    }
    let manifest = Manifest {
        project: Project {
            name: name.to_string(),
            source: "main.toylang".to_string(),
            edition: default_edition(),
            features: vec![],
            rust_caller: None,
        },
        rust_dependencies: NameMap::new(),
        toylang_dependencies,
    };
    let project_dir = format!("/tmp/{}", dir);
    loaded.insert(format!("{}/toylang.toml", project_dir), LoadedProject { manifest, project_dir, dep_paths });
}

fn graph(loaded: &NameMap<LoadedProject>, dir: &str) -> Result<Vec<ResolvedProject>, GraphStop> {
    resolve_dep_graph(&format!("/tmp/{}/toylang.toml", dir), loaded)
}

#[test]
fn test_resolve_dep_graph_root_only() {
    let mut tmp = NameMap::new();
    write_project(&mut tmp, "root", "root", &[]);
    let graph = graph(&tmp, "root").unwrap();
    assert_eq!(graph.len(), 1);
    assert_eq!(graph[0].manifest.project.name, "root");
    assert!(graph[0].toylang_dep_names.is_empty());
}

#[test]
fn test_resolve_dep_graph_root_plus_dep() {
    let mut tmp = NameMap::new();
    write_project(&mut tmp, "my_utils", "my_utils", &[]);
    write_project(&mut tmp, "app", "app", &[("my_utils", "../my_utils")]);
    let graph = graph(&tmp, "app").unwrap();
    assert_eq!(graph.len(), 2);
    assert_eq!(graph[0].manifest.project.name, "my_utils");
    assert_eq!(graph[1].manifest.project.name, "app");
    assert_eq!(graph[1].toylang_dep_names, vec!["my_utils".to_string()]);
}

#[test]
fn test_resolve_dep_graph_cycle_detected() {
    let mut tmp = NameMap::new();
    write_project(&mut tmp, "a", "a", &[("b", "../b")]);
    write_project(&mut tmp, "b", "b", &[("a", "../a")]);
    let err = graph(&tmp, "a").unwrap_err().to_text();
    assert!(err.contains("cycle"), "expected cycle error, got: {}", err);
    assert_eq!(err, "toylang dependency cycle: /tmp/a/toylang.toml -> /tmp/b/toylang.toml -> /tmp/a/toylang.toml");
}

#[test]
fn test_resolve_dep_graph_name_mismatch() {
    let mut tmp = NameMap::new();
    write_project(&mut tmp, "utils_v2", "utils_v2", &[]);
    write_project(&mut tmp, "app", "app", &[("my_utils", "../utils_v2")]);
    let err = graph(&tmp, "app").unwrap_err().to_text();
    assert!(err.contains("does not match"), "expected name-mismatch error, got: {}", err);
}

#[test]
fn dependencies_come_first_in_a_diamond() {
    let mut tmp = NameMap::new();
    write_project(&mut tmp, "base", "base", &[]);
    write_project(&mut tmp, "left", "left", &[("base", "../base")]);
    write_project(&mut tmp, "right", "right", &[("base", "../base")]);
    write_project(&mut tmp, "app", "app", &[("right", "../right"), ("left", "../left")]);
    let names: Vec<String> = graph(&tmp, "app").unwrap().into_iter().map(|p| p.manifest.project.name).collect();
    assert_eq!(names, vec!["base", "left", "right", "app"]);
}

#[test]
fn what_has_to_be_read_is_named() {
    let mut tmp = NameMap::new();
    match graph(&tmp, "app") {
        Err(GraphStop::ReadManifest { path }) => assert_eq!(path, "/tmp/app/toylang.toml"),
        other => panic!("{:?}", other),
    }
    write_project(&mut tmp, "app", "app", &[("dep", "../dep")]);
    match graph(&tmp, "app") {
        Err(GraphStop::ReadManifest { path }) => assert_eq!(path, "/tmp/dep/toylang.toml"),
        other => panic!("{:?}", other),
    }
    let mut app = LoadedProject {
        manifest: Manifest {
            project: Project {
                name: "app".to_string(),
                source: "main.toylang".to_string(),
                edition: default_edition(),
                features: vec![],
                rust_caller: None,
            },
            rust_dependencies: NameMap::new(),
            toylang_dependencies: NameMap::new(),
        },
        project_dir: "/tmp/app".to_string(),
        dep_paths: NameMap::new(),
    };
    app.manifest.toylang_dependencies.insert("dep".to_string(), ToylangDepSpec { path: "../dep".to_string() });
    let mut tmp = NameMap::new();
    tmp.insert("/tmp/app/toylang.toml".to_string(), app);
    match graph(&tmp, "app") {
        Err(GraphStop::LocateDep { path, dep }) => {
            assert_eq!(path, "/tmp/app/toylang.toml");
            assert_eq!(dep, "dep");
        }
        other => panic!("{:?}", other),
    }
}

#[test]
fn two_projects_of_one_name_are_refused() {
    let mut tmp = NameMap::new();
    write_project(&mut tmp, "x", "x", &[]);
    // Another project that calls itself like the root.
    write_project(&mut tmp, "app", "x2", &[("x", "../x")]);
    assert_eq!(graph(&tmp, "app").unwrap().len(), 2);
    write_project(&mut tmp, "app", "x", &[("x", "../x")]);
    let err = graph(&tmp, "app").unwrap_err();
    assert_eq!(
        err.to_text(),
        "two distinct toylang projects share the name 'x': /tmp/x/toylang.toml and /tmp/app/toylang.toml",
    );
    assert!(matches!(err, GraphStop::SharedName { .. }));
}

#[test]
fn edition_defaults() {
    assert_eq!(default_edition(), "2021");
}

#[test]
fn exactly_what_the_root_reaches_is_in_the_graph() {
    let mut tmp = NameMap::new();
    write_project(&mut tmp, "base", "base", &[]);
    write_project(&mut tmp, "left", "left", &[("base", "../base")]);
    write_project(&mut tmp, "right", "right", &[("base", "../base"), ("left", "../left")]);
    write_project(&mut tmp, "app", "app", &[("left", "../left"), ("right", "../right")]);
    write_project(&mut tmp, "other", "other", &[("app", "../app")]);
    let done = graph(&tmp, "app").unwrap();
    let names: Vec<&str> = done.iter().map(|p| p.manifest.project.name.as_str()).collect();
    assert_eq!(names, vec!["base", "left", "right", "app"]);
    assert_eq!(done[2].toylang_dep_names, vec!["base".to_string(), "left".to_string()]);
    // A circle somewhere behind the root is reported.
    write_project(&mut tmp, "base", "base", &[("right", "../right")]);
    assert!(matches!(graph(&tmp, "app"), Err(GraphStop::Cycle { .. })));
    // One that the root does not reach is not.
    write_project(&mut tmp, "base", "base", &[]);
    write_project(&mut tmp, "other", "other", &[("other", "../other")]);
    assert_eq!(graph(&tmp, "app").unwrap().len(), 4);
}
