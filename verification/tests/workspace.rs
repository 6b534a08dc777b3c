//! What a build writes, and which way a run takes.
use toylangc::manifest::{DepSpec, Manifest, Project, ResolvedProject};
use toylangc::names::NameMap;
use toylangc::toylang::parser::parse;
use toylangc::workspace::{
    choose_mode, compiler_args, copied_manifest, dep_stub_names, emits_object, host_triple, is_user_bin_compile, main_shim, render_dep,
    sanitize_name, stub_cargo_toml, stub_lib_source, stub_names, toolchain_toml, user_bin_cargo_toml, workspace_toml, Mode, StubNames,
};

fn project(name: &str, features: &[&str], deps: &[&str]) -> ResolvedProject {
    ResolvedProject {
        manifest: Manifest {
            project: Project {
                name: name.to_string(),
                source: "main.toylang".to_string(),
                edition: "2021".to_string(),
                features: features.iter().map(|f| f.to_string()).collect(),
                rust_caller: None,
            },
            rust_dependencies: NameMap::new(),
            toylang_dependencies: NameMap::new(),
        },
        manifest_path: format!("/p/{}/toylang.toml", name),
        project_dir: format!("/p/{}", name),
        toylang_dep_names: deps.iter().map(|d| d.to_string()).collect(),
    }
}

fn names(dir: &str, krate: &str, pkg: &str) -> StubNames {
    StubNames { dir_name: dir.to_string(), crate_name: krate.to_string(), pkg_name: pkg.to_string() }
}

#[test]
fn hyphens_become_underscores() {
    assert_eq!(sanitize_name("my-app-2"), "my_app_2");
    assert_eq!(sanitize_name(""), "");
}

#[test]
fn the_root_has_fixed_names() {
    let graph = vec![project("my-utils", &[], &[]), project("app", &[], &["my-utils"])];
    let all = stub_names(&graph);
    assert_eq!(
        all,
        vec![
            names("lang_stubs_my_utils", "my_utils", "lang_stubs_my_utils"),
            names("lang_stubs_crate", "__lang_stubs", "lang_stubs_app"),
        ],
    );
    assert_eq!(
        workspace_toml(&all),
        "[workspace]\nmembers = [\"lang_stubs_my_utils\", \"lang_stubs_crate\", \"user_bin\"]\nresolver = \"2\"\n",
    );
    let deps = dep_stub_names(&graph, &all, &graph[1].toylang_dep_names).unwrap();
    assert_eq!(deps, vec![names("lang_stubs_my_utils", "my_utils", "lang_stubs_my_utils")]);
    assert_eq!(dep_stub_names(&graph, &all, &vec!["nowhere".to_string()]), None);
}

#[test]
fn dependencies_are_rendered() {
    assert_eq!(render_dep(&DepSpec::Version("0.8".to_string()), ""), "\"0.8\"");
    assert_eq!(render_dep(&DepSpec::Path { path: "../x".to_string() }, "/a \"b\"/x"), "{ path = \"/a \\\"b\\\"/x\" }");
    let detailed = |features: Vec<&str>, default_features| DepSpec::Detailed {
        version: "1".to_string(),
        features: features.iter().map(|f| f.to_string()).collect(),
        default_features,
    };
    assert_eq!(render_dep(&detailed(vec![], None), ""), "{ version = \"1\" }");
    assert_eq!(
        render_dep(&detailed(vec!["unicode", "std"], Some(false)), ""),
        "{ version = \"1\", features = [\"unicode\", \"std\"], default-features = false }",
    );
    assert_eq!(render_dep(&detailed(vec![], Some(true)), ""), "{ version = \"1\", default-features = true }");
}

#[test]
fn manifests_of_the_workspace() {
    let mut app = project("my-app", &["step_trait"], &["utils"]);
    app.manifest.rust_dependencies.insert("rand".to_string(), DepSpec::Version("0.8".to_string()));
    app.manifest.rust_dependencies.insert("helpers".to_string(), DepSpec::Path { path: "../h".to_string() });
    let deps = vec![names("lang_stubs_utils", "utils", "lang_stubs_utils")];
    let mut places = NameMap::new();
    places.insert("helpers".to_string(), "/p/h".to_string());
    assert_eq!(
        user_bin_cargo_toml(&app.manifest, &deps, &places),
        "[package]\nname = \"my_app\"\nversion = \"0.0.0\"\nedition = \"2021\"\n\n[[bin]]\nname = \"my_app\"\n\
         path = \"src/main.rs\"\n\n[dependencies]\n\
         __lang_stubs = { package = \"lang_stubs_my_app\", path = \"../lang_stubs_crate\" }\n\
         helpers = { path = \"/p/h\" }\nrand = \"0.8\"\n\
         utils = { package = \"lang_stubs_utils\", path = \"../lang_stubs_utils\" }\n",
    );
    let own = names("lang_stubs_crate", "__lang_stubs", "lang_stubs_my_app");
    assert_eq!(
        stub_cargo_toml(&app, &own, &deps, &places),
        "[package]\nname = \"lang_stubs_my_app\"\nversion = \"0.0.0\"\nedition = \"2021\"\n\n[lib]\n\
         name = \"__lang_stubs\"\npath = \"src/lib.rs\"\ncrate-type = [\"rlib\"]\n\n[dependencies]\n\
         helpers = { path = \"/p/h\" }\nrand = \"0.8\"\n\
         utils = { package = \"lang_stubs_utils\", path = \"../lang_stubs_utils\" }\n",
    );
    let bare = project("bare", &[], &[]);
    assert!(!stub_cargo_toml(&bare, &own, &vec![], &NameMap::new()).contains("[dependencies]"));
    assert_eq!(
        stub_lib_source(&app, &deps, "pub struct S;\n"),
        "#![no_builtins]\n\n#![feature(register_tool)]\n#![register_tool(toylang)]\n\n#![feature(step_trait)]\n\n\
         extern crate utils as _;\n\npub struct S;\n",
    );
    assert_eq!(
        stub_lib_source(&bare, &vec![], "x"),
        "#![no_builtins]\n\n#![feature(register_tool)]\n#![register_tool(toylang)]\n\nx",
    );
    let mut named = project("named", &[], &[]);
    named.manifest.project.features.push("register_tool".to_string());
    assert_eq!(
        stub_lib_source(&named, &vec![], "x"),
        "#![no_builtins]\n\n#![register_tool(toylang)]\n\n#![feature(register_tool)]\n\nx",
    );
    assert_eq!(
        copied_manifest(&app.manifest, "/p/my-app/main.toylang"),
        "[project]\nname = \"my-app\"\nsource = \"/p/my-app/main.toylang\"\nedition = \"2021\"\nfeatures = [\"step_trait\"]\n",
    );
    assert_eq!(
        main_shim(&app.manifest, &deps, None),
        "#![feature(step_trait)]\n\nuse __lang_stubs::*;\nextern crate helpers as _;\nextern crate rand as _;\n\
         extern crate utils as _;\n\nfn main() { __toylang_main(); }\n",
    );
    let caller = "fn main() {}".to_string();
    assert_eq!(main_shim(&bare.manifest, &vec![], Some(&caller)), "use __lang_stubs::*;\n\nfn main() {}\n");
    assert_eq!(toolchain_toml(), "[toolchain]\nchannel = \"nightly-2026-01-20\"\n");
}

#[test]
fn modes() {
    let argv = |args: &[&str]| -> Vec<String> { args.iter().map(|a| a.to_string()).collect() };
    assert_eq!(choose_mode(&argv(&["toylangc", "build"]), None), Mode::Build { manifest: "toylang.toml".to_string() });
    assert_eq!(choose_mode(&argv(&["toylangc", "build", "x.toml"]), None), Mode::Build { manifest: "x.toml".to_string() });
    let rustc = "rustc".to_string();
    assert_eq!(
        choose_mode(&argv(&["toylangc", "/bin/rustc", "-v", "x.rs"]), Some(&rustc)),
        Mode::Wrapper { args: argv(&["toylangc", "-v", "x.rs"]) },
    );
    assert_eq!(choose_mode(&argv(&["toylangc", "x"]), Some(&"x".to_string())), Mode::Usage);
    assert_eq!(choose_mode(&argv(&["toylangc"]), None), Mode::Usage);
}

#[test]
fn compilations() {
    assert!(!is_user_bin_compile("lang_stubs_app"));
    assert!(is_user_bin_compile("app"));
    let with = parse("fn main() { }").unwrap();
    let without = parse("fn println_int(x: i32)").unwrap();
    let args = || vec!["toylangc".to_string()];
    assert_eq!(compiler_args(&with, args()), vec!["toylangc", "-C", "codegen-units=16"]);
    assert_eq!(compiler_args(&without, args()), vec!["toylangc"]);
    assert!(emits_object(&with, true));
    assert!(!emits_object(&with, false));
    assert!(!emits_object(&without, true));
}

#[test]
fn host_is_found() {
    let text = "rustc 1.90.0\nbinary: rustc\nhost: aarch64-apple-darwin\r\nrelease: 1.90.0\n";
    assert_eq!(host_triple(text), Some("aarch64-apple-darwin".to_string()));
    assert_eq!(host_triple("host:host: x"), Some("host: x".trim_start_matches("host:").trim().to_string()));
    assert_eq!(host_triple("nothing\n"), None);
    assert_eq!(host_triple(""), None);
}
