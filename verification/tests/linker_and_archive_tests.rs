//! The link planner and the package-archive logic.

use pyrepackager::archive::{strip_first_component, parse_manifest, PackageArchive};
use pyrepackager::dist::{ExtensionModule, LibraryDependency, PythonDistributionInfo};
use pyrepackager::linker::link_libpython_plan;
use pyrepackager::ordmap::OrdMap;
use pyrepackager::project::{is_project_file_path, update_cargo_toml_content, PyembedLocation};
use pyrepackager::scan::{module_name_for_source_path, scan_python_sources};
use pyrepackager::RepackageError;

fn empty_dist() -> PythonDistributionInfo {
    PythonDistributionInfo {
        python_exe: "install/bin/python3".to_string(),
        os: "linux".to_string(),
        version: "3.7.4".to_string(),
        py_modules: OrdMap::new(),
        extension_modules: OrdMap::new(),
        objs_core: OrdMap::new(),
        includes: OrdMap::new(),
        libraries: OrdMap::new(),
        links_core: Vec::new(),
    }
}

fn ext_linking(module: &str, builtin_default: bool, objects: Vec<&str>, links: Vec<LibraryDependency>)
    -> ExtensionModule {
    ExtensionModule {
        module: module.to_string(),
        variant: "default".to_string(),
        builtin_default,
        required: false,
        init_fn: Some(format!("PyInit_{}", module)),
        object_paths: objects.into_iter().map(|s| s.to_string()).collect(),
        links,
    }
}

fn static_dep(name: &str) -> LibraryDependency {
    LibraryDependency {
        name: name.to_string(),
        framework: false,
        system: false,
        static_path: Some(format!("lib/lib{}.a", name)),
        dynamic_path: None,
    }
}

fn system_dep(name: &str) -> LibraryDependency {
    LibraryDependency {
        name: name.to_string(),
        framework: false,
        system: true,
        static_path: None,
        dynamic_path: None,
    }
}

#[test]
fn link_plan_skips_distribution_inittab_object() {
    let mut dist = empty_dist();
    dist.objs_core.insert("Modules/config.o".to_string(), "store/config.o".to_string());
    dist.objs_core.insert("Objects/object.o".to_string(), "store/object.o".to_string());
    let exts: OrdMap<ExtensionModule> = OrdMap::new();
    let plan = link_libpython_plan(&dist, &exts, "linux").unwrap();
    assert_eq!(
        plan.core_objects,
        vec![("Objects/object.o".to_string(), "store/object.o".to_string())]
    );
    assert_eq!(plan.cargo_metadata, vec!["cargo:rustc-link-lib=static=pyembeddedconfig".to_string()]);
}

#[test]
fn link_plan_resolves_libraries_and_orders_directives() {
    let mut dist = empty_dist();
    dist.libraries.insert("ssl".to_string(), "store/libssl.a".to_string());
    dist.links_core.push(system_dep("pthread"));
    let mut exts: OrdMap<ExtensionModule> = OrdMap::new();
    exts.insert(
        "_ssl".to_string(),
        ext_linking("_ssl", false, vec!["store/_ssl.o"], vec![static_dep("ssl"), system_dep("z")]),
    );
    // the m library is host-provided on linux and never resolved
    exts.insert(
        "math".to_string(),
        ext_linking("math", false, vec!["store/math.o"], vec![static_dep("m")]),
    );
    let plan = link_libpython_plan(&dist, &exts, "linux").unwrap();
    assert_eq!(plan.extension_objects, vec!["store/_ssl.o".to_string(), "store/math.o".to_string()]);
    assert_eq!(plan.library_copies, vec![("ssl".to_string(), "store/libssl.a".to_string())]);
    assert_eq!(
        plan.cargo_metadata,
        vec![
            "cargo:rustc-link-lib=static=pyembeddedconfig".to_string(),
            "cargo:rustc-link-lib=static=ssl".to_string(),
            "cargo:rustc-link-lib=pthread".to_string(),
            "cargo:rustc-link-lib=z".to_string(),
        ]
    );
}

#[test]
fn link_plan_missing_library_is_fatal() {
    let dist = empty_dist();
    let mut exts: OrdMap<ExtensionModule> = OrdMap::new();
    exts.insert(
        "_ssl".to_string(),
        ext_linking("_ssl", false, vec!["store/_ssl.o"], vec![static_dep("ssl")]),
    );
    let r = link_libpython_plan(&dist, &exts, "linux");
    match r {
        Err(RepackageError::LinkError { library }) => assert_eq!(library, "ssl"),
        _ => panic!("expected a link error"),
    }
}

#[test]
fn link_plan_skips_builtin_extension_objects() {
    let dist = empty_dist();
    let mut exts: OrdMap<ExtensionModule> = OrdMap::new();
    exts.insert(
        "_io".to_string(),
        ext_linking("_io", true, vec!["store/_io.o"], vec![static_dep("ssl")]),
    );
    let plan = link_libpython_plan(&dist, &exts, "linux").unwrap();
    assert!(plan.extension_objects.is_empty());
    assert!(plan.library_copies.is_empty());
}

#[test]
fn amended_bootstrap_concatenates_marker() {
    let source = b"original source".to_vec();
    let importer = b"importer code".to_vec();
    let out = pyrepackager::importlib::amend_bootstrap_external(&source, &importer);
    let mut expected = b"original source".to_vec();
    expected.extend_from_slice(b"\n# END OF importlib/_bootstrap_external.py\n\n");
    expected.extend_from_slice(b"importer code");
    assert_eq!(out, expected);
}

#[test]
fn scan_derives_dotted_names() {
    assert_eq!(module_name_for_source_path("json/decoder.py"), "json.decoder");
    assert_eq!(module_name_for_source_path("json/__init__.py"), "json");
    assert_eq!(module_name_for_source_path("os.py"), "os");
    let files = vec![
        ("pkg/__init__.py".to_string(), b"a".to_vec()),
        ("pkg/mod.py".to_string(), b"b".to_vec()),
        ("pkg/data.txt".to_string(), b"c".to_vec()),
    ];
    let scanned = scan_python_sources(&files);
    let names: Vec<String> = scanned.iter().map(|s| s.name.clone()).collect();
    assert_eq!(names, vec!["pkg".to_string(), "pkg.mod".to_string()]);
}

#[test]
fn archive_strip_and_build() {
    assert_eq!(strip_first_component("pkg-1.0/bin/tool"), "bin/tool");
    assert_eq!(strip_first_component("toplevel"), "");
    let entries = vec![
        ("pkg/rust-installer-version".to_string(), b"3\n".to_vec(), false),
        ("pkg/components".to_string(), b"comp\n".to_vec(), false),
        ("pkg/comp/manifest.in".to_string(), b"file:bin/tool\n".to_vec(), false),
        ("pkg/comp/bin/tool".to_string(), b"#!exe".to_vec(), true),
    ];
    let archive = PackageArchive::from_entries(&entries).unwrap();
    assert_eq!(archive.components, vec!["comp".to_string()]);
    let plan = archive.install_plan().unwrap();
    assert_eq!(plan.len(), 1);
    assert_eq!(plan[0].0, "bin/tool");
    assert_eq!(plan[0].1, b"#!exe".to_vec());
    assert!(plan[0].2);
}

#[test]
fn archive_rejects_unsupported_version() {
    let entries = vec![
        ("pkg/rust-installer-version".to_string(), b"2\n".to_vec(), false),
        ("pkg/components".to_string(), b"comp\n".to_vec(), false),
    ];
    let r = PackageArchive::from_entries(&entries);
    match r {
        Err(RepackageError::DistributionError { .. }) => {}
        _ => panic!("expected a distribution error"),
    }
}

#[test]
fn archive_rejects_components_that_are_not_utf8() {
    let entries = vec![
        ("pkg/rust-installer-version".to_string(), b"3\n".to_vec(), false),
        ("pkg/components".to_string(), vec![0xff, 0xfe, 0x00], false),
    ];
    let r = PackageArchive::from_entries(&entries);
    match r {
        Err(RepackageError::DistributionError { .. }) => {}
        _ => panic!("expected a distribution error"),
    }
}

#[test]
fn archive_install_plan_refuses_directories() {
    let entries = vec![
        ("pkg/rust-installer-version".to_string(), b"3\n".to_vec(), false),
        ("pkg/components".to_string(), b"comp\n".to_vec(), false),
        ("pkg/comp/manifest.in".to_string(), b"dir:share\n".to_vec(), false),
    ];
    let archive = PackageArchive::from_entries(&entries).unwrap();
    assert!(archive.install_plan().is_err());
}

#[test]
fn manifest_parse_splits_actions() {
    let (dirs, files) = parse_manifest("file:bin/a\ndir:share\nfile:bin/b\n").unwrap();
    assert_eq!(dirs, vec!["share".to_string()]);
    assert_eq!(files, vec!["bin/a".to_string(), "bin/b".to_string()]);
    assert!(parse_manifest("mystery:thing\n").is_err());
    let (dirs, files) = parse_manifest("no colon line\n").unwrap();
    assert!(dirs.is_empty() && files.is_empty());
}

#[test]
fn project_file_paths_by_substring() {
    assert!(is_project_file_path("pyoxidizer.bzl"));
    assert!(is_project_file_path("src/pyembed_stub.rs"));
    assert!(!is_project_file_path("src/main.rs"));
}

#[test]
fn pyembed_location_fields() {
    assert_eq!(
        PyembedLocation::Version("0.1".to_string()).cargo_manifest_fields(),
        "version = \"0.1\""
    );
    assert_eq!(
        PyembedLocation::Path("../pyembed".to_string()).cargo_manifest_fields(),
        "path = \"../pyembed\""
    );
    assert_eq!(
        PyembedLocation::Git("https://example.com/r.git".to_string(), "abc123".to_string())
            .cargo_manifest_fields(),
        "git = \"https://example.com/r.git\", rev = \"abc123\""
    );
}

#[test]
fn cargo_toml_splice() {
    let content = "[package]\nname = \"demo\"\nversion = \"0.1.0\"\n\n[dependencies]\n";
    let updated = update_cargo_toml_content(content, "version = \"0.1\"", "[extra]\n").unwrap();
    let expected = "[package]\nname = \"demo\"\nversion = \"0.1.0\"\nbuild = \"build.rs\"\n\n\
        [dependencies]\npyembed = { version = \"0.1\", default-features = false }\n\n[extra]\n";
    assert_eq!(updated, expected);
    assert!(update_cargo_toml_content("[package]\nname = \"demo\"\n", "v", "").is_err());
}

#[test]
fn blob_reader_feeds_loader_symmetrically() {
    // the staged sources of a small build, written and read back
    let mut staging = pyrepackager::reducer::ResourceStaging::new();
    pyrepackager::reducer::apply_entry(
        &mut staging,
        pyrepackager::resources::PythonResourceEntry {
            action: pyrepackager::resources::ResourceAction::Add,
            resource: pyrepackager::resources::PythonResource::ModuleSource {
                name: "app".to_string(),
                source: b"print('hello')".to_vec(),
            },
        },
    );
    let resources = pyrepackager::reducer::finalize_python_resources(
        staging,
        Vec::new(),
        Vec::new(),
    );
    let blob = resources.sources_blob();
    let bytes = pyrepackager::codec::write_blob_entries(&blob).unwrap();
    let back = pyrepackager::codec::read_blob_entries(&bytes).unwrap();
    assert_eq!(back.len(), 1);
    assert_eq!(back[0].0, b"app".to_vec());
    assert_eq!(back[0].1, b"print('hello')".to_vec());
}
