//! Staging: action application, filters and their idempotence, the
//! required-extensions closure, the per-target blocklist, and the final
//! module set.

use pyrepackager::dist::{ExtensionModule, PythonDistributionInfo};
use pyrepackager::ordmap::{OrdMap, OrdSet};
use pyrepackager::reducer::default_target_os;
use pyrepackager::resolver::major_minor_version;
use pyrepackager::reducer::{
    add_resource_names, filter_staging, finalize_python_resources, stage_python_resources,
    ResourceStaging, RuleInput,
};
use pyrepackager::resolver::PythonPackaging;
use pyrepackager::resources::{PythonResource, PythonResourceEntry, ResourceAction};

fn ext(module: &str, builtin_default: bool, required: bool, init_fn: Option<&str>)
    -> ExtensionModule {
    ExtensionModule {
        module: module.to_string(),
        variant: "default".to_string(),
        builtin_default,
        required,
        init_fn: init_fn.map(|s| s.to_string()),
        object_paths: Vec::new(),
        links: Vec::new(),
    }
}

fn empty_dist() -> PythonDistributionInfo {
    PythonDistributionInfo {
        python_exe: "install/bin/python3".to_string(),
        os: "linux".to_string(),
        version: "3.7.4".to_string(),
        py_modules: OrdMap::new(),
        extension_modules: OrdMap::new(),
        objs_core: OrdMap::new(),
        includes: OrdMap::new(),
        libraries: OrdMap::new(),
        links_core: Vec::new(),
    }
}

fn staged_source_names(staging: &ResourceStaging) -> Vec<String> {
    let mut names = Vec::new();
    for i in 0..staging.sources.len() {
        names.push(staging.sources.key_at(i).clone());
    }
    names
}

fn staged_extension_names(staging: &ResourceStaging) -> Vec<String> {
    let mut names = Vec::new();
    for i in 0..staging.extension_modules.len() {
        names.push(staging.extension_modules.key_at(i).clone());
    }
    names
}

#[test]
fn staging_add_overwrites_and_remove_deletes() {
    let mut staging = ResourceStaging::new();
    pyrepackager::reducer::apply_entry(
        &mut staging,
        PythonResourceEntry {
            action: ResourceAction::Add,
            resource: PythonResource::ModuleSource {
                name: "m".to_string(),
                source: b"one".to_vec(),
            },
        },
    );
    pyrepackager::reducer::apply_entry(
        &mut staging,
        PythonResourceEntry {
            action: ResourceAction::Add,
            resource: PythonResource::ModuleSource {
                name: "m".to_string(),
                source: b"two".to_vec(),
            },
        },
    );
    assert_eq!(staging.sources.len(), 1);
    assert_eq!(staging.sources.get("m").unwrap().as_slice(), b"two");
    pyrepackager::reducer::apply_entry(
        &mut staging,
        PythonResourceEntry {
            action: ResourceAction::Remove,
            resource: PythonResource::ModuleSource {
                name: "m".to_string(),
                source: Vec::new(),
            },
        },
    );
    assert_eq!(staging.sources.len(), 0);
}

#[test]
fn filter_is_idempotent_on_staging() {
    let mut staging = ResourceStaging::new();
    for name in ["alpha", "beta", "gamma"] {
        pyrepackager::reducer::apply_entry(
            &mut staging,
            PythonResourceEntry {
                action: ResourceAction::Add,
                resource: PythonResource::ModuleSource {
                    name: name.to_string(),
                    source: name.as_bytes().to_vec(),
                },
            },
        );
    }
    let mut keep = OrdSet::new();
    keep.insert("beta".to_string());
    keep.insert("gamma".to_string());
    filter_staging(&mut staging, &keep);
    let once = staged_source_names(&staging);
    filter_staging(&mut staging, &keep);
    let twice = staged_source_names(&staging);
    assert_eq!(once, vec!["beta".to_string(), "gamma".to_string()]);
    assert_eq!(once, twice);
}

#[test]
fn whitelist_skips_comments_and_blanks() {
    let mut names = OrdSet::new();
    add_resource_names(&mut names, "# comment\n\njson\nos.path\n");
    assert_eq!(names.len(), 2);
    assert!(names.contains("json"));
    assert!(names.contains("os.path"));
    assert!(!names.contains("# comment"));
}

#[test]
fn required_closure_readds_missing_extensions() {
    // an include of json alone still pulls the builtin-default _io back in
    let mut dist = empty_dist();
    dist.extension_modules.insert(
        "_io".to_string(),
        vec![ext("_io", true, false, Some("PyInit__io"))],
    );
    dist.extension_modules.insert(
        "json".to_string(),
        vec![ext("json", false, false, Some("PyInit_json"))],
    );
    let rules = vec![PythonPackaging::StdlibExtensionsExplicitIncludes {
        includes: vec!["json".to_string()],
    }];
    let inputs = vec![RuleInput::Nothing];
    let (staging, read_files) =
        stage_python_resources(&rules, &dist, &inputs, "linux").unwrap();
    assert_eq!(
        staged_extension_names(&staging),
        vec!["_io".to_string(), "json".to_string()]
    );
    assert!(read_files.is_empty());
}

#[test]
fn blocklisted_extensions_are_dropped_per_target() {
    let mut dist = empty_dist();
    dist.extension_modules.insert(
        "nis".to_string(),
        vec![ext("nis", false, false, Some("PyInit_nis"))],
    );
    dist.extension_modules.insert(
        "zlib".to_string(),
        vec![ext("zlib", false, false, Some("PyInit_zlib"))],
    );
    let rules = vec![PythonPackaging::StdlibExtensionsPolicy { policy: "all".to_string() }];
    let inputs = vec![RuleInput::Nothing];
    let (on_linux, _) = stage_python_resources(&rules, &dist, &inputs, "linux").unwrap();
    assert_eq!(staged_extension_names(&on_linux), vec!["zlib".to_string()]);
    let (elsewhere, _) = stage_python_resources(&rules, &dist, &inputs, "windows").unwrap();
    assert_eq!(
        staged_extension_names(&elsewhere),
        vec!["nis".to_string(), "zlib".to_string()]
    );
}

#[test]
fn exclude_then_filter_never_readmits_test_modules() {
    // Stdlib with excluded test modules, then a whitelist: only whitelisted
    // modules survive, and the test module never appears however the
    // whitelist reads.
    let mut dist = empty_dist();
    dist.py_modules.insert("json".to_string(), b"json src".to_vec());
    dist.py_modules.insert("os".to_string(), b"os src".to_vec());
    dist.py_modules.insert("json.tests.test_foo".to_string(), b"test src".to_vec());
    let rules = vec![
        PythonPackaging::Stdlib {
            optimize_level: 0,
            exclude_test_modules: true,
            include_source: true,
        },
        PythonPackaging::FilterFileInclude { path: "/cfg/whitelist".to_string() },
    ];
    let inputs = vec![
        RuleInput::Nothing,
        RuleInput::FilterFiles {
            files: vec![(
                "/cfg/whitelist".to_string(),
                "json\njson.tests.test_foo\n".to_string(),
            )],
        },
    ];
    let (staging, read_files) =
        stage_python_resources(&rules, &dist, &inputs, "linux").unwrap();
    assert_eq!(staged_source_names(&staging), vec!["json".to_string()]);
    assert_eq!(read_files, vec!["/cfg/whitelist".to_string()]);
}

#[test]
fn minimal_policy_build_emits_expected_inittab() {
    // a minimal-policy build over {_io builtin, zlib required, readline}
    // stages {_io, zlib} and emits exactly their rows, in name order
    let mut dist = empty_dist();
    dist.extension_modules.insert(
        "_io".to_string(),
        vec![ext("_io", true, false, Some("PyInit__io"))],
    );
    dist.extension_modules.insert(
        "zlib".to_string(),
        vec![ext("zlib", false, true, Some("PyInit_zlib"))],
    );
    dist.extension_modules.insert(
        "readline".to_string(),
        vec![ext("readline", false, false, Some("PyInit_readline"))],
    );
    let rules = vec![PythonPackaging::StdlibExtensionsPolicy { policy: "minimal".to_string() }];
    let inputs = vec![RuleInput::Nothing];
    let (staging, _) = stage_python_resources(&rules, &dist, &inputs, "windows").unwrap();
    assert_eq!(
        staged_extension_names(&staging),
        vec!["_io".to_string(), "zlib".to_string()]
    );
    let config_c = pyrepackager::configc::make_config_c(&staging.extension_modules);
    let expected = "#include \"Python.h\"\n\
        extern PyObject* PyInit__io(void);\n\
        extern PyObject* PyInit_zlib(void);\n\
        struct _inittab _PyImport_Inittab[] = {\n\
        {\"_io\", PyInit__io},\n\
        {\"zlib\", PyInit_zlib},\n\
        {0, 0}\n};";
    assert_eq!(config_c, expected);
}

fn stage_bytecode_request(staging: &mut ResourceStaging, name: &str) {
    pyrepackager::reducer::apply_entry(
        staging,
        PythonResourceEntry {
            action: ResourceAction::Add,
            resource: PythonResource::ModuleBytecode {
                name: name.to_string(),
                source: name.as_bytes().to_vec(),
                optimize_level: 0,
            },
        },
    );
}

#[test]
fn all_modules_is_sorted_union() {
    let mut staging = ResourceStaging::new();
    pyrepackager::reducer::apply_entry(
        &mut staging,
        PythonResourceEntry {
            action: ResourceAction::Add,
            resource: PythonResource::ModuleSource {
                name: "zeta".to_string(),
                source: b"z".to_vec(),
            },
        },
    );
    stage_bytecode_request(&mut staging, "zeta");
    stage_bytecode_request(&mut staging, "alpha");
    let resources =
        finalize_python_resources(staging, vec![b"bc".to_vec(), b"bc2".to_vec()], Vec::new());
    // the bytecode map carries exactly the staged request names, in order
    assert_eq!(resources.module_bytecodes.len(), 2);
    assert_eq!(resources.module_bytecodes.key_at(0), "alpha");
    assert_eq!(resources.module_bytecodes.val_at(0), &b"bc".to_vec());
    assert_eq!(resources.module_bytecodes.key_at(1), "zeta");
    assert_eq!(resources.module_bytecodes.val_at(1), &b"bc2".to_vec());
    let mut all = Vec::new();
    for i in 0..resources.all_modules.len() {
        all.push(resources.all_modules.at(i).clone());
    }
    assert_eq!(all, vec!["alpha".to_string(), "zeta".to_string()]);
}

#[test]
fn module_names_file_is_lf_terminated_ascending() {
    let mut staging = ResourceStaging::new();
    stage_bytecode_request(&mut staging, "b");
    stage_bytecode_request(&mut staging, "a");
    let resources =
        finalize_python_resources(staging, vec![Vec::new(), Vec::new()], Vec::new());
    assert_eq!(resources.module_names_bytes(), b"a\nb\n".to_vec());
}

#[test]
fn major_minor_prefix_handles_two_digit_minors() {
    assert_eq!(major_minor_version("3.7.4"), "3.7");
    assert_eq!(major_minor_version("3.10.4"), "3.10");
    assert_eq!(major_minor_version("3.10"), "3.10");
}

#[test]
fn target_triple_maps_to_os_name() {
    assert_eq!(default_target_os("x86_64-unknown-linux-gnu"), "linux");
    assert_eq!(default_target_os("x86_64-apple-darwin"), "macos");
    assert_eq!(default_target_os("x86_64-pc-windows-msvc"), "windows");
    assert_eq!(default_target_os("wasm32-wasi"), "other");
}

#[test]
fn staging_failure_names_the_offending_rule() {
    let dist = empty_dist();
    let rules = vec![PythonPackaging::StdlibExtensionsPolicy { policy: "oops".to_string() }];
    let inputs = vec![RuleInput::Nothing];
    match stage_python_resources(&rules, &dist, &inputs, "linux") {
        Err(pyrepackager::RepackageError::ConfigError { message }) => {
            assert_eq!(message, "illegal policy value: oops");
        }
        _ => panic!("expected a config error"),
    }
}

#[test]
fn sources_blob_follows_map_order() {
    let mut staging = ResourceStaging::new();
    for (name, data) in [("m2", b"two".as_slice()), ("m1", b"one".as_slice())] {
        pyrepackager::reducer::apply_entry(
            &mut staging,
            PythonResourceEntry {
                action: ResourceAction::Add,
                resource: PythonResource::ModuleSource {
                    name: name.to_string(),
                    source: data.to_vec(),
                },
            },
        );
    }
    let resources = finalize_python_resources(staging, Vec::new(), Vec::new());
    let blob = resources.sources_blob();
    assert_eq!(blob.len(), 2);
    assert_eq!(blob[0].name, "m1");
    assert_eq!(blob[0].data, b"one".to_vec());
    assert_eq!(blob[1].name, "m2");
    assert_eq!(blob[1].data, b"two".to_vec());
}
