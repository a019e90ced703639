//! Rule resolution: policies, explicit lists, variants, the stdlib rule,
//! prefix matching, and the test-package set.

use pyrepackager::dist::{ExtensionModule, LibraryDependency, PythonDistributionInfo};
use pyrepackager::ordmap::OrdMap;
use pyrepackager::resolver::{
    is_stdlib_test_package, resolve_python_packaging, virtualenv_site_packages_path,
    PythonPackaging,
};
use pyrepackager::resources::{PythonResource, PythonResourceEntry, ResourceAction};
use pyrepackager::scan::ScannedResource;

fn ext(module: &str, variant: &str, builtin_default: bool, required: bool, init_fn: Option<&str>,
    links: Vec<LibraryDependency>) -> ExtensionModule {
    ExtensionModule {
        module: module.to_string(),
        variant: variant.to_string(),
        builtin_default,
        required,
        init_fn: init_fn.map(|s| s.to_string()),
        object_paths: Vec::new(),
        links,
    }
}

fn static_link(name: &str) -> LibraryDependency {
    LibraryDependency {
        name: name.to_string(),
        framework: false,
        system: false,
        static_path: Some(format!("lib/lib{}.a", name)),
        dynamic_path: None,
    }
}

fn empty_dist() -> PythonDistributionInfo {
    PythonDistributionInfo {
        python_exe: "install/bin/python3".to_string(),
        os: "linux".to_string(),
        version: "3.7.4".to_string(),
        py_modules: OrdMap::new(),
        extension_modules: OrdMap::new(),
        objs_core: OrdMap::new(),
        includes: OrdMap::new(),
        libraries: OrdMap::new(),
        links_core: Vec::new(),
    }
}

fn minimal_dist() -> PythonDistributionInfo {
    let mut dist = empty_dist();
    dist.extension_modules.insert(
        "_io".to_string(),
        vec![ext("_io", "default", true, false, Some("PyInit__io"), Vec::new())],
    );
    dist.extension_modules.insert(
        "zlib".to_string(),
        vec![ext("zlib", "default", false, true, Some("PyInit_zlib"), Vec::new())],
    );
    dist.extension_modules.insert(
        "readline".to_string(),
        vec![ext("readline", "default", false, false, Some("PyInit_readline"), Vec::new())],
    );
    dist
}

fn added_extension_names(entries: &[PythonResourceEntry]) -> Vec<String> {
    entries
        .iter()
        .map(|e| {
            assert!(matches!(e.action, ResourceAction::Add));
            match &e.resource {
                PythonResource::ExtensionModule { name, .. } => name.clone(),
                _ => panic!("expected an extension entry"),
            }
        })
        .collect()
}

#[test]
fn policy_minimal_takes_builtin_and_required() {
    let dist = minimal_dist();
    let rule = PythonPackaging::StdlibExtensionsPolicy { policy: "minimal".to_string() };
    let entries = resolve_python_packaging(&rule, &dist, &Vec::new()).unwrap();
    assert_eq!(added_extension_names(&entries), vec!["_io".to_string(), "zlib".to_string()]);
}

#[test]
fn policy_all_takes_everything() {
    let dist = minimal_dist();
    let rule = PythonPackaging::StdlibExtensionsPolicy { policy: "all".to_string() };
    let entries = resolve_python_packaging(&rule, &dist, &Vec::new()).unwrap();
    assert_eq!(
        added_extension_names(&entries),
        vec!["_io".to_string(), "readline".to_string(), "zlib".to_string()]
    );
}

#[test]
fn policy_unknown_is_config_error() {
    let dist = minimal_dist();
    let rule = PythonPackaging::StdlibExtensionsPolicy { policy: "bogus".to_string() };
    match resolve_python_packaging(&rule, &dist, &Vec::new()) {
        Err(pyrepackager::RepackageError::ConfigError { message }) => {
            assert_eq!(message, "illegal policy value: bogus");
        }
        _ => panic!("expected a config error"),
    }
}

#[test]
fn policy_no_libraries_picks_first_unlinked_variant() {
    let mut dist = empty_dist();
    dist.extension_modules.insert(
        "ssl".to_string(),
        vec![
            ext("ssl", "openssl-1.1", false, false, Some("PyInit_ssl"), vec![static_link("ssl")]),
            ext("ssl", "openssl-3", false, false, Some("PyInit_ssl"), Vec::new()),
        ],
    );
    let rule = PythonPackaging::StdlibExtensionsPolicy { policy: "no-libraries".to_string() };
    let entries = resolve_python_packaging(&rule, &dist, &Vec::new()).unwrap();
    assert_eq!(entries.len(), 1);
    match &entries[0].resource {
        PythonResource::ExtensionModule { name, module } => {
            assert_eq!(name, "ssl");
            assert_eq!(module.variant, "openssl-3");
        }
        _ => panic!("expected an extension entry"),
    }
}

#[test]
fn explicit_includes_ignores_unknown_names() {
    let dist = minimal_dist();
    let rule = PythonPackaging::StdlibExtensionsExplicitIncludes {
        includes: vec!["zlib".to_string(), "nosuch".to_string()],
    };
    let entries = resolve_python_packaging(&rule, &dist, &Vec::new()).unwrap();
    assert_eq!(added_extension_names(&entries), vec!["zlib".to_string()]);
}

#[test]
fn explicit_excludes_takes_the_rest() {
    let dist = minimal_dist();
    let rule = PythonPackaging::StdlibExtensionsExplicitExcludes {
        excludes: vec!["readline".to_string()],
    };
    let entries = resolve_python_packaging(&rule, &dist, &Vec::new()).unwrap();
    assert_eq!(added_extension_names(&entries), vec!["_io".to_string(), "zlib".to_string()]);
}

#[test]
fn variant_rule_picks_matching_variant() {
    let mut dist = empty_dist();
    dist.extension_modules.insert(
        "ssl".to_string(),
        vec![
            ext("ssl", "openssl-1.1", false, false, Some("PyInit_ssl"), Vec::new()),
            ext("ssl", "openssl-3", false, false, Some("PyInit_ssl"), Vec::new()),
        ],
    );
    let rule = PythonPackaging::StdlibExtensionVariant {
        extension: "ssl".to_string(),
        variant: "openssl-3".to_string(),
    };
    let entries = resolve_python_packaging(&rule, &dist, &Vec::new()).unwrap();
    assert_eq!(entries.len(), 1);
}

#[test]
fn variant_rule_missing_variant_fails() {
    let mut dist = empty_dist();
    dist.extension_modules.insert(
        "ssl".to_string(),
        vec![ext("ssl", "openssl-1.1", false, false, Some("PyInit_ssl"), Vec::new())],
    );
    let rule = PythonPackaging::StdlibExtensionVariant {
        extension: "ssl".to_string(),
        variant: "libressl".to_string(),
    };
    assert!(resolve_python_packaging(&rule, &dist, &Vec::new()).is_err());
    let rule2 = PythonPackaging::StdlibExtensionVariant {
        extension: "nosuch".to_string(),
        variant: "openssl-1.1".to_string(),
    };
    assert!(resolve_python_packaging(&rule2, &dist, &Vec::new()).is_err());
}

#[test]
fn stdlib_rule_skips_test_modules_and_keeps_sources() {
    let mut dist = empty_dist();
    dist.py_modules.insert("json".to_string(), b"json source".to_vec());
    dist.py_modules.insert("json.tests.test_foo".to_string(), b"test source".to_vec());
    let rule = PythonPackaging::Stdlib {
        optimize_level: 0,
        exclude_test_modules: true,
        include_source: true,
    };
    let entries = resolve_python_packaging(&rule, &dist, &Vec::new()).unwrap();
    // one source and one bytecode entry for json, nothing for the test module
    assert_eq!(entries.len(), 2);
    match &entries[0].resource {
        PythonResource::ModuleSource { name, source } => {
            assert_eq!(name, "json");
            assert_eq!(source.as_slice(), b"json source");
        }
        _ => panic!("expected a source entry"),
    }
    match &entries[1].resource {
        PythonResource::ModuleBytecode { name, optimize_level, .. } => {
            assert_eq!(name, "json");
            assert_eq!(*optimize_level, 0);
        }
        _ => panic!("expected a bytecode entry"),
    }
}

#[test]
fn stdlib_rule_without_sources_emits_bytecode_only() {
    let mut dist = empty_dist();
    dist.py_modules.insert("os".to_string(), b"os source".to_vec());
    let rule = PythonPackaging::Stdlib {
        optimize_level: 2,
        exclude_test_modules: false,
        include_source: false,
    };
    let entries = resolve_python_packaging(&rule, &dist, &Vec::new()).unwrap();
    assert_eq!(entries.len(), 1);
    assert!(matches!(
        entries[0].resource,
        PythonResource::ModuleBytecode { optimize_level: 2, .. }
    ));
}

#[test]
fn prefix_safety_in_scan_excludes() {
    // an exclude of foo.bar must not affect foo.barbell
    let dist = empty_dist();
    let scanned = vec![
        ScannedResource { name: "foo.bar".to_string(), source: b"a".to_vec() },
        ScannedResource { name: "foo.barbell".to_string(), source: b"b".to_vec() },
        ScannedResource { name: "foo.bar.baz".to_string(), source: b"c".to_vec() },
    ];
    let rule = PythonPackaging::Virtualenv {
        path: "/venv".to_string(),
        optimize_level: 0,
        excludes: vec!["foo.bar".to_string()],
        include_source: false,
    };
    let entries = resolve_python_packaging(&rule, &dist, &scanned).unwrap();
    assert_eq!(entries.len(), 1);
    match &entries[0].resource {
        PythonResource::ModuleBytecode { name, .. } => assert_eq!(name, "foo.barbell"),
        _ => panic!("expected a bytecode entry"),
    }
}

#[test]
fn package_root_keeps_only_listed_packages() {
    let dist = empty_dist();
    let scanned = vec![
        ScannedResource { name: "alpha".to_string(), source: b"a".to_vec() },
        ScannedResource { name: "alpha.sub".to_string(), source: b"s".to_vec() },
        ScannedResource { name: "beta".to_string(), source: b"b".to_vec() },
    ];
    let rule = PythonPackaging::PackageRoot {
        path: "/src".to_string(),
        packages: vec!["alpha".to_string()],
        optimize_level: 1,
        excludes: vec!["alpha.sub".to_string()],
        include_source: false,
    };
    let entries = resolve_python_packaging(&rule, &dist, &scanned).unwrap();
    assert_eq!(entries.len(), 1);
    match &entries[0].resource {
        PythonResource::ModuleBytecode { name, .. } => assert_eq!(name, "alpha"),
        _ => panic!("expected a bytecode entry"),
    }
}

#[test]
fn test_package_membership() {
    assert!(is_stdlib_test_package("test"));
    assert!(is_stdlib_test_package("test.support"));
    assert!(is_stdlib_test_package("json.tests"));
    assert!(is_stdlib_test_package("json.tests.test_foo"));
    assert!(!is_stdlib_test_package("json"));
    assert!(!is_stdlib_test_package("testing"));
    assert!(!is_stdlib_test_package("unittest"));
}

#[test]
fn virtualenv_path_layout() {
    assert_eq!(
        virtualenv_site_packages_path("/venv", "linux", "3.7.4"),
        "/venv/lib/python3.7/site-packages"
    );
    assert_eq!(
        virtualenv_site_packages_path("C:/venv", "windows", "3.8.1"),
        "C:/venv/Lib/python3.8/site-packages"
    );
    // a two-digit minor keeps both digits
    assert_eq!(
        virtualenv_site_packages_path("/venv", "linux", "3.10.4"),
        "/venv/lib/python3.10/site-packages"
    );
}
