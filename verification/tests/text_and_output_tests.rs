//! Text helpers, the config.c generator, the runtime-config literal, and
//! the data module wrapper.

use pyrepackager::configc::make_config_c;
use pyrepackager::dist::ExtensionModule;
use pyrepackager::ordmap::OrdMap;
use pyrepackager::pyconfig::{data_rs_content, derive_python_config, Config, RunMode};
use pyrepackager::text::{escape_double_quotes, i64_to_string, matches_prefix, split_lines};

fn ext_with_init(module: &str, init_fn: Option<&str>) -> ExtensionModule {
    ExtensionModule {
        module: module.to_string(),
        variant: "default".to_string(),
        builtin_default: false,
        required: false,
        init_fn: init_fn.map(|s| s.to_string()),
        object_paths: Vec::new(),
        links: Vec::new(),
    }
}

#[test]
fn config_c_rows_follow_name_order() {
    // staged in scrambled insertion order; rows come out ascending
    let mut exts: OrdMap<ExtensionModule> = OrdMap::new();
    exts.insert("zlib".to_string(), ext_with_init("zlib", Some("PyInit_zlib")));
    exts.insert("_io".to_string(), ext_with_init("_io", Some("PyInit__io")));
    exts.insert("_ssl".to_string(), ext_with_init("_ssl", Some("PyInit__ssl")));
    let out = make_config_c(&exts);
    let expected = "#include \"Python.h\"\n\
        extern PyObject* PyInit__io(void);\n\
        extern PyObject* PyInit__ssl(void);\n\
        extern PyObject* PyInit_zlib(void);\n\
        struct _inittab _PyImport_Inittab[] = {\n\
        {\"_io\", PyInit__io},\n\
        {\"_ssl\", PyInit__ssl},\n\
        {\"zlib\", PyInit_zlib},\n\
        {0, 0}\n};";
    assert_eq!(out, expected);
}

#[test]
fn config_c_minimal_scenario_rows() {
    // the staged minimal set {_io, zlib} yields exactly those rows in order
    let mut exts: OrdMap<ExtensionModule> = OrdMap::new();
    exts.insert("zlib".to_string(), ext_with_init("zlib", Some("PyInit_zlib")));
    exts.insert("_io".to_string(), ext_with_init("_io", Some("PyInit__io")));
    let out = make_config_c(&exts);
    assert!(out.contains("{\"_io\", PyInit__io},\n{\"zlib\", PyInit_zlib},\n{0, 0}"));
}

#[test]
fn config_c_skips_null_init_functions() {
    let mut exts: OrdMap<ExtensionModule> = OrdMap::new();
    exts.insert("_abc".to_string(), ext_with_init("_abc", Some("NULL")));
    exts.insert("_io".to_string(), ext_with_init("_io", None));
    let out = make_config_c(&exts);
    assert_eq!(out, "#include \"Python.h\"\nstruct _inittab _PyImport_Inittab[] = {\n{0, 0}\n};");
}

fn sample_config() -> Config {
    Config {
        program_name: "myapp".to_string(),
        python_distribution_path: None,
        optimize_level: 1,
        stdio_encoding_name: Some("utf-8".to_string()),
        stdio_encoding_errors: Some("strict".to_string()),
        filesystem_importer: false,
        sys_paths: vec!["$ORIGIN".to_string(), "lib".to_string()],
        no_site: true,
        no_user_site_directory: true,
        ignore_environment: true,
        dont_write_bytecode: true,
        unbuffered_stdio: false,
        rust_allocator_raw: true,
        write_modules_directory_env: None,
        run: RunMode::Module { module: "myapp.cli".to_string() },
        python_packaging: Vec::new(),
    }
}

#[test]
fn runtime_config_literal_exact_text() {
    let text = derive_python_config(
        &sample_config(),
        "out/importlib_bootstrap",
        "out/importlib_bootstrap_external",
        "out/py-modules",
        "out/pyc-modules",
    );
    let expected = "PythonConfig {\n    \
        program_name: \"myapp\".to_string(),\n    \
        standard_io_encoding: Some(\"utf-8\"),\n    \
        standard_io_errors: Some(\"strict\"),\n    \
        opt_level: 1,\n    \
        use_custom_importlib: true,\n    \
        filesystem_importer: false,\n    \
        sys_paths: [\"$ORIGIN\".to_string(), \"lib\".to_string()].to_vec(),\n    \
        import_site: false,\n    \
        import_user_site: false,\n    \
        ignore_python_env: true,\n    \
        dont_write_bytecode: true,\n    \
        unbuffered_stdio: false,\n    \
        frozen_importlib_data: include_bytes!(\"out/importlib_bootstrap\"),\n    \
        frozen_importlib_external_data: include_bytes!(\"out/importlib_bootstrap_external\"),\n    \
        py_modules_data: include_bytes!(\"out/py-modules\"),\n    \
        pyc_modules_data: include_bytes!(\"out/pyc-modules\"),\n    \
        argvb: false,\n    \
        rust_allocator_raw: true,\n    \
        write_modules_directory_env: None,\n    \
        run: PythonRunMode::Module { module: \"myapp.cli\".to_string() },\n}";
    assert_eq!(text, expected);
}

#[test]
fn runtime_config_literal_is_deterministic() {
    let a = derive_python_config(&sample_config(), "p1", "p2", "p3", "p4");
    let b = derive_python_config(&sample_config(), "p1", "p2", "p3", "p4");
    assert_eq!(a, b);
}

#[test]
fn runtime_config_run_modes() {
    let mut config = sample_config();
    config.run = RunMode::Repl;
    let text = derive_python_config(&config, "a", "b", "c", "d");
    assert!(text.ends_with("run: PythonRunMode::Repl,\n}"));
    config.run = RunMode::Eval { code: "print(1)".to_string() };
    let text = derive_python_config(&config, "a", "b", "c", "d");
    assert!(text.ends_with("run: PythonRunMode::Eval { code: \"print(1)\".to_string() },\n}"));
}

#[test]
fn data_module_indents_the_literal() {
    let out = data_rs_content("PythonConfig {\nx\n}");
    let expected = "use super::config::{PythonConfig, PythonRunMode};\n\n\
        pub fn default_python_config() -> PythonConfig {\n    \
        PythonConfig {\n    x\n    }\n}\n";
    assert_eq!(out, expected);
}

#[test]
fn escaping_doubles_quotes_only() {
    assert_eq!(escape_double_quotes("say \"hi\""), "say \\\"hi\\\"");
    assert_eq!(escape_double_quotes("plain"), "plain");
    assert_eq!(escape_double_quotes(""), "");
}

#[test]
fn decimal_rendering() {
    assert_eq!(i64_to_string(0), "0");
    assert_eq!(i64_to_string(42), "42");
    assert_eq!(i64_to_string(-7), "-7");
    assert_eq!(i64_to_string(i64::MAX), "9223372036854775807");
    assert_eq!(i64_to_string(i64::MIN), "-9223372036854775808");
}

#[test]
fn prefix_rule_examples() {
    assert!(matches_prefix("foo.bar", "foo.bar"));
    assert!(matches_prefix("foo.bar.baz", "foo.bar"));
    assert!(!matches_prefix("foo.barbell", "foo.bar"));
    assert!(!matches_prefix("foo", "foo.bar"));
}

#[test]
fn line_splitting_matches_lines_semantics() {
    assert_eq!(split_lines("a\nb"), vec!["a".to_string(), "b".to_string()]);
    assert_eq!(split_lines("a\nb\n"), vec!["a".to_string(), "b".to_string()]);
    assert_eq!(split_lines(""), Vec::<String>::new());
    assert_eq!(split_lines("a\r\nb"), vec!["a".to_string(), "b".to_string()]);
    assert_eq!(split_lines("\n\n"), vec!["".to_string(), "".to_string()]);
}
