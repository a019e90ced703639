//! The parsed build configuration and the rendered runtime-configuration
//! literal: a single factory expression the downstream loader compiles in.
//! The text is a pure function of the configuration and the four artifact
//! paths, so two runs over identical inputs render identical bytes.

use vstd::prelude::*;

use crate::resolver::PythonPackaging;
use crate::text::{int_chars, strings_view};

verus! {

/// How the embedded interpreter starts.
pub enum RunMode {
    Repl,
    Module { module: String },
    Eval { code: String },
}

/// The parsed configuration the engine runs under.
pub struct Config {
    pub program_name: String,
    pub python_distribution_path: Option<String>,
    pub optimize_level: i64,
    pub stdio_encoding_name: Option<String>,
    pub stdio_encoding_errors: Option<String>,
    pub filesystem_importer: bool,
    pub sys_paths: Vec<String>,
    pub no_site: bool,
    pub no_user_site_directory: bool,
    pub ignore_environment: bool,
    pub dont_write_bytecode: bool,
    pub unbuffered_stdio: bool,
    pub rust_allocator_raw: bool,
    pub write_modules_directory_env: Option<String>,
    pub run: RunMode,
    pub python_packaging: Vec<PythonPackaging>,
}

/// The view of an optional string.
pub open spec fn opt_str_view(o: &Option<String>) -> Option<Seq<char>> {
    match o {
        Some(s) => Some(s@),
        None => None,
    }
}

/// `Some("v")` or `None`.
pub open spec fn some_quoted(o: Option<Seq<char>>) -> Seq<char> {
    match o {
        Some(v) => "Some(\""@ + v + "\")"@,
        None => "None"@,
    }
}

/// `Some("p".to_string())` or `None`.
pub open spec fn some_string_expr(o: Option<Seq<char>>) -> Seq<char> {
    match o {
        Some(v) => "Some(\""@ + v + "\".to_string())"@,
        None => "None"@,
    }
}

pub open spec fn bool_chars(b: bool) -> Seq<char> {
    if b {
        "true"@
    } else {
        "false"@
    }
}

/// One rendered `sys_paths` element.
pub open spec fn sys_path_item(p: Seq<char>) -> Seq<char> {
    "\""@ + p + "\".to_string()"@
}

/// The `sys_paths` elements, comma separated.
pub open spec fn sys_paths_chars(ps: Seq<Seq<char>>) -> Seq<char>
    decreases ps.len(),
{
    if ps.len() == 0 {
        Seq::empty()
    } else if ps.len() == 1 {
        sys_path_item(ps[0])
    } else {
        sys_path_item(ps[0]) + ", "@ + sys_paths_chars(ps.skip(1))
    }
}

pub proof fn lemma_sys_paths_snoc(ps: Seq<Seq<char>>, x: Seq<char>)
    ensures
        sys_paths_chars(ps + seq![x]) =~= (if ps.len() == 0 {
            sys_path_item(x)
        } else {
            sys_paths_chars(ps) + ", "@ + sys_path_item(x)
        }),
    decreases ps.len(),
{
    let s1 = ps + seq![x];
    if ps.len() == 0 {
        assert(s1.len() == 1);
        assert(s1[0] == x);
    } else {
        assert(s1[0] == ps[0]);
        assert(s1.skip(1) =~= ps.skip(1) + seq![x]);
        lemma_sys_paths_snoc(ps.skip(1), x);
        if ps.len() == 1 {
            assert(ps.skip(1) =~= Seq::<Seq<char>>::empty());
        }
    }
}

/// How the run mode renders.
pub open spec fn run_mode_chars(r: &RunMode) -> Seq<char> {
    match r {
        RunMode::Repl => "PythonRunMode::Repl"@,
        RunMode::Module { module } => "PythonRunMode::Module { module: \""@ + module@
            + "\".to_string() }"@,
        RunMode::Eval { code } => "PythonRunMode::Eval { code: \""@ + code@
            + "\".to_string() }"@,
    }
}

/// The whole runtime-configuration literal, for a configuration and the
/// four embedded artifact paths.
pub open spec fn python_config_chars(
    c: &Config,
    importlib_path: Seq<char>,
    importlib_external_path: Seq<char>,
    py_modules_path: Seq<char>,
    pyc_modules_path: Seq<char>,
) -> Seq<char> {
    "PythonConfig {\n    program_name: \""@ + c.program_name@
        + "\".to_string(),\n    standard_io_encoding: "@ + some_quoted(
        opt_str_view(&c.stdio_encoding_name),
    ) + ",\n    standard_io_errors: "@ + some_quoted(opt_str_view(&c.stdio_encoding_errors))
        + ",\n    opt_level: "@ + int_chars(c.optimize_level as int)
        + ",\n    use_custom_importlib: true,\n    filesystem_importer: "@ + bool_chars(
        c.filesystem_importer,
    ) + ",\n    sys_paths: ["@ + sys_paths_chars(strings_view(c.sys_paths@))
        + "].to_vec(),\n    import_site: "@ + bool_chars(!c.no_site)
        + ",\n    import_user_site: "@ + bool_chars(!c.no_user_site_directory)
        + ",\n    ignore_python_env: "@ + bool_chars(c.ignore_environment)
        + ",\n    dont_write_bytecode: "@ + bool_chars(c.dont_write_bytecode)
        + ",\n    unbuffered_stdio: "@ + bool_chars(c.unbuffered_stdio)
        + ",\n    frozen_importlib_data: include_bytes!(\""@ + importlib_path
        + "\"),\n    frozen_importlib_external_data: include_bytes!(\""@
        + importlib_external_path + "\"),\n    py_modules_data: include_bytes!(\""@
        + py_modules_path + "\"),\n    pyc_modules_data: include_bytes!(\""@ + pyc_modules_path
        + "\"),\n    argvb: false,\n    rust_allocator_raw: "@ + bool_chars(c.rust_allocator_raw)
        + ",\n    write_modules_directory_env: "@ + some_string_expr(
        opt_str_view(&c.write_modules_directory_env),
    ) + ",\n    run: "@ + run_mode_chars(&c.run) + ",\n}"@
}

fn append_bool(out: &mut String, b: bool)
    ensures
        final(out)@ =~= old(out)@ + bool_chars(b),
{
    if b {
        out.append("true");
    } else {
        out.append("false");
    }
}

fn append_some_quoted(out: &mut String, o: &Option<String>)
    ensures
        final(out)@ =~= old(out)@ + some_quoted(opt_str_view(o)),
{
    match o {
        Some(v) => {
            out.append("Some(\"");
            out.append(v.as_str());
            out.append("\")");
        },
        None => {
            out.append("None");
        },
    }
}

/// Renders the Rust source of the runtime-configuration value.
#[verifier::rlimit(100)]
pub fn derive_python_config(
    config: &Config,
    importlib_bootstrap_path: &str,
    importlib_bootstrap_external_path: &str,
    py_modules_path: &str,
    pyc_modules_path: &str,
) -> (r: String)
    ensures
        r@ =~= python_config_chars(
            config,
            importlib_bootstrap_path@,
            importlib_bootstrap_external_path@,
            py_modules_path@,
            pyc_modules_path@,
        ),
{
    let mut out = "PythonConfig {\n    program_name: \"".to_owned();
    out.append(config.program_name.as_str());
    out.append("\".to_string(),\n    standard_io_encoding: ");
    append_some_quoted(&mut out, &config.stdio_encoding_name);
    out.append(",\n    standard_io_errors: ");
    append_some_quoted(&mut out, &config.stdio_encoding_errors);
    out.append(",\n    opt_level: ");
    let opt = crate::text::i64_to_string(config.optimize_level);
    out.append(opt.as_str());
    out.append(",\n    use_custom_importlib: true,\n    filesystem_importer: ");
    append_bool(&mut out, config.filesystem_importer);
    out.append(",\n    sys_paths: [");
    let ghost paths = strings_view(config.sys_paths@);
    let pn = config.sys_paths.len();
    let mut i: usize = 0;
    let ghost head = out@;
    while i < pn
        invariant
            0 <= i <= pn,
            pn == paths.len(),
            paths =~= strings_view(config.sys_paths@),
            out@ =~= head + sys_paths_chars(paths.take(i as int)),
        decreases pn - i,
    {
        proof {
            assert(paths[i as int] == config.sys_paths@[i as int]@);
            assert(paths.take(i + 1) =~= paths.take(i as int) + seq![paths[i as int]]);
            lemma_sys_paths_snoc(paths.take(i as int), paths[i as int]);
        }
        if i > 0 {
            out.append(", ");
        }
        out.append("\"");
        out.append(config.sys_paths[i].as_str());
        out.append("\".to_string()");
        i = i + 1;
    }
    proof {
        assert(paths.take(pn as int) =~= paths);
    }
    out.append("].to_vec(),\n    import_site: ");
    append_bool(&mut out, !config.no_site);
    out.append(",\n    import_user_site: ");
    append_bool(&mut out, !config.no_user_site_directory);
    out.append(",\n    ignore_python_env: ");
    append_bool(&mut out, config.ignore_environment);
    out.append(",\n    dont_write_bytecode: ");
    append_bool(&mut out, config.dont_write_bytecode);
    out.append(",\n    unbuffered_stdio: ");
    append_bool(&mut out, config.unbuffered_stdio);
    out.append(",\n    frozen_importlib_data: include_bytes!(\"");
    out.append(importlib_bootstrap_path);
    out.append("\"),\n    frozen_importlib_external_data: include_bytes!(\"");
    out.append(importlib_bootstrap_external_path);
    out.append("\"),\n    py_modules_data: include_bytes!(\"");
    out.append(py_modules_path);
    out.append("\"),\n    pyc_modules_data: include_bytes!(\"");
    out.append(pyc_modules_path);
    out.append("\"),\n    argvb: false,\n    rust_allocator_raw: ");
    append_bool(&mut out, config.rust_allocator_raw);
    out.append(",\n    write_modules_directory_env: ");
    match config.write_modules_directory_env {
        Some(ref p) => {
            out.append("Some(\"");
            out.append(p.as_str());
            out.append("\".to_string())");
        },
        None => {
            out.append("None");
        },
    }
    out.append(",\n    run: ");
    match config.run {
        RunMode::Repl => {
            out.append("PythonRunMode::Repl");
        },
        RunMode::Module { ref module } => {
            out.append("PythonRunMode::Module { module: \"");
            out.append(module.as_str());
            out.append("\".to_string() }");
        },
        RunMode::Eval { ref code } => {
            out.append("PythonRunMode::Eval { code: \"");
            out.append(code.as_str());
            out.append("\".to_string() }");
        },
    }
    out.append(",\n}");
    out
}

/// Every character after an indented line start, with each newline opening
/// another indented line.
pub open spec fn indent_rest(s: Seq<char>) -> Seq<char>
    decreases s.len(),
{
    if s.len() == 0 {
        Seq::empty()
    } else {
        (if s[0] == '\n' {
            "\n    "@
        } else {
            seq![s[0]]
        }) + indent_rest(s.skip(1))
    }
}

pub proof fn lemma_indent_rest_append(a: Seq<char>, b: Seq<char>)
    ensures
        indent_rest(a + b) =~= indent_rest(a) + indent_rest(b),
    decreases a.len(),
{
    if a.len() == 0 {
        assert(a + b =~= b);
        assert(indent_rest(a) =~= Seq::<char>::empty());
    } else {
        lemma_indent_rest_append(a.skip(1), b);
        assert((a + b).skip(1) =~= a.skip(1) + b);
        assert((a + b)[0] == a[0]);
    }
}

/// The content of the generated data module: the runtime-configuration
/// literal wrapped in a factory function, indented one level.
pub open spec fn data_rs_chars(python_config: Seq<char>) -> Seq<char> {
    "use super::config::{PythonConfig, PythonRunMode};\n\npub fn default_python_config() -> PythonConfig {\n    "@
        + indent_rest(python_config) + "\n}\n"@
}

/// Renders the data module around a runtime-configuration literal.
pub fn data_rs_content(python_config_rs: &str) -> (r: String)
    ensures
        r@ =~= data_rs_chars(python_config_rs@),
{
    let mut out =
        "use super::config::{PythonConfig, PythonRunMode};\n\npub fn default_python_config() -> PythonConfig {\n    ".to_owned();
    let ghost head = out@;
    let len = python_config_rs.unicode_len();
    let mut i: usize = 0;
    proof {
        assert(python_config_rs@.take(0) =~= Seq::<char>::empty());
        assert(indent_rest(Seq::<char>::empty()) =~= Seq::<char>::empty());
    }
    while i < len
        invariant
            0 <= i <= len,
            len == python_config_rs@.len(),
            out@ =~= head + indent_rest(python_config_rs@.take(i as int)),
        decreases len - i,
    {
        let c = python_config_rs.get_char(i);
        if c == '\n' {
            out.append("\n    ");
        } else {
            let piece = python_config_rs.substring_char(i, i + 1);
            out.append(piece);
        }
        proof {
            let s = python_config_rs@;
            assert(s.take(i + 1) =~= s.take(i as int) + seq![s[i as int]]);
            lemma_indent_rest_append(s.take(i as int), seq![s[i as int]]);
            assert(seq![s[i as int]].skip(1) =~= Seq::<char>::empty());
            assert(indent_rest(Seq::<char>::empty()) =~= Seq::<char>::empty());
            assert(indent_rest(seq![s[i as int]]) =~= (if s[i as int] == '\n' {
                "\n    "@
            } else {
                seq![s[i as int]]
            }));
        }
        i = i + 1;
    }
    proof {
        assert(python_config_rs@.take(len as int) =~= python_config_rs@);
    }
    out.append("\n}\n");
    out
}

/// Everything the engine produced for one build, with the paths the
/// artifacts were written under.
pub struct EmbeddedPythonConfig {
    pub config: Config,
    pub python_distribution_path: String,
    pub importlib_bootstrap_path: String,
    pub importlib_bootstrap_external_path: String,
    pub module_names_path: String,
    pub py_modules_path: String,
    pub pyc_modules_path: String,
    pub libpython_path: String,
    pub cargo_metadata: Vec<String>,
    pub python_config_rs: String,
}

/// Determinism: the blob bytes, the config.c text, the runtime-config
/// literal and the data module around it are all functions of their inputs
/// alone, so two runs over identical inputs produce byte-identical
/// artifacts.
pub proof fn lemma_artifacts_deterministic(
    es1: Seq<(Seq<u8>, Seq<u8>)>,
    es2: Seq<(Seq<u8>, Seq<u8>)>,
    x1: Seq<(Seq<char>, crate::dist::ExtensionModuleView)>,
    x2: Seq<(Seq<char>, crate::dist::ExtensionModuleView)>,
    c: &Config,
    p1: Seq<char>,
    q1: Seq<char>,
    p2: Seq<char>,
    q2: Seq<char>,
    p3: Seq<char>,
    q3: Seq<char>,
    p4: Seq<char>,
    q4: Seq<char>,
)
    requires
        es1 =~= es2,
        x1 =~= x2,
        p1 =~= q1,
        p2 =~= q2,
        p3 =~= q3,
        p4 =~= q4,
    ensures
        crate::codec::blob_bytes(es1) =~= crate::codec::blob_bytes(es2),
        crate::configc::config_c_chars(x1) =~= crate::configc::config_c_chars(x2),
        python_config_chars(c, p1, p2, p3, p4) =~= python_config_chars(c, q1, q2, q3, q4),
        data_rs_chars(python_config_chars(c, p1, p2, p3, p4)) =~= data_rs_chars(
            python_config_chars(c, q1, q2, q3, q4),
        ),
{
}

} // verus!
