//! The rule resolver: turns one declarative packaging rule into the stream
//! of add/remove actions it stands for, against a distribution. Rules that
//! walk a filesystem tree act on a pre-scanned listing; the semantics of
//! every rule on its inputs is fixed here.

use vstd::prelude::*;

use crate::dist::{ExtensionModule, ExtensionModuleView, LibraryDependency, PythonDistributionInfo};
use crate::ordmap::{assoc_contains, assoc_get};
use crate::resources::{
    actions_view, ActionView, PythonResource, PythonResourceEntry, ResourceAction, ResourceView,
};
use crate::scan::{scanned_view, ScannedResource, ScannedView};
use crate::text::{clone_bytes, matches_prefix, name_matches_prefix, str_eq};
use crate::RepackageError;

verus! {

/// The fixed stdlib test packages: modules equal to or dotted under one of
/// these are test modules.
pub open spec fn stdlib_test_package_names() -> Seq<Seq<char>> {
    seq![
        "bsddb.test"@,
        "ctypes.test"@,
        "distutils.tests"@,
        "email.test"@,
        "idlelib.idle_test"@,
        "json.tests"@,
        "lib-tk.test"@,
        "lib2to3.tests"@,
        "sqlite3.test"@,
        "test"@,
        "tkinter.test"@,
        "unittest.test"@,
    ]
}

/// A module is a stdlib test module when a test package covers it by the
/// dotted-name prefix rule.
pub open spec fn is_test_module(n: Seq<char>) -> bool {
    exists|i: int|
        0 <= i < stdlib_test_package_names().len() && name_matches_prefix(
            n,
            stdlib_test_package_names()[i],
        )
}

/// Decides whether a module belongs to the stdlib test packages.
pub fn is_stdlib_test_package(name: &str) -> (r: bool)
    ensures
        r == is_test_module(name@),
{
    proof {
        assert(stdlib_test_package_names()[0] == "bsddb.test"@);
        assert(stdlib_test_package_names()[1] == "ctypes.test"@);
        assert(stdlib_test_package_names()[2] == "distutils.tests"@);
        assert(stdlib_test_package_names()[3] == "email.test"@);
        assert(stdlib_test_package_names()[4] == "idlelib.idle_test"@);
        assert(stdlib_test_package_names()[5] == "json.tests"@);
        assert(stdlib_test_package_names()[6] == "lib-tk.test"@);
        assert(stdlib_test_package_names()[7] == "lib2to3.tests"@);
        assert(stdlib_test_package_names()[8] == "sqlite3.test"@);
        assert(stdlib_test_package_names()[9] == "test"@);
        assert(stdlib_test_package_names()[10] == "tkinter.test"@);
        assert(stdlib_test_package_names()[11] == "unittest.test"@);
    }
    if matches_prefix(name, "bsddb.test") {
        return true;
    }
    if matches_prefix(name, "ctypes.test") {
        return true;
    }
    if matches_prefix(name, "distutils.tests") {
        return true;
    }
    if matches_prefix(name, "email.test") {
        return true;
    }
    if matches_prefix(name, "idlelib.idle_test") {
        return true;
    }
    if matches_prefix(name, "json.tests") {
        return true;
    }
    if matches_prefix(name, "lib-tk.test") {
        return true;
    }
    if matches_prefix(name, "lib2to3.tests") {
        return true;
    }
    if matches_prefix(name, "sqlite3.test") {
        return true;
    }
    if matches_prefix(name, "test") {
        return true;
    }
    if matches_prefix(name, "tkinter.test") {
        return true;
    }
    if matches_prefix(name, "unittest.test") {
        return true;
    }
    false
}

/// A declarative packaging rule, applied in config order.
pub enum PythonPackaging {
    StdlibExtensionsPolicy { policy: String },
    StdlibExtensionsExplicitIncludes { includes: Vec<String> },
    StdlibExtensionsExplicitExcludes { excludes: Vec<String> },
    StdlibExtensionVariant { extension: String, variant: String },
    Stdlib { optimize_level: i64, exclude_test_modules: bool, include_source: bool },
    Virtualenv { path: String, optimize_level: i64, excludes: Vec<String>, include_source: bool },
    PackageRoot {
        path: String,
        packages: Vec<String>,
        optimize_level: i64,
        excludes: Vec<String>,
        include_source: bool,
    },
    PipInstallSimple { package: String, optimize_level: i64, include_source: bool },
    FilterFileInclude { path: String },
    FilterFilesInclude { glob: String },
}

/// An add action for one extension variant.
pub open spec fn add_ext(name: Seq<char>, em: ExtensionModuleView) -> ActionView {
    ActionView { add: true, resource: ResourceView::Extension { name, module: em } }
}

/// The `minimal` policy: the default variant of every extension that is
/// builtin by default or required.
pub open spec fn policy_minimal_spec(exts: Seq<(Seq<char>, Seq<ExtensionModule>)>) -> Seq<
    ActionView,
> {
    exts.filter(
        |e: (Seq<char>, Seq<ExtensionModule>)| e.1[0].builtin_default || e.1[0].required,
    ).map_values(|e: (Seq<char>, Seq<ExtensionModule>)| add_ext(e.0, e.1[0]@))
}

/// The `all` policy: the default variant of every extension.
pub open spec fn policy_all_spec(exts: Seq<(Seq<char>, Seq<ExtensionModule>)>) -> Seq<ActionView> {
    exts.map_values(|e: (Seq<char>, Seq<ExtensionModule>)| add_ext(e.0, e.1[0]@))
}

/// The first variant with no library dependencies, if any.
pub open spec fn first_no_links(vs: Seq<ExtensionModule>) -> Option<ExtensionModule>
    decreases vs.len(),
{
    if vs.len() == 0 {
        None
    } else if vs[0].links@.len() == 0 {
        Some(vs[0])
    } else {
        first_no_links(vs.skip(1))
    }
}

/// The `no-libraries` policy: for each extension, its first variant free of
/// library dependencies; extensions with none are left out.
pub open spec fn policy_no_libraries_spec(exts: Seq<(Seq<char>, Seq<ExtensionModule>)>) -> Seq<
    ActionView,
> {
    exts.filter(|e: (Seq<char>, Seq<ExtensionModule>)| first_no_links(e.1) is Some).map_values(
        |e: (Seq<char>, Seq<ExtensionModule>)| add_ext(e.0, first_no_links(e.1).unwrap()@),
    )
}

/// Explicit includes: the default variant of each requested name the
/// distribution knows; unknown names are silently ignored.
pub open spec fn explicit_includes_spec(
    includes: Seq<Seq<char>>,
    exts: Seq<(Seq<char>, Seq<ExtensionModule>)>,
) -> Seq<ActionView> {
    includes.filter(|n: Seq<char>| assoc_contains(exts, n)).map_values(
        |n: Seq<char>| add_ext(n, assoc_get(exts, n).unwrap()[0]@),
    )
}

/// Explicit excludes: the default variant of every extension not excluded.
pub open spec fn explicit_excludes_spec(
    excludes: Seq<Seq<char>>,
    exts: Seq<(Seq<char>, Seq<ExtensionModule>)>,
) -> Seq<ActionView> {
    exts.filter(|e: (Seq<char>, Seq<ExtensionModule>)| !excludes.contains(e.0)).map_values(
        |e: (Seq<char>, Seq<ExtensionModule>)| add_ext(e.0, e.1[0]@),
    )
}

/// The variants of `extension` whose tag is `variant`, as add actions.
pub open spec fn variant_matches_spec(
    extension: Seq<char>,
    variant: Seq<char>,
    vs: Seq<ExtensionModule>,
) -> Seq<ActionView> {
    vs.filter(|em: ExtensionModule| em.variant@ == variant).map_values(
        |em: ExtensionModule| add_ext(extension, em@),
    )
}

/// A field-for-field copy of a library dependency.
pub fn clone_library_dependency(d: &LibraryDependency) -> (r: LibraryDependency)
    ensures
        r == *d,
{
    LibraryDependency {
        name: d.name.clone(),
        framework: d.framework,
        system: d.system,
        static_path: match d.static_path {
            Some(ref p) => Some(p.clone()),
            None => None,
        },
        dynamic_path: match d.dynamic_path {
            Some(ref p) => Some(p.clone()),
            None => None,
        },
    }
}

/// A field-for-field copy of an extension variant record.
pub fn clone_extension_module(em: &ExtensionModule) -> (r: ExtensionModule)
    ensures
        r@ =~= em@,
{
    let mut object_paths: Vec<String> = Vec::new();
    let n = em.object_paths.len();
    let mut i: usize = 0;
    while i < n
        invariant
            0 <= i <= n,
            n == em.object_paths@.len(),
            object_paths@ =~= em.object_paths@.take(i as int),
        decreases n - i,
    {
        object_paths.push(em.object_paths[i].clone());
        proof {
            assert(em.object_paths@.take(i + 1) =~= em.object_paths@.take(i as int) + seq![
                em.object_paths@[i as int],
            ]);
        }
        i = i + 1;
    }
    let mut links: Vec<LibraryDependency> = Vec::new();
    let ln = em.links.len();
    let mut i: usize = 0;
    while i < ln
        invariant
            0 <= i <= ln,
            ln == em.links@.len(),
            links@ =~= em.links@.take(i as int),
        decreases ln - i,
    {
        let dep = clone_library_dependency(&em.links[i]);
        links.push(dep);
        proof {
            assert(em.links@.take(i + 1) =~= em.links@.take(i as int) + seq![em.links@[i as int]]);
        }
        i = i + 1;
    }
    proof {
        assert(em.object_paths@.take(n as int) =~= em.object_paths@);
        assert(em.links@.take(ln as int) =~= em.links@);
    }
    let r = ExtensionModule {
        module: em.module.clone(),
        variant: em.variant.clone(),
        builtin_default: em.builtin_default,
        required: em.required,
        init_fn: match em.init_fn {
            Some(ref f) => Some(f.clone()),
            None => None,
        },
        object_paths,
        links,
    };
    proof {
        assert(r.object_paths@ == em.object_paths@);
        assert(r.links@ == em.links@);
        assert(r@ =~= em@);
    }
    r
}

/// An add-extension entry for `name` and variant `em`.
fn add_extension_entry(name: &String, em: &ExtensionModule) -> (e: PythonResourceEntry)
    ensures
        e@ == add_ext(name@, em@),
{
    PythonResourceEntry {
        action: ResourceAction::Add,
        resource: PythonResource::ExtensionModule {
            name: name.clone(),
            module: clone_extension_module(em),
        },
    }
}

/// One filter-then-map output grows pointwise over a prefix step.
pub proof fn lemma_filter_map_step<A, B>(s: Seq<A>, i: int, pred: spec_fn(A) -> bool, f: spec_fn(A) -> B)
    requires
        0 <= i < s.len(),
    ensures
        s.take(i + 1).filter(pred).map_values(f) =~= s.take(i).filter(pred).map_values(f) + (if pred(
            s[i],
        ) {
            seq![f(s[i])]
        } else {
            Seq::<B>::empty()
        }),
{
    broadcast use vstd::seq_lib::group_filter_ensures;

    assert(s.take(i + 1) =~= s.take(i) + seq![s[i]]);
    Seq::filter_distributes_over_add(s.take(i), seq![s[i]], pred);
    reveal(Seq::filter);
    assert(seq![s[i]].drop_last() =~= Seq::<A>::empty());
    assert(Seq::<A>::empty().filter(pred) =~= Seq::<A>::empty());
    assert(seq![s[i]].last() == s[i]);
    assert(seq![s[i]].filter(pred) =~= (if pred(s[i]) {
        seq![s[i]]
    } else {
        Seq::<A>::empty()
    }));
}

/// The add actions a single source module contributes: its source when
/// sources are kept, always a bytecode request.
pub open spec fn module_actions(name: Seq<char>, source: Seq<u8>, opt: int, inc: bool) -> Seq<
    ActionView,
> {
    (if inc {
        seq![ActionView { add: true, resource: ResourceView::Source { name, source } }]
    } else {
        Seq::<ActionView>::empty()
    }) + seq![
        ActionView {
            add: true,
            resource: ResourceView::Bytecode { name, source, optimize_level: opt },
        },
    ]
}

/// The `Stdlib` rule: every distribution module, minus the test packages
/// when they are excluded.
pub open spec fn stdlib_spec(
    mods: Seq<(Seq<char>, Seq<u8>)>,
    opt: int,
    excl: bool,
    inc: bool,
) -> Seq<ActionView>
    decreases mods.len(),
{
    if mods.len() == 0 {
        Seq::empty()
    } else {
        (if excl && is_test_module(mods[0].0) {
            Seq::<ActionView>::empty()
        } else {
            module_actions(mods[0].0, mods[0].1, opt, inc)
        }) + stdlib_spec(mods.skip(1), opt, excl, inc)
    }
}

pub proof fn lemma_stdlib_spec_append(
    a: Seq<(Seq<char>, Seq<u8>)>,
    b: Seq<(Seq<char>, Seq<u8>)>,
    opt: int,
    excl: bool,
    inc: bool,
)
    ensures
        stdlib_spec(a + b, opt, excl, inc) =~= stdlib_spec(a, opt, excl, inc) + stdlib_spec(
            b,
            opt,
            excl,
            inc,
        ),
    decreases a.len(),
{
    if a.len() == 0 {
        assert(a + b =~= b);
        assert(stdlib_spec(a, opt, excl, inc) =~= Seq::<ActionView>::empty());
    } else {
        lemma_stdlib_spec_append(a.skip(1), b, opt, excl, inc);
        assert((a + b).skip(1) =~= a.skip(1) + b);
        assert((a + b)[0] == a[0]);
    }
}

/// Whether a scanned module survives a scan rule's package and exclude
/// lists, by the dotted-name prefix rule.
pub open spec fn scan_relevant(
    name: Seq<char>,
    packages: Option<Seq<Seq<char>>>,
    excludes: Seq<Seq<char>>,
) -> bool {
    (match packages {
        None => true,
        Some(ps) => exists|i: int| 0 <= i < ps.len() && name_matches_prefix(name, ps[i]),
    }) && !(exists|i: int| 0 <= i < excludes.len() && name_matches_prefix(name, excludes[i]))
}

/// A rule over scanned sources: the relevant modules' actions, in scan
/// order.
pub open spec fn scan_rule_spec(
    items: Seq<ScannedView>,
    packages: Option<Seq<Seq<char>>>,
    excludes: Seq<Seq<char>>,
    opt: int,
    inc: bool,
) -> Seq<ActionView>
    decreases items.len(),
{
    if items.len() == 0 {
        Seq::empty()
    } else {
        (if scan_relevant(items[0].name, packages, excludes) {
            module_actions(items[0].name, items[0].source, opt, inc)
        } else {
            Seq::<ActionView>::empty()
        }) + scan_rule_spec(items.skip(1), packages, excludes, opt, inc)
    }
}

pub proof fn lemma_scan_rule_spec_append(
    a: Seq<ScannedView>,
    b: Seq<ScannedView>,
    packages: Option<Seq<Seq<char>>>,
    excludes: Seq<Seq<char>>,
    opt: int,
    inc: bool,
)
    ensures
        scan_rule_spec(a + b, packages, excludes, opt, inc) =~= scan_rule_spec(
            a,
            packages,
            excludes,
            opt,
            inc,
        ) + scan_rule_spec(b, packages, excludes, opt, inc),
    decreases a.len(),
{
    if a.len() == 0 {
        assert(a + b =~= b);
        assert(scan_rule_spec(a, packages, excludes, opt, inc) =~= Seq::<ActionView>::empty());
    } else {
        lemma_scan_rule_spec_append(a.skip(1), b, packages, excludes, opt, inc);
        assert((a + b).skip(1) =~= a.skip(1) + b);
        assert((a + b)[0] == a[0]);
    }
}

/// What a rule resolves to: its action stream, or nothing when the rule is
/// malformed (an unknown policy) or names a missing extension or variant.
pub open spec fn resolve_spec(
    rule: &PythonPackaging,
    dist: &PythonDistributionInfo,
    scanned: Seq<ScannedView>,
) -> Option<Seq<ActionView>> {
    match rule {
        PythonPackaging::StdlibExtensionsPolicy { policy } => {
            if policy@ == "minimal"@ {
                Some(policy_minimal_spec(dist.extension_modules@))
            } else if policy@ == "all"@ {
                Some(policy_all_spec(dist.extension_modules@))
            } else if policy@ == "no-libraries"@ {
                Some(policy_no_libraries_spec(dist.extension_modules@))
            } else {
                None
            }
        },
        PythonPackaging::StdlibExtensionsExplicitIncludes { includes } => Some(
            explicit_includes_spec(crate::text::strings_view(includes@), dist.extension_modules@),
        ),
        PythonPackaging::StdlibExtensionsExplicitExcludes { excludes } => Some(
            explicit_excludes_spec(crate::text::strings_view(excludes@), dist.extension_modules@),
        ),
        PythonPackaging::StdlibExtensionVariant { extension, variant } => {
            match assoc_get(dist.extension_modules@, extension@) {
                None => None,
                Some(vs) => {
                    let acts = variant_matches_spec(extension@, variant@, vs);
                    if acts.len() == 0 {
                        None
                    } else {
                        Some(acts)
                    }
                },
            }
        },
        PythonPackaging::Stdlib { optimize_level, exclude_test_modules, include_source } => Some(
            stdlib_spec(
                dist.py_modules@,
                *optimize_level as int,
                *exclude_test_modules,
                *include_source,
            ),
        ),
        PythonPackaging::Virtualenv { path, optimize_level, excludes, include_source } => Some(
            scan_rule_spec(
                scanned,
                None,
                crate::text::strings_view(excludes@),
                *optimize_level as int,
                *include_source,
            ),
        ),
        PythonPackaging::PackageRoot {
            path,
            packages,
            optimize_level,
            excludes,
            include_source,
        } => Some(
            scan_rule_spec(
                scanned,
                Some(crate::text::strings_view(packages@)),
                crate::text::strings_view(excludes@),
                *optimize_level as int,
                *include_source,
            ),
        ),
        PythonPackaging::PipInstallSimple { package, optimize_level, include_source } => Some(
            scan_rule_spec(
                scanned,
                None,
                Seq::empty(),
                *optimize_level as int,
                *include_source,
            ),
        ),
        PythonPackaging::FilterFileInclude { path } => Some(Seq::empty()),
        PythonPackaging::FilterFilesInclude { glob } => Some(Seq::empty()),
    }
}

/// Whether any of `names` is exactly `k`.
pub fn names_contain(names: &Vec<String>, k: &str) -> (r: bool)
    ensures
        r == crate::text::strings_view(names@).contains(k@),
{
    let ghost nv = crate::text::strings_view(names@);
    let n = names.len();
    let mut i: usize = 0;
    while i < n
        invariant
            0 <= i <= n,
            n == names@.len(),
            nv =~= crate::text::strings_view(names@),
            forall|j: int| 0 <= j < i ==> #[trigger] nv[j] != k@,
        decreases n - i,
    {
        let eq = str_eq(names[i].as_str(), k);
        proof {
            assert(nv[i as int] == names@[i as int]@);
        }
        if eq {
            proof {
                assert(nv[i as int] == k@);
            }
            return true;
        }
        i = i + 1;
    }
    proof {
        if nv.contains(k@) {
            let w = choose|w: int| 0 <= w < nv.len() && nv[w] == k@;
        }
    }
    false
}

/// Whether an action's extension record carries the name it is staged
/// under as its module field; actions on other resource kinds always do.
pub open spec fn action_named(a: ActionView) -> bool {
    match a.resource {
        ResourceView::Extension { name, module } => module.module == name,
        _ => true,
    }
}

/// A found no-links variant is one of the variants.
proof fn lemma_first_no_links_mem(vs: Seq<ExtensionModule>)
    requires
        first_no_links(vs) is Some,
    ensures
        exists|k: int| 0 <= k < vs.len() && #[trigger] vs[k] == first_no_links(vs).unwrap(),
    decreases vs.len(),
{
    if vs.len() > 0 {
        if vs[0].links@.len() == 0 {
            assert(vs[0] == first_no_links(vs).unwrap());
        } else {
            lemma_first_no_links_mem(vs.skip(1));
            let w = choose|w: int|
                0 <= w < vs.skip(1).len() && #[trigger] vs.skip(1)[w] == first_no_links(
                    vs.skip(1),
                ).unwrap();
            assert(vs[w + 1] == first_no_links(vs).unwrap());
        }
    }
}

/// Module actions never stage an extension.
proof fn lemma_module_actions_named(name: Seq<char>, source: Seq<u8>, opt: int, inc: bool)
    ensures
        forall|i: int|
            0 <= i < module_actions(name, source, opt, inc).len() ==> action_named(
                #[trigger] module_actions(name, source, opt, inc)[i],
            ),
{
}

/// The stdlib rule's actions never stage an extension.
proof fn lemma_stdlib_spec_named(mods: Seq<(Seq<char>, Seq<u8>)>, opt: int, excl: bool, inc: bool)
    ensures
        forall|i: int|
            0 <= i < stdlib_spec(mods, opt, excl, inc).len() ==> action_named(
                #[trigger] stdlib_spec(mods, opt, excl, inc)[i],
            ),
    decreases mods.len(),
{
    if mods.len() > 0 {
        lemma_stdlib_spec_named(mods.skip(1), opt, excl, inc);
        lemma_module_actions_named(mods[0].0, mods[0].1, opt, inc);
        let head = if excl && is_test_module(mods[0].0) {
            Seq::<ActionView>::empty()
        } else {
            module_actions(mods[0].0, mods[0].1, opt, inc)
        };
        let all = stdlib_spec(mods, opt, excl, inc);
        assert forall|i: int| 0 <= i < all.len() implies action_named(#[trigger] all[i]) by {
            if i < head.len() {
                assert(all[i] == head[i]);
            } else {
                assert(all[i] == stdlib_spec(mods.skip(1), opt, excl, inc)[i - head.len()]);
            }
        }
    }
}

/// A scan rule's actions never stage an extension.
proof fn lemma_scan_rule_spec_named(
    items: Seq<ScannedView>,
    packages: Option<Seq<Seq<char>>>,
    excludes: Seq<Seq<char>>,
    opt: int,
    inc: bool,
)
    ensures
        forall|i: int|
            0 <= i < scan_rule_spec(items, packages, excludes, opt, inc).len() ==> action_named(
                #[trigger] scan_rule_spec(items, packages, excludes, opt, inc)[i],
            ),
    decreases items.len(),
{
    if items.len() > 0 {
        lemma_scan_rule_spec_named(items.skip(1), packages, excludes, opt, inc);
        lemma_module_actions_named(items[0].name, items[0].source, opt, inc);
        let head = if scan_relevant(items[0].name, packages, excludes) {
            module_actions(items[0].name, items[0].source, opt, inc)
        } else {
            Seq::<ActionView>::empty()
        };
        let all = scan_rule_spec(items, packages, excludes, opt, inc);
        assert forall|i: int| 0 <= i < all.len() implies action_named(#[trigger] all[i]) by {
            if i < head.len() {
                assert(all[i] == head[i]);
            } else {
                assert(all[i] == scan_rule_spec(items.skip(1), packages, excludes, opt, inc)[i
                    - head.len()]);
            }
        }
    }
}

/// Every action a well-formed distribution resolves a rule to carries its
/// staging name in the extension record: a rule can only stage a variant
/// under the dotted name the distribution keys it by.
pub proof fn lemma_resolve_actions_named(
    rule: &PythonPackaging,
    dist: &PythonDistributionInfo,
    scanned: Seq<ScannedView>,
)
    requires
        dist.wf(),
        resolve_spec(rule, dist, scanned) is Some,
    ensures
        forall|i: int|
            0 <= i < resolve_spec(rule, dist, scanned).unwrap().len() ==> action_named(
                #[trigger] resolve_spec(rule, dist, scanned).unwrap()[i],
            ),
{
    broadcast use vstd::seq_lib::group_filter_ensures;

    let acts = resolve_spec(rule, dist, scanned).unwrap();
    let exts = dist.extension_modules@;
    match rule {
        PythonPackaging::StdlibExtensionsPolicy { policy } => {
            if policy@ == "minimal"@ {
                let pred = |e: (Seq<char>, Seq<ExtensionModule>)|
                    e.1[0].builtin_default || e.1[0].required;
                let kept = exts.filter(pred);
                assert forall|i: int| 0 <= i < acts.len() implies action_named(
                    #[trigger] acts[i],
                ) by {
                    assert(acts[i] == add_ext(kept[i].0, kept[i].1[0]@));
                    assert(kept.contains(kept[i]));
                    Seq::lemma_filter_contains_rev(exts, pred, kept[i]);
                    let w = choose|w: int| 0 <= w < exts.len() && exts[w] == kept[i];
                    assert(exts[w].1[0]@.module == exts[w].0);
                }
            } else if policy@ == "all"@ {
                assert forall|i: int| 0 <= i < acts.len() implies action_named(
                    #[trigger] acts[i],
                ) by {
                    assert(acts[i] == add_ext(exts[i].0, exts[i].1[0]@));
                    assert(exts[i].1[0]@.module == exts[i].0);
                }
            } else if policy@ == "no-libraries"@ {
                let pred = |e: (Seq<char>, Seq<ExtensionModule>)| first_no_links(e.1) is Some;
                let kept = exts.filter(pred);
                assert forall|i: int| 0 <= i < acts.len() implies action_named(
                    #[trigger] acts[i],
                ) by {
                    assert(acts[i] == add_ext(kept[i].0, first_no_links(kept[i].1).unwrap()@));
                    assert(kept.contains(kept[i]));
                    Seq::lemma_filter_contains_rev(exts, pred, kept[i]);
                    let w = choose|w: int| 0 <= w < exts.len() && exts[w] == kept[i];
                    lemma_first_no_links_mem(exts[w].1);
                    let k = choose|k: int|
                        0 <= k < exts[w].1.len() && #[trigger] exts[w].1[k] == first_no_links(
                            exts[w].1,
                        ).unwrap();
                    assert(exts[w].1[k]@.module == exts[w].0);
                }
            }
        },
        PythonPackaging::StdlibExtensionsExplicitIncludes { includes } => {
            let iv = crate::text::strings_view(includes@);
            let pred = |n: Seq<char>| assoc_contains(exts, n);
            let kept = iv.filter(pred);
            assert forall|i: int| 0 <= i < acts.len() implies action_named(#[trigger] acts[i]) by {
                assert(acts[i] == add_ext(kept[i], assoc_get(exts, kept[i]).unwrap()[0]@));
                assert(kept.contains(kept[i]));
                Seq::lemma_filter_contains_rev(iv, pred, kept[i]);
                assert(assoc_contains(exts, kept[i]));
                lemma_assoc_get_is_stored(exts, kept[i]);
                let w = choose|w: int|
                    0 <= w < exts.len() && #[trigger] exts[w] == (
                        kept[i],
                        assoc_get(exts, kept[i]).unwrap(),
                    );
                assert(exts[w].1.len() > 0);
                assert(exts[w].1[0]@.module == exts[w].0);
            }
        },
        PythonPackaging::StdlibExtensionsExplicitExcludes { excludes } => {
            let ev = crate::text::strings_view(excludes@);
            let pred = |e: (Seq<char>, Seq<ExtensionModule>)| !ev.contains(e.0);
            let kept = exts.filter(pred);
            assert forall|i: int| 0 <= i < acts.len() implies action_named(#[trigger] acts[i]) by {
                assert(acts[i] == add_ext(kept[i].0, kept[i].1[0]@));
                assert(kept.contains(kept[i]));
                Seq::lemma_filter_contains_rev(exts, pred, kept[i]);
                let w = choose|w: int| 0 <= w < exts.len() && exts[w] == kept[i];
                assert(exts[w].1[0]@.module == exts[w].0);
            }
        },
        PythonPackaging::StdlibExtensionVariant { extension, variant } => {
            let vs = assoc_get(exts, extension@).unwrap();
            let pred = |em: ExtensionModule| em.variant@ == variant@;
            let kept = vs.filter(pred);
            lemma_assoc_get_is_stored(exts, extension@);
            let w = choose|w: int|
                0 <= w < exts.len() && #[trigger] exts[w] == (extension@, vs);
            assert forall|i: int| 0 <= i < acts.len() implies action_named(#[trigger] acts[i]) by {
                assert(acts[i] == add_ext(extension@, kept[i]@));
                assert(kept.contains(kept[i]));
                Seq::lemma_filter_contains_rev(vs, pred, kept[i]);
                let k = choose|k: int| 0 <= k < vs.len() && vs[k] == kept[i];
                assert(exts[w].1[k]@.module == exts[w].0);
            }
        },
        PythonPackaging::Stdlib { optimize_level, exclude_test_modules, include_source } => {
            lemma_stdlib_spec_named(
                dist.py_modules@,
                *optimize_level as int,
                *exclude_test_modules,
                *include_source,
            );
        },
        PythonPackaging::Virtualenv { path, optimize_level, excludes, include_source } => {
            lemma_scan_rule_spec_named(
                scanned,
                None,
                crate::text::strings_view(excludes@),
                *optimize_level as int,
                *include_source,
            );
        },
        PythonPackaging::PackageRoot {
            path,
            packages,
            optimize_level,
            excludes,
            include_source,
        } => {
            lemma_scan_rule_spec_named(
                scanned,
                Some(crate::text::strings_view(packages@)),
                crate::text::strings_view(excludes@),
                *optimize_level as int,
                *include_source,
            );
        },
        PythonPackaging::PipInstallSimple { package, optimize_level, include_source } => {
            lemma_scan_rule_spec_named(
                scanned,
                None,
                Seq::empty(),
                *optimize_level as int,
                *include_source,
            );
        },
        PythonPackaging::FilterFileInclude { path } => {},
        PythonPackaging::FilterFilesInclude { glob } => {},
    }
}

/// The message a malformed rule fails with: it names the offending policy
/// value, or the missing extension or variant.
pub open spec fn resolve_error_chars(
    rule: &PythonPackaging,
    dist: &PythonDistributionInfo,
) -> Seq<char> {
    match rule {
        PythonPackaging::StdlibExtensionsPolicy { policy } => "illegal policy value: "@ + policy@,
        PythonPackaging::StdlibExtensionVariant { extension, variant } => {
            if assoc_get(dist.extension_modules@, extension@) is None {
                "extension module not found: "@ + extension@
            } else {
                "extension has no such variant: "@ + variant@
            }
        },
        _ => Seq::empty(),
    }
}

/// Whether any pattern in `pats` covers `name` by the prefix rule.
pub fn any_prefix_match(pats: &Vec<String>, name: &str) -> (r: bool)
    ensures
        r == exists|i: int|
            0 <= i < pats@.len() && name_matches_prefix(
                name@,
                crate::text::strings_view(pats@)[i],
            ),
{
    let ghost pv = crate::text::strings_view(pats@);
    let n = pats.len();
    let mut i: usize = 0;
    while i < n
        invariant
            0 <= i <= n,
            n == pats@.len(),
            pv =~= crate::text::strings_view(pats@),
            forall|j: int| 0 <= j < i ==> !name_matches_prefix(name@, #[trigger] pv[j]),
        decreases n - i,
    {
        let m = matches_prefix(name, pats[i].as_str());
        proof {
            assert(pv[i as int] == pats@[i as int]@);
        }
        if m {
            return true;
        }
        i = i + 1;
    }
    false
}

/// Appends the one or two add actions of a source module.
fn push_module_entries(
    res: &mut Vec<PythonResourceEntry>,
    name: &String,
    source: &Vec<u8>,
    optimize_level: i64,
    include_source: bool,
)
    ensures
        actions_view(final(res)@) =~= actions_view(old(res)@) + module_actions(
            name@,
            source@,
            optimize_level as int,
            include_source,
        ),
{
    let ghost before = actions_view(res@);
    if include_source {
        let ghost prev = res@;
        res.push(
            PythonResourceEntry {
                action: ResourceAction::Add,
                resource: PythonResource::ModuleSource {
                    name: name.clone(),
                    source: clone_bytes(source),
                },
            },
        );
        proof {
            assert(actions_view(res@) =~= actions_view(prev) + seq![res@[res@.len() - 1]@]);
        }
    }
    let ghost mid = res@;
    res.push(
        PythonResourceEntry {
            action: ResourceAction::Add,
            resource: PythonResource::ModuleBytecode {
                name: name.clone(),
                source: clone_bytes(source),
                optimize_level,
            },
        },
    );
    proof {
        assert(actions_view(res@) =~= actions_view(mid) + seq![res@[res@.len() - 1]@]);
        assert(actions_view(res@) =~= before + module_actions(
            name@,
            source@,
            optimize_level as int,
            include_source,
        ));
    }
}

/// Resolves one packaging rule to the actions it stands for. Rules that
/// scan a tree (virtualenv, package root, pip install) read the walk's
/// result from `scanned`; every other rule ignores it. Fails exactly on an
/// unknown policy value and on a variant rule whose extension or variant
/// the distribution lacks.
pub fn resolve_python_packaging(
    package: &PythonPackaging,
    dist: &PythonDistributionInfo,
    scanned: &Vec<ScannedResource>,
) -> (r: Result<Vec<PythonResourceEntry>, RepackageError>)
    requires
        dist.wf(),
    ensures
        match r {
            Ok(v) => resolve_spec(package, dist, scanned_view(scanned@)) == Some(actions_view(v@)),
            Err(e) => resolve_spec(package, dist, scanned_view(scanned@)) is None && (e matches
                RepackageError::ConfigError { message } && message@ == resolve_error_chars(
                package,
                dist,
            )),
        },
{
    let mut res: Vec<PythonResourceEntry> = Vec::new();
    match package {
        PythonPackaging::StdlibExtensionsPolicy { policy } => {
            let minimal = str_eq(policy.as_str(), "minimal");
            let all = str_eq(policy.as_str(), "all");
            let no_libraries = str_eq(policy.as_str(), "no-libraries");
            if !minimal && !all && !no_libraries {
                let mut message = "illegal policy value: ".to_owned();
                message.append(policy.as_str());
                return Err(RepackageError::ConfigError { message });
            }
            let ghost exts = dist.extension_modules@;
            let n = dist.extension_modules.len();
            let ghost minimal_pred = |e: (Seq<char>, Seq<ExtensionModule>)|
                e.1[0].builtin_default || e.1[0].required;
            let ghost minimal_map = |e: (Seq<char>, Seq<ExtensionModule>)| add_ext(e.0, e.1[0]@);
            let ghost nolib_pred = |e: (Seq<char>, Seq<ExtensionModule>)| first_no_links(e.1) is Some;
            let ghost nolib_map = |e: (Seq<char>, Seq<ExtensionModule>)|
                add_ext(e.0, first_no_links(e.1).unwrap()@);
            proof {
                reveal(Seq::filter);
                reveal_strlit("minimal");
                reveal_strlit("all");
                reveal_strlit("no-libraries");
                assert("minimal"@.len() != "all"@.len());
                assert("minimal"@.len() != "no-libraries"@.len());
                assert("all"@.len() != "no-libraries"@.len());
            }
            let mut i: usize = 0;
            while i < n
                invariant
                    0 <= i <= n,
                    n == exts.len(),
                    exts =~= dist.extension_modules@,
                    dist.wf(),
                    minimal || all || no_libraries,
                    !(minimal && all) && !(minimal && no_libraries) && !(all && no_libraries),
                    minimal ==> actions_view(res@) =~= exts.take(i as int).filter(
                        minimal_pred,
                    ).map_values(minimal_map),
                    all ==> actions_view(res@) =~= exts.take(i as int).map_values(minimal_map),
                    no_libraries ==> actions_view(res@) =~= exts.take(i as int).filter(
                        nolib_pred,
                    ).map_values(nolib_map),
                    forall|e: (Seq<char>, Seq<ExtensionModule>)| #[trigger] minimal_pred(e) == (
                    e.1[0].builtin_default || e.1[0].required),
                    forall|e: (Seq<char>, Seq<ExtensionModule>)| #[trigger] minimal_map(e)
                        == add_ext(e.0, e.1[0]@),
                    forall|e: (Seq<char>, Seq<ExtensionModule>)| #[trigger] nolib_pred(e) == (
                    first_no_links(e.1) is Some),
                    forall|e: (Seq<char>, Seq<ExtensionModule>)| #[trigger] nolib_map(e) == add_ext(
                        e.0,
                        first_no_links(e.1).unwrap()@,
                    ),
                decreases n - i,
            {
                let name = dist.extension_modules.key_at(i);
                let variants = dist.extension_modules.val_at(i);
                proof {
                    assert(exts[i as int].1.len() > 0);
                    assert(variants@ == exts[i as int].1);
                }
                let ghost before = actions_view(res@);
                if minimal {
                    let em = &variants[0];
                    if em.builtin_default || em.required {
                        let entry = add_extension_entry(name, em);
                        let ghost prev = res@;
                        res.push(entry);
                        proof {
                            assert(actions_view(res@) =~= actions_view(prev) + seq![
                                res@[res@.len() - 1]@,
                            ]);
                        }
                    }
                    proof {
                        lemma_filter_map_step(exts, i as int, minimal_pred, minimal_map);
                    }
                } else if all {
                    let em = &variants[0];
                    let entry = add_extension_entry(name, em);
                    let ghost prev = res@;
                    res.push(entry);
                    proof {
                        assert(actions_view(res@) =~= actions_view(prev) + seq![
                            res@[res@.len() - 1]@,
                        ]);
                        assert(exts.take(i + 1) =~= exts.take(i as int) + seq![exts[i as int]]);
                        assert(exts.take(i + 1).map_values(minimal_map) =~= exts.take(
                            i as int,
                        ).map_values(minimal_map) + seq![minimal_map(exts[i as int])]);
                    }
                } else {
                    // no-libraries: the first variant without library dependencies
                    let vn = variants.len();
                    let mut k: usize = 0;
                    let mut picked: bool = false;
                    proof {
                        assert(variants@.skip(0) =~= variants@);
                    }
                    while k < vn
                        invariant
                            0 <= k <= vn,
                            vn == variants@.len(),
                            !picked ==> first_no_links(variants@) == first_no_links(
                                variants@.skip(k as int),
                            ),
                            !picked ==> forall|j: int|
                                0 <= j < k ==> (#[trigger] variants@[j]).links@.len() > 0,
                            picked ==> first_no_links(variants@) is Some,
                            picked ==> actions_view(res@) =~= before + seq![
                                add_ext(exts[i as int].0, first_no_links(variants@).unwrap()@),
                            ],
                            !picked ==> actions_view(res@) =~= before,
                            exts[i as int].1 == variants@,
                            i < exts.len(),
                            exts =~= dist.extension_modules@,
                        decreases vn - k,
                    {
                        if !picked {
                            let em = &variants[k];
                            if em.links.len() == 0 {
                                let entry = add_extension_entry(
                                    dist.extension_modules.key_at(i),
                                    em,
                                );
                                let ghost prev = res@;
                                res.push(entry);
                                picked = true;
                                proof {
                                    assert(variants@.skip(k as int)[0] == variants@[k as int]);
                                    assert(first_no_links(variants@.skip(k as int)) == Some(
                                        variants@[k as int],
                                    ));
                                    assert(first_no_links(variants@) == Some(variants@[k as int]));
                                    assert(actions_view(res@) =~= actions_view(prev) + seq![
                                        res@[res@.len() - 1]@,
                                    ]);
                                    assert(res@[res@.len() - 1]@ == add_ext(
                                        exts[i as int].0,
                                        variants@[k as int]@,
                                    ));
                                    assert(actions_view(res@) =~= before + seq![
                                        add_ext(
                                            exts[i as int].0,
                                            first_no_links(variants@).unwrap()@,
                                        ),
                                    ]);
                                }
                            } else {
                                proof {
                                    assert(variants@.skip(k as int)[0] == variants@[k as int]);
                                    assert(variants@.skip(k as int).skip(1) =~= variants@.skip(
                                        k + 1,
                                    ));
                                }
                            }
                        }
                        k = k + 1;
                    }
                    proof {
                        if !picked {
                            assert(variants@.skip(vn as int) =~= Seq::<ExtensionModule>::empty());
                            assert(first_no_links(variants@) is None);
                            assert(!nolib_pred(exts[i as int]));
                        } else {
                            assert(exts[i as int].1 == variants@);
                            assert(first_no_links(exts[i as int].1) is Some);
                            assert(nolib_pred(exts[i as int]));
                            assert(nolib_map(exts[i as int]) == add_ext(
                                exts[i as int].0,
                                first_no_links(variants@).unwrap()@,
                            ));
                            assert(actions_view(res@) =~= before + seq![
                                nolib_map(exts[i as int]),
                            ]);
                        }
                        lemma_filter_map_step(exts, i as int, nolib_pred, nolib_map);
                        assert(before =~= exts.take(i as int).filter(nolib_pred).map_values(
                            nolib_map,
                        ));
                        assert(actions_view(res@) =~= exts.take(i + 1).filter(
                            nolib_pred,
                        ).map_values(nolib_map));
                    }
                }
                i = i + 1;
            }
            proof {
                assert(exts.take(n as int) =~= exts);
            }
            Ok(res)
        },
        PythonPackaging::StdlibExtensionsExplicitIncludes { includes } => {
            let ghost iv = crate::text::strings_view(includes@);
            let ghost exts = dist.extension_modules@;
            let ghost pred = |nm: Seq<char>| assoc_contains(exts, nm);
            let ghost mp = |nm: Seq<char>| add_ext(nm, assoc_get(exts, nm).unwrap()[0]@);
            proof {
                reveal(Seq::filter);
            }
            let n = includes.len();
            let mut i: usize = 0;
            while i < n
                invariant
                    0 <= i <= n,
                    n == includes@.len(),
                    iv =~= crate::text::strings_view(includes@),
                    exts =~= dist.extension_modules@,
                    dist.wf(),
                    actions_view(res@) =~= iv.take(i as int).filter(pred).map_values(mp),
                    forall|nm: Seq<char>| #[trigger] pred(nm) == assoc_contains(exts, nm),
                    forall|nm: Seq<char>| #[trigger] mp(nm) == add_ext(
                        nm,
                        assoc_get(exts, nm).unwrap()[0]@,
                    ),
                decreases n - i,
            {
                proof {
                    assert(iv[i as int] == includes@[i as int]@);
                }
                let name = &includes[i];
                match dist.extension_modules.get(name.as_str()) {
                    Some(variants) => {
                        proof {
                            assert(assoc_get(exts, iv[i as int]) == Some(variants@));
                            lemma_assoc_get_nonempty(dist, iv[i as int]);
                        }
                        let entry = add_extension_entry(name, &variants[0]);
                        let ghost prev = res@;
                        res.push(entry);
                        proof {
                            assert(actions_view(res@) =~= actions_view(prev) + seq![
                                res@[res@.len() - 1]@,
                            ]);
                        }
                    },
                    None => {},
                }
                proof {
                    lemma_filter_map_step(iv, i as int, pred, mp);
                }
                i = i + 1;
            }
            proof {
                assert(iv.take(n as int) =~= iv);
            }
            Ok(res)
        },
        PythonPackaging::StdlibExtensionsExplicitExcludes { excludes } => {
            let ghost ev = crate::text::strings_view(excludes@);
            let ghost exts = dist.extension_modules@;
            let ghost pred = |e: (Seq<char>, Seq<ExtensionModule>)| !ev.contains(e.0);
            let ghost mp = |e: (Seq<char>, Seq<ExtensionModule>)| add_ext(e.0, e.1[0]@);
            proof {
                reveal(Seq::filter);
            }
            let n = dist.extension_modules.len();
            let mut i: usize = 0;
            while i < n
                invariant
                    0 <= i <= n,
                    n == exts.len(),
                    ev =~= crate::text::strings_view(excludes@),
                    exts =~= dist.extension_modules@,
                    dist.wf(),
                    actions_view(res@) =~= exts.take(i as int).filter(pred).map_values(mp),
                    forall|e: (Seq<char>, Seq<ExtensionModule>)| #[trigger] pred(e) == !ev.contains(
                        e.0,
                    ),
                    forall|e: (Seq<char>, Seq<ExtensionModule>)| #[trigger] mp(e) == add_ext(
                        e.0,
                        e.1[0]@,
                    ),
                decreases n - i,
            {
                let name = dist.extension_modules.key_at(i);
                let excluded = names_contain(excludes, name.as_str());
                proof {
                    assert(exts[i as int].1.len() > 0);
                }
                if !excluded {
                    let variants = dist.extension_modules.val_at(i);
                    let entry = add_extension_entry(name, &variants[0]);
                    let ghost prev = res@;
                    res.push(entry);
                    proof {
                        assert(actions_view(res@) =~= actions_view(prev) + seq![
                            res@[res@.len() - 1]@,
                        ]);
                    }
                }
                proof {
                    lemma_filter_map_step(exts, i as int, pred, mp);
                }
                i = i + 1;
            }
            proof {
                assert(exts.take(n as int) =~= exts);
            }
            Ok(res)
        },
        PythonPackaging::StdlibExtensionVariant { extension, variant } => {
            let variants = match dist.extension_modules.get(extension.as_str()) {
                Some(v) => v,
                None => {
                    let mut message = "extension module not found: ".to_owned();
                    message.append(extension.as_str());
                    return Err(RepackageError::ConfigError { message });
                },
            };
            let ghost vs = variants@;
            let ghost pred = |em: ExtensionModule| em.variant@ == variant@;
            let ghost mp = |em: ExtensionModule| add_ext(extension@, em@);
            proof {
                reveal(Seq::filter);
            }
            let n = variants.len();
            let mut i: usize = 0;
            while i < n
                invariant
                    0 <= i <= n,
                    n == vs.len(),
                    vs =~= variants@,
                    actions_view(res@) =~= vs.take(i as int).filter(pred).map_values(mp),
                    forall|em: ExtensionModule| #[trigger] pred(em) == (em.variant@ == variant@),
                    forall|em: ExtensionModule| #[trigger] mp(em) == add_ext(extension@, em@),
                decreases n - i,
            {
                let em = &variants[i];
                let hit = str_eq(em.variant.as_str(), variant.as_str());
                if hit {
                    let entry = add_extension_entry(extension, em);
                    let ghost prev = res@;
                    res.push(entry);
                    proof {
                        assert(actions_view(res@) =~= actions_view(prev) + seq![
                            res@[res@.len() - 1]@,
                        ]);
                    }
                }
                proof {
                    lemma_filter_map_step(vs, i as int, pred, mp);
                }
                i = i + 1;
            }
            proof {
                assert(vs.take(n as int) =~= vs);
            }
            if res.len() == 0 {
                let mut message = "extension has no such variant: ".to_owned();
                message.append(variant.as_str());
                proof {
                    assert(variant_matches_spec(extension@, variant@, vs).len() == 0);
                }
                return Err(RepackageError::ConfigError { message });
            }
            Ok(res)
        },
        PythonPackaging::Stdlib { optimize_level, exclude_test_modules, include_source } => {
            let ghost mods = dist.py_modules@;
            let n = dist.py_modules.len();
            let mut i: usize = 0;
            while i < n
                invariant
                    0 <= i <= n,
                    n == mods.len(),
                    mods =~= dist.py_modules@,
                    dist.wf(),
                    actions_view(res@) =~= stdlib_spec(
                        mods.take(i as int),
                        *optimize_level as int,
                        *exclude_test_modules,
                        *include_source,
                    ),
                decreases n - i,
            {
                let name = dist.py_modules.key_at(i);
                let skip_test = *exclude_test_modules && is_stdlib_test_package(name.as_str());
                proof {
                    assert(mods.take(i + 1) =~= mods.take(i as int) + seq![mods[i as int]]);
                    lemma_stdlib_spec_append(
                        mods.take(i as int),
                        seq![mods[i as int]],
                        *optimize_level as int,
                        *exclude_test_modules,
                        *include_source,
                    );
                    assert(seq![mods[i as int]].skip(1) =~= Seq::<(Seq<char>, Seq<u8>)>::empty());
                    assert(stdlib_spec(
                        Seq::<(Seq<char>, Seq<u8>)>::empty(),
                        *optimize_level as int,
                        *exclude_test_modules,
                        *include_source,
                    ) =~= Seq::<ActionView>::empty());
                }
                if !skip_test {
                    let source = dist.py_modules.val_at(i);
                    push_module_entries(&mut res, name, source, *optimize_level, *include_source);
                }
                i = i + 1;
            }
            proof {
                assert(mods.take(n as int) =~= mods);
            }
            Ok(res)
        },
        PythonPackaging::Virtualenv { path, optimize_level, excludes, include_source } => {
            scan_rule_entries(&mut res, scanned, None, excludes, *optimize_level, *include_source);
            Ok(res)
        },
        PythonPackaging::PackageRoot {
            path,
            packages,
            optimize_level,
            excludes,
            include_source,
        } => {
            scan_rule_entries(
                &mut res,
                scanned,
                Some(packages),
                excludes,
                *optimize_level,
                *include_source,
            );
            Ok(res)
        },
        PythonPackaging::PipInstallSimple { package: _, optimize_level, include_source } => {
            let empty_excludes: Vec<String> = Vec::new();
            scan_rule_entries(
                &mut res,
                scanned,
                None,
                &empty_excludes,
                *optimize_level,
                *include_source,
            );
            proof {
                assert(crate::text::strings_view(empty_excludes@) =~= Seq::<Seq<char>>::empty());
            }
            Ok(res)
        },
        PythonPackaging::FilterFileInclude { path } => {
            // handled by the reducer, which intersects the staging maps
            Ok(res)
        },
        PythonPackaging::FilterFilesInclude { glob } => {
            // handled by the reducer, which intersects the staging maps
            Ok(res)
        },
    }
}

/// The `major.minor` prefix of a version string: everything before the
/// second dot, or the whole string when it has fewer than two dots.
pub open spec fn major_minor_chars(version: Seq<char>) -> Seq<char> {
    match crate::text::first_match_from(version, "."@, 0) {
        None => version,
        Some(d1) => match crate::text::first_match_from(version, "."@, d1 + 1) {
            None => version,
            Some(d2) => version.take(d2),
        },
    }
}

/// The `major.minor` prefix of a version string.
pub fn major_minor_version(version: &str) -> (r: String)
    ensures
        r@ =~= major_minor_chars(version@),
{
    let len = version.unicode_len();
    match crate::text::find_substring_from(version, ".", 0) {
        None => version.to_owned(),
        Some(d1) => {
            proof {
                crate::text::lemma_first_match_is_match(version@, "."@, 0);
                reveal_strlit(".");
            }
            match crate::text::find_substring_from(version, ".", d1 + 1) {
                None => version.to_owned(),
                Some(d2) => {
                    proof {
                        crate::text::lemma_first_match_is_match(version@, "."@, d1 as int + 1);
                    }
                    version.substring_char(0, d2).to_owned()
                },
            }
        },
    }
}

/// The site-packages directory of a virtualenv, written with `/`
/// separators: `Lib` on Windows distributions, `lib` elsewhere, then the
/// interpreter's `python<major.minor>` directory.
pub open spec fn venv_site_packages_chars(
    path: Seq<char>,
    os: Seq<char>,
    version: Seq<char>,
) -> Seq<char> {
    path + "/"@ + (if os == "windows"@ {
        "Lib"@
    } else {
        "lib"@
    }) + "/python"@ + major_minor_chars(version) + "/site-packages"@
}

/// The directory a virtualenv rule scans. The version must hold at least
/// `major.minor`, that is one dot.
pub fn virtualenv_site_packages_path(path: &str, os: &str, version: &str) -> (r: String)
    requires
        crate::text::first_match_from(version@, "."@, 0) is Some,
    ensures
        r@ =~= venv_site_packages_chars(path@, os@, version@),
{
    let mut out = path.to_owned();
    out.append("/");
    if str_eq(os, "windows") {
        out.append("Lib");
    } else {
        out.append("lib");
    }
    out.append("/python");
    let major_minor = major_minor_version(version);
    out.append(major_minor.as_str());
    out.append("/site-packages");
    out
}

/// The value stored for a present extension is nonempty in a well-formed
/// distribution.
proof fn lemma_assoc_get_nonempty(dist: &PythonDistributionInfo, name: Seq<char>)
    requires
        dist.wf(),
        assoc_get(dist.extension_modules@, name) is Some,
    ensures
        assoc_get(dist.extension_modules@, name).unwrap().len() > 0,
{
    crate::ordmap::lemma_assoc_get_none(dist.extension_modules@, name);
    lemma_assoc_get_is_stored(dist.extension_modules@, name);
}

/// A found value is one of the stored values.
proof fn lemma_assoc_get_is_stored<T>(s: Seq<(Seq<char>, T)>, k: Seq<char>)
    requires
        assoc_get(s, k) is Some,
    ensures
        exists|i: int| 0 <= i < s.len() && #[trigger] s[i] == (k, assoc_get(s, k).unwrap()),
    decreases s.len(),
{
    if s.len() > 0 {
        if s[0].0 == k {
            assert(s[0] == (k, assoc_get(s, k).unwrap()));
        } else {
            lemma_assoc_get_is_stored(s.skip(1), k);
            let w = choose|i: int|
                0 <= i < s.skip(1).len() && #[trigger] s.skip(1)[i] == (
                    k,
                    assoc_get(s.skip(1), k).unwrap(),
                );
            assert(s[w + 1] == (k, assoc_get(s, k).unwrap()));
        }
    }
}

/// Appends the actions of a scan-based rule.
fn scan_rule_entries(
    res: &mut Vec<PythonResourceEntry>,
    scanned: &Vec<ScannedResource>,
    packages: Option<&Vec<String>>,
    excludes: &Vec<String>,
    optimize_level: i64,
    include_source: bool,
)
    ensures
        actions_view(final(res)@) =~= actions_view(old(res)@) + scan_rule_spec(
            scanned_view(scanned@),
            match packages {
                Some(ps) => Some(crate::text::strings_view(ps@)),
                None => None,
            },
            crate::text::strings_view(excludes@),
            optimize_level as int,
            include_source,
        ),
{
    let ghost items = scanned_view(scanned@);
    let ghost pkgs = match packages {
        Some(ps) => Some(crate::text::strings_view(ps@)),
        None => None,
    };
    let ghost excl = crate::text::strings_view(excludes@);
    let ghost before = actions_view(res@);
    let n = scanned.len();
    let mut i: usize = 0;
    while i < n
        invariant
            0 <= i <= n,
            n == scanned@.len(),
            items =~= scanned_view(scanned@),
            excl =~= crate::text::strings_view(excludes@),
            pkgs == match packages {
                Some(ps) => Some(crate::text::strings_view(ps@)),
                None => None,
            },
            actions_view(res@) =~= before + scan_rule_spec(
                items.take(i as int),
                pkgs,
                excl,
                optimize_level as int,
                include_source,
            ),
        decreases n - i,
    {
        proof {
            assert(items[i as int] == scanned@[i as int]@);
            assert(items.take(i + 1) =~= items.take(i as int) + seq![items[i as int]]);
            lemma_scan_rule_spec_append(
                items.take(i as int),
                seq![items[i as int]],
                pkgs,
                excl,
                optimize_level as int,
                include_source,
            );
            assert(seq![items[i as int]].skip(1) =~= Seq::<ScannedView>::empty());
            assert(scan_rule_spec(
                Seq::<ScannedView>::empty(),
                pkgs,
                excl,
                optimize_level as int,
                include_source,
            ) =~= Seq::<ActionView>::empty());
        }
        let item = &scanned[i];
        let in_packages = match packages {
            Some(ps) => any_prefix_match(ps, item.name.as_str()),
            None => true,
        };
        let excluded = any_prefix_match(excludes, item.name.as_str());
        if in_packages && !excluded {
            push_module_entries(res, &item.name, &item.source, optimize_level, include_source);
        }
        i = i + 1;
    }
    proof {
        assert(items.take(n as int) =~= items);
    }
}

} // verus!
