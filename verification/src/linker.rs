//! The libpython link planner: which object files go into the static
//! library, which libraries must be copied out of the distribution, and the
//! linker directives to emit — all from the staged extensions and the
//! distribution's manifest. Running the native compiler over the plan is
//! the caller's job.

use vstd::prelude::*;

use crate::dist::{ExtensionModule, ExtensionModuleView, LibraryDependency, PythonDistributionInfo};
use crate::ordmap::{assoc_contains, assoc_get, names_insert, names_sorted, OrdMap, OrdSet};
use crate::reducer::os_ignore_libraries_spec;
use crate::text::{ends_with, str_ends_with, strings_view};
use crate::RepackageError;

verus! {

/// The produced static library and the build-script lines describing it.
pub struct LibpythonInfo {
    pub path: String,
    pub cargo_metadata: Vec<String>,
}

/// Everything the native build needs: the derived config.c, the object
/// files to compile in, the libraries to copy beside the output, and the
/// linker directives to print.
pub struct LibpythonPlan {
    pub config_c_source: String,
    pub core_objects: Vec<(String, String)>,
    pub extension_objects: Vec<String>,
    pub library_copies: Vec<(String, String)>,
    pub cargo_metadata: Vec<String>,
}

/// The core object files to stage: everything but the distribution's own
/// inittab object, whose table would conflict with the derived config.c.
pub open spec fn core_objects_spec(objs: Seq<(Seq<char>, Seq<char>)>) -> Seq<
    (Seq<char>, Seq<char>),
> {
    objs.filter(|o: (Seq<char>, Seq<char>)| !ends_with(o.0, "Modules/config.o"@))
}

/// The object files of the staged extensions that are not already part of
/// the core objects, in map order.
pub open spec fn ext_objects_spec(es: Seq<(Seq<char>, ExtensionModuleView)>) -> Seq<Seq<char>>
    decreases es.len(),
{
    if es.len() == 0 {
        Seq::empty()
    } else {
        (if es[0].1.builtin_default {
            Seq::<Seq<char>>::empty()
        } else {
            es[0].1.object_paths
        }) + ext_objects_spec(es.skip(1))
    }
}

pub proof fn lemma_ext_objects_append(
    a: Seq<(Seq<char>, ExtensionModuleView)>,
    b: Seq<(Seq<char>, ExtensionModuleView)>,
)
    ensures
        ext_objects_spec(a + b) =~= ext_objects_spec(a) + ext_objects_spec(b),
    decreases a.len(),
{
    if a.len() == 0 {
        assert(a + b =~= b);
        assert(ext_objects_spec(a) =~= Seq::<Seq<char>>::empty());
    } else {
        lemma_ext_objects_append(a.skip(1), b);
        assert((a + b).skip(1) =~= a.skip(1) + b);
        assert((a + b)[0] == a[0]);
    }
}

/// The three ordered sets of link requirements, as the core dependencies
/// fill them: frameworks and system libraries only.
pub open spec fn fold_core_links(
    fw: Seq<Seq<char>>,
    sys: Seq<Seq<char>>,
    deps: Seq<crate::dist::LibraryDependencyView>,
) -> (Seq<Seq<char>>, Seq<Seq<char>>)
    decreases deps.len(),
{
    if deps.len() == 0 {
        (fw, sys)
    } else {
        let d = deps[0];
        if d.framework {
            fold_core_links(names_insert(fw, d.name), sys, deps.skip(1))
        } else if d.system {
            fold_core_links(fw, names_insert(sys, d.name), deps.skip(1))
        } else {
            fold_core_links(fw, sys, deps.skip(1))
        }
    }
}

/// One extension's dependencies folded into the three requirement sets:
/// frameworks, system libraries, and plain libraries carried as static or
/// dynamic files.
pub open spec fn fold_ext_links(
    libs: Seq<Seq<char>>,
    fw: Seq<Seq<char>>,
    sys: Seq<Seq<char>>,
    deps: Seq<crate::dist::LibraryDependencyView>,
) -> (Seq<Seq<char>>, Seq<Seq<char>>, Seq<Seq<char>>)
    decreases deps.len(),
{
    if deps.len() == 0 {
        (libs, fw, sys)
    } else {
        let d = deps[0];
        if d.framework {
            fold_ext_links(libs, names_insert(fw, d.name), sys, deps.skip(1))
        } else if d.system {
            fold_ext_links(libs, fw, names_insert(sys, d.name), deps.skip(1))
        } else if d.static_path is Some || d.dynamic_path is Some {
            fold_ext_links(names_insert(libs, d.name), fw, sys, deps.skip(1))
        } else {
            fold_ext_links(libs, fw, sys, deps.skip(1))
        }
    }
}

/// All staged non-builtin extensions' dependencies folded in map order.
pub open spec fn fold_all_ext_links(
    libs: Seq<Seq<char>>,
    fw: Seq<Seq<char>>,
    sys: Seq<Seq<char>>,
    es: Seq<(Seq<char>, ExtensionModuleView)>,
) -> (Seq<Seq<char>>, Seq<Seq<char>>, Seq<Seq<char>>)
    decreases es.len(),
{
    if es.len() == 0 {
        (libs, fw, sys)
    } else {
        let next = if es[0].1.builtin_default {
            (libs, fw, sys)
        } else {
            fold_ext_links(libs, fw, sys, es[0].1.links)
        };
        fold_all_ext_links(next.0, next.1, next.2, es.skip(1))
    }
}

/// The library lines and copies: every needed library not on the ignore
/// list resolved against the distribution, in ascending name order; a
/// missing one is fatal.
pub open spec fn resolve_libraries_spec(
    libs: Seq<Seq<char>>,
    ignore: Seq<Seq<char>>,
    distlibs: Seq<(Seq<char>, Seq<char>)>,
) -> Option<(Seq<(Seq<char>, Seq<char>)>, Seq<Seq<char>>)>
    decreases libs.len(),
{
    if libs.len() == 0 {
        Some((Seq::empty(), Seq::empty()))
    } else if ignore.contains(libs[0]) {
        resolve_libraries_spec(libs.skip(1), ignore, distlibs)
    } else {
        match assoc_get(distlibs, libs[0]) {
            None => None,
            Some(path) => {
                match resolve_libraries_spec(libs.skip(1), ignore, distlibs) {
                    None => None,
                    Some(rest) => Some(
                        (
                            seq![(libs[0], path)] + rest.0,
                            seq!["cargo:rustc-link-lib=static="@ + libs[0]] + rest.1,
                        ),
                    ),
                }
            },
        }
    }
}

/// The first needed library, in set order, that the target's ignore list
/// does not cover and the distribution lacks.
pub open spec fn first_missing_library(
    libs: Seq<Seq<char>>,
    ignore: Seq<Seq<char>>,
    distlibs: Seq<(Seq<char>, Seq<char>)>,
) -> Option<Seq<char>>
    decreases libs.len(),
{
    if libs.len() == 0 {
        None
    } else if ignore.contains(libs[0]) {
        first_missing_library(libs.skip(1), ignore, distlibs)
    } else if assoc_get(distlibs, libs[0]) is None {
        Some(libs[0])
    } else {
        first_missing_library(libs.skip(1), ignore, distlibs)
    }
}

/// The framework directives, in set order.
pub open spec fn framework_lines(fw: Seq<Seq<char>>) -> Seq<Seq<char>> {
    fw.map_values(|n: Seq<char>| "cargo:rustc-link-lib=framework="@ + n)
}

/// The system library directives, in set order.
pub open spec fn system_lines(sys: Seq<Seq<char>>) -> Seq<Seq<char>> {
    sys.map_values(|n: Seq<char>| "cargo:rustc-link-lib="@ + n)
}

/// Collects the three ordered requirement sets of one dependency list.
fn collect_links(
    libs: &mut OrdSet,
    fw: &mut OrdSet,
    sys: &mut OrdSet,
    deps: &Vec<LibraryDependency>,
    with_libs: bool,
)
    requires
        old(libs).wf(),
        old(fw).wf(),
        old(sys).wf(),
    ensures
        final(libs).wf(),
        final(fw).wf(),
        final(sys).wf(),
        with_libs ==> (final(libs)@, final(fw)@, final(sys)@) =~= fold_ext_links(
            old(libs)@,
            old(fw)@,
            old(sys)@,
            deps@.map_values(|d: LibraryDependency| d@),
        ),
        !with_libs ==> final(libs)@ =~= old(libs)@ && (final(fw)@, final(sys)@) =~= fold_core_links(
            old(fw)@,
            old(sys)@,
            deps@.map_values(|d: LibraryDependency| d@),
        ),
{
    let ghost dv = deps@.map_values(|d: LibraryDependency| d@);
    let n = deps.len();
    let mut i: usize = 0;
    proof {
        assert(dv.skip(0) =~= dv);
    }
    while i < n
        invariant
            0 <= i <= n,
            n == dv.len(),
            dv =~= deps@.map_values(|d: LibraryDependency| d@),
            libs.wf(),
            fw.wf(),
            sys.wf(),
            with_libs ==> fold_ext_links(libs@, fw@, sys@, dv.skip(i as int)) =~= fold_ext_links(
                old(libs)@,
                old(fw)@,
                old(sys)@,
                dv,
            ),
            !with_libs ==> libs@ =~= old(libs)@ && fold_core_links(fw@, sys@, dv.skip(i as int))
                =~= fold_core_links(old(fw)@, old(sys)@, dv),
        decreases n - i,
    {
        proof {
            assert(dv[i as int] == deps@[i as int]@);
            assert(dv.skip(i as int)[0] == dv[i as int]);
            assert(dv.skip(i as int).skip(1) =~= dv.skip(i + 1));
        }
        let dep = &deps[i];
        if dep.framework {
            fw.insert(dep.name.clone());
        } else if dep.system {
            sys.insert(dep.name.clone());
        } else if with_libs {
            let has_file = match dep.static_path {
                Some(_) => true,
                None => match dep.dynamic_path {
                    Some(_) => true,
                    None => false,
                },
            };
            if has_file {
                libs.insert(dep.name.clone());
            }
        }
        i = i + 1;
    }
    proof {
        assert(dv.skip(n as int) =~= Seq::<crate::dist::LibraryDependencyView>::empty());
    }
}

/// Plans the libpython build for a distribution and the staged extensions:
/// the derived config.c, the core objects minus the distribution's own
/// inittab object, every non-builtin extension's objects, the libraries to
/// copy, and the linker directives — static libraries first, then
/// frameworks, then system libraries. Fails exactly when a needed library
/// that the target does not provide is missing from the distribution.
#[verifier::rlimit(60)]
pub fn link_libpython_plan(
    dist: &PythonDistributionInfo,
    extension_modules: &OrdMap<ExtensionModule>,
    target_os: &str,
) -> (r: Result<LibpythonPlan, RepackageError>)
    requires
        dist.wf(),
        extension_modules.wf(),
    ensures
        match r {
            Ok(plan) => {
                let folded = fold_all_ext_links(
                    Seq::empty(),
                    fold_core_links(
                        Seq::empty(),
                        Seq::empty(),
                        dist.links_core@.map_values(|d: LibraryDependency| d@),
                    ).0,
                    fold_core_links(
                        Seq::empty(),
                        Seq::empty(),
                        dist.links_core@.map_values(|d: LibraryDependency| d@),
                    ).1,
                    extension_modules@,
                );
                let resolved = resolve_libraries_spec(
                    folded.0,
                    os_ignore_libraries_spec(target_os@),
                    dist.libraries@,
                );
                &&& plan.config_c_source@ =~= crate::configc::config_c_chars(extension_modules@)
                &&& plan.core_objects@.map_values(|o: (String, String)| (o.0@, o.1@))
                    =~= core_objects_spec(dist.objs_core@)
                &&& strings_view(plan.extension_objects@) =~= ext_objects_spec(
                    extension_modules@,
                )
                &&& resolved is Some
                &&& plan.library_copies@.map_values(|o: (String, String)| (o.0@, o.1@))
                    =~= resolved.unwrap().0
                &&& strings_view(plan.cargo_metadata@) =~= seq![
                    "cargo:rustc-link-lib=static=pyembeddedconfig"@,
                ] + resolved.unwrap().1 + framework_lines(folded.1) + system_lines(folded.2)
            },
            Err(e) => {
                let folded = fold_all_ext_links(
                    Seq::empty(),
                    fold_core_links(
                        Seq::empty(),
                        Seq::empty(),
                        dist.links_core@.map_values(|d: LibraryDependency| d@),
                    ).0,
                    fold_core_links(
                        Seq::empty(),
                        Seq::empty(),
                        dist.links_core@.map_values(|d: LibraryDependency| d@),
                    ).1,
                    extension_modules@,
                );
                resolve_libraries_spec(
                    folded.0,
                    os_ignore_libraries_spec(target_os@),
                    dist.libraries@,
                ) is None && (e matches RepackageError::LinkError { library } && Some(library@)
                    == first_missing_library(
                    folded.0,
                    os_ignore_libraries_spec(target_os@),
                    dist.libraries@,
                ))
            },
        },
{
    let config_c_source = crate::configc::make_config_c(extension_modules);
    // core objects, the distribution's own inittab object dropped
    let ghost objs = dist.objs_core@;
    let ghost keep_pred = |o: (Seq<char>, Seq<char>)| !ends_with(o.0, "Modules/config.o"@);
    let mut core_objects: Vec<(String, String)> = Vec::new();
    let n = dist.objs_core.len();
    let mut i: usize = 0;
    proof {
        reveal(Seq::filter);
        assert(objs.take(0).filter(keep_pred) =~= Seq::<(Seq<char>, Seq<char>)>::empty());
    }
    while i < n
        invariant
            0 <= i <= n,
            n == objs.len(),
            objs =~= dist.objs_core@,
            core_objects@.map_values(|o: (String, String)| (o.0@, o.1@)) =~= objs.take(
                i as int,
            ).filter(keep_pred),
            forall|o: (Seq<char>, Seq<char>)| #[trigger] keep_pred(o) == !ends_with(
                o.0,
                "Modules/config.o"@,
            ),
        decreases n - i,
    {
        proof {
            crate::resolver::lemma_filter_map_step(
                objs,
                i as int,
                keep_pred,
                |o: (Seq<char>, Seq<char>)| o,
            );
            assert(objs.take(i as int).filter(keep_pred).map_values(
                |o: (Seq<char>, Seq<char>)| o,
            ) =~= objs.take(i as int).filter(keep_pred));
            assert(objs.take(i + 1).filter(keep_pred).map_values(|o: (Seq<char>, Seq<char>)| o)
                =~= objs.take(i + 1).filter(keep_pred));
        }
        let rel = dist.objs_core.key_at(i);
        let skip_it = str_ends_with(rel.as_str(), "Modules/config.o");
        if !skip_it {
            let fs = dist.objs_core.val_at(i);
            let ghost prev = core_objects@;
            core_objects.push((rel.clone(), fs.clone()));
            proof {
                assert(core_objects@.map_values(|o: (String, String)| (o.0@, o.1@))
                    =~= prev.map_values(|o: (String, String)| (o.0@, o.1@)) + seq![
                    (objs[i as int].0, objs[i as int].1),
                ]);
            }
        }
        i = i + 1;
    }
    proof {
        assert(objs.take(n as int) =~= objs);
    }
    // extension objects and link requirements
    let mut extension_objects: Vec<String> = Vec::new();
    let mut needed_libraries = OrdSet::new();
    let mut needed_frameworks = OrdSet::new();
    let mut needed_system = OrdSet::new();
    collect_links(
        &mut needed_libraries,
        &mut needed_frameworks,
        &mut needed_system,
        &dist.links_core,
        false,
    );
    let ghost core_folded = fold_core_links(
        Seq::empty(),
        Seq::empty(),
        dist.links_core@.map_values(|d: LibraryDependency| d@),
    );
    let ghost es = extension_modules@;
    let en = extension_modules.len();
    let mut i: usize = 0;
    proof {
        assert(es.take(0) =~= Seq::<(Seq<char>, ExtensionModuleView)>::empty());
        assert(ext_objects_spec(es.take(0)) =~= Seq::<Seq<char>>::empty());
        assert(needed_libraries@ =~= Seq::<Seq<char>>::empty());
        assert(needed_frameworks@ =~= core_folded.0);
        assert(needed_system@ =~= core_folded.1);
        assert(es.skip(0) =~= es);
        assert(fold_all_ext_links(needed_libraries@, needed_frameworks@, needed_system@, es)
            =~= fold_all_ext_links(Seq::empty(), core_folded.0, core_folded.1, es));
    }
    while i < en
        invariant
            0 <= i <= en,
            en == es.len(),
            es =~= extension_modules@,
            needed_libraries.wf(),
            needed_frameworks.wf(),
            needed_system.wf(),
            strings_view(extension_objects@) =~= ext_objects_spec(es.take(i as int)),
            fold_all_ext_links(
                needed_libraries@,
                needed_frameworks@,
                needed_system@,
                es.skip(i as int),
            ) =~= fold_all_ext_links(Seq::empty(), core_folded.0, core_folded.1, es),
        decreases en - i,
    {
        proof {
            assert(es.take(i + 1) =~= es.take(i as int) + seq![es[i as int]]);
            lemma_ext_objects_append(es.take(i as int), seq![es[i as int]]);
            assert(seq![es[i as int]].skip(1) =~= Seq::<(Seq<char>, ExtensionModuleView)>::empty());
            assert(ext_objects_spec(Seq::<(Seq<char>, ExtensionModuleView)>::empty()) =~= Seq::<
                Seq<char>,
            >::empty());
            assert(es.skip(i as int)[0] == es[i as int]);
            assert(es.skip(i as int).skip(1) =~= es.skip(i + 1));
        }
        let em = extension_modules.val_at(i);
        proof {
            assert(em@ == es[i as int].1);
        }
        if !em.builtin_default {
            let on = em.object_paths.len();
            let mut k: usize = 0;
            let ghost objs_before = strings_view(extension_objects@);
            while k < on
                invariant
                    0 <= k <= on,
                    on == em.object_paths@.len(),
                    strings_view(extension_objects@) =~= objs_before + em@.object_paths.take(
                        k as int,
                    ),
                decreases on - k,
            {
                let ghost prev = extension_objects@;
                extension_objects.push(em.object_paths[k].clone());
                proof {
                    assert(strings_view(extension_objects@) =~= strings_view(prev) + seq![
                        extension_objects@[extension_objects@.len() - 1]@,
                    ]);
                    assert(em@.object_paths[k as int] == em.object_paths@[k as int]@);
                    assert(em@.object_paths.take(k + 1) =~= em@.object_paths.take(k as int) + seq![
                        em@.object_paths[k as int],
                    ]);
                }
                k = k + 1;
            }
            proof {
                assert(em@.object_paths.take(on as int) =~= em@.object_paths);
            }
            collect_links(
                &mut needed_libraries,
                &mut needed_frameworks,
                &mut needed_system,
                &em.links,
                true,
            );
            proof {
                assert(em.links@.map_values(|d: LibraryDependency| d@) =~= em@.links);
            }
        }
        i = i + 1;
    }
    proof {
        assert(es.take(en as int) =~= es);
        assert(es.skip(en as int) =~= Seq::<(Seq<char>, ExtensionModuleView)>::empty());
    }
    let ghost folded = fold_all_ext_links(Seq::empty(), core_folded.0, core_folded.1, es);
    proof {
        assert(needed_libraries@ =~= folded.0);
        assert(needed_frameworks@ =~= folded.1);
        assert(needed_system@ =~= folded.2);
    }
    // resolve the libraries against the distribution
    let ignore = crate::reducer::os_ignore_libraries(target_os);
    let ghost ignore_v = os_ignore_libraries_spec(target_os@);
    let mut library_copies: Vec<(String, String)> = Vec::new();
    let mut cargo_metadata: Vec<String> = Vec::new();
    cargo_metadata.push("cargo:rustc-link-lib=static=pyembeddedconfig".to_owned());
    let ghost libs = needed_libraries@;
    let ln = needed_libraries.len();
    let mut i: usize = 0;
    proof {
        assert(libs.skip(0) =~= libs);
        assert(strings_view(cargo_metadata@) =~= seq!["cargo:rustc-link-lib=static=pyembeddedconfig"@]);
    }
    while i < ln
        invariant
            0 <= i <= ln,
            ln == libs.len(),
            libs =~= needed_libraries@,
            libs =~= folded.0,
            folded == fold_all_ext_links(
                Seq::empty(),
                fold_core_links(
                    Seq::empty(),
                    Seq::empty(),
                    dist.links_core@.map_values(|d: LibraryDependency| d@),
                ).0,
                fold_core_links(
                    Seq::empty(),
                    Seq::empty(),
                    dist.links_core@.map_values(|d: LibraryDependency| d@),
                ).1,
                extension_modules@,
            ),
            needed_libraries.wf(),
            ignore_v =~= strings_view(ignore@),
            ignore_v =~= os_ignore_libraries_spec(target_os@),
            match resolve_libraries_spec(libs.skip(i as int), ignore_v, dist.libraries@) {
                Some(rest) => resolve_libraries_spec(libs, ignore_v, dist.libraries@) == Some(
                    (
                        library_copies@.map_values(|o: (String, String)| (o.0@, o.1@)) + rest.0,
                        strings_view(cargo_metadata@).skip(1) + rest.1,
                    ),
                ),
                None => resolve_libraries_spec(libs, ignore_v, dist.libraries@) is None,
            },
            first_missing_library(libs, ignore_v, dist.libraries@) == first_missing_library(
                libs.skip(i as int),
                ignore_v,
                dist.libraries@,
            ),
            strings_view(cargo_metadata@).len() >= 1,
            strings_view(cargo_metadata@)[0]
                == "cargo:rustc-link-lib=static=pyembeddedconfig"@,
            dist.wf(),
        decreases ln - i,
    {
        proof {
            assert(libs.skip(i as int)[0] == libs[i as int]);
            assert(libs.skip(i as int).skip(1) =~= libs.skip(i + 1));
        }
        let name = needed_libraries.at(i);
        let ignored = crate::resolver::names_contain(&ignore, name.as_str());
        if !ignored {
            match dist.libraries.get(name.as_str()) {
                Some(fs_path) => {
                    let ghost prev_c = library_copies@;
                    let ghost prev_m = cargo_metadata@;
                    library_copies.push((name.clone(), fs_path.clone()));
                    let mut line = "cargo:rustc-link-lib=static=".to_owned();
                    line.append(name.as_str());
                    cargo_metadata.push(line);
                    proof {
                        assert(library_copies@.map_values(|o: (String, String)| (o.0@, o.1@))
                            =~= prev_c.map_values(|o: (String, String)| (o.0@, o.1@)) + seq![
                            (libs[i as int], fs_path@),
                        ]);
                        assert(strings_view(cargo_metadata@) =~= strings_view(prev_m) + seq![
                            "cargo:rustc-link-lib=static="@ + libs[i as int],
                        ]);
                        assert(strings_view(cargo_metadata@).skip(1) =~= strings_view(
                            prev_m,
                        ).skip(1) + seq!["cargo:rustc-link-lib=static="@ + libs[i as int]]);
                    }
                },
                None => {
                    let mut library = String::new();
                    library.append(name.as_str());
                    proof {
                        assert(resolve_libraries_spec(
                            libs.skip(i as int),
                            ignore_v,
                            dist.libraries@,
                        ) is None);
                        assert(resolve_libraries_spec(libs, ignore_v, dist.libraries@) is None);
                        assert(first_missing_library(libs.skip(i as int), ignore_v, dist.libraries@)
                            == Some(libs[i as int]));
                        assert(libs =~= folded.0);
                    }
                    return Err(RepackageError::LinkError { library });
                },
            }
        }
        i = i + 1;
    }
    proof {
        assert(libs.skip(ln as int) =~= Seq::<Seq<char>>::empty());
        assert(resolve_libraries_spec(Seq::<Seq<char>>::empty(), ignore_v, dist.libraries@)
            == Some((Seq::<(Seq<char>, Seq<char>)>::empty(), Seq::<Seq<char>>::empty())));
    }
    // frameworks, then system libraries
    let ghost meta_after_libs = strings_view(cargo_metadata@);
    let fn_count = needed_frameworks.len();
    let mut i: usize = 0;
    while i < fn_count
        invariant
            0 <= i <= fn_count,
            fn_count == needed_frameworks@.len(),
            strings_view(cargo_metadata@) =~= meta_after_libs + framework_lines(
                needed_frameworks@.take(i as int),
            ),
        decreases fn_count - i,
    {
        let name = needed_frameworks.at(i);
        let mut line = "cargo:rustc-link-lib=framework=".to_owned();
        line.append(name.as_str());
        let ghost prev = cargo_metadata@;
        cargo_metadata.push(line);
        proof {
            assert(strings_view(cargo_metadata@) =~= strings_view(prev) + seq![
                "cargo:rustc-link-lib=framework="@ + needed_frameworks@[i as int],
            ]);
            assert(framework_lines(needed_frameworks@.take(i + 1)) =~= framework_lines(
                needed_frameworks@.take(i as int),
            ) + seq!["cargo:rustc-link-lib=framework="@ + needed_frameworks@[i as int]]);
        }
        i = i + 1;
    }
    proof {
        assert(needed_frameworks@.take(fn_count as int) =~= needed_frameworks@);
    }
    let ghost meta_after_fw = strings_view(cargo_metadata@);
    let sn = needed_system.len();
    let mut i: usize = 0;
    while i < sn
        invariant
            0 <= i <= sn,
            sn == needed_system@.len(),
            strings_view(cargo_metadata@) =~= meta_after_fw + system_lines(
                needed_system@.take(i as int),
            ),
        decreases sn - i,
    {
        let name = needed_system.at(i);
        let mut line = "cargo:rustc-link-lib=".to_owned();
        line.append(name.as_str());
        let ghost prev = cargo_metadata@;
        cargo_metadata.push(line);
        proof {
            assert(strings_view(cargo_metadata@) =~= strings_view(prev) + seq![
                "cargo:rustc-link-lib="@ + needed_system@[i as int],
            ]);
            assert(system_lines(needed_system@.take(i + 1)) =~= system_lines(
                needed_system@.take(i as int),
            ) + seq!["cargo:rustc-link-lib="@ + needed_system@[i as int]]);
        }
        i = i + 1;
    }
    proof {
        assert(needed_system@.take(sn as int) =~= needed_system@);
        let resolved = resolve_libraries_spec(libs, ignore_v, dist.libraries@);
        assert(resolved is Some);
        assert(meta_after_libs =~= seq!["cargo:rustc-link-lib=static=pyembeddedconfig"@]
            + meta_after_libs.skip(1));
        assert(strings_view(cargo_metadata@) =~= seq![
            "cargo:rustc-link-lib=static=pyembeddedconfig"@,
        ] + resolved.unwrap().1 + framework_lines(needed_frameworks@) + system_lines(
            needed_system@,
        ));
    }
    Ok(
        LibpythonPlan {
            config_c_source,
            core_objects,
            extension_objects,
            library_copies,
            cargo_metadata,
        },
    )
}

} // verus!
