//! The resource reducer: applies each rule's action stream to the staging
//! maps in config order, intersects them with whitelists when a filter rule
//! arrives, then closes over required extensions and drops the per-target
//! blocklist. Bytecode is never compiled here: requests are staged so that
//! only the surviving set is compiled, in one batch, by the caller.

use vstd::prelude::*;

use crate::dist::{ExtensionModule, ExtensionModuleView, PythonDistributionInfo};
use crate::ordmap::{
    assoc_contains, assoc_get, assoc_insert, assoc_remove, assoc_retain, entries_sorted,
    names_insert, names_sorted, OrdMap, OrdSet,
};
use crate::resources::{ActionView, PythonResourceEntry, PythonResources, ResourceView};
use crate::text::{str_eq, str_lines, strings_view};
use crate::RepackageError;

verus! {

/// A staged request to compile one module's source at an optimize level.
pub struct BytecodeRequest {
    pub source: Vec<u8>,
    pub optimize_level: i64,
}

#[verifier::ext_equal]
pub ghost struct BytecodeRequestView {
    pub source: Seq<u8>,
    pub optimize_level: int,
}

impl View for BytecodeRequest {
    type V = BytecodeRequestView;

    open spec fn view(&self) -> BytecodeRequestView {
        BytecodeRequestView { source: self.source@, optimize_level: self.optimize_level as int }
    }
}

/// The four staging maps the action stream mutates.
pub struct ResourceStaging {
    pub extension_modules: OrdMap<ExtensionModule>,
    pub sources: OrdMap<Vec<u8>>,
    pub bytecode_requests: OrdMap<BytecodeRequest>,
    pub resources: OrdMap<Vec<u8>>,
}

#[verifier::ext_equal]
pub ghost struct StagingView {
    pub extensions: Seq<(Seq<char>, ExtensionModuleView)>,
    pub sources: Seq<(Seq<char>, Seq<u8>)>,
    pub requests: Seq<(Seq<char>, BytecodeRequestView)>,
    pub resources: Seq<(Seq<char>, Seq<u8>)>,
}

impl View for ResourceStaging {
    type V = StagingView;

    open spec fn view(&self) -> StagingView {
        StagingView {
            extensions: self.extension_modules@,
            sources: self.sources@,
            requests: self.bytecode_requests@,
            resources: self.resources@,
        }
    }
}

impl ResourceStaging {
    pub open spec fn wf(&self) -> bool {
        &&& self.extension_modules.wf()
        &&& self.sources.wf()
        &&& self.bytecode_requests.wf()
        &&& self.resources.wf()
    }

    /// Staging starts empty.
    pub fn new() -> (r: Self)
        ensures
            r.wf(),
            r@.extensions =~= Seq::<(Seq<char>, ExtensionModuleView)>::empty(),
            r@.sources =~= Seq::<(Seq<char>, Seq<u8>)>::empty(),
            r@.requests =~= Seq::<(Seq<char>, BytecodeRequestView)>::empty(),
            r@.resources =~= Seq::<(Seq<char>, Seq<u8>)>::empty(),
    {
        ResourceStaging {
            extension_modules: OrdMap::new(),
            sources: OrdMap::new(),
            bytecode_requests: OrdMap::new(),
            resources: OrdMap::new(),
        }
    }
}

/// What one action does to the staging maps: an add inserts (overwriting a
/// previous entry of the same name), a remove deletes by name.
pub open spec fn apply_action(st: StagingView, a: ActionView) -> StagingView {
    match a.resource {
        ResourceView::Extension { name, module } => {
            if a.add {
                StagingView { extensions: assoc_insert(st.extensions, name, module), ..st }
            } else {
                StagingView { extensions: assoc_remove(st.extensions, name), ..st }
            }
        },
        ResourceView::Source { name, source } => {
            if a.add {
                StagingView { sources: assoc_insert(st.sources, name, source), ..st }
            } else {
                StagingView { sources: assoc_remove(st.sources, name), ..st }
            }
        },
        ResourceView::Bytecode { name, source, optimize_level } => {
            if a.add {
                StagingView {
                    requests: assoc_insert(
                        st.requests,
                        name,
                        BytecodeRequestView { source, optimize_level },
                    ),
                    ..st
                }
            } else {
                StagingView { requests: assoc_remove(st.requests, name), ..st }
            }
        },
        ResourceView::Data { name, data } => {
            if a.add {
                StagingView { resources: assoc_insert(st.resources, name, data), ..st }
            } else {
                StagingView { resources: assoc_remove(st.resources, name), ..st }
            }
        },
    }
}

/// A whole action stream, applied in order.
pub open spec fn apply_actions(st: StagingView, actions: Seq<ActionView>) -> StagingView
    decreases actions.len(),
{
    if actions.len() == 0 {
        st
    } else {
        apply_actions(apply_action(st, actions[0]), actions.skip(1))
    }
}

/// Applies one action to the staging maps.
pub fn apply_entry(staging: &mut ResourceStaging, entry: PythonResourceEntry)
    requires
        old(staging).wf(),
    ensures
        final(staging).wf(),
        final(staging)@ =~= apply_action(old(staging)@, entry@),
{
    let add = match entry.action {
        crate::resources::ResourceAction::Add => true,
        crate::resources::ResourceAction::Remove => false,
    };
    match entry.resource {
        crate::resources::PythonResource::ExtensionModule { name, module } => {
            if add {
                staging.extension_modules.insert(name, module);
            } else {
                staging.extension_modules.remove(name.as_str());
            }
        },
        crate::resources::PythonResource::ModuleSource { name, source } => {
            if add {
                staging.sources.insert(name, source);
            } else {
                staging.sources.remove(name.as_str());
            }
        },
        crate::resources::PythonResource::ModuleBytecode { name, source, optimize_level } => {
            if add {
                staging.bytecode_requests.insert(
                    name,
                    BytecodeRequest { source, optimize_level },
                );
            } else {
                staging.bytecode_requests.remove(name.as_str());
            }
        },
        crate::resources::PythonResource::Resource { name, data } => {
            if add {
                staging.resources.insert(name, data);
            } else {
                staging.resources.remove(name.as_str());
            }
        },
    }
}

/// Applies a rule's whole action stream, in order.
pub fn apply_entries(staging: &mut ResourceStaging, entries: Vec<PythonResourceEntry>)
    requires
        old(staging).wf(),
    ensures
        final(staging).wf(),
        final(staging)@ =~= apply_actions(old(staging)@, crate::resources::actions_view(entries@)),
{
    let ghost all = crate::resources::actions_view(entries@);
    let mut entries = entries;
    let ghost mut done: int = 0;
    proof {
        assert(all.skip(0) =~= all);
    }
    while entries.len() > 0
        invariant
            0 <= done <= all.len(),
            crate::resources::actions_view(entries@) =~= all.skip(done),
            staging.wf(),
            apply_actions(staging@, all.skip(done)) == apply_actions(old(staging)@, all),
        decreases entries@.len(),
    {
        let entry = entries.remove(0);
        proof {
            assert(entry@ == all.skip(done)[0]);
            assert(crate::resources::actions_view(entries@) =~= all.skip(done + 1)) by {
                assert(entries@.len() == all.skip(done).len() - 1);
                assert forall|j: int|
                    0 <= j < entries@.len() implies #[trigger] entries@[j]@ == all.skip(done + 1)[j] by {
                    assert(entries@[j]@ == all.skip(done)[j + 1]);
                }
            }
        }
        let ghost pre = staging@;
        apply_entry(staging, entry);
        proof {
            assert(all.skip(done).skip(1) =~= all.skip(done + 1));
            assert(apply_actions(pre, all.skip(done)) == apply_actions(
                apply_action(pre, all.skip(done)[0]),
                all.skip(done + 1),
            ));
            done = done + 1;
        }
    }
    proof {
        assert(all.skip(done) =~= Seq::<ActionView>::empty());
    }
}

/// The staging maps, each restricted to the whitelisted names.
pub open spec fn filter_staging_spec(st: StagingView, keep: Seq<Seq<char>>) -> StagingView {
    StagingView {
        extensions: assoc_retain(st.extensions, keep),
        sources: assoc_retain(st.sources, keep),
        requests: assoc_retain(st.requests, keep),
        resources: assoc_retain(st.resources, keep),
    }
}

/// Intersects every staging map with a whitelist of names.
pub fn filter_staging(staging: &mut ResourceStaging, keep: &OrdSet)
    requires
        old(staging).wf(),
    ensures
        final(staging).wf(),
        final(staging)@ =~= filter_staging_spec(old(staging)@, keep@),
{
    staging.extension_modules.retain(keep);
    staging.sources.retain(keep);
    staging.bytecode_requests.retain(keep);
    staging.resources.retain(keep);
}

/// Applying the same whitelist twice is the same as applying it once.
pub proof fn lemma_filter_staging_idempotent(st: StagingView, keep: Seq<Seq<char>>)
    ensures
        filter_staging_spec(filter_staging_spec(st, keep), keep) =~= filter_staging_spec(st, keep),
{
    crate::ordmap::lemma_assoc_retain_idempotent(st.extensions, keep);
    crate::ordmap::lemma_assoc_retain_idempotent(st.sources, keep);
    crate::ordmap::lemma_assoc_retain_idempotent(st.requests, keep);
    crate::ordmap::lemma_assoc_retain_idempotent(st.resources, keep);
}

/// Whether a whitelist line names a resource: not empty, not a comment.
pub open spec fn whitelist_line(l: Seq<char>) -> bool {
    l.len() > 0 && l[0] != '#'
}

/// The whitelist a file's lines contribute, folded onto `acc`.
pub open spec fn fold_whitelist_lines(acc: Seq<Seq<char>>, lines: Seq<Seq<char>>) -> Seq<Seq<char>>
    decreases lines.len(),
{
    if lines.len() == 0 {
        acc
    } else {
        fold_whitelist_lines(
            if whitelist_line(lines[0]) {
                names_insert(acc, lines[0])
            } else {
                acc
            },
            lines.skip(1),
        )
    }
}

/// Folding a file keeps the set sorted.
pub proof fn lemma_fold_whitelist_wf(acc: Seq<Seq<char>>, lines: Seq<Seq<char>>)
    requires
        names_sorted(acc),
    ensures
        names_sorted(fold_whitelist_lines(acc, lines)),
        forall|k: Seq<char>| #[trigger]
            fold_whitelist_lines(acc, lines).contains(k) <==> (acc.contains(k) || exists|i: int|
                0 <= i < lines.len() && lines[i] == k && whitelist_line(k)),
    decreases lines.len(),
{
    if lines.len() > 0 {
        let acc1 = if whitelist_line(lines[0]) {
            names_insert(acc, lines[0])
        } else {
            acc
        };
        if whitelist_line(lines[0]) {
            crate::ordmap::lemma_names_insert_props(acc, lines[0]);
        }
        lemma_fold_whitelist_wf(acc1, lines.skip(1));
        assert forall|k: Seq<char>| #[trigger]
            fold_whitelist_lines(acc, lines).contains(k) implies (acc.contains(k) || exists|i: int|
            0 <= i < lines.len() && lines[i] == k && whitelist_line(k)) by {
            if fold_whitelist_lines(acc1, lines.skip(1)).contains(k) {
                if acc1.contains(k) {
                    if !acc.contains(k) {
                        assert(k == lines[0] && whitelist_line(k));
                    }
                } else {
                    let w = choose|i: int|
                        0 <= i < lines.skip(1).len() && lines.skip(1)[i] == k && whitelist_line(k);
                    assert(lines[w + 1] == k);
                }
            }
        }
        assert forall|k: Seq<char>|
            (acc.contains(k) || exists|i: int|
                0 <= i < lines.len() && lines[i] == k && whitelist_line(k)) implies #[trigger]
            fold_whitelist_lines(acc, lines).contains(k) by {
            if acc.contains(k) {
                assert(acc1.contains(k) || (whitelist_line(lines[0]) && names_insert(
                    acc,
                    lines[0],
                ).contains(k)));
            } else {
                let w = choose|i: int|
                    0 <= i < lines.len() && lines[i] == k && whitelist_line(k);
                if w == 0 {
                    assert(acc1.contains(k));
                } else {
                    assert(lines.skip(1)[w - 1] == k);
                }
            }
        }
    }
}

/// Adds every resource name listed in `content` to `names`: one name per
/// line, empty lines and `#` comments skipped.
pub fn add_resource_names(names: &mut OrdSet, content: &str)
    requires
        old(names).wf(),
    ensures
        final(names).wf(),
        final(names)@ =~= fold_whitelist_lines(old(names)@, str_lines(content@)),
{
    let lines = crate::text::split_lines(content);
    let ghost lv = str_lines(content@);
    let n = lines.len();
    let mut i: usize = 0;
    proof {
        assert(strings_view(lines@) =~= lv);
        assert(lv.skip(0) =~= lv);
    }
    while i < n
        invariant
            0 <= i <= n,
            n == lines@.len(),
            strings_view(lines@) =~= lv,
            names.wf(),
            fold_whitelist_lines(names@, lv.skip(i as int)) == fold_whitelist_lines(
                old(names)@,
                lv,
            ),
        decreases n - i,
    {
        let line = &lines[i];
        proof {
            assert(lv[i as int] == lines@[i as int]@);
            assert(lv.skip(i as int)[0] == lv[i as int]);
            assert(lv.skip(i as int).skip(1) =~= lv.skip(i + 1));
        }
        let keep = if line.as_str().is_empty() {
            false
        } else {
            let c = line.as_str().get_char(0);
            c != '#'
        };
        proof {
            assert(keep == whitelist_line(lv[i as int]));
        }
        if keep {
            names.insert(line.clone());
        }
        i = i + 1;
    }
    proof {
        assert(lv.skip(n as int) =~= Seq::<Seq<char>>::empty());
    }
}

/// Whether a distribution extension's default variant must always be
/// present: it is linked into the core or required for the interpreter.
pub open spec fn required_default(vs: Seq<ExtensionModule>) -> bool {
    vs.len() > 0 && (vs[0].builtin_default || vs[0].required)
}

/// Force-adds the default variant of every required extension that is
/// missing from `m`, walking `exts` in order.
pub open spec fn add_required_spec(
    m: Seq<(Seq<char>, ExtensionModuleView)>,
    exts: Seq<(Seq<char>, Seq<ExtensionModule>)>,
) -> Seq<(Seq<char>, ExtensionModuleView)>
    decreases exts.len(),
{
    if exts.len() == 0 {
        m
    } else {
        let m1 = if required_default(exts[0].1) && !assoc_contains(m, exts[0].0) {
            assoc_insert(m, exts[0].0, exts[0].1[0]@)
        } else {
            m
        };
        add_required_spec(m1, exts.skip(1))
    }
}

/// The closure walks one entry at a time.
pub proof fn lemma_add_required_snoc(
    m: Seq<(Seq<char>, ExtensionModuleView)>,
    exts: Seq<(Seq<char>, Seq<ExtensionModule>)>,
    x: (Seq<char>, Seq<ExtensionModule>),
)
    ensures
        add_required_spec(m, exts + seq![x]) == (if required_default(x.1) && !assoc_contains(
            add_required_spec(m, exts),
            x.0,
        ) {
            assoc_insert(add_required_spec(m, exts), x.0, x.1[0]@)
        } else {
            add_required_spec(m, exts)
        }),
    decreases exts.len(),
{
    if exts.len() == 0 {
        assert((exts + seq![x])[0] == x);
        assert((exts + seq![x]).skip(1) =~= Seq::<(Seq<char>, Seq<ExtensionModule>)>::empty());
        assert(add_required_spec(m, exts) == m);
        let mx = if required_default(x.1) && !assoc_contains(m, x.0) {
            assoc_insert(m, x.0, x.1[0]@)
        } else {
            m
        };
        assert(add_required_spec(mx, (exts + seq![x]).skip(1)) == mx);
    } else {
        assert((exts + seq![x])[0] == exts[0]);
        assert((exts + seq![x]).skip(1) =~= exts.skip(1) + seq![x]);
        let m1 = if required_default(exts[0].1) && !assoc_contains(m, exts[0].0) {
            assoc_insert(m, exts[0].0, exts[0].1[0]@)
        } else {
            m
        };
        lemma_add_required_snoc(m1, exts.skip(1), x);
        assert(add_required_spec(m, exts) == add_required_spec(m1, exts.skip(1)));
        assert(add_required_spec(m, exts + seq![x]) == add_required_spec(m1, exts.skip(1) + seq![
            x,
        ]));
    }
}

/// The closure keeps the map sorted and never drops a name.
pub proof fn lemma_add_required_props(
    m: Seq<(Seq<char>, ExtensionModuleView)>,
    exts: Seq<(Seq<char>, Seq<ExtensionModule>)>,
)
    requires
        entries_sorted(m),
    ensures
        entries_sorted(add_required_spec(m, exts)),
        forall|k: Seq<char>|
            assoc_contains(m, k) ==> #[trigger] assoc_contains(add_required_spec(m, exts), k),
    decreases exts.len(),
{
    if exts.len() > 0 {
        let m1 = if required_default(exts[0].1) && !assoc_contains(m, exts[0].0) {
            assoc_insert(m, exts[0].0, exts[0].1[0]@)
        } else {
            m
        };
        if required_default(exts[0].1) && !assoc_contains(m, exts[0].0) {
            crate::ordmap::lemma_assoc_insert_props(m, exts[0].0, exts[0].1[0]@);
        }
        lemma_add_required_props(m1, exts.skip(1));
        assert forall|k: Seq<char>| assoc_contains(m, k) implies #[trigger] assoc_contains(
            add_required_spec(m, exts),
            k,
        ) by {
            if required_default(exts[0].1) && !assoc_contains(m, exts[0].0) {
                crate::ordmap::lemma_assoc_insert_props(m, exts[0].0, exts[0].1[0]@);
                assert(assoc_contains(m1, k));
            }
        }
    }
}

/// After the closure, every required name listed in `exts` is present.
pub proof fn lemma_add_required_contains(
    m: Seq<(Seq<char>, ExtensionModuleView)>,
    exts: Seq<(Seq<char>, Seq<ExtensionModule>)>,
    j: int,
)
    requires
        entries_sorted(m),
        0 <= j < exts.len(),
        required_default(exts[j].1),
    ensures
        assoc_contains(add_required_spec(m, exts), exts[j].0),
    decreases exts.len(),
{
    let m1 = if required_default(exts[0].1) && !assoc_contains(m, exts[0].0) {
        assoc_insert(m, exts[0].0, exts[0].1[0]@)
    } else {
        m
    };
    if required_default(exts[0].1) && !assoc_contains(m, exts[0].0) {
        crate::ordmap::lemma_assoc_insert_props(m, exts[0].0, exts[0].1[0]@);
    }
    if j == 0 {
        assert(assoc_contains(m1, exts[0].0));
        lemma_add_required_props(m1, exts.skip(1));
    } else {
        assert(exts.skip(1)[j - 1] == exts[j]);
        lemma_add_required_contains(m1, exts.skip(1), j - 1);
    }
}

/// Removes each listed name in turn.
pub open spec fn remove_names_spec(
    m: Seq<(Seq<char>, ExtensionModuleView)>,
    names: Seq<Seq<char>>,
) -> Seq<(Seq<char>, ExtensionModuleView)>
    decreases names.len(),
{
    if names.len() == 0 {
        m
    } else {
        remove_names_spec(assoc_remove(m, names[0]), names.skip(1))
    }
}

pub proof fn lemma_remove_names_snoc(
    m: Seq<(Seq<char>, ExtensionModuleView)>,
    names: Seq<Seq<char>>,
    x: Seq<char>,
)
    ensures
        remove_names_spec(m, names + seq![x]) == assoc_remove(remove_names_spec(m, names), x),
    decreases names.len(),
{
    if names.len() == 0 {
        assert((names + seq![x])[0] == x);
        assert((names + seq![x]).skip(1) =~= Seq::<Seq<char>>::empty());
        assert(remove_names_spec(m, names) == m);
        assert(remove_names_spec(assoc_remove(m, x), (names + seq![x]).skip(1)) == assoc_remove(
            m,
            x,
        ));
    } else {
        assert((names + seq![x])[0] == names[0]);
        assert((names + seq![x]).skip(1) =~= names.skip(1) + seq![x]);
        lemma_remove_names_snoc(assoc_remove(m, names[0]), names.skip(1), x);
        assert(remove_names_spec(m, names) == remove_names_spec(
            assoc_remove(m, names[0]),
            names.skip(1),
        ));
        assert(remove_names_spec(m, names + seq![x]) == remove_names_spec(
            assoc_remove(m, names[0]),
            names.skip(1) + seq![x],
        ));
    }
}

/// Removal only touches the listed names.
pub proof fn lemma_remove_names_props(
    m: Seq<(Seq<char>, ExtensionModuleView)>,
    names: Seq<Seq<char>>,
)
    requires
        entries_sorted(m),
    ensures
        entries_sorted(remove_names_spec(m, names)),
        forall|k: Seq<char>|
            !names.contains(k) ==> #[trigger] assoc_get(remove_names_spec(m, names), k)
                == assoc_get(m, k),
    decreases names.len(),
{
    if names.len() > 0 {
        crate::ordmap::lemma_assoc_remove_props(m, names[0]);
        lemma_remove_names_props(assoc_remove(m, names[0]), names.skip(1));
        assert forall|k: Seq<char>| !names.contains(k) implies #[trigger] assoc_get(
            remove_names_spec(m, names),
            k,
        ) == assoc_get(m, k) by {
            assert(k != names[0]) by {
                if k == names[0] {
                    assert(names.contains(names[0]));
                }
            }
            assert(!names.skip(1).contains(k)) by {
                if names.skip(1).contains(k) {
                    let w = choose|w: int|
                        0 <= w < names.skip(1).len() && names.skip(1)[w] == k;
                    assert(names[w + 1] == k);
                }
            }
        }
    }
}

/// The required-extensions closure followed by the blocklist removal keeps
/// every required, unblocked extension present.
pub proof fn lemma_required_extensions_closure(
    m: Seq<(Seq<char>, ExtensionModuleView)>,
    exts: Seq<(Seq<char>, Seq<ExtensionModule>)>,
    ignored: Seq<Seq<char>>,
    j: int,
)
    requires
        entries_sorted(m),
        0 <= j < exts.len(),
        required_default(exts[j].1),
        !ignored.contains(exts[j].0),
    ensures
        assoc_contains(remove_names_spec(add_required_spec(m, exts), ignored), exts[j].0),
{
    lemma_add_required_contains(m, exts, j);
    lemma_add_required_props(m, exts);
    lemma_remove_names_props(add_required_spec(m, exts), ignored);
}

/// Force-adds every required extension the staging maps are missing.
pub fn add_required_extensions(staging: &mut ResourceStaging, dist: &PythonDistributionInfo)
    requires
        old(staging).wf(),
        dist.wf(),
    ensures
        final(staging).wf(),
        final(staging)@ =~= (StagingView {
            extensions: add_required_spec(old(staging)@.extensions, dist.extension_modules@),
            ..old(staging)@
        }),
{
    let ghost exts = dist.extension_modules@;
    let ghost m0 = staging@.extensions;
    let n = dist.extension_modules.len();
    let mut i: usize = 0;
    proof {
        assert(exts.take(0) =~= Seq::<(Seq<char>, Seq<ExtensionModule>)>::empty());
    }
    while i < n
        invariant
            0 <= i <= n,
            n == exts.len(),
            exts =~= dist.extension_modules@,
            dist.wf(),
            staging.wf(),
            staging@.extensions =~= add_required_spec(m0, exts.take(i as int)),
            staging@.sources =~= old(staging)@.sources,
            staging@.requests =~= old(staging)@.requests,
            staging@.resources =~= old(staging)@.resources,
            m0 =~= old(staging)@.extensions,
        decreases n - i,
    {
        let name = dist.extension_modules.key_at(i);
        let variants = dist.extension_modules.val_at(i);
        proof {
            assert(exts[i as int].1.len() > 0);
            assert(variants@ == exts[i as int].1);
            assert(exts.take(i + 1) =~= exts.take(i as int) + seq![exts[i as int]]);
            lemma_add_required_snoc(m0, exts.take(i as int), exts[i as int]);
        }
        let em = &variants[0];
        if em.builtin_default || em.required {
            let present = staging.extension_modules.contains_key(name.as_str());
            if !present {
                let owned = name.clone();
                let module = crate::resolver::clone_extension_module(em);
                staging.extension_modules.insert(owned, module);
            }
        }
        i = i + 1;
    }
    proof {
        assert(exts.take(n as int) =~= exts);
    }
}

/// Drops the per-target extension blocklist from the staging maps.
pub fn remove_ignored_extensions(staging: &mut ResourceStaging, target_os: &str)
    requires
        old(staging).wf(),
    ensures
        final(staging).wf(),
        final(staging)@ =~= (StagingView {
            extensions: remove_names_spec(
                old(staging)@.extensions,
                os_ignore_extensions_spec(target_os@),
            ),
            ..old(staging)@
        }),
{
    let ignored = os_ignore_extensions(target_os);
    let ghost names = os_ignore_extensions_spec(target_os@);
    let ghost m0 = staging@.extensions;
    let n = ignored.len();
    let mut i: usize = 0;
    proof {
        assert(names.take(0) =~= Seq::<Seq<char>>::empty());
    }
    while i < n
        invariant
            0 <= i <= n,
            n == names.len(),
            names =~= strings_view(ignored@),
            names =~= os_ignore_extensions_spec(target_os@),
            staging.wf(),
            staging@.extensions =~= remove_names_spec(m0, names.take(i as int)),
            staging@.sources =~= old(staging)@.sources,
            staging@.requests =~= old(staging)@.requests,
            staging@.resources =~= old(staging)@.resources,
            m0 =~= old(staging)@.extensions,
        decreases n - i,
    {
        proof {
            assert(names[i as int] == ignored@[i as int]@);
            assert(names.take(i + 1) =~= names.take(i as int) + seq![names[i as int]]);
            lemma_remove_names_snoc(m0, names.take(i as int), names[i as int]);
        }
        staging.extension_modules.remove(ignored[i].as_str());
        i = i + 1;
    }
    proof {
        assert(names.take(n as int) =~= names);
    }
}

/// Freezes the staged resources, pairing them with the compiled bytecodes
/// and recording the union of all module names.
pub fn finalize_python_resources(
    staging: ResourceStaging,
    bytecodes: Vec<Vec<u8>>,
    read_files: Vec<String>,
) -> (r: PythonResources)
    requires
        staging.wf(),
        bytecodes@.len() == staging@.requests.len(),
    ensures
        r.wf(),
        r.module_sources@ =~= staging@.sources,
        r.module_bytecodes@ =~= Seq::new(
            staging@.requests.len(),
            |i: int| (staging@.requests[i].0, bytecodes@[i]@),
        ),
        r.resources@ =~= staging@.resources,
        r.extension_modules@ =~= staging@.extensions,
        r.read_files@ == read_files@,
        forall|k: Seq<char>| #[trigger]
            r.all_modules@.contains(k) <==> (assoc_contains(staging@.sources, k) || assoc_contains(
                staging@.requests,
                k,
            )),
{
    // the bytecode map carries exactly the staged request names, each
    // paired with its compile result
    let ghost reqs = staging@.requests;
    let mut module_bytecodes: OrdMap<Vec<u8>> = OrdMap::new();
    let rn = staging.bytecode_requests.len();
    let mut i: usize = 0;
    while i < rn
        invariant
            0 <= i <= rn,
            rn == reqs.len(),
            reqs =~= staging@.requests,
            bytecodes@.len() == rn,
            staging.wf(),
            module_bytecodes.wf(),
            module_bytecodes@ =~= Seq::new(i as nat, |j: int| (reqs[j].0, bytecodes@[j]@)),
        decreases rn - i,
    {
        let name = staging.bytecode_requests.key_at(i).clone();
        let data = crate::text::clone_bytes(&bytecodes[i]);
        let ghost nv = name@;
        let ghost dv = data@;
        let ghost before = module_bytecodes@;
        proof {
            assert(nv == reqs[i as int].0);
            assert forall|j: int| 0 <= j < before.len() implies crate::text::lex_lt(
                (#[trigger] before[j]).0,
                nv,
            ) by {
                assert(before[j].0 == reqs[j].0);
                assert(crate::text::lex_lt(reqs[j].0, reqs[i as int].0));
            }
            crate::ordmap::lemma_assoc_insert_split(before, nv, dv, before.len() as int);
            assert(before.take(before.len() as int) =~= before);
            assert(before.skip(before.len() as int) =~= Seq::<(Seq<char>, Seq<u8>)>::empty());
        }
        module_bytecodes.insert(name, data);
        proof {
            assert(module_bytecodes@ =~= before + seq![(nv, dv)]);
            assert(module_bytecodes@ =~= Seq::new(
                (i + 1) as nat,
                |j: int| (reqs[j].0, bytecodes@[j]@),
            ));
        }
        i = i + 1;
    }
    let mut all_modules = OrdSet::new();
    let ghost srcs = staging@.sources;
    let ghost bcs = module_bytecodes@;
    let n = staging.sources.len();
    let mut i: usize = 0;
    while i < n
        invariant
            0 <= i <= n,
            n == srcs.len(),
            srcs =~= staging@.sources,
            all_modules.wf(),
            forall|k: Seq<char>| #[trigger]
                all_modules@.contains(k) <==> exists|j: int|
                    0 <= j < i && (#[trigger] srcs[j]).0 == k,
        decreases n - i,
    {
        let name = staging.sources.key_at(i);
        let ghost before = all_modules@;
        all_modules.insert(name.clone());
        proof {
            crate::ordmap::lemma_names_insert_props(before, srcs[i as int].0);
            assert forall|k: Seq<char>| #[trigger] all_modules@.contains(k) implies exists|j: int|
                0 <= j < i + 1 && (#[trigger] srcs[j]).0 == k by {
                if before.contains(k) {
                } else {
                    assert(srcs[i as int].0 == k);
                }
            }
        }
        i = i + 1;
    }
    let bn = module_bytecodes.len();
    let mut i: usize = 0;
    while i < bn
        invariant
            0 <= i <= bn,
            bn == bcs.len(),
            bcs =~= module_bytecodes@,
            srcs =~= staging@.sources,
            all_modules.wf(),
            forall|k: Seq<char>| #[trigger]
                all_modules@.contains(k) <==> ((exists|j: int|
                    0 <= j < srcs.len() && (#[trigger] srcs[j]).0 == k) || exists|j: int|
                    0 <= j < i && (#[trigger] bcs[j]).0 == k),
        decreases bn - i,
    {
        let name = module_bytecodes.key_at(i);
        let ghost before = all_modules@;
        all_modules.insert(name.clone());
        proof {
            crate::ordmap::lemma_names_insert_props(before, bcs[i as int].0);
            assert forall|k: Seq<char>| #[trigger] all_modules@.contains(k) implies ((exists|j: int|
                0 <= j < srcs.len() && (#[trigger] srcs[j]).0 == k) || exists|j: int|
                0 <= j < i + 1 && (#[trigger] bcs[j]).0 == k) by {
                if before.contains(k) {
                } else {
                    assert(bcs[i as int].0 == k);
                }
            }
        }
        i = i + 1;
    }
    proof {
        assert(bcs.len() == reqs.len());
        assert forall|j: int| 0 <= j < bcs.len() implies (#[trigger] bcs[j]).0 == reqs[j].0 by {
            assert(bcs[j] == (reqs[j].0, bytecodes@[j]@));
        }
        assert forall|k: Seq<char>| #[trigger]
            all_modules@.contains(k) <==> (assoc_contains(srcs, k) || assoc_contains(reqs, k)) by {
            crate::ordmap::lemma_assoc_get_none(srcs, k);
            crate::ordmap::lemma_assoc_get_none(reqs, k);
            if exists|j: int| 0 <= j < bcs.len() && (#[trigger] bcs[j]).0 == k {
                let w = choose|w: int| 0 <= w < bcs.len() && (#[trigger] bcs[w]).0 == k;
                assert(reqs[w].0 == k);
            }
            if assoc_contains(reqs, k) {
                let w = choose|w: int| 0 <= w < reqs.len() && (#[trigger] reqs[w]).0 == k;
                assert(bcs[w].0 == k);
            }
        }
    }
    PythonResources {
        module_sources: staging.sources,
        module_bytecodes,
        all_modules,
        resources: staging.resources,
        extension_modules: staging.extension_modules,
        read_files,
    }
}

/// Any two sorted name sequences that both stand for the union of the
/// source and bytecode names are the same sequence: `all_modules` is the
/// ascending union and nothing else.
pub proof fn lemma_module_set_law(
    n1: Seq<Seq<char>>,
    n2: Seq<Seq<char>>,
    sources: Seq<(Seq<char>, Seq<u8>)>,
    bytecodes: Seq<(Seq<char>, Seq<u8>)>,
)
    requires
        names_sorted(n1),
        names_sorted(n2),
        forall|k: Seq<char>| #[trigger]
            n1.contains(k) <==> (assoc_contains(sources, k) || assoc_contains(bytecodes, k)),
        forall|k: Seq<char>| #[trigger]
            n2.contains(k) <==> (assoc_contains(sources, k) || assoc_contains(bytecodes, k)),
    ensures
        n1 =~= n2,
{
    crate::ordmap::lemma_names_sorted_unique(n1, n2);
}

/// Extensions that cannot be linked on a target and are always dropped.
pub open spec fn os_ignore_extensions_spec(target_os: Seq<char>) -> Seq<Seq<char>> {
    if target_os == "linux"@ {
        seq!["_crypt"@, "nis"@]
    } else if target_os == "macos"@ {
        seq!["_curses"@, "_curses_panel"@, "readline"@]
    } else {
        Seq::empty()
    }
}

/// The per-target extension blocklist.
pub fn os_ignore_extensions(target_os: &str) -> (r: Vec<String>)
    ensures
        strings_view(r@) =~= os_ignore_extensions_spec(target_os@),
{
    let mut v: Vec<String> = Vec::new();
    if str_eq(target_os, "linux") {
        v.push("_crypt".to_owned());
        v.push("nis".to_owned());
    } else if str_eq(target_os, "macos") {
        v.push("_curses".to_owned());
        v.push("_curses_panel".to_owned());
        v.push("readline".to_owned());
    }
    v
}

/// Whether `p` occurs anywhere in `s`.
pub open spec fn contains_sub(s: Seq<char>, p: Seq<char>) -> bool {
    crate::text::first_match_from(s, p, 0) is Some
}

/// The operating-system name a target triple stands for, as the ignore
/// tables key it.
pub open spec fn target_triple_os(triple: Seq<char>) -> Seq<char> {
    if contains_sub(triple, "-linux-"@) {
        "linux"@
    } else if contains_sub(triple, "-darwin"@) {
        "macos"@
    } else if contains_sub(triple, "-windows-"@) {
        "windows"@
    } else {
        "other"@
    }
}

/// Maps a target triple to its operating-system name.
pub fn default_target_os(target_triple: &str) -> (r: String)
    ensures
        r@ == target_triple_os(target_triple@),
{
    if crate::text::find_substring_from(target_triple, "-linux-", 0).is_some() {
        "linux".to_owned()
    } else if crate::text::find_substring_from(target_triple, "-darwin", 0).is_some() {
        "macos".to_owned()
    } else if crate::text::find_substring_from(target_triple, "-windows-", 0).is_some() {
        "windows".to_owned()
    } else {
        "other".to_owned()
    }
}

/// Libraries the host operating system always provides, never linked from
/// the distribution.
pub open spec fn os_ignore_libraries_spec(target_os: Seq<char>) -> Seq<Seq<char>> {
    if target_os == "linux"@ || target_os == "macos"@ {
        seq!["dl"@, "m"@]
    } else {
        Seq::empty()
    }
}

/// The per-target library ignore list.
pub fn os_ignore_libraries(target_os: &str) -> (r: Vec<String>)
    ensures
        strings_view(r@) =~= os_ignore_libraries_spec(target_os@),
{
    let mut v: Vec<String> = Vec::new();
    if str_eq(target_os, "linux") {
        v.push("dl".to_owned());
        v.push("m".to_owned());
    } else if str_eq(target_os, "macos") {
        v.push("dl".to_owned());
        v.push("m".to_owned());
    }
    v
}

/// What the caller hands the reducer alongside each rule: nothing, a
/// pre-scanned source listing for tree-walking rules, or the whitelists'
/// paths and contents for filter rules.
pub enum RuleInput {
    Nothing,
    Scanned { resources: Vec<crate::scan::ScannedResource> },
    FilterFiles { files: Vec<(String, String)> },
}

#[verifier::ext_equal]
pub ghost enum RuleInputView {
    Nothing,
    Scanned { resources: Seq<crate::scan::ScannedView> },
    FilterFiles { files: Seq<(Seq<char>, Seq<char>)> },
}

impl View for RuleInput {
    type V = RuleInputView;

    open spec fn view(&self) -> RuleInputView {
        match self {
            RuleInput::Nothing => RuleInputView::Nothing,
            RuleInput::Scanned { resources } => RuleInputView::Scanned {
                resources: crate::scan::scanned_view(resources@),
            },
            RuleInput::FilterFiles { files } => RuleInputView::FilterFiles {
                files: files@.map_values(|f: (String, String)| (f.0@, f.1@)),
            },
        }
    }
}

pub open spec fn rule_inputs_view(v: Seq<RuleInput>) -> Seq<RuleInputView> {
    v.map_values(|x: RuleInput| x@)
}

/// The input shape each rule needs: a scanned listing for tree rules, one
/// file for a single-file filter, any number for a glob filter, nothing
/// else otherwise.
pub open spec fn input_matches(
    rule: &crate::resolver::PythonPackaging,
    input: RuleInputView,
) -> bool {
    match rule {
        crate::resolver::PythonPackaging::Virtualenv { .. } => input is Scanned,
        crate::resolver::PythonPackaging::PackageRoot { .. } => input is Scanned,
        crate::resolver::PythonPackaging::PipInstallSimple { .. } => input is Scanned,
        crate::resolver::PythonPackaging::FilterFileInclude { .. } => input matches
            RuleInputView::FilterFiles { files } && files.len() == 1,
        crate::resolver::PythonPackaging::FilterFilesInclude { .. } => input is FilterFiles,
        _ => input is Nothing,
    }
}

/// The whitelist several files build up together, first file first.
pub open spec fn whitelist_acc(
    acc: Seq<Seq<char>>,
    files: Seq<(Seq<char>, Seq<char>)>,
) -> Seq<Seq<char>>
    decreases files.len(),
{
    if files.len() == 0 {
        acc
    } else {
        whitelist_acc(fold_whitelist_lines(acc, str_lines(files[0].1)), files.skip(1))
    }
}

/// The scanned listing an input carries, empty otherwise.
pub open spec fn input_scanned(input: RuleInputView) -> Seq<crate::scan::ScannedView> {
    match input {
        RuleInputView::Scanned { resources } => resources,
        _ => Seq::empty(),
    }
}

/// One rule's effect on the staging maps: its actions applied, then, for a
/// filter rule, the maps intersected with the whitelist its files hold.
pub open spec fn stage_step(
    st: StagingView,
    rule: &crate::resolver::PythonPackaging,
    input: RuleInputView,
    dist: &PythonDistributionInfo,
) -> Option<StagingView> {
    match crate::resolver::resolve_spec(rule, dist, input_scanned(input)) {
        None => None,
        Some(acts) => {
            let st1 = apply_actions(st, acts);
            match input {
                RuleInputView::FilterFiles { files } => Some(
                    filter_staging_spec(st1, whitelist_acc(Seq::empty(), files)),
                ),
                _ => Some(st1),
            }
        },
    }
}

/// All rules applied in config order; `None` as soon as one is malformed.
pub open spec fn stage_rules(
    st: StagingView,
    rules: Seq<crate::resolver::PythonPackaging>,
    inputs: Seq<RuleInputView>,
    dist: &PythonDistributionInfo,
) -> Option<StagingView>
    decreases rules.len(),
{
    if rules.len() == 0 {
        Some(st)
    } else {
        match stage_step(st, &rules[0], inputs[0], dist) {
            None => None,
            Some(st1) => stage_rules(st1, rules.skip(1), inputs.skip(1), dist),
        }
    }
}

/// Staging decomposes over concatenated rule lists.
pub proof fn lemma_stage_rules_append(
    st: StagingView,
    a: Seq<crate::resolver::PythonPackaging>,
    b: Seq<crate::resolver::PythonPackaging>,
    ai: Seq<RuleInputView>,
    bi: Seq<RuleInputView>,
    dist: &PythonDistributionInfo,
)
    requires
        a.len() == ai.len(),
    ensures
        stage_rules(st, a + b, ai + bi, dist) == (match stage_rules(st, a, ai, dist) {
            None => None,
            Some(st1) => stage_rules(st1, b, bi, dist),
        }),
    decreases a.len(),
{
    if a.len() == 0 {
        assert(a + b =~= b);
        assert(ai + bi =~= bi);
        assert(stage_rules(st, a, ai, dist) == Some(st));
    } else {
        assert((a + b)[0] == a[0]);
        assert((ai + bi)[0] == ai[0]);
        assert((a + b).skip(1) =~= a.skip(1) + b);
        assert((ai + bi).skip(1) =~= ai.skip(1) + bi);
        match stage_step(st, &a[0], ai[0], dist) {
            None => {},
            Some(st1) => {
                lemma_stage_rules_append(st1, a.skip(1), b, ai.skip(1), bi, dist);
            },
        }
    }
}

pub proof fn lemma_stage_rules_snoc(
    st: StagingView,
    rules: Seq<crate::resolver::PythonPackaging>,
    inputs: Seq<RuleInputView>,
    rule: crate::resolver::PythonPackaging,
    input: RuleInputView,
    dist: &PythonDistributionInfo,
)
    requires
        rules.len() == inputs.len(),
    ensures
        stage_rules(st, rules + seq![rule], inputs + seq![input], dist) == (match stage_rules(
            st,
            rules,
            inputs,
            dist,
        ) {
            None => None,
            Some(st1) => stage_step(st1, &rule, input, dist),
        }),
    decreases rules.len(),
{
    if rules.len() == 0 {
        assert((rules + seq![rule])[0] == rule);
        assert((inputs + seq![input])[0] == input);
        assert((rules + seq![rule]).skip(1) =~= Seq::<crate::resolver::PythonPackaging>::empty());
        assert((inputs + seq![input]).skip(1) =~= Seq::<RuleInputView>::empty());
        assert(stage_rules(st, rules, inputs, dist) == Some(st));
        match stage_step(st, &rule, input, dist) {
            None => {},
            Some(st1) => {
                assert(stage_rules(
                    st1,
                    (rules + seq![rule]).skip(1),
                    (inputs + seq![input]).skip(1),
                    dist,
                ) == Some(st1));
            },
        }
    } else {
        assert((rules + seq![rule])[0] == rules[0]);
        assert((inputs + seq![input])[0] == inputs[0]);
        assert((rules + seq![rule]).skip(1) =~= rules.skip(1) + seq![rule]);
        assert((inputs + seq![input]).skip(1) =~= inputs.skip(1) + seq![input]);
        match stage_step(st, &rules[0], inputs[0], dist) {
            None => {},
            Some(st1) => {
                lemma_stage_rules_snoc(st1, rules.skip(1), inputs.skip(1), rule, input, dist);
            },
        }
    }
}

/// The paths of every whitelist file the filter rules consumed, in order.
pub open spec fn read_files_spec(inputs: Seq<RuleInputView>) -> Seq<Seq<char>>
    decreases inputs.len(),
{
    if inputs.len() == 0 {
        Seq::empty()
    } else {
        (match inputs[0] {
            RuleInputView::FilterFiles { files } => files.map_values(
                |f: (Seq<char>, Seq<char>)| f.0,
            ),
            _ => Seq::<Seq<char>>::empty(),
        }) + read_files_spec(inputs.skip(1))
    }
}

pub proof fn lemma_read_files_append(a: Seq<RuleInputView>, b: Seq<RuleInputView>)
    ensures
        read_files_spec(a + b) =~= read_files_spec(a) + read_files_spec(b),
    decreases a.len(),
{
    if a.len() == 0 {
        assert(a + b =~= b);
        assert(read_files_spec(a) =~= Seq::<Seq<char>>::empty());
    } else {
        lemma_read_files_append(a.skip(1), b);
        assert((a + b).skip(1) =~= a.skip(1) + b);
        assert((a + b)[0] == a[0]);
    }
}

/// Runs every packaging rule over fresh staging maps, then force-adds the
/// missing required extensions and drops the per-target blocklist. The
/// staged bytecode requests are compiled afterwards, in one batch, by the
/// caller. Fails exactly when some rule is malformed.
pub fn stage_python_resources(
    rules: &Vec<crate::resolver::PythonPackaging>,
    dist: &PythonDistributionInfo,
    rule_inputs: &Vec<RuleInput>,
    target_os: &str,
) -> (r: Result<(ResourceStaging, Vec<String>), RepackageError>)
    requires
        dist.wf(),
        rule_inputs@.len() == rules@.len(),
        forall|i: int|
            0 <= i < rules@.len() ==> input_matches(
                &rules@[i],
                #[trigger] rule_inputs_view(rule_inputs@)[i],
            ),
    ensures
        match r {
            Ok(out) => {
                &&& out.0.wf()
                &&& {
                    let staged = stage_rules(
                        empty_staging_view(),
                        rules@,
                        rule_inputs_view(rule_inputs@),
                        dist,
                    );
                    staged is Some && out.0@ =~= (StagingView {
                        extensions: remove_names_spec(
                            add_required_spec(
                                staged.unwrap().extensions,
                                dist.extension_modules@,
                            ),
                            os_ignore_extensions_spec(target_os@),
                        ),
                        ..staged.unwrap()
                    })
                }
                &&& strings_view(out.1@) =~= read_files_spec(rule_inputs_view(rule_inputs@))
            },
            Err(e) => stage_rules(
                empty_staging_view(),
                rules@,
                rule_inputs_view(rule_inputs@),
                dist,
            ) is None && (e matches RepackageError::ConfigError { message } && exists|i: int|
                0 <= i < rules@.len() && crate::resolver::resolve_spec(
                    &rules@[i],
                    dist,
                    input_scanned(#[trigger] rule_inputs_view(rule_inputs@)[i]),
                ) is None && message@ == crate::resolver::resolve_error_chars(&rules@[i], dist)),
        },
{
    let ghost rv = rules@;
    let ghost iv = rule_inputs_view(rule_inputs@);
    let mut staging = ResourceStaging::new();
    let mut read_files: Vec<String> = Vec::new();
    let empty_scanned: Vec<crate::scan::ScannedResource> = Vec::new();
    proof {
        assert(staging@ =~= empty_staging_view());
        assert(rv.take(0) =~= Seq::<crate::resolver::PythonPackaging>::empty());
        assert(iv.take(0) =~= Seq::<RuleInputView>::empty());
        assert(strings_view(read_files@) =~= Seq::<Seq<char>>::empty());
        assert(read_files_spec(iv.take(0)) =~= Seq::<Seq<char>>::empty());
    }
    let n = rules.len();
    let mut i: usize = 0;
    while i < n
        invariant
            0 <= i <= n,
            n == rv.len(),
            rv =~= rules@,
            iv =~= rule_inputs_view(rule_inputs@),
            iv.len() == n,
            dist.wf(),
            staging.wf(),
            empty_scanned@.len() == 0,
            forall|j: int| 0 <= j < n ==> input_matches(&rv[j], #[trigger] iv[j]),
            stage_rules(empty_staging_view(), rv.take(i as int), iv.take(i as int), dist)
                == Some(staging@),
            strings_view(read_files@) =~= read_files_spec(iv.take(i as int)),
        decreases n - i,
    {
        proof {
            assert(iv[i as int] == rule_inputs@[i as int]@);
            assert(rv.take(i + 1) =~= rv.take(i as int) + seq![rv[i as int]]);
            assert(iv.take(i + 1) =~= iv.take(i as int) + seq![iv[i as int]]);
            lemma_stage_rules_snoc(
                empty_staging_view(),
                rv.take(i as int),
                iv.take(i as int),
                rv[i as int],
                iv[i as int],
                dist,
            );
            lemma_read_files_append(iv.take(i as int), seq![iv[i as int]]);
            assert(seq![iv[i as int]].skip(1) =~= Seq::<RuleInputView>::empty());
        }
        let rule = &rules[i];
        let input = &rule_inputs[i];
        let scanned: &Vec<crate::scan::ScannedResource> = match input {
            RuleInput::Scanned { resources } => resources,
            _ => &empty_scanned,
        };
        proof {
            assert(crate::scan::scanned_view(scanned@) =~= input_scanned(iv[i as int]));
        }
        let entries = match crate::resolver::resolve_python_packaging(rule, dist, scanned) {
            Ok(v) => v,
            Err(e) => {
                proof {
                    assert(rv =~= rv.take(i as int) + rv.skip(i as int));
                    assert(iv =~= iv.take(i as int) + iv.skip(i as int));
                    lemma_stage_rules_append(
                        empty_staging_view(),
                        rv.take(i as int),
                        rv.skip(i as int),
                        iv.take(i as int),
                        iv.skip(i as int),
                        dist,
                    );
                    assert(rv.skip(i as int)[0] == rv[i as int]);
                    assert(iv.skip(i as int)[0] == iv[i as int]);
                    assert(stage_step(staging@, &rv[i as int], iv[i as int], dist) is None);
                    assert(stage_rules(
                        staging@,
                        rv.skip(i as int),
                        iv.skip(i as int),
                        dist,
                    ) is None);
                    assert(crate::resolver::resolve_spec(
                        &rv[i as int],
                        dist,
                        input_scanned(rule_inputs_view(rule_inputs@)[i as int]),
                    ) is None);
                }
                return Err(e);
            },
        };
        let ghost pre = staging@;
        apply_entries(&mut staging, entries);
        match input {
            RuleInput::FilterFiles { files } => {
                let ghost fv = files@.map_values(|f: (String, String)| (f.0@, f.1@));
                let mut names = OrdSet::new();
                let fn_count = files.len();
                let mut k: usize = 0;
                proof {
                    assert(fv.take(0) =~= Seq::<(Seq<char>, Seq<char>)>::empty());
                    assert(whitelist_acc(Seq::empty(), fv.take(0)) =~= names@);
                }
                let ghost rf_before = strings_view(read_files@);
                while k < fn_count
                    invariant
                        0 <= k <= fn_count,
                        fn_count == files@.len(),
                        fv =~= files@.map_values(|f: (String, String)| (f.0@, f.1@)),
                        names.wf(),
                        names@ =~= whitelist_acc(Seq::empty(), fv.take(k as int)),
                        strings_view(read_files@) =~= rf_before + fv.take(k as int).map_values(
                            |f: (Seq<char>, Seq<char>)| f.0,
                        ),
                    decreases fn_count - k,
                {
                    proof {
                        assert(fv[k as int] == (files@[k as int].0@, files@[k as int].1@));
                        assert(fv.take(k + 1) =~= fv.take(k as int) + seq![fv[k as int]]);
                        lemma_whitelist_acc_snoc(Seq::empty(), fv.take(k as int), fv[k as int]);
                    }
                    let file = &files[k];
                    add_resource_names(&mut names, file.1.as_str());
                    let ghost rf_prev = read_files@;
                    read_files.push(file.0.clone());
                    proof {
                        assert(strings_view(read_files@) =~= strings_view(rf_prev) + seq![
                            read_files@[read_files@.len() - 1]@,
                        ]);
                        assert(fv.take(k + 1).map_values(|f: (Seq<char>, Seq<char>)| f.0)
                            =~= fv.take(k as int).map_values(|f: (Seq<char>, Seq<char>)| f.0)
                            + seq![fv[k as int].0]);
                    }
                    k = k + 1;
                }
                proof {
                    assert(fv.take(fn_count as int) =~= fv);
                }
                filter_staging(&mut staging, &names);
            },
            _ => {},
        }
        proof {
            assert(read_files_spec(Seq::<RuleInputView>::empty()) =~= Seq::<Seq<char>>::empty());
            assert(seq![iv[i as int]][0] == iv[i as int]);
            assert(iv[i as int] == rule_inputs@[i as int]@);
            match iv[i as int] {
                RuleInputView::FilterFiles { files } => {
                    assert(read_files_spec(seq![iv[i as int]]) =~= files.map_values(
                        |f: (Seq<char>, Seq<char>)| f.0,
                    ));
                },
                _ => {
                    assert(read_files_spec(seq![iv[i as int]]) =~= Seq::<Seq<char>>::empty());
                },
            }
            assert(strings_view(read_files@) =~= read_files_spec(iv.take(i as int))
                + read_files_spec(seq![iv[i as int]]));
            assert(strings_view(read_files@) =~= read_files_spec(iv.take(i + 1)));
        }
        i = i + 1;
        proof {
            assert(stage_rules(empty_staging_view(), rv.take(i as int), iv.take(i as int), dist)
                == Some(staging@));
        }
    }
    proof {
        assert(rv.take(n as int) =~= rv);
        assert(iv.take(n as int) =~= iv);
    }
    add_required_extensions(&mut staging, dist);
    remove_ignored_extensions(&mut staging, target_os);
    Ok((staging, read_files))
}

/// Fresh staging maps.
pub open spec fn empty_staging_view() -> StagingView {
    StagingView {
        extensions: Seq::empty(),
        sources: Seq::empty(),
        requests: Seq::empty(),
        resources: Seq::empty(),
    }
}

pub proof fn lemma_whitelist_acc_snoc(
    acc: Seq<Seq<char>>,
    files: Seq<(Seq<char>, Seq<char>)>,
    x: (Seq<char>, Seq<char>),
)
    ensures
        whitelist_acc(acc, files + seq![x]) == fold_whitelist_lines(
            whitelist_acc(acc, files),
            str_lines(x.1),
        ),
    decreases files.len(),
{
    if files.len() == 0 {
        assert((files + seq![x])[0] == x);
        assert((files + seq![x]).skip(1) =~= Seq::<(Seq<char>, Seq<char>)>::empty());
        assert(whitelist_acc(acc, files) == acc);
        assert(whitelist_acc(
            fold_whitelist_lines(acc, str_lines(x.1)),
            (files + seq![x]).skip(1),
        ) == fold_whitelist_lines(acc, str_lines(x.1)));
    } else {
        assert((files + seq![x])[0] == files[0]);
        assert((files + seq![x]).skip(1) =~= files.skip(1) + seq![x]);
        lemma_whitelist_acc_snoc(fold_whitelist_lines(acc, str_lines(files[0].1)), files.skip(1), x);
        assert(whitelist_acc(acc, files) == whitelist_acc(
            fold_whitelist_lines(acc, str_lines(files[0].1)),
            files.skip(1),
        ));
        assert(whitelist_acc(acc, files + seq![x]) == whitelist_acc(
            fold_whitelist_lines(acc, str_lines(files[0].1)),
            files.skip(1) + seq![x],
        ));
    }
}

/// Sorted staging maps.
pub open spec fn staging_view_wf(st: StagingView) -> bool {
    &&& entries_sorted(st.extensions)
    &&& entries_sorted(st.sources)
    &&& entries_sorted(st.requests)
    &&& entries_sorted(st.resources)
}

/// Applying an action stream keeps the staging maps sorted.
pub proof fn lemma_apply_actions_wf(st: StagingView, actions: Seq<ActionView>)
    requires
        staging_view_wf(st),
    ensures
        staging_view_wf(apply_actions(st, actions)),
    decreases actions.len(),
{
    if actions.len() > 0 {
        let a = actions[0];
        match a.resource {
            ResourceView::Extension { name, module } => {
                if a.add {
                    crate::ordmap::lemma_assoc_insert_props(st.extensions, name, module);
                } else {
                    crate::ordmap::lemma_assoc_remove_props(st.extensions, name);
                }
            },
            ResourceView::Source { name, source } => {
                if a.add {
                    crate::ordmap::lemma_assoc_insert_props(st.sources, name, source);
                } else {
                    crate::ordmap::lemma_assoc_remove_props(st.sources, name);
                }
            },
            ResourceView::Bytecode { name, source, optimize_level } => {
                if a.add {
                    crate::ordmap::lemma_assoc_insert_props(
                        st.requests,
                        name,
                        BytecodeRequestView { source, optimize_level },
                    );
                } else {
                    crate::ordmap::lemma_assoc_remove_props(st.requests, name);
                }
            },
            ResourceView::Data { name, data } => {
                if a.add {
                    crate::ordmap::lemma_assoc_insert_props(st.resources, name, data);
                } else {
                    crate::ordmap::lemma_assoc_remove_props(st.resources, name);
                }
            },
        }
        lemma_apply_actions_wf(apply_action(st, a), actions.skip(1));
    }
}

/// One staging step keeps the maps sorted.
pub proof fn lemma_stage_step_wf(
    st: StagingView,
    rule: &crate::resolver::PythonPackaging,
    input: RuleInputView,
    dist: &PythonDistributionInfo,
)
    requires
        staging_view_wf(st),
        stage_step(st, rule, input, dist) is Some,
    ensures
        staging_view_wf(stage_step(st, rule, input, dist).unwrap()),
{
    match crate::resolver::resolve_spec(rule, dist, input_scanned(input)) {
        None => {},
        Some(acts) => {
            lemma_apply_actions_wf(st, acts);
            let st1 = apply_actions(st, acts);
            match input {
                RuleInputView::FilterFiles { files } => {
                    let keep = whitelist_acc(Seq::empty(), files);
                    crate::ordmap::lemma_assoc_retain_sorted_pred(
                        st1.extensions,
                        |e: (Seq<char>, ExtensionModuleView)| keep.contains(e.0),
                    );
                    crate::ordmap::lemma_assoc_retain_sorted_pred(
                        st1.sources,
                        |e: (Seq<char>, Seq<u8>)| keep.contains(e.0),
                    );
                    crate::ordmap::lemma_assoc_retain_sorted_pred(
                        st1.requests,
                        |e: (Seq<char>, BytecodeRequestView)| keep.contains(e.0),
                    );
                    crate::ordmap::lemma_assoc_retain_sorted_pred(
                        st1.resources,
                        |e: (Seq<char>, Seq<u8>)| keep.contains(e.0),
                    );
                },
                _ => {},
            }
        },
    }
}

/// A whole staging run from sorted maps ends with sorted maps.
pub proof fn lemma_stage_rules_wf(
    st: StagingView,
    rules: Seq<crate::resolver::PythonPackaging>,
    inputs: Seq<RuleInputView>,
    dist: &PythonDistributionInfo,
)
    requires
        staging_view_wf(st),
        stage_rules(st, rules, inputs, dist) is Some,
    ensures
        staging_view_wf(stage_rules(st, rules, inputs, dist).unwrap()),
    decreases rules.len(),
{
    if rules.len() > 0 {
        match stage_step(st, &rules[0], inputs[0], dist) {
            None => {},
            Some(st1) => {
                lemma_stage_step_wf(st, &rules[0], inputs[0], dist);
                lemma_stage_rules_wf(st1, rules.skip(1), inputs.skip(1), dist);
            },
        }
    }
}

/// Every staged extension carries the name it is staged under as its
/// module field.
pub open spec fn extensions_named(es: Seq<(Seq<char>, ExtensionModuleView)>) -> bool {
    forall|i: int| 0 <= i < es.len() ==> (#[trigger] es[i]).1.module == es[i].0
}

/// One action keeps the staged extensions named when it is itself named.
proof fn lemma_apply_action_named(st: StagingView, a: ActionView)
    requires
        extensions_named(st.extensions),
        crate::resolver::action_named(a),
    ensures
        extensions_named(apply_action(st, a).extensions),
{
    match a.resource {
        ResourceView::Extension { name, module } => {
            if a.add {
                crate::ordmap::lemma_assoc_insert_elems(st.extensions, name, module);
                let out = assoc_insert(st.extensions, name, module);
                assert forall|i: int| 0 <= i < out.len() implies (#[trigger] out[i]).1.module
                    == out[i].0 by {
                    if out[i] == (name, module) {
                    } else {
                        let w = choose|w: int|
                            0 <= w < st.extensions.len() && st.extensions[w] == out[i];
                    }
                }
            } else {
                crate::ordmap::lemma_assoc_remove_elems(st.extensions, name);
                let out = assoc_remove(st.extensions, name);
                assert forall|i: int| 0 <= i < out.len() implies (#[trigger] out[i]).1.module
                    == out[i].0 by {
                    let w = choose|w: int|
                        0 <= w < st.extensions.len() && st.extensions[w] == out[i];
                }
            }
        },
        _ => {},
    }
}

/// A named action stream keeps the staged extensions named.
proof fn lemma_apply_actions_named(st: StagingView, actions: Seq<ActionView>)
    requires
        extensions_named(st.extensions),
        forall|i: int| 0 <= i < actions.len() ==> crate::resolver::action_named(
            #[trigger] actions[i],
        ),
    ensures
        extensions_named(apply_actions(st, actions).extensions),
    decreases actions.len(),
{
    if actions.len() > 0 {
        lemma_apply_action_named(st, actions[0]);
        assert forall|i: int| 0 <= i < actions.skip(1).len() implies crate::resolver::action_named(
            #[trigger] actions.skip(1)[i],
        ) by {
            assert(actions.skip(1)[i] == actions[i + 1]);
        }
        lemma_apply_actions_named(apply_action(st, actions[0]), actions.skip(1));
    }
}

/// One staging step keeps the staged extensions named.
proof fn lemma_stage_step_named(
    st: StagingView,
    rule: &crate::resolver::PythonPackaging,
    input: RuleInputView,
    dist: &PythonDistributionInfo,
)
    requires
        dist.wf(),
        extensions_named(st.extensions),
        stage_step(st, rule, input, dist) is Some,
    ensures
        extensions_named(stage_step(st, rule, input, dist).unwrap().extensions),
{
    broadcast use vstd::seq_lib::group_filter_ensures;

    match crate::resolver::resolve_spec(rule, dist, input_scanned(input)) {
        None => {},
        Some(acts) => {
            crate::resolver::lemma_resolve_actions_named(rule, dist, input_scanned(input));
            lemma_apply_actions_named(st, acts);
            let st1 = apply_actions(st, acts);
            match input {
                RuleInputView::FilterFiles { files } => {
                    let keep = whitelist_acc(Seq::empty(), files);
                    let pred = |e: (Seq<char>, ExtensionModuleView)| keep.contains(e.0);
                    let out = st1.extensions.filter(pred);
                    assert forall|i: int| 0 <= i < out.len() implies (#[trigger] out[i]).1.module
                        == out[i].0 by {
                        assert(out.contains(out[i]));
                        Seq::lemma_filter_contains_rev(st1.extensions, pred, out[i]);
                        let w = choose|w: int|
                            0 <= w < st1.extensions.len() && st1.extensions[w] == out[i];
                    }
                },
                _ => {},
            }
        },
    }
}

/// A whole staging run from named maps ends with named extensions.
proof fn lemma_stage_rules_named(
    st: StagingView,
    rules: Seq<crate::resolver::PythonPackaging>,
    inputs: Seq<RuleInputView>,
    dist: &PythonDistributionInfo,
)
    requires
        dist.wf(),
        extensions_named(st.extensions),
        stage_rules(st, rules, inputs, dist) is Some,
    ensures
        extensions_named(stage_rules(st, rules, inputs, dist).unwrap().extensions),
    decreases rules.len(),
{
    if rules.len() > 0 {
        match stage_step(st, &rules[0], inputs[0], dist) {
            None => {},
            Some(st1) => {
                lemma_stage_step_named(st, &rules[0], inputs[0], dist);
                lemma_stage_rules_named(st1, rules.skip(1), inputs.skip(1), dist);
            },
        }
    }
}

/// The closure inserts only variants named after their key.
proof fn lemma_add_required_named(
    m: Seq<(Seq<char>, ExtensionModuleView)>,
    exts: Seq<(Seq<char>, Seq<ExtensionModule>)>,
)
    requires
        extensions_named(m),
        forall|i: int| 0 <= i < exts.len() ==> (#[trigger] exts[i]).1.len() > 0,
        forall|i: int|
            0 <= i < exts.len() ==> ((#[trigger] exts[i]).1.len() > 0 ==> exts[i].1[0]@.module
                == exts[i].0),
    ensures
        extensions_named(add_required_spec(m, exts)),
    decreases exts.len(),
{
    if exts.len() > 0 {
        let m1 = if required_default(exts[0].1) && !assoc_contains(m, exts[0].0) {
            assoc_insert(m, exts[0].0, exts[0].1[0]@)
        } else {
            m
        };
        if required_default(exts[0].1) && !assoc_contains(m, exts[0].0) {
            crate::ordmap::lemma_assoc_insert_elems(m, exts[0].0, exts[0].1[0]@);
            assert forall|i: int| 0 <= i < m1.len() implies (#[trigger] m1[i]).1.module
                == m1[i].0 by {
                if m1[i] == (exts[0].0, exts[0].1[0]@) {
                } else {
                    let w = choose|w: int| 0 <= w < m.len() && m[w] == m1[i];
                }
            }
        }
        assert forall|i: int| 0 <= i < exts.skip(1).len() implies (
        #[trigger] exts.skip(1)[i]).1.len() > 0 by {
            assert(exts.skip(1)[i] == exts[i + 1]);
        }
        assert forall|i: int|
            0 <= i < exts.skip(1).len() implies ((#[trigger] exts.skip(1)[i]).1.len() > 0
            ==> exts.skip(1)[i].1[0]@.module == exts.skip(1)[i].0) by {
            assert(exts.skip(1)[i] == exts[i + 1]);
        }
        lemma_add_required_named(m1, exts.skip(1));
    }
}

/// Removing names keeps the staged extensions named.
proof fn lemma_remove_names_named(
    m: Seq<(Seq<char>, ExtensionModuleView)>,
    names: Seq<Seq<char>>,
)
    requires
        extensions_named(m),
    ensures
        extensions_named(remove_names_spec(m, names)),
    decreases names.len(),
{
    if names.len() > 0 {
        crate::ordmap::lemma_assoc_remove_elems(m, names[0]);
        let m1 = assoc_remove(m, names[0]);
        assert forall|i: int| 0 <= i < m1.len() implies (#[trigger] m1[i]).1.module == m1[i].0 by {
            let w = choose|w: int| 0 <= w < m.len() && m[w] == m1[i];
        }
        lemma_remove_names_named(m1, names.skip(1));
    }
}

/// The extension map a successful staging run ends with, after the
/// required-extensions closure and the per-target blocklist removal.
pub open spec fn staged_extensions_final(
    rules: Seq<crate::resolver::PythonPackaging>,
    inputs: Seq<RuleInputView>,
    dist: &PythonDistributionInfo,
    target_os: Seq<char>,
) -> Seq<(Seq<char>, ExtensionModuleView)> {
    remove_names_spec(
        add_required_spec(
            stage_rules(empty_staging_view(), rules, inputs, dist).unwrap().extensions,
            dist.extension_modules@,
        ),
        os_ignore_extensions_spec(target_os),
    )
}

/// The inittab closure over a whole staging run: the final extension map
/// is sorted and every staged variant carries its own key, so the emitted
/// table body renders exactly one row per staged extension with an init
/// function, in ascending name order, closed by the sentinel row.
pub proof fn lemma_staged_inittab_closure(
    rules: Seq<crate::resolver::PythonPackaging>,
    inputs: Seq<RuleInputView>,
    dist: &PythonDistributionInfo,
    target_os: Seq<char>,
)
    requires
        dist.wf(),
        stage_rules(empty_staging_view(), rules, inputs, dist) is Some,
    ensures
        entries_sorted(staged_extensions_final(rules, inputs, dist, target_os)),
        extensions_named(staged_extensions_final(rules, inputs, dist, target_os)),
        crate::configc::inittab_lines(staged_extensions_final(rules, inputs, dist, target_os))
            =~= crate::configc::render_rows(
            crate::configc::inittab_rows(staged_extensions_final(rules, inputs, dist, target_os)),
        ),
        forall|i: int, j: int|
            0 <= i < j < crate::configc::inittab_rows(
                staged_extensions_final(rules, inputs, dist, target_os),
            ).len() ==> crate::text::lex_lt(
                (#[trigger] crate::configc::inittab_rows(
                    staged_extensions_final(rules, inputs, dist, target_os),
                )[i]).0,
                (#[trigger] crate::configc::inittab_rows(
                    staged_extensions_final(rules, inputs, dist, target_os),
                )[j]).0,
            ),
{
    let staged = stage_rules(empty_staging_view(), rules, inputs, dist).unwrap();
    assert(staging_view_wf(empty_staging_view()));
    lemma_stage_rules_wf(empty_staging_view(), rules, inputs, dist);
    assert(extensions_named(empty_staging_view().extensions));
    lemma_stage_rules_named(empty_staging_view(), rules, inputs, dist);
    lemma_add_required_props(staged.extensions, dist.extension_modules@);
    lemma_add_required_named(staged.extensions, dist.extension_modules@);
    lemma_remove_names_props(
        add_required_spec(staged.extensions, dist.extension_modules@),
        os_ignore_extensions_spec(target_os),
    );
    lemma_remove_names_named(
        add_required_spec(staged.extensions, dist.extension_modules@),
        os_ignore_extensions_spec(target_os),
    );
    crate::configc::lemma_inittab_closure(staged_extensions_final(rules, inputs, dist, target_os));
}

/// The required-extensions closure over a whole staging run: whatever the
/// rules added, removed or filtered, after the closure and the blocklist
/// removal every extension whose default variant is builtin or required,
/// and whose name the target does not blocklist, is present.
pub proof fn lemma_staged_required_closure(
    rules: Seq<crate::resolver::PythonPackaging>,
    inputs: Seq<RuleInputView>,
    dist: &PythonDistributionInfo,
    target_os: Seq<char>,
    j: int,
)
    requires
        dist.wf(),
        stage_rules(empty_staging_view(), rules, inputs, dist) is Some,
        0 <= j < dist.extension_modules@.len(),
        required_default(dist.extension_modules@[j].1),
        !os_ignore_extensions_spec(target_os).contains(dist.extension_modules@[j].0),
    ensures
        assoc_contains(
            staged_extensions_final(rules, inputs, dist, target_os),
            dist.extension_modules@[j].0,
        ),
{
    assert(staging_view_wf(empty_staging_view()));
    lemma_stage_rules_wf(empty_staging_view(), rules, inputs, dist);
    lemma_required_extensions_closure(
        stage_rules(empty_staging_view(), rules, inputs, dist).unwrap().extensions,
        dist.extension_modules@,
        os_ignore_extensions_spec(target_os),
        j,
    );
}

} // verus!
