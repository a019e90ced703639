//! The config.c generator: a C translation unit declaring each staged
//! extension's init function and the `_PyImport_Inittab` array, one row per
//! extension with an init function, in map order, closed by a `{0, 0}`
//! sentinel row.

use vstd::prelude::*;

use crate::dist::{ExtensionModule, ExtensionModuleView};
use crate::ordmap::{entries_sorted, OrdMap};
use crate::text::{lex_lt, str_eq};

verus! {

/// The extern declaration line of one init function.
pub open spec fn extern_line(init: Seq<char>) -> Seq<char> {
    "extern PyObject* "@ + init + "(void);\n"@
}

/// The extern block: one line per staged extension with an init function.
pub open spec fn extern_lines(es: Seq<(Seq<char>, ExtensionModuleView)>) -> Seq<char>
    decreases es.len(),
{
    if es.len() == 0 {
        Seq::empty()
    } else {
        (if es[0].1.has_init_fn() {
            extern_line(es[0].1.init_fn.unwrap())
        } else {
            Seq::<char>::empty()
        }) + extern_lines(es.skip(1))
    }
}

/// One inittab row.
pub open spec fn inittab_row(module: Seq<char>, init: Seq<char>) -> Seq<char> {
    "{\""@ + module + "\", "@ + init + "},\n"@
}

/// The inittab rows: one per staged extension with an init function.
pub open spec fn inittab_lines(es: Seq<(Seq<char>, ExtensionModuleView)>) -> Seq<char>
    decreases es.len(),
{
    if es.len() == 0 {
        Seq::empty()
    } else {
        (if es[0].1.has_init_fn() {
            inittab_row(es[0].1.module, es[0].1.init_fn.unwrap())
        } else {
            Seq::<char>::empty()
        }) + inittab_lines(es.skip(1))
    }
}

/// The whole translation unit.
pub open spec fn config_c_chars(es: Seq<(Seq<char>, ExtensionModuleView)>) -> Seq<char> {
    "#include \"Python.h\"\n"@ + extern_lines(es) + "struct _inittab _PyImport_Inittab[] = {\n"@
        + inittab_lines(es) + "{0, 0}\n};"@
}

pub proof fn lemma_config_sections_append(
    a: Seq<(Seq<char>, ExtensionModuleView)>,
    b: Seq<(Seq<char>, ExtensionModuleView)>,
)
    ensures
        extern_lines(a + b) =~= extern_lines(a) + extern_lines(b),
        inittab_lines(a + b) =~= inittab_lines(a) + inittab_lines(b),
    decreases a.len(),
{
    if a.len() == 0 {
        assert(a + b =~= b);
        assert(extern_lines(a) =~= Seq::<char>::empty());
        assert(inittab_lines(a) =~= Seq::<char>::empty());
    } else {
        lemma_config_sections_append(a.skip(1), b);
        assert((a + b).skip(1) =~= a.skip(1) + b);
        assert((a + b)[0] == a[0]);
    }
}

/// Decides whether a staged variant carries an init function.
fn has_init_fn_exec(em: &ExtensionModule) -> (r: bool)
    ensures
        r == em@.has_init_fn(),
{
    match em.init_fn {
        Some(ref f) => !str_eq(f.as_str(), "NULL"),
        None => false,
    }
}

/// Produces the content of the config.c file declaring the built-in
/// extensions: exactly `config_c_chars` of the staged map.
pub fn make_config_c(extension_modules: &OrdMap<ExtensionModule>) -> (r: String)
    ensures
        r@ =~= config_c_chars(extension_modules@),
{
    let ghost es = extension_modules@;
    let mut out = "#include \"Python.h\"\n".to_owned();
    let n = extension_modules.len();
    let mut i: usize = 0;
    proof {
        assert(es.take(0) =~= Seq::<(Seq<char>, ExtensionModuleView)>::empty());
        assert(extern_lines(es.take(0)) =~= Seq::<char>::empty());
    }
    while i < n
        invariant
            0 <= i <= n,
            n == es.len(),
            es =~= extension_modules@,
            out@ =~= "#include \"Python.h\"\n"@ + extern_lines(es.take(i as int)),
        decreases n - i,
    {
        let em = extension_modules.val_at(i);
        proof {
            assert(em@ == es[i as int].1);
            assert(es.take(i + 1) =~= es.take(i as int) + seq![es[i as int]]);
            lemma_config_sections_append(es.take(i as int), seq![es[i as int]]);
            assert(seq![es[i as int]].skip(1) =~= Seq::<
                (Seq<char>, ExtensionModuleView),
            >::empty());
            assert(extern_lines(Seq::<(Seq<char>, ExtensionModuleView)>::empty()) =~= Seq::<
                char,
            >::empty());
        }
        if has_init_fn_exec(em) {
            out.append("extern PyObject* ");
            match em.init_fn {
                Some(ref f) => out.append(f.as_str()),
                None => {},
            }
            out.append("(void);\n");
        }
        i = i + 1;
    }
    proof {
        assert(es.take(n as int) =~= es);
    }
    out.append("struct _inittab _PyImport_Inittab[] = {\n");
    let ghost mid = "#include \"Python.h\"\n"@ + extern_lines(es)
        + "struct _inittab _PyImport_Inittab[] = {\n"@;
    let mut i: usize = 0;
    proof {
        assert(inittab_lines(es.take(0)) =~= Seq::<char>::empty());
        assert(out@ =~= mid + inittab_lines(es.take(0)));
    }
    while i < n
        invariant
            0 <= i <= n,
            n == es.len(),
            es =~= extension_modules@,
            out@ =~= mid + inittab_lines(es.take(i as int)),
        decreases n - i,
    {
        let em = extension_modules.val_at(i);
        proof {
            assert(em@ == es[i as int].1);
            assert(es.take(i + 1) =~= es.take(i as int) + seq![es[i as int]]);
            lemma_config_sections_append(es.take(i as int), seq![es[i as int]]);
            assert(seq![es[i as int]].skip(1) =~= Seq::<
                (Seq<char>, ExtensionModuleView),
            >::empty());
            assert(inittab_lines(Seq::<(Seq<char>, ExtensionModuleView)>::empty()) =~= Seq::<
                char,
            >::empty());
        }
        if has_init_fn_exec(em) {
            out.append("{\"");
            out.append(em.module.as_str());
            out.append("\", ");
            match em.init_fn {
                Some(ref f) => out.append(f.as_str()),
                None => {},
            }
            out.append("},\n");
        }
        i = i + 1;
    }
    proof {
        assert(es.take(n as int) =~= es);
    }
    out.append("{0, 0}\n};");
    out
}

/// The rows the inittab holds: one per staged extension with an init
/// function, carrying its module name and init symbol.
pub open spec fn inittab_rows(es: Seq<(Seq<char>, ExtensionModuleView)>) -> Seq<
    (Seq<char>, Seq<char>),
> {
    es.filter(|e: (Seq<char>, ExtensionModuleView)| e.1.has_init_fn()).map_values(
        |e: (Seq<char>, ExtensionModuleView)| (e.1.module, e.1.init_fn.unwrap()),
    )
}

/// The rendered rows of a row list.
pub open spec fn render_rows(rows: Seq<(Seq<char>, Seq<char>)>) -> Seq<char>
    decreases rows.len(),
{
    if rows.len() == 0 {
        Seq::empty()
    } else {
        inittab_row(rows[0].0, rows[0].1) + render_rows(rows.skip(1))
    }
}

/// The inittab closure: in a staging map whose entries carry their own name
/// as the module field, the emitted table body renders exactly one row per
/// staged extension with an init function, in strictly ascending module
/// name order, and the table is closed by the `{0, 0}` sentinel row (the
/// literal tail of `config_c_chars`).
pub proof fn lemma_inittab_closure(es: Seq<(Seq<char>, ExtensionModuleView)>)
    requires
        entries_sorted(es),
        forall|i: int| 0 <= i < es.len() ==> (#[trigger] es[i]).1.module == es[i].0,
    ensures
        inittab_lines(es) =~= render_rows(inittab_rows(es)),
        forall|i: int, j: int|
            0 <= i < j < inittab_rows(es).len() ==> lex_lt(
                (#[trigger] inittab_rows(es)[i]).0,
                (#[trigger] inittab_rows(es)[j]).0,
            ),
        forall|i: int|
            0 <= i < es.len() && (#[trigger] es[i]).1.has_init_fn() ==> inittab_rows(es).contains(
                (es[i].1.module, es[i].1.init_fn.unwrap()),
            ),
        forall|r: (Seq<char>, Seq<char>)| #[trigger]
            inittab_rows(es).contains(r) ==> exists|i: int|
                0 <= i < es.len() && (#[trigger] es[i]).1.has_init_fn() && r == (
                    es[i].1.module,
                    es[i].1.init_fn.unwrap(),
                ),
    decreases es.len(),
{
    broadcast use vstd::seq_lib::group_filter_ensures;

    let pred = |e: (Seq<char>, ExtensionModuleView)| e.1.has_init_fn();
    let tomod = |e: (Seq<char>, ExtensionModuleView)| (e.1.module, e.1.init_fn.unwrap());
    crate::ordmap::lemma_assoc_retain_sorted_pred(es, pred);
    let kept = es.filter(pred);
    // rendering agrees row by row
    assert(inittab_lines(es) =~= render_rows(inittab_rows(es))) by {
        lemma_render_filter(es);
    }
    // order: the kept entries stay sorted, and each row's name is its key
    assert forall|i: int, j: int| 0 <= i < j < inittab_rows(es).len() implies lex_lt(
        (#[trigger] inittab_rows(es)[i]).0,
        (#[trigger] inittab_rows(es)[j]).0,
    ) by {
        assert(inittab_rows(es)[i] == tomod(kept[i]));
        assert(inittab_rows(es)[j] == tomod(kept[j]));
        assert(kept.contains(kept[i]));
        Seq::lemma_filter_contains_rev(es, pred, kept[i]);
        let w = choose|w: int| 0 <= w < es.len() && es[w] == kept[i];
        assert(kept[i].1.module == kept[i].0);
        assert(kept.contains(kept[j]));
        Seq::lemma_filter_contains_rev(es, pred, kept[j]);
        let w2 = choose|w2: int| 0 <= w2 < es.len() && es[w2] == kept[j];
        assert(kept[j].1.module == kept[j].0);
        assert(lex_lt(kept[i].0, kept[j].0));
    }
    // completeness: every qualifying entry contributes its row
    assert forall|i: int|
        0 <= i < es.len() && (#[trigger] es[i]).1.has_init_fn() implies inittab_rows(es).contains(
        (es[i].1.module, es[i].1.init_fn.unwrap()),
    ) by {
        assert(pred(es[i]));
        assert(kept.contains(es[i]));
        let w = choose|w: int| 0 <= w < kept.len() && kept[w] == es[i];
        assert(inittab_rows(es)[w] == tomod(es[i]));
    }
    // soundness: every row comes from a qualifying entry
    assert forall|r: (Seq<char>, Seq<char>)| #[trigger]
        inittab_rows(es).contains(r) implies exists|i: int|
        0 <= i < es.len() && (#[trigger] es[i]).1.has_init_fn() && r == (
            es[i].1.module,
            es[i].1.init_fn.unwrap(),
        ) by {
        let w = choose|w: int| 0 <= w < inittab_rows(es).len() && inittab_rows(es)[w] == r;
        assert(inittab_rows(es)[w] == tomod(kept[w]));
        assert(kept.contains(kept[w]));
        Seq::lemma_filter_contains_rev(es, pred, kept[w]);
        let u = choose|u: int| 0 <= u < es.len() && es[u] == kept[w];
        assert(es[u].1.has_init_fn() && r == (es[u].1.module, es[u].1.init_fn.unwrap()));
    }
}

/// Rendering the filtered rows is rendering the qualifying entries in
/// place.
proof fn lemma_render_filter(es: Seq<(Seq<char>, ExtensionModuleView)>)
    ensures
        inittab_lines(es) =~= render_rows(inittab_rows(es)),
    decreases es.len(),
{
    broadcast use vstd::seq_lib::group_filter_ensures;

    let pred = |e: (Seq<char>, ExtensionModuleView)| e.1.has_init_fn();
    let tomod = |e: (Seq<char>, ExtensionModuleView)| (e.1.module, e.1.init_fn.unwrap());
    if es.len() == 0 {
        reveal(Seq::filter);
        assert(es.filter(pred) =~= Seq::<(Seq<char>, ExtensionModuleView)>::empty());
        assert(inittab_rows(es) =~= Seq::<(Seq<char>, Seq<char>)>::empty());
    } else {
        lemma_render_filter(es.skip(1));
        assert(es =~= seq![es[0]] + es.skip(1));
        Seq::filter_distributes_over_add(seq![es[0]], es.skip(1), pred);
        reveal(Seq::filter);
        assert(seq![es[0]].drop_last() =~= Seq::<(Seq<char>, ExtensionModuleView)>::empty());
        assert(Seq::<(Seq<char>, ExtensionModuleView)>::empty().filter(pred) =~= Seq::<
            (Seq<char>, ExtensionModuleView),
        >::empty());
        assert(seq![es[0]].last() == es[0]);
        assert(seq![es[0]].filter(pred) =~= (if pred(es[0]) {
            seq![es[0]]
        } else {
            Seq::<(Seq<char>, ExtensionModuleView)>::empty()
        }));
        let rows = inittab_rows(es);
        let rec_rows = inittab_rows(es.skip(1));
        if pred(es[0]) {
            assert(es.filter(pred) =~= seq![es[0]] + es.skip(1).filter(pred));
            assert(rows =~= seq![tomod(es[0])] + rec_rows);
            assert(rows.skip(1) =~= rec_rows);
            assert(render_rows(rows) =~= inittab_row(es[0].1.module, es[0].1.init_fn.unwrap())
                + render_rows(rec_rows));
        } else {
            assert(es.filter(pred) =~= es.skip(1).filter(pred));
            assert(rows =~= rec_rows);
        }
    }
}

} // verus!
