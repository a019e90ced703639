//! Classifying walked files into Python resources: a relative path ending in
//! `.py` is a source module whose dotted name comes from the path, with a
//! trailing `/__init__.py` collapsing to the package name.

use vstd::prelude::*;

use crate::text::ends_with;
use crate::text::str_ends_with;

verus! {

/// A source module found by a filesystem walk, already read off disk.
pub struct ScannedResource {
    pub name: String,
    pub source: Vec<u8>,
}

pub ghost struct ScannedView {
    pub name: Seq<char>,
    pub source: Seq<u8>,
}

impl View for ScannedResource {
    type V = ScannedView;

    open spec fn view(&self) -> ScannedView {
        ScannedView { name: self.name@, source: self.source@ }
    }
}

pub open spec fn scanned_view(v: Seq<ScannedResource>) -> Seq<ScannedView> {
    v.map_values(|r: ScannedResource| r@)
}

/// The dotted module name of a source file's relative path: the `.py`
/// suffix dropped, a trailing `/__init__` collapsed away, and every `/`
/// replaced by a dot.
pub open spec fn module_name_chars(rel: Seq<char>) -> Seq<char>
    recommends
        ends_with(rel, ".py"@),
{
    let stem = rel.take(rel.len() - 3);
    let pkg = if ends_with(stem, "/__init__"@) {
        stem.take(stem.len() - 9)
    } else {
        stem
    };
    pkg.map_values(|c: char| if c == '/' {
        '.'
    } else {
        c
    })
}

/// Whether a walked path counts as a Python source file.
pub open spec fn is_source_path(rel: Seq<char>) -> bool {
    ends_with(rel, ".py"@)
}

/// Derives the module name for a source path.
pub fn module_name_for_source_path(rel: &str) -> (r: String)
    requires
        is_source_path(rel@),
    ensures
        r@ =~= module_name_chars(rel@),
{
    proof {
        reveal_strlit(".py");
        reveal_strlit("/__init__");
    }
    let len = rel.unicode_len();
    let mut end: usize = len - 3;
    let stem = rel.substring_char(0, end);
    proof {
        assert(stem@ =~= rel@.take(rel@.len() - 3));
    }
    if str_ends_with(stem, "/__init__") {
        end = end - 9;
    }
    let ghost pkg = if ends_with(rel@.take(rel@.len() - 3), "/__init__"@) {
        rel@.take(rel@.len() - 3).take(rel@.len() - 3 - 9)
    } else {
        rel@.take(rel@.len() - 3)
    };
    proof {
        assert(rel@.take(rel@.len() - 3).take(rel@.len() - 3 - 9) =~= rel@.take(end as int) || end
            == rel@.len() - 3);
        assert(pkg =~= rel@.take(end as int));
    }
    let mut out = String::new();
    let mut i: usize = 0;
    while i < end
        invariant
            0 <= i <= end,
            end <= len - 3,
            len == rel@.len(),
            pkg =~= rel@.take(end as int),
            out@ =~= pkg.take(i as int).map_values(
                |c: char|
                    if c == '/' {
                        '.'
                    } else {
                        c
                    },
            ),
        decreases end - i,
    {
        let c = rel.get_char(i);
        if c == '/' {
            out.append(".");
        } else {
            let piece = rel.substring_char(i, i + 1);
            out.append(piece);
        }
        proof {
            reveal_strlit(".");
            assert(pkg[i as int] == rel@[i as int]);
            let f = |c: char|
                if c == '/' {
                    '.'
                } else {
                    c
                };
            assert(pkg.take(i + 1).map_values(f) =~= pkg.take(i as int).map_values(f) + seq![
                f(pkg[i as int]),
            ]);
        }
        i = i + 1;
    }
    proof {
        assert(pkg.take(end as int) =~= pkg);
        assert(module_name_chars(rel@) =~= pkg.map_values(
            |c: char|
                if c == '/' {
                    '.'
                } else {
                    c
                },
        ));
    }
    out
}

/// Turns a walk's file listing into scanned source modules: exactly the
/// `.py` files, each under its derived dotted name, in the listing's order.
pub open spec fn scan_spec(files: Seq<(Seq<char>, Seq<u8>)>) -> Seq<ScannedView> {
    files.filter(|f: (Seq<char>, Seq<u8>)| is_source_path(f.0)).map_values(
        |f: (Seq<char>, Seq<u8>)| ScannedView { name: module_name_chars(f.0), source: f.1 },
    )
}

pub open spec fn files_view(files: Seq<(String, Vec<u8>)>) -> Seq<(Seq<char>, Seq<u8>)> {
    files.map_values(|f: (String, Vec<u8>)| (f.0@, f.1@))
}

/// Classifies a walk's files into source modules.
pub fn scan_python_sources(files: &Vec<(String, Vec<u8>)>) -> (r: Vec<ScannedResource>)
    ensures
        scanned_view(r@) =~= scan_spec(files_view(files@)),
{
    proof {
        reveal_strlit(".py");
    }
    let ghost fv = files_view(files@);
    let ghost pred = |f: (Seq<char>, Seq<u8>)| is_source_path(f.0);
    let ghost tomod = |f: (Seq<char>, Seq<u8>)|
        ScannedView { name: module_name_chars(f.0), source: f.1 };
    let mut out: Vec<ScannedResource> = Vec::new();
    let n = files.len();
    let mut i: usize = 0;
    proof {
        assert(fv.take(0).filter(pred) =~= Seq::<(Seq<char>, Seq<u8>)>::empty()) by {
            reveal(Seq::filter);
        }
        assert(scanned_view(out@) =~= fv.take(0).filter(pred).map_values(tomod));
    }
    while i < n
        invariant
            0 <= i <= n,
            n == files@.len(),
            fv =~= files_view(files@),
            fv.len() == n,
            scanned_view(out@) =~= fv.take(i as int).filter(pred).map_values(tomod),
            forall|f: (Seq<char>, Seq<u8>)| #[trigger] pred(f) == is_source_path(f.0),
            forall|f: (Seq<char>, Seq<u8>)| #[trigger] tomod(f) == (ScannedView {
                name: module_name_chars(f.0),
                source: f.1,
            }),
        decreases n - i,
    {
        proof {
            broadcast use vstd::seq_lib::group_filter_ensures;

            assert(fv.take(i + 1) =~= fv.take(i as int) + seq![fv[i as int]]);
            Seq::filter_distributes_over_add(fv.take(i as int), seq![fv[i as int]], pred);
            reveal(Seq::filter);
            assert(seq![fv[i as int]].drop_last() =~= Seq::<(Seq<char>, Seq<u8>)>::empty());
            assert(Seq::<(Seq<char>, Seq<u8>)>::empty().filter(pred) =~= Seq::<
                (Seq<char>, Seq<u8>),
            >::empty());
            assert(seq![fv[i as int]].last() == fv[i as int]);
            assert(seq![fv[i as int]].filter(pred) =~= (if pred(fv[i as int]) {
                seq![fv[i as int]]
            } else {
                Seq::<(Seq<char>, Seq<u8>)>::empty()
            }));
            assert(fv[i as int] == (files@[i as int].0@, files@[i as int].1@));
        }
        let is_src = {
            let f: &(String, Vec<u8>) = &files[i];
            str_ends_with(f.0.as_str(), ".py")
        };
        if is_src {
            let name = {
                let f: &(String, Vec<u8>) = &files[i];
                module_name_for_source_path(f.0.as_str())
            };
            let source = {
                let f: &(String, Vec<u8>) = &files[i];
                crate::text::clone_bytes(&f.1)
            };
            let ghost prev = out@;
            out.push(ScannedResource { name, source });
            proof {
                assert(scanned_view(out@) =~= scanned_view(prev) + seq![out@[out@.len() - 1]@]);
                assert(out@[out@.len() - 1]@ == tomod(fv[i as int]));
                assert(fv.take(i + 1).filter(pred).map_values(tomod) =~= fv.take(i as int).filter(
                    pred,
                ).map_values(tomod) + seq![tomod(fv[i as int])]);
            }
        } else {
            proof {
                assert(fv.take(i + 1).filter(pred).map_values(tomod) =~= fv.take(i as int).filter(
                    pred,
                ).map_values(tomod));
            }
        }
        i = i + 1;
    }
    proof {
        assert(fv.take(n as int) =~= fv);
    }
    out
}

} // verus!
