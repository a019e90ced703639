//! The resource model: the tagged variants a packaging rule resolves to, the
//! add/remove action stream, and the frozen collection of staged resources
//! that the blob writer and the link planner consume.

use vstd::prelude::*;

use crate::codec::{blob_entries_view, BlobEntries, BlobEntry};
use crate::dist::{ExtensionModule, ExtensionModuleView};
use crate::ordmap::{OrdMap, OrdSet};
use crate::text::clone_bytes;

verus! {

/// A resource to make available to the embedded interpreter.
pub enum PythonResource {
    ExtensionModule { name: String, module: ExtensionModule },
    ModuleSource { name: String, source: Vec<u8> },
    ModuleBytecode { name: String, source: Vec<u8>, optimize_level: i64 },
    Resource { name: String, data: Vec<u8> },
}

/// Whether a resource is added to or removed from the staging maps.
pub enum ResourceAction {
    Add,
    Remove,
}

/// One step of a rule's action stream.
pub struct PythonResourceEntry {
    pub action: ResourceAction,
    pub resource: PythonResource,
}

/// The mathematical shadow of a `PythonResource`.
#[verifier::ext_equal]
pub ghost enum ResourceView {
    Extension { name: Seq<char>, module: ExtensionModuleView },
    Source { name: Seq<char>, source: Seq<u8> },
    Bytecode { name: Seq<char>, source: Seq<u8>, optimize_level: int },
    Data { name: Seq<char>, data: Seq<u8> },
}

#[verifier::ext_equal]
pub ghost struct ActionView {
    pub add: bool,
    pub resource: ResourceView,
}

impl View for PythonResource {
    type V = ResourceView;

    open spec fn view(&self) -> ResourceView {
        match self {
            PythonResource::ExtensionModule { name, module } => ResourceView::Extension {
                name: name@,
                module: module@,
            },
            PythonResource::ModuleSource { name, source } => ResourceView::Source {
                name: name@,
                source: source@,
            },
            PythonResource::ModuleBytecode { name, source, optimize_level } => (
            ResourceView::Bytecode {
                name: name@,
                source: source@,
                optimize_level: *optimize_level as int,
            }),
            PythonResource::Resource { name, data } => ResourceView::Data {
                name: name@,
                data: data@,
            },
        }
    }
}

impl View for PythonResourceEntry {
    type V = ActionView;

    open spec fn view(&self) -> ActionView {
        ActionView {
            add: match self.action {
                ResourceAction::Add => true,
                ResourceAction::Remove => false,
            },
            resource: self.resource@,
        }
    }
}

/// The views of a vector of action entries.
pub open spec fn actions_view(entries: Seq<PythonResourceEntry>) -> Seq<ActionView> {
    entries.map_values(|e: PythonResourceEntry| e@)
}

/// The staged resources of a build, frozen once reduction finishes.
/// `all_modules` is always the union of the source and bytecode names.
pub struct PythonResources {
    pub module_sources: OrdMap<Vec<u8>>,
    pub module_bytecodes: OrdMap<Vec<u8>>,
    pub all_modules: OrdSet,
    pub resources: OrdMap<Vec<u8>>,
    pub extension_modules: OrdMap<ExtensionModule>,
    pub read_files: Vec<String>,
}

/// The newline-terminated module names file: one name per line, in the
/// set's ascending order.
pub open spec fn names_file_bytes(names: Seq<Seq<char>>) -> Seq<u8>
    decreases names.len(),
{
    if names.len() == 0 {
        Seq::empty()
    } else {
        vstd::utf8::encode_utf8(names[0]) + seq![10u8] + names_file_bytes(names.skip(1))
    }
}

/// The names file builds up entry by entry.
pub proof fn lemma_names_file_append(a: Seq<Seq<char>>, b: Seq<Seq<char>>)
    ensures
        names_file_bytes(a + b) =~= names_file_bytes(a) + names_file_bytes(b),
    decreases a.len(),
{
    if a.len() == 0 {
        assert(a + b =~= b);
        assert(names_file_bytes(a) =~= Seq::<u8>::empty());
    } else {
        lemma_names_file_append(a.skip(1), b);
        assert((a + b).skip(1) =~= a.skip(1) + b);
        assert((a + b)[0] == a[0]);
    }
}

impl PythonResources {
    /// Every staging map sorted.
    pub open spec fn wf(&self) -> bool {
        &&& self.module_sources.wf()
        &&& self.module_bytecodes.wf()
        &&& self.all_modules.wf()
        &&& self.resources.wf()
        &&& self.extension_modules.wf()
    }

    /// The module sources as blob entries, in map order.
    pub fn sources_blob(&self) -> (r: BlobEntries)
        ensures
            blob_entries_view(r@) =~= self.module_sources@,
    {
        let mut sources: BlobEntries = Vec::new();
        let n = self.module_sources.len();
        let mut i: usize = 0;
        while i < n
            invariant
                0 <= i <= n,
                n == self.module_sources@.len(),
                blob_entries_view(sources@) =~= self.module_sources@.take(i as int),
            decreases n - i,
        {
            let name = self.module_sources.key_at(i).clone();
            let data = clone_bytes(self.module_sources.val_at(i));
            let ghost nv = name@;
            let ghost dv = data@;
            let ghost prev = sources@;
            sources.push(BlobEntry { name, data });
            proof {
                assert(blob_entries_view(prev).len() == i);
                assert(prev.len() == i);
                assert(sources@.len() == prev.len() + 1);
                assert(sources@[i as int]@ == (nv, dv));
                assert((nv, dv) == self.module_sources@[i as int]);
                assert(blob_entries_view(sources@) =~= self.module_sources@.take(i + 1)) by {
                    assert forall|j: int|
                        0 <= j < i + 1 implies #[trigger] blob_entries_view(sources@)[j]
                        == self.module_sources@.take(i + 1)[j] by {
                        if j < i {
                            assert(sources@[j] == prev[j]);
                            assert(blob_entries_view(prev)[j] == prev[j]@);
                        }
                    }
                }
            }
            i = i + 1;
        }
        proof {
            assert(self.module_sources@.take(n as int) =~= self.module_sources@);
        }
        sources
    }

    /// The module bytecodes as blob entries, in map order.
    pub fn bytecodes_blob(&self) -> (r: BlobEntries)
        ensures
            blob_entries_view(r@) =~= self.module_bytecodes@,
    {
        let mut bytecodes: BlobEntries = Vec::new();
        let n = self.module_bytecodes.len();
        let mut i: usize = 0;
        while i < n
            invariant
                0 <= i <= n,
                n == self.module_bytecodes@.len(),
                blob_entries_view(bytecodes@) =~= self.module_bytecodes@.take(i as int),
            decreases n - i,
        {
            let name = self.module_bytecodes.key_at(i).clone();
            let data = clone_bytes(self.module_bytecodes.val_at(i));
            let ghost nv = name@;
            let ghost dv = data@;
            let ghost prev = bytecodes@;
            bytecodes.push(BlobEntry { name, data });
            proof {
                assert(blob_entries_view(prev).len() == i);
                assert(prev.len() == i);
                assert(bytecodes@.len() == prev.len() + 1);
                assert(bytecodes@[i as int]@ == (nv, dv));
                assert((nv, dv) == self.module_bytecodes@[i as int]);
                assert(blob_entries_view(bytecodes@) =~= self.module_bytecodes@.take(i + 1)) by {
                    assert forall|j: int|
                        0 <= j < i + 1 implies #[trigger] blob_entries_view(bytecodes@)[j]
                        == self.module_bytecodes@.take(i + 1)[j] by {
                        if j < i {
                            assert(bytecodes@[j] == prev[j]);
                            assert(blob_entries_view(prev)[j] == prev[j]@);
                        }
                    }
                }
            }
            i = i + 1;
        }
        proof {
            assert(self.module_bytecodes@.take(n as int) =~= self.module_bytecodes@);
        }
        bytecodes
    }

    /// The bytes of the module names file: every known module, one per line,
    /// LF-terminated, ascending.
    pub fn module_names_bytes(&self) -> (r: Vec<u8>)
        ensures
            r@ =~= names_file_bytes(self.all_modules@),
    {
        let mut out: Vec<u8> = Vec::new();
        let n = self.all_modules.len();
        let mut i: usize = 0;
        while i < n
            invariant
                0 <= i <= n,
                n == self.all_modules@.len(),
                out@ =~= names_file_bytes(self.all_modules@.take(i as int)),
            decreases n - i,
        {
            let name = self.all_modules.at(i);
            let bytes: &[u8] = name.as_str().as_bytes();
            let mut k: usize = 0;
            let blen = bytes.len();
            while k < blen
                invariant
                    0 <= k <= blen,
                    blen == bytes@.len(),
                    out@ =~= names_file_bytes(self.all_modules@.take(i as int)) + bytes@.take(
                        k as int,
                    ),
                decreases blen - k,
            {
                let byte = bytes[k];
                out.push(byte);
                proof {
                    assert(bytes@.take(k + 1) =~= bytes@.take(k as int) + seq![bytes@[k as int]]);
                }
                k = k + 1;
            }
            out.push(10u8);
            proof {
                assert(bytes@.take(blen as int) =~= bytes@);
                assert(self.all_modules@.take(i + 1) =~= self.all_modules@.take(i as int) + seq![
                    self.all_modules@[i as int],
                ]);
                lemma_names_file_append(
                    self.all_modules@.take(i as int),
                    seq![self.all_modules@[i as int]],
                );
                assert(seq![self.all_modules@[i as int]].skip(1) =~= Seq::<Seq<char>>::empty());
                assert(names_file_bytes(Seq::<Seq<char>>::empty()) =~= Seq::<u8>::empty());
                assert(names_file_bytes(seq![self.all_modules@[i as int]]) =~= vstd::utf8::encode_utf8(
                    self.all_modules@[i as int],
                ) + seq![10u8]);
            }
            i = i + 1;
        }
        proof {
            assert(self.all_modules@.take(n as int) =~= self.all_modules@);
        }
        out
    }
}

} // verus!
