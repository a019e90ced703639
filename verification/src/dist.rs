//! The model of a prebuilt Python distribution: the immutable input that the
//! packaging rules are resolved against. Sources, object files, headers and
//! libraries are keyed by name in ascending order; module sources have
//! already been read off the archive, so the engine works on plain bytes.

use vstd::prelude::*;

use crate::ordmap::OrdMap;

verus! {

/// A library that an extension module or the Python core links against.
/// `framework` and `system` are mutually exclusive flags; a plain library
/// carries the path to its static or dynamic form inside the distribution.
pub struct LibraryDependency {
    pub name: String,
    pub framework: bool,
    pub system: bool,
    pub static_path: Option<String>,
    pub dynamic_path: Option<String>,
}

#[verifier::ext_equal]
pub ghost struct LibraryDependencyView {
    pub name: Seq<char>,
    pub framework: bool,
    pub system: bool,
    pub static_path: Option<Seq<char>>,
    pub dynamic_path: Option<Seq<char>>,
}

impl View for LibraryDependency {
    type V = LibraryDependencyView;

    open spec fn view(&self) -> LibraryDependencyView {
        LibraryDependencyView {
            name: self.name@,
            framework: self.framework,
            system: self.system,
            static_path: match self.static_path {
                Some(ref p) => Some(p@),
                None => None,
            },
            dynamic_path: match self.dynamic_path {
                Some(ref p) => Some(p@),
                None => None,
            },
        }
    }
}

/// One build flavor of an extension module. `init_fn` of `"NULL"` marks an
/// extension without an initialization function.
pub struct ExtensionModule {
    pub module: String,
    pub variant: String,
    pub builtin_default: bool,
    pub required: bool,
    pub init_fn: Option<String>,
    pub object_paths: Vec<String>,
    pub links: Vec<LibraryDependency>,
}

#[verifier::ext_equal]
pub ghost struct ExtensionModuleView {
    pub module: Seq<char>,
    pub variant: Seq<char>,
    pub builtin_default: bool,
    pub required: bool,
    pub init_fn: Option<Seq<char>>,
    pub object_paths: Seq<Seq<char>>,
    pub links: Seq<LibraryDependencyView>,
}

impl ExtensionModuleView {
    /// Whether this variant contributes a row to the inittab.
    pub open spec fn has_init_fn(&self) -> bool {
        match self.init_fn {
            Some(f) => f != "NULL"@,
            None => false,
        }
    }
}

impl View for ExtensionModule {
    type V = ExtensionModuleView;

    open spec fn view(&self) -> ExtensionModuleView {
        ExtensionModuleView {
            module: self.module@,
            variant: self.variant@,
            builtin_default: self.builtin_default,
            required: self.required,
            init_fn: match self.init_fn {
                Some(ref f) => Some(f@),
                None => None,
            },
            object_paths: self.object_paths@.map_values(|s: String| s@),
            links: self.links@.map_values(|d: LibraryDependency| d@),
        }
    }
}

/// A distribution: interpreter, platform facts, and its maps of module
/// sources, extension variants, object files, headers and libraries.
pub struct PythonDistributionInfo {
    /// Path of the interpreter used for bytecode compilation.
    pub python_exe: String,
    /// Operating system the distribution targets, e.g. `linux`, `windows`.
    pub os: String,
    /// Version string, at least `major.minor.patch`.
    pub version: String,
    /// Module dotted name to the bytes of its source.
    pub py_modules: OrdMap<Vec<u8>>,
    /// Extension name to its ordered, nonempty list of variants.
    pub extension_modules: OrdMap<Vec<ExtensionModule>>,
    /// Distribution-relative path to the on-disk path of a core object file.
    pub objs_core: OrdMap<String>,
    /// Relative header path to its on-disk path.
    pub includes: OrdMap<String>,
    /// Library short name to its on-disk static archive.
    pub libraries: OrdMap<String>,
    /// Libraries the Python core itself links against.
    pub links_core: Vec<LibraryDependency>,
}

impl PythonDistributionInfo {
    /// Maps sorted, every extension with at least one variant, and every
    /// variant carrying the dotted name it is keyed under as its module.
    pub open spec fn wf(&self) -> bool {
        &&& self.py_modules.wf()
        &&& self.extension_modules.wf()
        &&& self.objs_core.wf()
        &&& self.includes.wf()
        &&& self.libraries.wf()
        &&& forall|i: int|
            0 <= i < self.extension_modules@.len() ==> (
            #[trigger] self.extension_modules@[i]).1.len() > 0
        &&& forall|i: int, k: int|
            0 <= i < self.extension_modules@.len() && 0 <= k
                < self.extension_modules@[i].1.len() ==> (
            #[trigger] self.extension_modules@[i].1[k])@.module == self.extension_modules@[i].0
    }
}

} // verus!
