//! Extracted package archives: the in-memory manifest of an installer
//! archive, keyed by path with the archive's leading directory stripped,
//! the installer-version check, and the plan of file writes an install
//! performs. Decompressing and walking the tar stream is the caller's job;
//! this module decides what the entries mean.

use vstd::prelude::*;

use crate::ordmap::{assoc_get, assoc_insert, entries_sorted, OrdMap};
use crate::text::{first_match_from, str_lines, strings_view};
use crate::RepackageError;

verus! {

/// How a package archive's tar stream is compressed.
#[derive(Clone, Copy, Debug)]
pub enum CompressionFormat {
    Gzip,
    Xz,
    Zstd,
}

/// One file carried by an archive.
pub struct FileEntry {
    pub data: Vec<u8>,
    pub executable: bool,
}

#[verifier::ext_equal]
pub ghost struct FileEntryView {
    pub data: Seq<u8>,
    pub executable: bool,
}

impl View for FileEntry {
    type V = FileEntryView;

    open spec fn view(&self) -> FileEntryView {
        FileEntryView { data: self.data@, executable: self.executable }
    }
}

/// A tar entry's path with its first component stripped: the part after
/// the first `/`, or nothing for a bare top-level name.
pub open spec fn strip_first_component_chars(p: Seq<char>) -> Seq<char> {
    match first_match_from(p, "/"@, 0) {
        Some(i) => p.skip(i + 1),
        None => Seq::empty(),
    }
}

/// Strips the leading path component.
pub fn strip_first_component(p: &str) -> (r: String)
    ensures
        r@ =~= strip_first_component_chars(p@),
{
    let len = p.unicode_len();
    match crate::text::find_substring_from(p, "/", 0) {
        Some(i) => {
            proof {
                crate::text::lemma_first_match_is_match(p@, "/"@, 0);
                reveal_strlit("/");
            }
            let rest = p.substring_char(i + 1, len);
            rest.to_owned()
        },
        None => String::new(),
    }
}

/// The manifest the archive's entries build up: later entries overwrite
/// earlier ones of the same stripped path.
pub open spec fn fold_archive_entries(
    m: Seq<(Seq<char>, FileEntryView)>,
    entries: Seq<(Seq<char>, Seq<u8>, bool)>,
) -> Seq<(Seq<char>, FileEntryView)>
    decreases entries.len(),
{
    if entries.len() == 0 {
        m
    } else {
        fold_archive_entries(
            assoc_insert(
                m,
                strip_first_component_chars(entries[0].0),
                FileEntryView { data: entries[0].1, executable: entries[0].2 },
            ),
            entries.skip(1),
        )
    }
}

pub proof fn lemma_fold_archive_snoc(
    m: Seq<(Seq<char>, FileEntryView)>,
    entries: Seq<(Seq<char>, Seq<u8>, bool)>,
    x: (Seq<char>, Seq<u8>, bool),
)
    ensures
        fold_archive_entries(m, entries + seq![x]) == assoc_insert(
            fold_archive_entries(m, entries),
            strip_first_component_chars(x.0),
            FileEntryView { data: x.1, executable: x.2 },
        ),
    decreases entries.len(),
{
    if entries.len() == 0 {
        assert((entries + seq![x])[0] == x);
        assert((entries + seq![x]).skip(1) =~= Seq::<(Seq<char>, Seq<u8>, bool)>::empty());
        assert(fold_archive_entries(m, entries) == m);
        let m1 = assoc_insert(
            m,
            strip_first_component_chars(x.0),
            FileEntryView { data: x.1, executable: x.2 },
        );
        assert(fold_archive_entries(m1, (entries + seq![x]).skip(1)) == m1);
    } else {
        assert((entries + seq![x])[0] == entries[0]);
        assert((entries + seq![x]).skip(1) =~= entries.skip(1) + seq![x]);
        let m1 = assoc_insert(
            m,
            strip_first_component_chars(entries[0].0),
            FileEntryView { data: entries[0].1, executable: entries[0].2 },
        );
        lemma_fold_archive_snoc(m1, entries.skip(1), x);
        assert(fold_archive_entries(m, entries) == fold_archive_entries(m1, entries.skip(1)));
        assert(fold_archive_entries(m, entries + seq![x]) == fold_archive_entries(
            m1,
            entries.skip(1) + seq![x],
        ));
    }
}

/// The expected content of the installer-version file.
pub open spec fn supported_installer_version() -> Seq<u8> {
    vstd::utf8::encode_utf8("3\n"@)
}

/// Whether a built manifest carries a readable archive: the supported
/// installer version and a UTF-8 components list.
pub open spec fn archive_readable(m: Seq<(Seq<char>, FileEntryView)>) -> bool {
    &&& match assoc_get(m, "rust-installer-version"@) {
        Some(e) => e.data == supported_installer_version(),
        None => false,
    }
    &&& match assoc_get(m, "components"@) {
        Some(e) => vstd::utf8::valid_utf8(e.data),
        None => false,
    }
}

/// Relies on `String::from_utf8`: it accepts exactly valid UTF-8 and
/// decodes the bytes without change.
#[verifier::external_body]
fn bytes_to_string(b: &Vec<u8>) -> (r: Option<String>)
    ensures
        match r {
            Some(s) => vstd::utf8::valid_utf8(b@) && s@ == vstd::utf8::decode_utf8(b@),
            None => !vstd::utf8::valid_utf8(b@),
        },
{
    match String::from_utf8(b.clone()) {
        Ok(s) => Some(s),
        Err(_) => None,
    }
}

/// An extracted package archive: its files keyed by stripped path, and the
/// components its installer metadata lists.
pub struct PackageArchive {
    pub manifest: OrdMap<FileEntry>,
    pub components: Vec<String>,
}

impl PackageArchive {
    pub open spec fn wf(&self) -> bool {
        self.manifest.wf()
    }

    /// Builds an archive from its tar entries, each a path with its data
    /// and executable bit. Succeeds exactly when the entries carry the
    /// supported installer version and a UTF-8 components list; the
    /// components are that list's lines.
    pub fn from_entries(entries: &Vec<(String, Vec<u8>, bool)>) -> (r: Result<
        PackageArchive,
        RepackageError,
    >)
        ensures
            ({
                let folded = fold_archive_entries(
                    Seq::empty(),
                    entries@.map_values(|e: (String, Vec<u8>, bool)| (e.0@, e.1@, e.2)),
                );
                match r {
                    Ok(a) => {
                        &&& a.wf()
                        &&& a.manifest@ =~= folded
                        &&& archive_readable(folded)
                        &&& strings_view(a.components@) =~= str_lines(
                            vstd::utf8::decode_utf8(
                                assoc_get(folded, "components"@).unwrap().data,
                            ),
                        )
                    },
                    Err(e) => !archive_readable(folded) && e matches
                        RepackageError::DistributionError { .. },
                }
            }),
    {
        let ghost ev = entries@.map_values(|e: (String, Vec<u8>, bool)| (e.0@, e.1@, e.2));
        let mut manifest: OrdMap<FileEntry> = OrdMap::new();
        let n = entries.len();
        let mut i: usize = 0;
        proof {
            assert(ev.take(0) =~= Seq::<(Seq<char>, Seq<u8>, bool)>::empty());
            assert(fold_archive_entries(Seq::empty(), ev.take(0)) == Seq::<
                (Seq<char>, FileEntryView),
            >::empty());
            assert(manifest@ =~= Seq::<(Seq<char>, FileEntryView)>::empty());
        }
        while i < n
            invariant
                0 <= i <= n,
                n == ev.len(),
                ev =~= entries@.map_values(|e: (String, Vec<u8>, bool)| (e.0@, e.1@, e.2)),
                manifest.wf(),
                manifest@ =~= fold_archive_entries(Seq::empty(), ev.take(i as int)),
            decreases n - i,
        {
            proof {
                assert(ev[i as int] == (entries@[i as int].0@, entries@[i as int].1@,
                entries@[i as int].2));
                assert(ev.take(i + 1) =~= ev.take(i as int) + seq![ev[i as int]]);
                lemma_fold_archive_snoc(Seq::empty(), ev.take(i as int), ev[i as int]);
            }
            let entry = &entries[i];
            let key = strip_first_component(entry.0.as_str());
            let data = crate::text::clone_bytes(&entry.1);
            manifest.insert(key, FileEntry { data, executable: entry.2 });
            i = i + 1;
        }
        proof {
            assert(ev.take(n as int) =~= ev);
        }
        let version_ok = match manifest.get("rust-installer-version") {
            Some(e) => {
                let expected: &[u8] = "3\n".as_bytes();
                bytes_equal(&e.data, expected)
            },
            None => false,
        };
        if !version_ok {
            return Err(
                RepackageError::DistributionError {
                    message: "archive does not carry a supported rust-installer-version".to_owned(),
                },
            );
        }
        let components_text = match manifest.get("components") {
            Some(e) => {
                match bytes_to_string(&e.data) {
                    Some(s) => s,
                    None => {
                        return Err(
                            RepackageError::DistributionError {
                                message: "components file is not UTF-8".to_owned(),
                            },
                        );
                    },
                }
            },
            None => {
                return Err(
                    RepackageError::DistributionError {
                        message: "archive does not contain a components file".to_owned(),
                    },
                );
            },
        };
        let components = crate::text::split_lines(components_text.as_str());
        Ok(PackageArchive { manifest, components })
    }
}

/// The files one component's manifest lists, resolved against the archive:
/// each destination path with its entry. Nothing when a listed file is
/// missing.
pub open spec fn component_files_plan(
    m: Seq<(Seq<char>, FileEntryView)>,
    comp: Seq<char>,
    files: Seq<Seq<char>>,
) -> Option<Seq<(Seq<char>, FileEntryView)>>
    decreases files.len(),
{
    if files.len() == 0 {
        Some(Seq::empty())
    } else {
        match assoc_get(m, comp + "/"@ + files[0]) {
            None => None,
            Some(e) => match component_files_plan(m, comp, files.skip(1)) {
                None => None,
                Some(rest) => Some(seq![(files[0], e)] + rest),
            },
        }
    }
}

pub proof fn lemma_component_files_snoc(
    m: Seq<(Seq<char>, FileEntryView)>,
    comp: Seq<char>,
    files: Seq<Seq<char>>,
    x: Seq<char>,
)
    ensures
        component_files_plan(m, comp, files + seq![x]) == (match component_files_plan(
            m,
            comp,
            files,
        ) {
            None => None,
            Some(done) => match assoc_get(m, comp + "/"@ + x) {
                None => None,
                Some(e) => Some(done + seq![(x, e)]),
            },
        }),
    decreases files.len(),
{
    if files.len() == 0 {
        assert((files + seq![x])[0] == x);
        assert((files + seq![x]).skip(1) =~= Seq::<Seq<char>>::empty());
        match assoc_get(m, comp + "/"@ + x) {
            None => {},
            Some(e) => {
                assert(component_files_plan(m, comp, (files + seq![x]).skip(1)) == Some(
                    Seq::<(Seq<char>, FileEntryView)>::empty(),
                ));
                assert(seq![(x, e)] + Seq::<(Seq<char>, FileEntryView)>::empty() =~= Seq::<
                    (Seq<char>, FileEntryView),
                >::empty() + seq![(x, e)]);
            },
        }
    } else {
        assert((files + seq![x])[0] == files[0]);
        assert((files + seq![x]).skip(1) =~= files.skip(1) + seq![x]);
        lemma_component_files_snoc(m, comp, files.skip(1), x);
        match assoc_get(m, comp + "/"@ + files[0]) {
            None => {},
            Some(e) => {
                match component_files_plan(m, comp, files.skip(1)) {
                    None => {},
                    Some(rest) => {
                        match assoc_get(m, comp + "/"@ + x) {
                            None => {},
                            Some(e2) => {
                                assert(seq![(files[0], e)] + (rest + seq![(x, e2)]) =~= (seq![
                                    (files[0], e),
                                ] + rest) + seq![(x, e2)]);
                            },
                        }
                    },
                }
            },
        }
    }
}

/// One component's install plan: its manifest read and parsed, directory
/// entries refused, and each listed file resolved.
pub open spec fn component_plan(m: Seq<(Seq<char>, FileEntryView)>, comp: Seq<char>) -> Option<
    Seq<(Seq<char>, FileEntryView)>,
> {
    match assoc_get(m, comp + "/manifest.in"@) {
        None => None,
        Some(e) => {
            if !vstd::utf8::valid_utf8(e.data) {
                None
            } else {
                match parse_manifest_spec(str_lines(vstd::utf8::decode_utf8(e.data))) {
                    None => None,
                    Some(parsed) => {
                        if parsed.0.len() > 0 {
                            None
                        } else {
                            component_files_plan(m, comp, parsed.1)
                        }
                    },
                }
            }
        },
    }
}

/// The whole install plan: every component's files, in component order.
pub open spec fn install_plan_spec(
    m: Seq<(Seq<char>, FileEntryView)>,
    comps: Seq<Seq<char>>,
) -> Option<Seq<(Seq<char>, FileEntryView)>>
    decreases comps.len(),
{
    if comps.len() == 0 {
        Some(Seq::empty())
    } else {
        match component_plan(m, comps[0]) {
            None => None,
            Some(head) => match install_plan_spec(m, comps.skip(1)) {
                None => None,
                Some(rest) => Some(head + rest),
            },
        }
    }
}

pub proof fn lemma_install_plan_snoc(
    m: Seq<(Seq<char>, FileEntryView)>,
    comps: Seq<Seq<char>>,
    x: Seq<char>,
)
    ensures
        install_plan_spec(m, comps + seq![x]) == (match install_plan_spec(m, comps) {
            None => None,
            Some(done) => match component_plan(m, x) {
                None => None,
                Some(head) => Some(done + head),
            },
        }),
    decreases comps.len(),
{
    if comps.len() == 0 {
        assert((comps + seq![x])[0] == x);
        assert((comps + seq![x]).skip(1) =~= Seq::<Seq<char>>::empty());
        match component_plan(m, x) {
            None => {},
            Some(head) => {
                assert(install_plan_spec(m, (comps + seq![x]).skip(1)) == Some(Seq::<(Seq<char>, FileEntryView)>::empty()));
                assert(head + Seq::<(Seq<char>, FileEntryView)>::empty() =~= Seq::<
                    (Seq<char>, FileEntryView),
                >::empty() + head);
            },
        }
    } else {
        assert((comps + seq![x])[0] == comps[0]);
        assert((comps + seq![x]).skip(1) =~= comps.skip(1) + seq![x]);
        lemma_install_plan_snoc(m, comps.skip(1), x);
        match component_plan(m, comps[0]) {
            None => {},
            Some(head) => {
                match install_plan_spec(m, comps.skip(1)) {
                    None => {},
                    Some(rest) => {
                        match component_plan(m, x) {
                            None => {},
                            Some(hx) => {
                                assert(head + (rest + hx) =~= (head + rest) + hx);
                            },
                        }
                    },
                }
            },
        }
    }
}

impl PackageArchive {
    /// The file writes installing this archive performs: for each
    /// component, every file its install manifest lists, with its data and
    /// executable bit, under its manifest-relative destination path. Fails
    /// exactly when a component's manifest is missing, unreadable, names a
    /// directory (not supported), or lists a missing file.
    pub fn install_plan(&self) -> (r: Result<Vec<(String, Vec<u8>, bool)>, RepackageError>)
        requires
            self.wf(),
        ensures
            match r {
                Ok(v) => install_plan_spec(
                    self.manifest@,
                    strings_view(self.components@),
                ) == Some(
                    v@.map_values(
                        |o: (String, Vec<u8>, bool)|
                            (o.0@, FileEntryView { data: o.1@, executable: o.2 }),
                    ),
                ),
                Err(e) => install_plan_spec(self.manifest@, strings_view(self.components@))
                    is None && e matches RepackageError::DistributionError { .. },
            },
    {
        let ghost m = self.manifest@;
        let ghost comps = strings_view(self.components@);
        let mut out: Vec<(String, Vec<u8>, bool)> = Vec::new();
        let ghost out_view = |o: (String, Vec<u8>, bool)|
            (o.0@, FileEntryView { data: o.1@, executable: o.2 });
        let n = self.components.len();
        let mut i: usize = 0;
        proof {
            assert(comps.take(0) =~= Seq::<Seq<char>>::empty());
            assert(install_plan_spec(m, comps.take(0)) == Some(
                Seq::<(Seq<char>, FileEntryView)>::empty(),
            ));
            assert(out@.map_values(out_view) =~= Seq::<(Seq<char>, FileEntryView)>::empty());
        }
        while i < n
            invariant
                0 <= i <= n,
                n == comps.len(),
                comps =~= strings_view(self.components@),
                m =~= self.manifest@,
                self.wf(),
                install_plan_spec(m, comps.take(i as int)) == Some(out@.map_values(out_view)),
                forall|o: (String, Vec<u8>, bool)| #[trigger] out_view(o) == (
                    o.0@,
                    FileEntryView { data: o.1@, executable: o.2 },
                ),
            decreases n - i,
        {
            proof {
                assert(comps[i as int] == self.components@[i as int]@);
                assert(comps.take(i + 1) =~= comps.take(i as int) + seq![comps[i as int]]);
                lemma_install_plan_snoc(m, comps.take(i as int), comps[i as int]);
            }
            let component = &self.components[i];
            let mut manifest_path = component.clone();
            manifest_path.append("/manifest.in");
            proof {
                assert(manifest_path@ =~= comps[i as int] + "/manifest.in"@);
            }
            let entry = match self.manifest.get(manifest_path.as_str()) {
                Some(e) => e,
                None => {
                    let mut message = "component manifest not found: ".to_owned();
                    message.append(manifest_path.as_str());
                    proof {
                        assert(component_plan(m, comps[i as int]) is None);
                        assert(install_plan_spec(m, comps.take(i + 1)) is None);
                        lemma_install_plan_none_extends(m, comps.take(i + 1), comps);
                    }
                    return Err(RepackageError::DistributionError { message });
                },
            };
            let text = match bytes_to_string(&entry.data) {
                Some(s) => s,
                None => {
                    proof {
                        assert(component_plan(m, comps[i as int]) is None);
                        assert(install_plan_spec(m, comps.take(i + 1)) is None);
                        lemma_install_plan_none_extends(m, comps.take(i + 1), comps);
                    }
                    return Err(
                        RepackageError::DistributionError {
                            message: "component manifest is not UTF-8".to_owned(),
                        },
                    );
                },
            };
            let (dirs, files) = match parse_manifest(text.as_str()) {
                Ok(p) => p,
                Err(e) => {
                    proof {
                        assert(component_plan(m, comps[i as int]) is None);
                        assert(install_plan_spec(m, comps.take(i + 1)) is None);
                        lemma_install_plan_none_extends(m, comps.take(i + 1), comps);
                    }
                    return Err(e);
                },
            };
            if dirs.len() > 0 {
                proof {
                    assert(strings_view(dirs@).len() > 0);
                    assert(component_plan(m, comps[i as int]) is None);
                    assert(install_plan_spec(m, comps.take(i + 1)) is None);
                    lemma_install_plan_none_extends(m, comps.take(i + 1), comps);
                }
                return Err(
                    RepackageError::DistributionError {
                        message: "support for copying directories not implemented".to_owned(),
                    },
                );
            }
            let ghost fl = strings_view(files@);
            proof {
                assert(strings_view(dirs@).len() == 0);
                assert(strings_view(dirs@) =~= Seq::<Seq<char>>::empty());
            }
            let fc = files.len();
            let mut k: usize = 0;
            let ghost done_before = out@.map_values(out_view);
            while k < fc
                invariant
                    0 <= k <= fc,
                    fc == fl.len(),
                    fl =~= strings_view(files@),
                    m =~= self.manifest@,
                    self.wf(),
                    i < comps.len(),
                    comps =~= strings_view(self.components@),
                    component@ == comps[i as int],
                    forall|o: (String, Vec<u8>, bool)| #[trigger] out_view(o) == (
                        o.0@,
                        FileEntryView { data: o.1@, executable: o.2 },
                    ),
                    component_plan(m, comps[i as int]) == component_files_plan(
                        m,
                        comps[i as int],
                        fl,
                    ),
                    install_plan_spec(m, comps.take(i + 1)) == (match install_plan_spec(
                        m,
                        comps.take(i as int),
                    ) {
                        None => None,
                        Some(done) => match component_plan(m, comps[i as int]) {
                            None => None,
                            Some(head) => Some(done + head),
                        },
                    }),
                    install_plan_spec(m, comps.take(i as int)) == Some(done_before),
                    component_files_plan(m, comps[i as int], fl.take(k as int)) == Some(
                        out@.map_values(out_view).skip(done_before.len() as int),
                    ),
                    out@.map_values(out_view).take(done_before.len() as int) =~= done_before,
                    out@.len() >= done_before.len(),
                decreases fc - k,
            {
                proof {
                    assert(fl[k as int] == files@[k as int]@);
                    assert(fl.take(k + 1) =~= fl.take(k as int) + seq![fl[k as int]]);
                    lemma_component_files_snoc(m, comps[i as int], fl.take(k as int), fl[k as int]);
                }
                let file = &files[k];
                let mut key = component.clone();
                key.append("/");
                key.append(file.as_str());
                proof {
                    reveal_strlit("/");
                    assert(key@ =~= comps[i as int] + "/"@ + fl[k as int]);
                }
                let fe = match self.manifest.get(key.as_str()) {
                    Some(e) => e,
                    None => {
                        let mut message = "could not locate file in manifest: ".to_owned();
                        message.append(key.as_str());
                        proof {
                            assert(component_files_plan(m, comps[i as int], fl.take(k + 1))
                                is None);
                            lemma_component_files_none_extends(
                                m,
                                comps[i as int],
                                fl.take(k + 1),
                                fl,
                            );
                            assert(component_plan(m, comps[i as int]) is None);
                            assert(install_plan_spec(m, comps.take(i + 1)) is None);
                            lemma_install_plan_none_extends(m, comps.take(i + 1), comps);
                        }
                        return Err(RepackageError::DistributionError { message });
                    },
                };
                let ghost prev = out@;
                out.push((file.clone(), crate::text::clone_bytes(&fe.data), fe.executable));
                proof {
                    assert(out@.map_values(out_view) =~= prev.map_values(out_view) + seq![
                        out_view(out@[out@.len() - 1]),
                    ]);
                    assert(out@.map_values(out_view).skip(done_before.len() as int)
                        =~= prev.map_values(out_view).skip(done_before.len() as int) + seq![
                        (fl[k as int], FileEntryView { data: fe@.data, executable: fe@.executable }),
                    ]);
                    assert(out@.map_values(out_view).take(done_before.len() as int)
                        =~= done_before);
                }
                k = k + 1;
            }
            proof {
                assert(fl.take(fc as int) =~= fl);
                assert(out@.map_values(out_view) =~= done_before + out@.map_values(out_view).skip(
                    done_before.len() as int,
                ));
                assert(install_plan_spec(m, comps.take(i + 1)) == Some(
                    out@.map_values(out_view),
                ));
            }
            i = i + 1;
        }
        proof {
            assert(comps.take(n as int) =~= comps);
        }
        Ok(out)
    }
}

/// A failing file plan on a prefix fails on the whole list.
pub proof fn lemma_component_files_none_extends(
    m: Seq<(Seq<char>, FileEntryView)>,
    comp: Seq<char>,
    pre: Seq<Seq<char>>,
    all: Seq<Seq<char>>,
)
    requires
        component_files_plan(m, comp, pre) is None,
        pre =~= all.take(pre.len() as int),
        pre.len() <= all.len(),
    ensures
        component_files_plan(m, comp, all) is None,
    decreases pre.len(),
{
    if pre.len() == 0 {
    } else {
        assert(pre[0] == all[0]);
        match assoc_get(m, comp + "/"@ + all[0]) {
            None => {},
            Some(e) => {
                assert(pre.skip(1) =~= all.skip(1).take(pre.len() - 1));
                lemma_component_files_none_extends(m, comp, pre.skip(1), all.skip(1));
            },
        }
    }
}

/// A failing install plan on a component prefix fails on the whole list.
pub proof fn lemma_install_plan_none_extends(
    m: Seq<(Seq<char>, FileEntryView)>,
    pre: Seq<Seq<char>>,
    all: Seq<Seq<char>>,
)
    requires
        install_plan_spec(m, pre) is None,
        pre =~= all.take(pre.len() as int),
        pre.len() <= all.len(),
    ensures
        install_plan_spec(m, all) is None,
    decreases pre.len(),
{
    if pre.len() == 0 {
    } else {
        assert(pre[0] == all[0]);
        match component_plan(m, all[0]) {
            None => {},
            Some(head) => {
                assert(pre.skip(1) =~= all.skip(1).take(pre.len() - 1));
                lemma_install_plan_none_extends(m, pre.skip(1), all.skip(1));
            },
        }
    }
}

/// Byte-for-byte equality of a vector against a slice.
fn bytes_equal(a: &Vec<u8>, b: &[u8]) -> (r: bool)
    ensures
        r == (a@ == b@),
{
    let an = a.len();
    let bn = b.len();
    if an != bn {
        proof {
            if a@ == b@ {
                assert(a@.len() == b@.len());
            }
        }
        return false;
    }
    let mut i: usize = 0;
    while i < an
        invariant
            0 <= i <= an,
            an == a@.len(),
            an == b@.len(),
            forall|j: int| 0 <= j < i ==> a@[j] == b@[j],
        decreases an - i,
    {
        if a[i] != b[i] {
            proof {
                if a@ == b@ {
                    assert(a@[i as int] == b@[i as int]);
                }
            }
            return false;
        }
        i = i + 1;
    }
    proof {
        assert(a@ =~= b@);
    }
    true
}

/// One parsed line of a component's install manifest: what stands before
/// the first colon is the action, what follows it the path. Lines without
/// a colon carry nothing.
pub open spec fn parse_manifest_spec(lines: Seq<Seq<char>>) -> Option<
    (Seq<Seq<char>>, Seq<Seq<char>>),
>
    decreases lines.len(),
{
    if lines.len() == 0 {
        Some((Seq::empty(), Seq::empty()))
    } else {
        match first_match_from(lines[0], ":"@, 0) {
            None => parse_manifest_spec(lines.skip(1)),
            Some(pos) => {
                let action = lines[0].take(pos);
                let path = lines[0].skip(pos + 1);
                if action == "file"@ {
                    match parse_manifest_spec(lines.skip(1)) {
                        None => None,
                        Some(rest) => Some((rest.0, seq![path] + rest.1)),
                    }
                } else if action == "dir"@ {
                    match parse_manifest_spec(lines.skip(1)) {
                        None => None,
                        Some(rest) => Some((seq![path] + rest.0, rest.1)),
                    }
                } else {
                    None
                }
            },
        }
    }
}

/// Parses a component's install manifest into its directory and file
/// lists, in line order. Fails exactly on a line whose action is neither
/// `file` nor `dir`.
pub fn parse_manifest(data: &str) -> (r: Result<(Vec<String>, Vec<String>), RepackageError>)
    ensures
        match r {
            Ok(out) => parse_manifest_spec(str_lines(data@)) == Some(
                (strings_view(out.0@), strings_view(out.1@)),
            ),
            Err(e) => parse_manifest_spec(str_lines(data@)) is None && e matches
                RepackageError::DistributionError { .. },
        },
{
    let lines = crate::text::split_lines(data);
    let ghost lv = str_lines(data@);
    let mut dirs: Vec<String> = Vec::new();
    let mut files: Vec<String> = Vec::new();
    let n = lines.len();
    let mut i: usize = 0;
    proof {
        assert(strings_view(lines@) =~= lv);
        assert(lv.skip(0) =~= lv);
    }
    while i < n
        invariant
            0 <= i <= n,
            n == lines@.len(),
            strings_view(lines@) =~= lv,
            lv =~= str_lines(data@),
            match parse_manifest_spec(lv.skip(i as int)) {
                Some(rest) => parse_manifest_spec(lv) == Some(
                    (strings_view(dirs@) + rest.0, strings_view(files@) + rest.1),
                ),
                None => parse_manifest_spec(lv) is None,
            },
        decreases n - i,
    {
        proof {
            assert(lv[i as int] == lines@[i as int]@);
            assert(lv.skip(i as int)[0] == lv[i as int]);
            assert(lv.skip(i as int).skip(1) =~= lv.skip(i + 1));
        }
        let line = &lines[i];
        let llen = line.as_str().unicode_len();
        match crate::text::find_substring_from(line.as_str(), ":", 0) {
            None => {},
            Some(pos) => {
                proof {
                    crate::text::lemma_first_match_is_match(line@, ":"@, 0);
                    reveal_strlit(":");
                }
                let action = line.as_str().substring_char(0, pos);
                let path = line.as_str().substring_char(pos + 1, llen).to_owned();
                if crate::text::str_eq(action, "file") {
                    let ghost prev = files@;
                    files.push(path);
                    proof {
                        assert(strings_view(files@) =~= strings_view(prev) + seq![
                            files@[files@.len() - 1]@,
                        ]);
                    }
                } else if crate::text::str_eq(action, "dir") {
                    let ghost prev = dirs@;
                    dirs.push(path);
                    proof {
                        assert(strings_view(dirs@) =~= strings_view(prev) + seq![
                            dirs@[dirs@.len() - 1]@,
                        ]);
                    }
                } else {
                    let mut message = "unhandled action in manifest.in: ".to_owned();
                    message.append(action);
                    proof {
                        assert(action@ =~= lv[i as int].take(pos as int));
                        assert(parse_manifest_spec(lv.skip(i as int)) is None);
                    }
                    return Err(RepackageError::DistributionError { message });
                }
            },
        }
        i = i + 1;
    }
    proof {
        assert(lv.skip(n as int) =~= Seq::<Seq<char>>::empty());
        assert(parse_manifest_spec(Seq::<Seq<char>>::empty()) == Some(
            (Seq::<Seq<char>>::empty(), Seq::<Seq<char>>::empty()),
        ));
        assert(strings_view(dirs@) + Seq::<Seq<char>>::empty() =~= strings_view(dirs@));
        assert(strings_view(files@) + Seq::<Seq<char>>::empty() =~= strings_view(files@));
    }
    Ok((dirs, files))
}

} // verus!
