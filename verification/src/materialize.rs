//! The module materializer: plans, for a list of path entries under a source
//! root, the directories and empty source files to create and the
//! module-declaration lines to append to each new entry's owning module file.
//!
//! The planner performs no I/O. It works against a [`FsModel`] — the caller's
//! knowledge of which directories and files exist — and returns the ordered
//! [`FsAction`]s to run, extending the model with everything those actions
//! create so that later decisions (which owning module file exists) match what
//! the actions will have produced by then.

use vstd::prelude::*;

use crate::paths::{
    dir_prefix_of, is_dir_entry, join_spec, last_segment_of, last_slash, lemma_str_views_push,
    str_views,
};
use crate::GenError;

verus! {

/// One filesystem action of a materialization plan.
#[derive(Debug, PartialEq, Eq)]
pub enum FsAction {
    /// Create this directory, with any missing intermediate directories.
    CreateDirAll(String),
    /// Create an empty file at this path, truncating any existing one.
    CreateFile(String),
    /// Open the file at the first path in append mode — skipping the action
    /// when the file does not exist — and write the second string to it.
    AppendLine(String, String),
}

/// Mathematical content of a [`FsAction`].
pub enum FsActionView {
    CreateDirAll(Seq<char>),
    CreateFile(Seq<char>),
    AppendLine(Seq<char>, Seq<char>),
}

impl View for FsAction {
    type V = FsActionView;

    open spec fn view(&self) -> FsActionView {
        match self {
            FsAction::CreateDirAll(p) => FsActionView::CreateDirAll(p@),
            FsAction::CreateFile(p) => FsActionView::CreateFile(p@),
            FsAction::AppendLine(p, l) => FsActionView::AppendLine(p@, l@),
        }
    }
}

/// The views of a sequence of actions.
pub open spec fn action_views(v: Seq<FsAction>) -> Seq<FsActionView> {
    v.map_values(|a: FsAction| a@)
}

/// Viewing a sequence of actions commutes with pushing one more.
pub proof fn lemma_action_views_push(v: Seq<FsAction>, x: FsAction)
    ensures
        action_views(v.push(x)) =~= action_views(v).push(x@),
{
    assert forall|i: int| 0 <= i < v.len() + 1 implies action_views(v.push(x))[i] == action_views(
        v,
    ).push(x@)[i] by {
        if i < v.len() {
            assert(v.push(x)[i] == v[i]);
        }
    }
}

/// What the planner knows of the filesystem: which directories and which
/// files exist. The caller seeds it with the pre-existing state; the planner
/// extends it with everything its own actions create.
#[derive(Debug)]
pub struct FsModel {
    pub dirs: Vec<String>,
    pub files: Vec<String>,
}

impl FsModel {
    /// The directories the model holds.
    pub open spec fn dirs_view(&self) -> Seq<Seq<char>> {
        str_views(self.dirs@)
    }

    /// The files the model holds.
    pub open spec fn files_view(&self) -> Seq<Seq<char>> {
        str_views(self.files@)
    }

    /// A model of a filesystem with no directories and no files.
    pub fn new() -> (r: FsModel)
        ensures
            r.dirs_view() == Seq::<Seq<char>>::empty(),
            r.files_view() == Seq::<Seq<char>>::empty(),
    {
        let r = FsModel { dirs: Vec::new(), files: Vec::new() };
        proof {
            assert(r.dirs_view() =~= Seq::<Seq<char>>::empty());
            assert(r.files_view() =~= Seq::<Seq<char>>::empty());
        }
        r
    }

    /// Records that the directory `p` exists.
    pub fn add_dir(&mut self, p: String)
        ensures
            final(self).dirs_view() == old(self).dirs_view().push(p@),
            final(self).files_view() == old(self).files_view(),
    {
        proof {
            lemma_str_views_push(self.dirs@, p);
        }
        self.dirs.push(p);
    }

    /// Records that the file `p` exists.
    pub fn add_file(&mut self, p: String)
        ensures
            final(self).files_view() == old(self).files_view().push(p@),
            final(self).dirs_view() == old(self).dirs_view(),
    {
        proof {
            lemma_str_views_push(self.files@, p);
        }
        self.files.push(p);
    }

    /// Whether the model holds the directory `p`.
    pub fn has_dir(&self, p: &String) -> (r: bool)
        ensures
            r == self.dirs_view().contains(p@),
    {
        contains_str(&self.dirs, p)
    }

    /// Whether the model holds the file `p`.
    pub fn has_file(&self, p: &String) -> (r: bool)
        ensures
            r == self.files_view().contains(p@),
    {
        contains_str(&self.files, p)
    }
}

/// Linear scan for a string among the views of `v`.
fn contains_str(v: &Vec<String>, s: &String) -> (r: bool)
    ensures
        r == str_views(v@).contains(s@),
{
    let mut i: usize = 0;
    while i < v.len()
        invariant
            0 <= i <= v@.len(),
            forall|j: int| 0 <= j < i ==> str_views(v@)[j] != s@,
        decreases v@.len() - i,
    {
        if v[i] == *s {
            proof {
                assert(str_views(v@)[i as int] == s@);
            }
            return true;
        }
        i += 1;
    }
    proof {
        assert(forall|j: int| 0 <= j < str_views(v@).len() ==> str_views(v@)[j] != s@);
    }
    false
}

/// The module-declaration line registering the module `name`.
pub open spec fn mod_decl_line(name: Seq<char>) -> Seq<char> {
    "mod "@ + name + ";"@
}

/// Builds the module-declaration line for `name`.
fn mod_line(name: &String) -> (r: String)
    ensures
        r@ == mod_decl_line(name@),
{
    let mut l = String::from_str("mod ");
    l.append(name.as_str());
    l.append(";");
    proof {
        assert(l@ =~= mod_decl_line(name@));
    }
    l
}

/// The directory owning a new entry with stem `stem` under `source_root`: the
/// directory named by the stem's leading segments, or `source_root` itself
/// when the stem is a single segment.
pub open spec fn owner_dir_spec(source_root: Seq<char>, stem: Seq<char>) -> Seq<char> {
    if last_slash(stem) >= 0 {
        join_spec(source_root, dir_prefix_of(stem))
    } else {
        source_root
    }
}

/// The registration actions for a new module `name` owned by `owner_dir`:
/// one append to that directory's module file when the model says it exists,
/// else one append to its root module file when that exists, else none — a
/// module with no reachable owning file is silently left unregistered.
pub open spec fn append_acts(files: Seq<Seq<char>>, owner_dir: Seq<char>, name: Seq<char>) -> Seq<
    FsActionView,
> {
    let modf = join_spec(owner_dir, "mod.rs"@);
    let libf = join_spec(owner_dir, "lib.rs"@);
    if files.contains(modf) {
        seq![FsActionView::AppendLine(modf, mod_decl_line(name))]
    } else if files.contains(libf) {
        seq![FsActionView::AppendLine(libf, mod_decl_line(name))]
    } else {
        Seq::<FsActionView>::empty()
    }
}

/// A materialization in progress: the directories and files that exist so
/// far, and the actions planned so far, in order.
#[verifier::ext_equal]
pub struct MatOutcome {
    pub dirs: Seq<Seq<char>>,
    pub files: Seq<Seq<char>>,
    pub actions: Seq<FsActionView>,
}

/// Materializing one entry `e` under `source_root`, starting from `m`.
///
/// A directory entry (trailing `'/'`) creates the directory and an empty
/// `mod.rs` inside it; any other entry creates its intermediate directories
/// and an empty `.rs` file. Either way the new module is then registered with
/// its owning module file per [`append_acts`], the file the entry itself
/// created already counting as existing.
pub open spec fn mat_step(m: MatOutcome, source_root: Seq<char>, e: Seq<char>) -> MatOutcome {
    if is_dir_entry(e) {
        let core = e.drop_last();
        let dir_path = join_spec(source_root, core);
        let modfile = join_spec(dir_path, "mod.rs"@);
        let files1 = m.files.push(modfile);
        let acts = seq![
            FsActionView::CreateDirAll(dir_path),
            FsActionView::CreateFile(modfile),
        ] + append_acts(files1, owner_dir_spec(source_root, core), last_segment_of(core));
        MatOutcome { dirs: m.dirs.push(dir_path), files: files1, actions: m.actions + acts }
    } else {
        let fpath = join_spec(source_root, e) + ".rs"@;
        let pdir = owner_dir_spec(source_root, e);
        let files1 = m.files.push(fpath);
        let creates = if last_slash(e) >= 0 {
            seq![FsActionView::CreateDirAll(pdir), FsActionView::CreateFile(fpath)]
        } else {
            seq![FsActionView::CreateFile(fpath)]
        };
        let dirs1 = if last_slash(e) >= 0 {
            m.dirs.push(pdir)
        } else {
            m.dirs
        };
        MatOutcome {
            dirs: dirs1,
            files: files1,
            actions: m.actions + creates + append_acts(files1, pdir, last_segment_of(e)),
        }
    }
}

/// Materializing all of `entries` in order, starting from `m`.
pub open spec fn mat_all(m: MatOutcome, source_root: Seq<char>, entries: Seq<Seq<char>>) -> MatOutcome
    decreases entries.len(),
{
    if entries.len() == 0 {
        m
    } else {
        mat_step(mat_all(m, source_root, entries.drop_last()), source_root, entries.last())
    }
}

/// Plans the registration of the module `name` with the owning module file of
/// `owner_dir`, appending to `acts` exactly the actions of [`append_acts`].
fn plan_registration(fs: &FsModel, acts: &mut Vec<FsAction>, owner_dir: &String, name: &String)
    ensures
        action_views(final(acts)@) == action_views(old(acts)@) + append_acts(
            fs.files_view(),
            owner_dir@,
            name@,
        ),
{
    let ghost acts0 = acts@;
    let modf = crate::paths::join(owner_dir.as_str(), "mod.rs");
    let line = mod_line(name);
    if fs.has_file(&modf) {
        let a = FsAction::AppendLine(modf, line);
        proof {
            lemma_action_views_push(acts@, a);
        }
        acts.push(a);
        proof {
            assert(action_views(acts@) =~= action_views(acts0) + append_acts(
                fs.files_view(),
                owner_dir@,
                name@,
            ));
        }
    } else {
        let libf = crate::paths::join(owner_dir.as_str(), "lib.rs");
        if fs.has_file(&libf) {
            let a = FsAction::AppendLine(libf, line);
            proof {
                lemma_action_views_push(acts@, a);
            }
            acts.push(a);
            proof {
                assert(action_views(acts@) =~= action_views(acts0) + append_acts(
                    fs.files_view(),
                    owner_dir@,
                    name@,
                ));
            }
        } else {
            proof {
                assert(action_views(acts@) =~= action_views(acts0) + append_acts(
                    fs.files_view(),
                    owner_dir@,
                    name@,
                ));
            }
        }
    }
}

/// The owning directory and module name of an entry with stem `stem`.
fn owner_and_name(source_root: &String, stem: &String) -> (r: (String, String))
    ensures
        r.0@ == owner_dir_spec(source_root@, stem@),
        r.1@ == last_segment_of(stem@),
{
    match crate::paths::split_last_slash(stem.as_str()) {
        Some((pre, seg)) => (crate::paths::join(source_root.as_str(), pre.as_str()), seg),
        None => (source_root.clone(), stem.clone()),
    }
}

/// Plans the materialization of `entries` under `source_root`.
///
/// Fails with [`GenError::SourceRootMissing`] — planning nothing and leaving
/// the model unchanged — exactly when the model does not hold `source_root`
/// as a directory. Otherwise returns the actions of [`mat_all`], in order,
/// and advances the model to the state those actions produce.
///
/// Materializing is not idempotent: planning the same entries a second time
/// against the resulting model plans every file creation again (truncating
/// the files) and appends every module-declaration line again, duplicating
/// the declarations. Nothing parses or deduplicates owning module files.
pub fn materialize(fs: &mut FsModel, source_root: &String, entries: &Vec<String>) -> (r: Result<
    Vec<FsAction>,
    GenError,
>)
    ensures
        ({
            let m0 = MatOutcome {
                dirs: old(fs).dirs_view(),
                files: old(fs).files_view(),
                actions: Seq::<FsActionView>::empty(),
            };
            let out = mat_all(m0, source_root@, str_views(entries@));
            match r {
                Ok(acts) => {
                    &&& old(fs).dirs_view().contains(source_root@)
                    &&& action_views(acts@) == out.actions
                    &&& final(fs).dirs_view() == out.dirs
                    &&& final(fs).files_view() == out.files
                },
                Err(e) => {
                    &&& e == GenError::SourceRootMissing
                    &&& !old(fs).dirs_view().contains(source_root@)
                    &&& final(fs).dirs_view() == old(fs).dirs_view()
                    &&& final(fs).files_view() == old(fs).files_view()
                },
            }
        }),
{
    if !fs.has_dir(source_root) {
        return Err(GenError::SourceRootMissing);
    }
    let ghost m0 = MatOutcome {
        dirs: fs.dirs_view(),
        files: fs.files_view(),
        actions: Seq::<FsActionView>::empty(),
    };
    let ghost evs = str_views(entries@);
    let mut acts: Vec<FsAction> = Vec::new();
    proof {
        assert(action_views(acts@) =~= m0.actions);
    }
    let mut i: usize = 0;
    while i < entries.len()
        invariant
            0 <= i <= entries@.len(),
            evs == str_views(entries@),
            fs.dirs_view() == mat_all(m0, source_root@, evs.take(i as int)).dirs,
            fs.files_view() == mat_all(m0, source_root@, evs.take(i as int)).files,
            action_views(acts@) == mat_all(m0, source_root@, evs.take(i as int)).actions,
        decreases entries@.len() - i,
    {
        let ghost cur = mat_all(m0, source_root@, evs.take(i as int));
        proof {
            assert(evs.take(i as int + 1).drop_last() =~= evs.take(i as int));
            assert(evs.take(i as int + 1).last() == evs[i as int]);
            assert(mat_all(m0, source_root@, evs.take(i as int + 1)) == mat_step(
                cur,
                source_root@,
                evs[i as int],
            ));
            assert(evs[i as int] == entries@[i as int]@);
        }
        let e = &entries[i];
        if crate::paths::ends_with_slash(e.as_str()) {
            let n = e.as_str().unicode_len();
            let core_str = e.as_str().substring_char(0, n - 1);
            let core = core_str.to_owned();
            proof {
                assert(core@ =~= e@.drop_last());
            }
            let dir_path = crate::paths::join(source_root.as_str(), core.as_str());
            let modfile = crate::paths::join(dir_path.as_str(), "mod.rs");
            let a1 = FsAction::CreateDirAll(dir_path.clone());
            proof {
                lemma_action_views_push(acts@, a1);
            }
            acts.push(a1);
            let a2 = FsAction::CreateFile(modfile.clone());
            proof {
                lemma_action_views_push(acts@, a2);
            }
            acts.push(a2);
            fs.add_dir(dir_path);
            fs.add_file(modfile);
            let (owner_dir, name) = owner_and_name(source_root, &core);
            plan_registration(fs, &mut acts, &owner_dir, &name);
            proof {
                let stepped = mat_step(cur, source_root@, evs[i as int]);
                assert(fs.dirs_view() =~= stepped.dirs);
                assert(fs.files_view() =~= stepped.files);
                assert(action_views(acts@) =~= stepped.actions);
            }
        } else {
            let mut fpath = crate::paths::join(source_root.as_str(), e.as_str());
            fpath.append(".rs");
            match crate::paths::split_last_slash(e.as_str()) {
                Some((pre, seg)) => {
                    let pdir = crate::paths::join(source_root.as_str(), pre.as_str());
                    let a1 = FsAction::CreateDirAll(pdir.clone());
                    proof {
                        lemma_action_views_push(acts@, a1);
                    }
                    acts.push(a1);
                    let a2 = FsAction::CreateFile(fpath.clone());
                    proof {
                        lemma_action_views_push(acts@, a2);
                    }
                    acts.push(a2);
                    fs.add_dir(pdir.clone());
                    fs.add_file(fpath);
                    plan_registration(fs, &mut acts, &pdir, &seg);
                },
                None => {
                    let a1 = FsAction::CreateFile(fpath.clone());
                    proof {
                        lemma_action_views_push(acts@, a1);
                    }
                    acts.push(a1);
                    fs.add_file(fpath);
                    plan_registration(fs, &mut acts, source_root, e);
                },
            }
            proof {
                let stepped = mat_step(cur, source_root@, evs[i as int]);
                assert(fs.dirs_view() =~= stepped.dirs);
                assert(fs.files_view() =~= stepped.files);
                assert(action_views(acts@) =~= stepped.actions);
            }
        }
        i += 1;
    }
    proof {
        assert(evs.take(entries@.len() as int) =~= evs);
    }
    Ok(acts)
}

} // verus!
