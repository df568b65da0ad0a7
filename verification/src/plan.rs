//! The scaffold plan: the ordered steps that the orchestrator decides on and
//! a front end runs, and the specification of the whole decision.
//!
//! Working-location discipline: a plan enters a directory only through
//! [`PlanStep::EnterDir`], which records the previous location, and leaves it
//! through [`PlanStep::RestoreDir`]. A front end must run the matching
//! `RestoreDir` even when a step in between fails, so that the process's
//! working location is unchanged on every exit path.

use vstd::prelude::*;

use crate::libdict::{parse_spec, DictView};
use crate::materialize::{mat_all, FsAction, FsActionView, MatOutcome};
use crate::paths::join_spec;
use crate::{GenError, ProjectType};

verus! {

/// One step of a scaffold plan.
#[derive(Debug, PartialEq, Eq)]
pub enum PlanStep {
    /// Create this directory; failure to create it is fatal.
    CreateRootDir(String),
    /// Make this directory (named relative to the current working location)
    /// the working location, recording the previous one for `RestoreDir`.
    EnterDir(String),
    /// Restore the working location recorded by the matching `EnterDir`.
    RestoreDir,
    /// Invoke the external toolchain's "new project" command at the current
    /// working location, with the kind selected by the project type and the
    /// given project name.
    CreateCrate(ProjectType, String),
    /// Run one filesystem action, its paths named relative to the current
    /// working location.
    Fs(FsAction),
}

/// Mathematical content of a [`PlanStep`].
pub enum PlanStepView {
    CreateRootDir(Seq<char>),
    EnterDir(Seq<char>),
    RestoreDir,
    CreateCrate(ProjectType, Seq<char>),
    Fs(FsActionView),
}

impl View for PlanStep {
    type V = PlanStepView;

    open spec fn view(&self) -> PlanStepView {
        match self {
            PlanStep::CreateRootDir(p) => PlanStepView::CreateRootDir(p@),
            PlanStep::EnterDir(p) => PlanStepView::EnterDir(p@),
            PlanStep::RestoreDir => PlanStepView::RestoreDir,
            PlanStep::CreateCrate(t, n) => PlanStepView::CreateCrate(*t, n@),
            PlanStep::Fs(a) => PlanStepView::Fs(a@),
        }
    }
}

/// The views of a sequence of plan steps.
pub open spec fn step_views(v: Seq<PlanStep>) -> Seq<PlanStepView> {
    v.map_values(|s: PlanStep| s@)
}

/// Viewing a sequence of steps commutes with pushing one more.
pub proof fn lemma_step_views_push(v: Seq<PlanStep>, x: PlanStep)
    ensures
        step_views(v.push(x)) =~= step_views(v).push(x@),
{
    assert forall|i: int| 0 <= i < v.len() + 1 implies step_views(v.push(x))[i] == step_views(
        v,
    ).push(x@)[i] by {
        if i < v.len() {
            assert(v.push(x)[i] == v[i]);
        }
    }
}

/// Viewing a sequence of steps commutes with concatenation.
pub proof fn lemma_step_views_concat(a: Seq<PlanStep>, b: Seq<PlanStep>)
    ensures
        step_views(a + b) =~= step_views(a) + step_views(b),
{
    assert forall|i: int| 0 <= i < a.len() + b.len() implies step_views(a + b)[i] == (step_views(a)
        + step_views(b))[i] by {
        if i < a.len() {
            assert((a + b)[i] == a[i]);
        } else {
            assert((a + b)[i] == b[i - a.len()]);
        }
    }
}

/// Filesystem actions lifted into plan steps.
pub open spec fn fs_step_views(acts: Seq<FsActionView>) -> Seq<PlanStepView> {
    acts.map_values(|a: FsActionView| PlanStepView::Fs(a))
}

/// Whether a project type's constraint on the library list is met: nested
/// types need a non-empty list, the empty type an empty one, and the rest
/// accept anything.
pub open spec fn input_valid(p_type: ProjectType, n_libs: nat) -> bool {
    match p_type {
        ProjectType::Nested | ProjectType::NestedBin => n_libs > 0,
        ProjectType::Empty => n_libs == 0,
        _ => true,
    }
}

/// The root module file that the toolchain's "new project" command leaves in
/// a fresh crate's `src` directory: `main.rs` for a binary, `lib.rs`
/// otherwise.
pub open spec fn skeleton_root_file(p_type: ProjectType, name: Seq<char>) -> Seq<char> {
    join_spec(
        join_spec(name, "src"@),
        if p_type is Bin {
            "main.rs"@
        } else {
            "lib.rs"@
        },
    )
}

/// The plan for one project: create its skeleton crate at the current
/// working location, then materialize `entries` under the skeleton's source
/// directory, starting from a model holding exactly what the skeleton brings
/// (the crate directory, its `src` directory, and the root module file).
pub open spec fn project_steps(
    p_type: ProjectType,
    name: Seq<char>,
    entries: Seq<Seq<char>>,
) -> Seq<PlanStepView> {
    let src_dir = join_spec(name, "src"@);
    let m0 = MatOutcome {
        dirs: seq![name, src_dir],
        files: seq![skeleton_root_file(p_type, name)],
        actions: Seq::<FsActionView>::empty(),
    };
    seq![PlanStepView::CreateCrate(p_type, name)] + fs_step_views(
        mat_all(m0, src_dir, entries).actions,
    )
}

/// Each suffix joined under its root.
pub open spec fn joined_under(root: Seq<char>, sufs: Seq<Seq<char>>) -> Seq<Seq<char>> {
    sufs.map_values(|s: Seq<char>| join_spec(root, s))
}

/// The entries a parsed tree contributes to a flat (single-crate) project:
/// a root with suffixes contributes `root/suffix` for each suffix, in order;
/// a bare root — itself a library with nothing nested — contributes the
/// directory entry `root/`.
pub open spec fn root_entries(root: Seq<char>, sufs: Seq<Seq<char>>) -> Seq<Seq<char>> {
    if sufs.len() == 0 {
        seq![root + "/"@]
    } else {
        joined_under(root, sufs)
    }
}

/// The flat entries of the first `n` roots of a parsed tree, in root order.
pub open spec fn flat_entries(d: DictView, n: int) -> Seq<Seq<char>>
    decreases n,
{
    if n <= 0 {
        Seq::<Seq<char>>::empty()
    } else {
        flat_entries(d, n - 1) + root_entries(d.keys[n - 1], d.vals[n - 1])
    }
}

/// The plans of the first `n` sub-library projects of a nested workspace,
/// one library crate per root, each materializing its own suffixes.
pub open spec fn nested_steps(d: DictView, n: int) -> Seq<PlanStepView>
    decreases n,
{
    if n <= 0 {
        Seq::<PlanStepView>::empty()
    } else {
        nested_steps(d, n - 1) + project_steps(ProjectType::Lib, d.keys[n - 1], d.vals[n - 1])
    }
}

/// The whole scaffold decision.
///
/// Validation first: a nested type with no libraries, or the empty type with
/// some, is refused. An empty project is one skeleton with no
/// materialization. A flat binary or library project is one skeleton plus the
/// parsed tree's entries materialized under its source directory. A nested
/// project creates the workspace root directory, enters it, scaffolds one
/// library sub-project per root in first-seen order, adds a root binary crate
/// named after the project when requested, and restores the working location.
pub open spec fn create_spec(p_type: ProjectType, name: Seq<char>, libs: Seq<Seq<char>>) -> Result<
    Seq<PlanStepView>,
    GenError,
> {
    if !input_valid(p_type, libs.len()) {
        if p_type is Empty {
            Err(GenError::EmptyHasLibs)
        } else {
            Err(GenError::NoSubprojects)
        }
    } else {
        match p_type {
            ProjectType::Empty => Ok(project_steps(p_type, name, Seq::<Seq<char>>::empty())),
            ProjectType::Bin | ProjectType::Lib => {
                let d = parse_spec(libs);
                Ok(project_steps(p_type, name, flat_entries(d, d.keys.len() as int)))
            },
            ProjectType::Nested | ProjectType::NestedBin => {
                let d = parse_spec(libs);
                Ok(
                    seq![PlanStepView::CreateRootDir(name), PlanStepView::EnterDir(name)]
                        + nested_steps(d, d.keys.len() as int) + (if p_type is NestedBin {
                        seq![PlanStepView::CreateCrate(ProjectType::Bin, name)]
                    } else {
                        Seq::<PlanStepView>::empty()
                    }) + seq![PlanStepView::RestoreDir],
                )
            },
        }
    }
}

/// How many `EnterDir` steps a plan holds.
pub open spec fn count_enters(s: Seq<PlanStepView>) -> int
    decreases s.len(),
{
    if s.len() == 0 {
        0
    } else {
        count_enters(s.drop_last()) + if s.last() is EnterDir {
            1int
        } else {
            0int
        }
    }
}

/// How many `RestoreDir` steps a plan holds.
pub open spec fn count_restores(s: Seq<PlanStepView>) -> int
    decreases s.len(),
{
    if s.len() == 0 {
        0
    } else {
        count_restores(s.drop_last()) + if s.last() is RestoreDir {
            1int
        } else {
            0int
        }
    }
}

/// Step counts of a one-step plan.
pub proof fn lemma_counts_singleton(x: PlanStepView)
    ensures
        count_enters(seq![x]) == if x is EnterDir {
            1int
        } else {
            0int
        },
        count_restores(seq![x]) == if x is RestoreDir {
            1int
        } else {
            0int
        },
{
    assert(seq![x].drop_last() =~= Seq::<PlanStepView>::empty());
    assert(count_enters(Seq::<PlanStepView>::empty()) == 0);
    assert(count_restores(Seq::<PlanStepView>::empty()) == 0);
    assert(seq![x].last() == x);
}

/// Step counts distribute over concatenation.
pub proof fn lemma_counts_concat(a: Seq<PlanStepView>, b: Seq<PlanStepView>)
    ensures
        count_enters(a + b) == count_enters(a) + count_enters(b),
        count_restores(a + b) == count_restores(a) + count_restores(b),
    decreases b.len(),
{
    if b.len() == 0 {
        assert(a + b =~= a);
    } else {
        lemma_counts_concat(a, b.drop_last());
        assert((a + b).drop_last() =~= a + b.drop_last());
        assert((a + b).last() == b.last());
    }
}

/// A plan with no working-location step has zero counts.
pub proof fn lemma_counts_no_dir_steps(s: Seq<PlanStepView>)
    requires
        forall|i: int| 0 <= i < s.len() ==> !(s[i] is EnterDir) && !(s[i] is RestoreDir),
    ensures
        count_enters(s) == 0,
        count_restores(s) == 0,
    decreases s.len(),
{
    if s.len() > 0 {
        assert forall|i: int|
            0 <= i < s.drop_last().len() implies !(s.drop_last()[i] is EnterDir) && !(
        s.drop_last()[i] is RestoreDir) by {
            assert(s.drop_last()[i] == s[i]);
        }
        lemma_counts_no_dir_steps(s.drop_last());
        assert(s.last() == s[s.len() - 1]);
    }
}

/// A single project's plan never touches the working location.
pub proof fn lemma_project_steps_counts(p_type: ProjectType, name: Seq<char>, entries: Seq<Seq<char>>)
    ensures
        count_enters(project_steps(p_type, name, entries)) == 0,
        count_restores(project_steps(p_type, name, entries)) == 0,
{
    let s = project_steps(p_type, name, entries);
    assert forall|i: int| 0 <= i < s.len() implies !(s[i] is EnterDir) && !(s[i] is RestoreDir) by {
        if i > 0 {
            let src_dir = join_spec(name, "src"@);
            let m0 = MatOutcome {
                dirs: seq![name, src_dir],
                files: seq![skeleton_root_file(p_type, name)],
                actions: Seq::<FsActionView>::empty(),
            };
            assert(s[i] == fs_step_views(mat_all(m0, src_dir, entries).actions)[i - 1]);
        }
    }
    lemma_counts_no_dir_steps(s);
}

/// The sub-library plans of a nested workspace never touch the working
/// location themselves.
pub proof fn lemma_nested_steps_counts(d: DictView, n: int)
    ensures
        count_enters(nested_steps(d, n)) == 0,
        count_restores(nested_steps(d, n)) == 0,
    decreases n,
{
    if n > 0 {
        lemma_nested_steps_counts(d, n - 1);
        lemma_project_steps_counts(ProjectType::Lib, d.keys[n - 1], d.vals[n - 1]);
        lemma_counts_concat(
            nested_steps(d, n - 1),
            project_steps(ProjectType::Lib, d.keys[n - 1], d.vals[n - 1]),
        );
    }
}

/// Law: every scaffold plan balances its working-location changes — it holds
/// exactly as many `EnterDir` steps as `RestoreDir` steps. A front end that
/// always runs the `RestoreDir` matching an executed `EnterDir`, on failure as
/// on success, therefore leaves the process's working location unchanged.
pub proof fn lemma_plan_location_balanced(p_type: ProjectType, name: Seq<char>, libs: Seq<Seq<char>>)
    requires
        create_spec(p_type, name, libs) is Ok,
    ensures
        count_enters(create_spec(p_type, name, libs)->Ok_0) == count_restores(
            create_spec(p_type, name, libs)->Ok_0,
        ),
{
    let s = create_spec(p_type, name, libs)->Ok_0;
    match p_type {
        ProjectType::Empty => {
            lemma_project_steps_counts(p_type, name, Seq::<Seq<char>>::empty());
        },
        ProjectType::Bin | ProjectType::Lib => {
            let d = parse_spec(libs);
            lemma_project_steps_counts(p_type, name, flat_entries(d, d.keys.len() as int));
        },
        ProjectType::Nested | ProjectType::NestedBin => {
            let d = parse_spec(libs);
            let head = seq![PlanStepView::CreateRootDir(name), PlanStepView::EnterDir(name)];
            let mids = nested_steps(d, d.keys.len() as int);
            let bins: Seq<PlanStepView> = if p_type is NestedBin {
                seq![PlanStepView::CreateCrate(ProjectType::Bin, name)]
            } else {
                Seq::<PlanStepView>::empty()
            };
            let tail = seq![PlanStepView::RestoreDir];
            assert(count_enters(head) == 1 && count_restores(head) == 0) by {
                let h0 = seq![PlanStepView::CreateRootDir(name)];
                let h1 = seq![PlanStepView::EnterDir(name)];
                assert(head =~= h0 + h1);
                lemma_counts_singleton(PlanStepView::CreateRootDir(name));
                lemma_counts_singleton(PlanStepView::EnterDir(name));
                lemma_counts_concat(h0, h1);
            }
            lemma_nested_steps_counts(d, d.keys.len() as int);
            assert(count_enters(bins) == 0 && count_restores(bins) == 0) by {
                if p_type is NestedBin {
                    lemma_counts_singleton(PlanStepView::CreateCrate(ProjectType::Bin, name));
                }
            }
            lemma_counts_singleton(PlanStepView::RestoreDir);
            lemma_counts_concat(head, mids);
            lemma_counts_concat(head + mids, bins);
            lemma_counts_concat(head + mids + bins, tail);
        },
    }
}

} // verus!
