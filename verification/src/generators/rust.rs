//! The Rust generator: validation, PathSpec parsing, and the scaffold
//! orchestrator, which turns a request into an ordered plan of steps.

use vstd::prelude::*;

use super::RustGenerator;
use crate::libdict::{parse_spec, LibDict};
use crate::materialize::{action_views, materialize, FsAction, FsModel, MatOutcome};
use crate::paths::{join, join_spec, lemma_str_views_push, str_views};
use crate::plan::{
    create_spec, flat_entries, fs_step_views, input_valid, joined_under, lemma_step_views_concat,
    lemma_step_views_push, nested_steps, project_steps, root_entries, skeleton_root_file, step_views,
    PlanStep, PlanStepView,
};
use crate::{GenError, GenResult, ProjectType};

verus! {

/// The flag selecting the crate kind handed to the toolchain's "new project"
/// command for each project type; nested types fall back to a library crate.
pub fn get_type_str(p_type: ProjectType) -> (r: String)
    ensures
        p_type is Empty ==> r@ == "--empty"@,
        p_type is Bin ==> r@ == "--bin"@,
        (p_type is Lib || p_type is Nested || p_type is NestedBin) ==> r@ == "--lib"@,
{
    match p_type {
        ProjectType::Empty => String::from_str("--empty"),
        ProjectType::Bin => String::from_str("--bin"),
        _ => String::from_str("--lib"),
    }
}

/// The flat entries of a parsed tree, rejoining each root with its suffixes,
/// roots in first-seen order.
fn flat_entries_exec(d: &LibDict) -> (r: Vec<String>)
    requires
        d.wf(),
    ensures
        str_views(r@) == flat_entries(d@, d@.keys.len() as int),
{
    let mut out: Vec<String> = Vec::new();
    proof {
        assert(str_views(out@) =~= flat_entries(d@, 0));
    }
    let n = d.num_roots();
    let mut k: usize = 0;
    while k < n
        invariant
            d.wf(),
            n == d@.keys.len(),
            0 <= k <= n,
            str_views(out@) == flat_entries(d@, k as int),
        decreases n - k,
    {
        let root = d.root_at(k);
        let sufs = d.libs_at(k);
        if sufs.len() == 0 {
            let mut t = root.clone();
            t.append("/");
            proof {
                lemma_str_views_push(out@, t);
            }
            out.push(t);
            proof {
                assert(d@.vals[k as int].len() == 0);
                assert(root_entries(d@.keys[k as int], d@.vals[k as int]) =~= seq![
                    d@.keys[k as int] + "/"@,
                ]);
                assert(str_views(out@) =~= flat_entries(d@, k as int + 1));
            }
        } else {
            let ghost key = d@.keys[k as int];
            let ghost vs = d@.vals[k as int];
            let mut j: usize = 0;
            proof {
                assert(joined_under(key, vs.take(0)) =~= Seq::<Seq<char>>::empty());
                assert(str_views(out@) =~= flat_entries(d@, k as int) + joined_under(
                    key,
                    vs.take(0),
                ));
            }
            while j < sufs.len()
                invariant
                    0 <= j <= sufs@.len(),
                    d.wf(),
                    k < d@.keys.len(),
                    key == d@.keys[k as int],
                    vs == d@.vals[k as int],
                    root@ == key,
                    str_views(sufs@) == vs,
                    str_views(out@) == flat_entries(d@, k as int) + joined_under(
                        key,
                        vs.take(j as int),
                    ),
                decreases sufs@.len() - j,
            {
                let e = join(root.as_str(), sufs[j].as_str());
                proof {
                    lemma_str_views_push(out@, e);
                    assert(sufs@[j as int]@ == vs[j as int]);
                }
                out.push(e);
                proof {
                    assert(joined_under(key, vs.take(j as int + 1)) =~= joined_under(
                        key,
                        vs.take(j as int),
                    ).push(join_spec(key, vs[j as int])));
                    assert(str_views(out@) =~= flat_entries(d@, k as int) + joined_under(
                        key,
                        vs.take(j as int + 1),
                    ));
                }
                j += 1;
            }
            proof {
                assert(vs.take(vs.len() as int) =~= vs);
                assert(vs.len() > 0);
                assert(root_entries(key, vs) == joined_under(key, vs));
                assert(str_views(out@) =~= flat_entries(d@, k as int + 1));
            }
        }
        k += 1;
    }
    out
}

impl RustGenerator {
    /// Validates that project types that require sub-projects have them, and
    /// that empty projects have none.
    pub fn validate_input(&self, p_type: ProjectType, libs: &Vec<String>) -> (r: GenResult<
        GenError,
    >)
        ensures
            r is Ok <==> input_valid(p_type, libs@.len()),
            (p_type is Nested || p_type is NestedBin) && libs@.len() == 0 ==> r == GenResult::<
                GenError,
            >::Err(GenError::NoSubprojects),
            p_type is Empty && libs@.len() > 0 ==> r == GenResult::<GenError>::Err(
                GenError::EmptyHasLibs,
            ),
    {
        match p_type {
            ProjectType::Nested | ProjectType::NestedBin => {
                if libs.is_empty() {
                    Err(GenError::NoSubprojects)
                } else {
                    Ok(())
                }
            },
            ProjectType::Empty => {
                if libs.is_empty() {
                    Ok(())
                } else {
                    Err(GenError::EmptyHasLibs)
                }
            },
            _ => Ok(()),
        }
    }

    /// Converts the array of lib paths into an ordered tree of paths under
    /// their common roots.
    pub fn parse_lib_str(&self, libs: &Vec<String>) -> (r: LibDict)
        ensures
            r.wf(),
            r@ == parse_spec(str_views(libs@)),
    {
        LibDict::parse(libs)
    }

    /// Plans one individual project: its skeleton crate, then the
    /// materialization of `libs` under the skeleton's source directory.
    pub fn create_project(&self, p_type: ProjectType, p_name: &String, libs: &Vec<String>) -> (r:
        Vec<PlanStep>)
        ensures
            step_views(r@) == project_steps(p_type, p_name@, str_views(libs@)),
    {
        let src_dir = join(p_name.as_str(), "src");
        let mut fs = FsModel::new();
        fs.add_dir(p_name.clone());
        fs.add_dir(src_dir.clone());
        let root_file = match p_type {
            ProjectType::Bin => join(src_dir.as_str(), "main.rs"),
            _ => join(src_dir.as_str(), "lib.rs"),
        };
        fs.add_file(root_file);
        let ghost m0 = MatOutcome {
            dirs: fs.dirs_view(),
            files: fs.files_view(),
            actions: Seq::<crate::materialize::FsActionView>::empty(),
        };
        proof {
            assert(fs.dirs_view() =~= seq![p_name@, src_dir@]);
            assert(fs.files_view() =~= seq![skeleton_root_file(p_type, p_name@)]);
            assert(fs.dirs_view()[1] == src_dir@);
            assert(fs.dirs_view().contains(src_dir@));
        }
        let mut steps: Vec<PlanStep> = Vec::new();
        let st0 = PlanStep::CreateCrate(p_type, p_name.clone());
        proof {
            lemma_step_views_push(steps@, st0);
        }
        steps.push(st0);
        match materialize(&mut fs, &src_dir, libs) {
            Ok(acts) => {
                let ghost avs = action_views(acts@);
                proof {
                    let m0spec = MatOutcome {
                        dirs: seq![p_name@, src_dir@],
                        files: seq![skeleton_root_file(p_type, p_name@)],
                        actions: Seq::<crate::materialize::FsActionView>::empty(),
                    };
                    assert(m0 =~= m0spec);
                }
                let mut i: usize = 0;
                while i < acts.len()
                    invariant
                        0 <= i <= acts@.len(),
                        avs == action_views(acts@),
                        step_views(steps@) == seq![PlanStepView::CreateCrate(p_type, p_name@)]
                            + fs_step_views(avs.take(i as int)),
                    decreases acts@.len() - i,
                {
                    let st: PlanStep = match &acts[i] {
                        FsAction::CreateDirAll(p) => PlanStep::Fs(FsAction::CreateDirAll(p.clone())),
                        FsAction::CreateFile(p) => PlanStep::Fs(FsAction::CreateFile(p.clone())),
                        FsAction::AppendLine(p, l) => PlanStep::Fs(
                            FsAction::AppendLine(p.clone(), l.clone()),
                        ),
                    };
                    proof {
                        assert(st@ == PlanStepView::Fs(avs[i as int]));
                        lemma_step_views_push(steps@, st);
                    }
                    steps.push(st);
                    proof {
                        assert(fs_step_views(avs.take(i as int + 1)) =~= fs_step_views(
                            avs.take(i as int),
                        ).push(PlanStepView::Fs(avs[i as int])));
                        assert(step_views(steps@) =~= seq![
                            PlanStepView::CreateCrate(p_type, p_name@),
                        ] + fs_step_views(avs.take(i as int + 1)));
                    }
                    i += 1;
                }
                proof {
                    assert(avs.take(acts@.len() as int) =~= avs);
                    assert(step_views(steps@) =~= project_steps(p_type, p_name@, str_views(libs@)));
                }
                steps
            },
            Err(_) => {
                proof {
                    assert(false);
                }
                Vec::new()
            },
        }
    }

    /// Decides the whole scaffold: validates the request and returns the
    /// ordered plan of steps a front end must run, exactly as
    /// [`create_spec`] describes, or the validation error.
    pub fn create(&self, p_type: ProjectType, name: &String, libs: &Vec<String>) -> (r: Result<
        Vec<PlanStep>,
        GenError,
    >)
        ensures
            match r {
                Ok(steps) => create_spec(p_type, name@, str_views(libs@)) == Ok::<
                    Seq<PlanStepView>,
                    GenError,
                >(step_views(steps@)),
                Err(e) => create_spec(p_type, name@, str_views(libs@)) == Err::<
                    Seq<PlanStepView>,
                    GenError,
                >(e),
            },
    {
        if let Err(e) = self.validate_input(p_type, libs) {
            return Err(e);
        }
        match p_type {
            ProjectType::Empty => {
                let empty_vec: Vec<String> = Vec::new();
                let steps = self.create_project(p_type, name, &empty_vec);
                proof {
                    assert(str_views(empty_vec@) =~= Seq::<Seq<char>>::empty());
                }
                Ok(steps)
            },
            ProjectType::Bin | ProjectType::Lib => {
                let d = self.parse_lib_str(libs);
                let flat = flat_entries_exec(&d);
                let steps = self.create_project(p_type, name, &flat);
                Ok(steps)
            },
            ProjectType::Nested | ProjectType::NestedBin => {
                let ghost head = seq![
                    PlanStepView::CreateRootDir(name@),
                    PlanStepView::EnterDir(name@),
                ];
                let mut steps: Vec<PlanStep> = Vec::new();
                let s0 = PlanStep::CreateRootDir(name.clone());
                proof {
                    lemma_step_views_push(steps@, s0);
                }
                steps.push(s0);
                let s1 = PlanStep::EnterDir(name.clone());
                proof {
                    lemma_step_views_push(steps@, s1);
                }
                steps.push(s1);
                let d = self.parse_lib_str(libs);
                proof {
                    assert(step_views(steps@) =~= head + nested_steps(d@, 0));
                }
                let n = d.num_roots();
                let mut k: usize = 0;
                while k < n
                    invariant
                        d.wf(),
                        n == d@.keys.len(),
                        0 <= k <= n,
                        head == seq![
                            PlanStepView::CreateRootDir(name@),
                            PlanStepView::EnterDir(name@),
                        ],
                        step_views(steps@) == head + nested_steps(d@, k as int),
                    decreases n - k,
                {
                    let mut sub = self.create_project(ProjectType::Lib, d.root_at(k), d.libs_at(k));
                    proof {
                        lemma_step_views_concat(steps@, sub@);
                        assert(step_views(sub@) == project_steps(
                            ProjectType::Lib,
                            d@.keys[k as int],
                            d@.vals[k as int],
                        ));
                    }
                    steps.append(&mut sub);
                    proof {
                        assert(step_views(steps@) =~= head + nested_steps(d@, k as int + 1));
                    }
                    k += 1;
                }
                let ghost bins: Seq<PlanStepView> = if p_type is NestedBin {
                    seq![PlanStepView::CreateCrate(ProjectType::Bin, name@)]
                } else {
                    Seq::<PlanStepView>::empty()
                };
                match p_type {
                    ProjectType::NestedBin => {
                        let sb = PlanStep::CreateCrate(ProjectType::Bin, name.clone());
                        proof {
                            lemma_step_views_push(steps@, sb);
                        }
                        steps.push(sb);
                    },
                    _ => {},
                }
                proof {
                    assert(step_views(steps@) =~= head + nested_steps(d@, n as int) + bins);
                }
                let sr = PlanStep::RestoreDir;
                proof {
                    lemma_step_views_push(steps@, sr);
                }
                steps.push(sr);
                proof {
                    assert(step_views(steps@) =~= head + nested_steps(
                        parse_spec(str_views(libs@)),
                        parse_spec(str_views(libs@)).keys.len() as int,
                    ) + bins + seq![PlanStepView::RestoreDir]);
                }
                Ok(steps)
            },
        }
    }
}

} // verus!
