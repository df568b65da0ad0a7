use bg_lib::generators::rust::get_type_str;
use bg_lib::generators::RustGenerator;
use bg_lib::materialize::{materialize, FsAction, FsModel};
use bg_lib::plan::PlanStep;
use bg_lib::{
    get_file_ext, get_generator, import_package_json, GenError, ProjectBuilder, ProjectType,
};

fn s(x: &str) -> String {
    x.to_string()
}

#[test]
fn test_string_parsing() {
    let gen = RustGenerator;
    let libs = vec![
        String::from("web/"),
        String::from("web/rest/"),
        String::from("web/rest/wiki"),
        String::from("web/rest/rest"),
        String::from("gui/"),
    ];
    println!("{:?}", libs);
    let ret = gen.parse_lib_str(&libs);
    assert_eq!(ret.num_roots(), 2);
    assert_eq!(ret.root_at(0).as_str(), "web");
    assert_eq!(ret.root_at(1).as_str(), "gui");
    let web = ret.get(&s("web")).unwrap();
    assert_eq!(
        web,
        &vec![s("rest/"), s("rest/wiki"), s("rest/rest")]
    );
    let gui = ret.get(&s("gui")).unwrap();
    assert!(gui.is_empty());
}

#[test]
fn test_validator() {
    let gen = RustGenerator;
    let mut res = gen.validate_input(ProjectType::Empty, &vec![]);
    assert_eq!(res.is_ok(), true);
    // empty projects reject attached libraries
    res = gen.validate_input(ProjectType::Empty, &vec![s("gui")]);
    assert_eq!(res.is_err(), true);
    res = gen.validate_input(ProjectType::Nested, &vec![]);
    assert_eq!(res.is_err(), true);
    res = gen.validate_input(ProjectType::NestedBin, &vec![]);
    assert_eq!(res.is_err(), true);
}

#[test]
fn validator_bin_and_lib_accept_anything() {
    let gen = RustGenerator;
    assert!(gen.validate_input(ProjectType::Bin, &vec![]).is_ok());
    assert!(gen
        .validate_input(ProjectType::Bin, &vec![s("a"), s("b/c")])
        .is_ok());
    assert!(gen.validate_input(ProjectType::Lib, &vec![]).is_ok());
    assert!(gen.validate_input(ProjectType::Lib, &vec![s("x/")]).is_ok());
}

#[test]
fn validator_error_values() {
    let gen = RustGenerator;
    assert_eq!(
        gen.validate_input(ProjectType::Nested, &vec![]).unwrap_err(),
        GenError::NoSubprojects
    );
    assert_eq!(
        gen.validate_input(ProjectType::Empty, &vec![s("gui")])
            .unwrap_err(),
        GenError::EmptyHasLibs
    );
}

#[test]
fn every_root_becomes_a_key() {
    let gen = RustGenerator;
    let libs = vec![s("alpha"), s("beta/"), s("alpha/x"), s("gamma/y/z"), s("beta")];
    let ret = gen.parse_lib_str(&libs);
    assert_eq!(ret.num_roots(), 3);
    assert!(ret.get(&s("alpha")).is_some());
    assert!(ret.get(&s("beta")).is_some());
    assert!(ret.get(&s("gamma")).is_some());
    assert!(ret.get(&s("delta")).is_none());
    // a bare root keeps an empty list even when named twice
    assert!(ret.get(&s("beta")).unwrap().is_empty());
    assert_eq!(ret.get(&s("alpha")).unwrap(), &vec![s("x")]);
    assert_eq!(ret.get(&s("gamma")).unwrap(), &vec![s("y/z")]);
}

#[test]
fn parser_skips_entries_with_empty_root() {
    let gen = RustGenerator;
    let libs = vec![s("/leading"), s("/"), s("ok/child")];
    let ret = gen.parse_lib_str(&libs);
    assert_eq!(ret.num_roots(), 1);
    assert_eq!(ret.root_at(0).as_str(), "ok");
}

#[test]
fn materialize_dir_and_file_entries() {
    let mut fs = FsModel {
        dirs: vec![s("src")],
        files: vec![s("src/lib.rs")],
    };
    let acts = materialize(&mut fs, &s("src"), &vec![s("sub/"), s("sub/leaf")]).unwrap();
    assert_eq!(acts[0], FsAction::CreateDirAll(s("src/sub")));
    assert_eq!(acts[1], FsAction::CreateFile(s("src/sub/mod.rs")));
    assert_eq!(acts[2], FsAction::AppendLine(s("src/lib.rs"), s("mod sub;")));
    assert_eq!(acts[3], FsAction::CreateDirAll(s("src/sub")));
    assert_eq!(acts[4], FsAction::CreateFile(s("src/sub/leaf.rs")));
    assert_eq!(
        acts[5],
        FsAction::AppendLine(s("src/sub/mod.rs"), s("mod leaf;"))
    );
    assert_eq!(acts.len(), 6);
}

#[test]
fn materialize_skips_registration_without_owning_file() {
    // no mod.rs and no lib.rs anywhere: the files are created but no
    // declaration is appended
    let mut fs = FsModel {
        dirs: vec![s("src")],
        files: vec![],
    };
    let acts = materialize(&mut fs, &s("src"), &vec![s("web/core")]).unwrap();
    assert_eq!(acts[0], FsAction::CreateDirAll(s("src/web")));
    assert_eq!(acts[1], FsAction::CreateFile(s("src/web/core.rs")));
    assert_eq!(acts.len(), 2);
}

#[test]
fn materialize_missing_source_root() {
    let mut fs = FsModel::new();
    let r = materialize(&mut fs, &s("src"), &vec![s("a")]);
    assert_eq!(r.unwrap_err(), GenError::SourceRootMissing);
}

#[test]
fn materialize_twice_duplicates_declarations() {
    let mut fs = FsModel {
        dirs: vec![s("src")],
        files: vec![s("src/lib.rs")],
    };
    let entries = vec![s("util")];
    let first = materialize(&mut fs, &s("src"), &entries).unwrap();
    let second = materialize(&mut fs, &s("src"), &entries).unwrap();
    let line = FsAction::AppendLine(s("src/lib.rs"), s("mod util;"));
    assert!(first.contains(&line));
    // the second pass truncates the file again and appends the same
    // declaration a second time: materialization is not idempotent
    assert!(second.contains(&line));
    assert_eq!(first, second);
}

#[test]
fn create_nested_bin_end_to_end() {
    let gen = RustGenerator;
    let steps = gen
        .create(
            ProjectType::NestedBin,
            &s("myapp"),
            &vec![s("web/rest"), s("gui")],
        )
        .unwrap();
    assert_eq!(steps[0], PlanStep::CreateRootDir(s("myapp")));
    assert_eq!(steps[1], PlanStep::EnterDir(s("myapp")));
    assert_eq!(steps[2], PlanStep::CreateCrate(ProjectType::Lib, s("web")));
    assert_eq!(
        steps[3],
        PlanStep::Fs(FsAction::CreateFile(s("web/src/rest.rs")))
    );
    assert_eq!(
        steps[4],
        PlanStep::Fs(FsAction::AppendLine(s("web/src/lib.rs"), s("mod rest;")))
    );
    assert_eq!(steps[5], PlanStep::CreateCrate(ProjectType::Lib, s("gui")));
    assert_eq!(steps[6], PlanStep::CreateCrate(ProjectType::Bin, s("myapp")));
    assert_eq!(steps[7], PlanStep::RestoreDir);
    assert_eq!(steps.len(), 8);
    // the plan's working-location changes balance out
    let enters = steps
        .iter()
        .filter(|st| matches!(st, PlanStep::EnterDir(_)))
        .count();
    let restores = steps
        .iter()
        .filter(|st| matches!(st, PlanStep::RestoreDir))
        .count();
    assert_eq!(enters, restores);
}

#[test]
fn create_nested_without_libs_fails() {
    let gen = RustGenerator;
    let r = gen.create(ProjectType::Nested, &s("myapp"), &vec![]);
    assert_eq!(r.unwrap_err(), GenError::NoSubprojects);
    let r = gen.create(ProjectType::NestedBin, &s("myapp"), &vec![]);
    assert_eq!(r.unwrap_err(), GenError::NoSubprojects);
}

#[test]
fn create_empty_project() {
    let gen = RustGenerator;
    let steps = gen.create(ProjectType::Empty, &s("bare"), &vec![]).unwrap();
    assert_eq!(steps[0], PlanStep::CreateCrate(ProjectType::Empty, s("bare")));
    assert_eq!(steps.len(), 1);
    let r = gen.create(ProjectType::Empty, &s("bare"), &vec![s("x")]);
    assert_eq!(r.unwrap_err(), GenError::EmptyHasLibs);
}

#[test]
fn create_flat_lib_project() {
    let gen = RustGenerator;
    let steps = gen
        .create(ProjectType::Lib, &s("proj"), &vec![s("web/core"), s("gui")])
        .unwrap();
    assert_eq!(steps[0], PlanStep::CreateCrate(ProjectType::Lib, s("proj")));
    // "web/core" materializes under the skeleton's source directory; its
    // owning directory has no module file yet, so no declaration is appended
    assert_eq!(
        steps[1],
        PlanStep::Fs(FsAction::CreateDirAll(s("proj/src/web")))
    );
    assert_eq!(
        steps[2],
        PlanStep::Fs(FsAction::CreateFile(s("proj/src/web/core.rs")))
    );
    // the bare root "gui" becomes a directory module, registered with the
    // skeleton's root module file
    assert_eq!(
        steps[3],
        PlanStep::Fs(FsAction::CreateDirAll(s("proj/src/gui")))
    );
    assert_eq!(
        steps[4],
        PlanStep::Fs(FsAction::CreateFile(s("proj/src/gui/mod.rs")))
    );
    assert_eq!(
        steps[5],
        PlanStep::Fs(FsAction::AppendLine(s("proj/src/lib.rs"), s("mod gui;")))
    );
    assert_eq!(steps.len(), 6);
}

#[test]
fn file_ext_per_builder() {
    assert_eq!(get_file_ext(ProjectBuilder::Rust), ".rs");
    assert_eq!(get_file_ext(ProjectBuilder::Python), ".py");
    assert_eq!(get_file_ext(ProjectBuilder::Build2), ".xpp");
}

#[test]
fn type_str_per_project_type() {
    assert_eq!(get_type_str(ProjectType::Empty), "--empty");
    assert_eq!(get_type_str(ProjectType::Bin), "--bin");
    assert_eq!(get_type_str(ProjectType::Lib), "--lib");
    assert_eq!(get_type_str(ProjectType::Nested), "--lib");
    assert_eq!(get_type_str(ProjectType::NestedBin), "--lib");
}

#[test]
fn generator_selection() {
    assert!(get_generator(ProjectBuilder::Rust).is_ok());
    assert_eq!(
        get_generator(ProjectBuilder::Python).unwrap_err(),
        GenError::NotImplemented
    );
    assert_eq!(
        get_generator(ProjectBuilder::Build2).unwrap_err(),
        GenError::NotImplemented
    );
    assert_eq!(
        import_package_json(&s("pkg.json")).unwrap_err(),
        GenError::NotImplemented
    );
}

#[test]
fn error_messages() {
    assert_eq!(
        GenError::NoSubprojects.message(),
        "No subprojects specified for nested project"
    );
    assert_eq!(
        GenError::EmptyHasLibs.message(),
        "Empty projects have no libraries attached."
    );
    assert_eq!(
        GenError::SourceRootMissing.message(),
        "Src path for library files not found."
    );
    assert_eq!(GenError::NotImplemented.message(), "Not implemented.");
}
