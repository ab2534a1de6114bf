use nix_updater::ast::{Ast, EditError};
use nix_updater::clients::{branch_step, find_wheel, BranchStep, Nix, PyPiProjectInfo, PyPiProjectResponse, PyPiReleaseFile};
use nix_updater::package::{UpdateResult, UpdateStatus};
use nix_updater::strategy::{
    all_up_to_date, apply_hash_job, begin_checkout_update, HashJob, begin_revision_update, begin_update, edit_cargo_git, edit_checkout, edit_crate_release, edit_go, edit_npm, edit_release,
    needs_build, npm_version, package_lock_url, pypi_hash_jobs, release_hash_jobs, record_build, record_cached, release_asset_url, release_tarball_url,
    report_order, should_push_cache, should_remove_logs, tag_version,
};

#[test]
fn unchanged_upstream_is_up_to_date_twice() {
    let text = "{ version = \"1.0\"; }";
    let ast = Ast::from_text(text);
    let mut r = UpdateResult::new();
    assert!(!begin_update(&mut r, false, "1.0", "1.0"));
    assert!(r.status.contains(UpdateStatus::UpToDate));
    assert_eq!(r.message, Some("Up to date".to_string()));
    assert!(!begin_update(&mut r, false, "1.0", "1.0"));
    assert!(r.status.contains(UpdateStatus::UpToDate));
    assert_eq!(r.message, Some("Up to date".to_string()));
    assert!(r.changes.is_empty() && r.old_version.is_none());
    assert_eq!(ast.content(), text);
    let mut f = UpdateResult::new();
    assert!(begin_update(&mut f, true, "1.0", "1.0"));
    assert!(begin_update(&mut f, false, "1.0", "1.1"));
    assert!(!f.status.contains(UpdateStatus::UpToDate));
}

#[test]
fn crate_release_edit() {
    let mut ast = Ast::from_text("{ version = \"1.0\"; hash = \"sha256-A=\"; cargoHash = \"sha256-C=\"; }");
    assert_eq!(edit_crate_release(&mut ast, "1.0", "1.1", "sha256-B="), Ok(()));
    assert_eq!(ast.content(), "{ version = \"1.1\"; hash = \"sha256-B=\"; cargoHash = \"\"; }");
    let mut bad = Ast::from_text("{ version = \"2.0\"; }");
    assert_eq!(edit_crate_release(&mut bad, "1.0", "1.1", "sha256-B="), Err(EditError::NotFound));
}

#[test]
fn cargo_git_edit() {
    let mut ast = Ast::from_text("{ version = \"old\"; rev = \"aaaa\"; hash = \"sha256-A=\"; cargoHash = \"sha256-C=\"; }");
    let v = edit_cargo_git(&mut ast, "aaaa", "0123456789abcdef", "sha256-B=", "old");
    assert_eq!(v, Ok("01234567".to_string()));
    assert_eq!(ast.content(), "{ version = \"01234567\"; rev = \"0123456789abcdef\"; hash = \"sha256-B=\"; cargoHash = \"\"; }");
}

#[test]
fn checkout_edit_reports_cargo_hash() {
    let mut ast = Ast::from_text("{ rev = \"aaaa\"; hash = \"sha256-A=\"; vendorHash = \"sha256-V=\"; cargoHash = \"x\"; }");
    assert_eq!(edit_checkout(&mut ast, Some("aaaa"), "bbbb", "sha256-B=", "sha256-A="), Ok(true));
    assert_eq!(ast.content(), "{ rev = \"bbbb\"; hash = \"sha256-B=\"; vendorHash = \"\"; cargoHash = \"x\"; }");
    let mut plain = Ast::from_text("{ rev = \"aaaa\"; hash = \"sha256-A=\"; }");
    assert_eq!(edit_checkout(&mut plain, Some("aaaa"), "", "sha256-B=", "sha256-A="), Ok(false));
    assert_eq!(plain.content(), "{ rev = \"aaaa\"; hash = \"sha256-B=\"; }");
}

#[test]
fn go_and_npm_edits() {
    let mut go = Ast::from_text("{ rev = \"aaaa\"; hash = \"sha256-A=\"; vendorHash = \"sha256-V=\"; }");
    assert_eq!(edit_go(&mut go, Some("aaaa"), "bbbb", "sha256-B="), Ok(()));
    assert_eq!(go.content(), "{ rev = \"bbbb\"; hash = \"sha256-B=\"; vendorHash = \"\"; }");
    let mut npm = Ast::from_text("{ version = \"1.2.3-aaaa\"; rev = \"aaaa\"; hash = \"sha256-A=\"; npmDepsHash = \"sha256-N=\"; }");
    let v = edit_npm(&mut npm, Some("aaaa"), "0123456789ab", "sha256-B=", "1.2.3-0123456789ab");
    assert_eq!(v, Ok("1.2.3-01234567".to_string()));
    assert_eq!(npm.content(), "{ version = \"1.2.3-01234567\"; rev = \"0123456789ab\"; hash = \"sha256-B=\"; npmDepsHash = \"\"; }");
}

#[test]
fn release_edit_and_naming() {
    let mut ast = Ast::from_text("{ version = \"1.0\"; hash = \"sha256-A=\"; }");
    assert_eq!(edit_release(&mut ast, "1.0", "1.1", "sha256-A=", Some("sha256-B=")), Ok(()));
    assert_eq!(ast.content(), "{ version = \"1.1\"; hash = \"sha256-B=\"; }");
    assert_eq!(tag_version("v1.2.3"), "1.2.3");
    assert_eq!(tag_version("1.2.3"), "1.2.3");
    assert_eq!(npm_version("1.2.3-beta", "sha256-0123456789"), "1.2.3-01234567");
    assert_eq!(npm_version("2.0", "abc"), "2.0-abc");
    assert_eq!(release_asset_url("o/r", "v1", "x.whl"), "https://github.com/o/r/releases/download/v1/x.whl");
    assert_eq!(release_tarball_url("https://github.com/o/r", "v1"), "https://github.com/o/r/archive/refs/tags/v1.tar.gz");
    assert_eq!(package_lock_url("o/r", "abc"), "https://raw.githubusercontent.com/o/r/abc/package-lock.json");
}

#[test]
fn build_and_cache_decisions() {
    let mut r = UpdateResult::new();
    assert!(!needs_build(&r, false, false));
    assert!(needs_build(&r, true, false));
    assert!(needs_build(&r, false, true));
    r.version(Some("1"), Some("2"));
    assert!(needs_build(&r, false, false));
    assert!(!should_push_cache(&r, true));
    record_build(&mut r, false);
    assert!(!r.status.contains(UpdateStatus::Built));
    record_build(&mut r, true);
    assert!(should_push_cache(&r, true));
    assert!(!should_push_cache(&r, false));
    record_cached(&mut r);
    assert_eq!(r.status(UpdateStatus::Cached), "✓");
    let mut f = UpdateResult::new();
    f.failed("update failed");
    assert!(!needs_build(&f, true, true));
    record_build(&mut f, true);
    record_cached(&mut f);
    assert!(!f.status.contains(UpdateStatus::Built));
    assert!(!f.status.contains(UpdateStatus::Cached));
    assert!(f.status.contains(UpdateStatus::Failed));
}

#[test]
fn prefetch_outcomes() {
    let mut ast = Ast::from_text("{ hash = \"sha256-OLD=\"; }");
    let mut r = UpdateResult::new();
    let job = HashJob { label: "linux".to_string(), old_hash: "sha256-OLD=".to_string(), url: "u".to_string() };
    assert_eq!(apply_hash_job(&mut ast, &mut r, &job, Some("sha256-NEW="), "Failed to get hash for platform "), Ok(true));
    assert_eq!(ast.content(), "{ hash = \"sha256-NEW=\"; }");
    assert!(!r.status.contains(UpdateStatus::Failed));
    assert_eq!(apply_hash_job(&mut ast, &mut r, &job, Some("sha256-X="), "x"), Err(EditError::NotFound));
    assert_eq!(apply_hash_job(&mut ast, &mut r, &job, None, "Failed to get hash for platform "), Ok(false));
    assert_eq!(ast.content(), "{ hash = \"sha256-NEW=\"; }");
    assert!(r.status.contains(UpdateStatus::Failed));
    assert_eq!(r.message, Some("Failed to get hash for platform linux".to_string()));
}

fn built() -> UpdateResult {
    let mut r = UpdateResult::new();
    record_build(&mut r, true);
    r
}

#[test]
fn logs_removed_only_when_all_built() {
    assert!(should_remove_logs(&vec![built(), built()]));
    let mut failed = UpdateResult::new();
    failed.failed("update failed");
    assert!(!should_remove_logs(&vec![built(), failed, built()]));
    assert!(should_remove_logs(&vec![]));
}

#[test]
fn report_lists_each_recipe_once_by_name() {
    let mut failed = UpdateResult::new();
    failed.failed("update failed");
    let mut same = UpdateResult::new();
    same.up_to_date();
    let results = vec![built(), failed, same, built()];
    let names = vec!["zeta".to_string(), "beta".to_string(), "alpha".to_string(), "alpha2".to_string()];
    assert_eq!(report_order(&results, &names), vec![3, 1, 0]);
    assert!(!all_up_to_date(&results));
    let mut a = UpdateResult::new();
    a.up_to_date();
    assert!(all_up_to_date(&vec![a]));
}

#[test]
fn branch_resolution_falls_back() {
    match branch_step(None, 0, None) {
        BranchStep::Query(b) => assert_eq!(b, "HEAD"),
        _ => panic!("expected a lookup"),
    }
    match branch_step(None, 1, None) {
        BranchStep::Query(b) => assert_eq!(b, "main"),
        _ => panic!("expected a lookup"),
    }
    match branch_step(None, 2, None) {
        BranchStep::Query(b) => assert_eq!(b, "master"),
        _ => panic!("expected a lookup"),
    }
    assert!(matches!(branch_step(None, 3, None), BranchStep::NotFound));
    match branch_step(None, 2, Some("abc")) {
        BranchStep::Resolved(c) => assert_eq!(c, "abc"),
        _ => panic!("expected the commit"),
    }
    match branch_step(Some("develop"), 0, None) {
        BranchStep::Query(b) => assert_eq!(b, "develop"),
        _ => panic!("expected a lookup"),
    }
    assert!(matches!(branch_step(Some("develop"), 1, None), BranchStep::NotFound));
}

#[test]
fn wheels_and_releases() {
    let files = vec![
        PyPiReleaseFile { filename: "foo-1.0-manylinux_x86_64.whl".to_string(), url: "u1".to_string() },
        PyPiReleaseFile { filename: "foo-1.0-macosx_arm64.whl".to_string(), url: "u2".to_string() },
    ];
    assert_eq!(find_wheel(&files, "macosx"), Some(1));
    assert_eq!(find_wheel(&files, "win"), None);
    let resp = PyPiProjectResponse { info: PyPiProjectInfo { version: "1.0".to_string() }, releases: vec![("1.0".to_string(), files)] };
    assert_eq!(resp.releases_for("1.0").map(|f| f.len()), Some(2));
    assert!(resp.releases_for("2.0").is_none());
}

#[test]
fn resolver_answer_is_last_line() {
    assert_eq!(Nix::answer_line("progress\n{\"args\":1}\n\n"), Some("{\"args\":1}".to_string()));
    assert_eq!(Nix::answer_line("  \n "), None);
    assert_eq!(Nix::answer_line("one"), Some("one".to_string()));
}

#[test]
fn platform_hash_jobs() {
    let ast = Ast::from_text("{ dists = { linux = { platform = \"manylinux\"; hash = \"sha256-L=\"; }; mac = { platform = \"macosx\"; hash = \"sha256-M=\"; }; }; }");
    let files = vec![
        PyPiReleaseFile { filename: "foo-macosx.whl".to_string(), url: "https://m".to_string() },
        PyPiReleaseFile { filename: "foo-manylinux.whl".to_string(), url: "https://l".to_string() },
    ];
    let jobs = pypi_hash_jobs(&ast.platforms(), &files).ok().unwrap();
    assert_eq!(jobs.len(), 2);
    assert_eq!((jobs[0].label.as_str(), jobs[0].old_hash.as_str(), jobs[0].url.as_str()), ("linux", "sha256-L=", "https://l"));
    assert_eq!((jobs[1].label.as_str(), jobs[1].old_hash.as_str(), jobs[1].url.as_str()), ("mac", "sha256-M=", "https://m"));
    let only_mac = vec![PyPiReleaseFile { filename: "foo-macosx.whl".to_string(), url: "https://m".to_string() }];
    assert_eq!(pypi_hash_jobs(&ast.platforms(), &only_mac).err(), Some("No wheel found for platform manylinux".to_string()));
    let gh = Ast::from_text("{ platformData = { linux = { filename = \"foo-linux.tar.gz\"; hash = \"sha256-OLD=\"; }; }; }");
    let jobs = release_hash_jobs(&gh.platforms(), "o/r", "v2");
    assert_eq!(jobs.len(), 1);
    assert_eq!(jobs[0].url, "https://github.com/o/r/releases/download/v2/foo-linux.tar.gz");
    assert_eq!(jobs[0].old_hash, "sha256-OLD=");
}

#[test]
fn checkout_and_revision_decisions() {
    let mut r = UpdateResult::new();
    assert!(!begin_checkout_update(&mut r, false, "sha256-A=", "sha256-A=", Some("aaaa"), Some("aaaa")));
    assert!(r.status.contains(UpdateStatus::UpToDate));
    let mut r = UpdateResult::new();
    assert!(begin_checkout_update(&mut r, false, "sha256-A=", "sha256-A=", Some("aaaa"), Some("bbbb")));
    assert!(begin_checkout_update(&mut r, false, "sha256-A=", "sha256-B=", None, None));
    assert!(begin_checkout_update(&mut r, true, "sha256-A=", "sha256-A=", None, None));
    assert!(!r.status.contains(UpdateStatus::UpToDate));
    let mut r = UpdateResult::new();
    assert!(!begin_revision_update(&mut r, false, Some("aaaa"), Some("aaaa")));
    assert!(r.status.contains(UpdateStatus::UpToDate));
    let mut r = UpdateResult::new();
    assert!(begin_revision_update(&mut r, false, None, Some("aaaa")));
    assert!(begin_revision_update(&mut r, false, Some("aaaa"), Some("bbbb")));
    assert!(!begin_revision_update(&mut r, false, Some("aaaa"), None));
    assert!(r.status.contains(UpdateStatus::Failed));
    assert_eq!(r.message, Some("Could not get latest commit from GitHub".to_string()));
}
