use nix_updater::cache::Cache;
use nix_updater::config::Config;
use nix_updater::package::{DiscoveryError, Package, PackageKind};
use nix_updater::package::{is_selected, short_hash, should_skip_update, StatusSet, UpdateResult, UpdateStatus};

#[test]
fn short_hash_strips_prefix_and_cuts() {
    assert_eq!(short_hash("sha256-abcdefghijkl"), "abcdefgh");
    assert_eq!(short_hash("0123456789abcdef"), "01234567");
    assert_eq!(short_hash("abc"), "abc");
    assert_eq!(short_hash("sha256-"), "");
    assert_eq!(short_hash(""), "");
}

#[test]
fn skip_only_when_same_and_not_forced() {
    assert!(should_skip_update(false, "1.0", "1.0"));
    assert!(!should_skip_update(true, "1.0", "1.0"));
    assert!(!should_skip_update(false, "1.0", "1.1"));
}

#[test]
fn failed_overrides_other_statuses() {
    let mut r = UpdateResult::new();
    r.up_to_date();
    r.failed("boom");
    assert!(r.status.contains(UpdateStatus::Failed));
    assert!(!r.status.contains(UpdateStatus::UpToDate));
    assert_eq!(r.message, Some("boom".to_string()));
    assert_eq!(r.status(UpdateStatus::Built), "✗");
    r.up_to_date();
    assert!(!r.status.contains(UpdateStatus::UpToDate));
}

#[test]
fn up_to_date_sets_message() {
    let mut r = UpdateResult::default();
    r.up_to_date();
    assert!(r.status.contains(UpdateStatus::UpToDate));
    assert_eq!(r.message, Some("Up to date".to_string()));
    assert_eq!(r.status(UpdateStatus::Updated), "-");
    r.message("custom");
    assert_eq!(r.message, Some("custom".to_string()));
}

#[test]
fn git_commit_records_short_change() {
    let mut r = UpdateResult::new();
    r.git_commit(Some("aaaaaaaaaaaa"), Some("bbbbbbbbbbbb"));
    assert!(r.status.contains(UpdateStatus::Updated));
    assert_eq!(r.changes, vec!["aaaaaaaa → bbbbbbbb".to_string()]);
    assert_eq!(r.old_git_commit, Some("aaaaaaaaaaaa".to_string()));
    assert_eq!(r.new_git_commit, Some("bbbbbbbbbbbb".to_string()));
    assert_eq!(r.status(UpdateStatus::Updated), "✓");
    r.git_commit(Some("c"), Some("c"));
    r.git_commit(None, Some("d"));
    assert_eq!(r.changes.len(), 1);
}

#[test]
fn version_change_ignores_interpolated_old() {
    let mut r = UpdateResult::new();
    r.version(Some("${base}-1"), Some("2"));
    assert!(!r.status.contains(UpdateStatus::Updated));
    assert!(r.changes.is_empty());
    r.version(Some("1.0"), Some("1.1"));
    assert_eq!(r.changes, vec!["1.0 → 1.1".to_string()]);
    assert_eq!(r.old_version, Some("1.0".to_string()));
    assert_eq!(r.new_version, Some("1.1".to_string()));
}

#[test]
fn status_set_operations() {
    let mut s = StatusSet::new();
    assert!(!s.contains(UpdateStatus::Built));
    s.insert(UpdateStatus::Built);
    s.insert(UpdateStatus::Cached);
    assert!(s.contains(UpdateStatus::Built) && s.contains(UpdateStatus::Cached));
    s.clear();
    assert!(!s.contains(UpdateStatus::Built));
    assert_eq!(UpdateStatus::default(), UpdateStatus::Unknown);
}

#[test]
fn selection_filters() {
    let none: Vec<String> = vec![];
    assert!(is_selected("python-foo", &none, &none));
    assert!(is_selected("python-foo", &vec!["foo".to_string()], &none));
    assert!(!is_selected("python-foo", &vec!["bar".to_string()], &none));
    assert!(!is_selected("python-foo", &none, &vec!["python-foo".to_string()]));
    assert!(is_selected("python-foo", &none, &vec!["foo".to_string()]));
}

#[test]
fn cache_entries_expire() {
    let mut c: Cache<String, u32> = Cache::new(100);
    c.insert("a".to_string(), 7, 1000);
    assert_eq!(c.get(&"a".to_string(), 1050), Some(7));
    assert_eq!(c.get(&"a".to_string(), 1100), None);
    assert_eq!(c.get(&"a".to_string(), 1050), None);
    c.insert("b".to_string(), 8, 2000);
    assert_eq!(c.get(&"b".to_string(), 1500), Some(8));
    c.clear();
    assert_eq!(c.get(&"b".to_string(), 2000), None);
}

#[test]
fn recipe_discovery_reads_fields() {
    let text = "{ fetchPypi }:\n{\n  pname = \"foo\";\n  version = \"1.0\";\n  src = fetchPypi { inherit pname version; hash = \"sha256-A=\"; };\n  meta.homepage = \"https://github.com/owner/foo\";\n  homepage = \"https://github.com/owner/foo.git\";\n}\n";
    let none: Vec<String> = vec![];
    let p = Package::from_recipe("packages/foo.nix", text, &none, &none).unwrap().unwrap();
    assert_eq!(p.name, "foo");
    assert_eq!(p.path, "packages/foo.nix");
    assert_eq!(p.kind, PackageKind::PyPi);
    assert_eq!(p.version, "1.0");
    assert_eq!(p.nix_hash, "sha256-A=");
    assert_eq!(p.homepage, "https://github.com/owner/foo.git");
    assert_eq!(p.repo, Some("owner/foo".to_string()));
    assert_eq!(p.display_width(), 3);
    assert_eq!(p.name(), "\x1B]8;;https://github.com/owner/foo.git\x1B\\foo\x1B]8;;\x1B\\");
    assert!(!p.is_up_to_date());
    assert_eq!(p.ast().get("pname"), Some("foo".to_string()));
    assert!(Package::from_recipe("x.nix", text, &vec!["bar".to_string()], &none).unwrap().is_none());
    assert!(Package::from_recipe("x.nix", "{ version = \"1\"; }", &none, &none).unwrap().is_none());
    assert_eq!(
        Package::from_recipe("x.nix", "{ pname = \"a\"; version = \"1\"; hash = \"h\"; }", &none, &none).err(),
        Some(DiscoveryError::MissingHomepage)
    );
    assert_eq!(
        Package::from_recipe("x.nix", "{ pname = \"a\"; homepage = \"https://github.com/o/a\"; version = \"1\"; }", &none, &none).err(),
        Some(DiscoveryError::MissingHash)
    );
    assert_eq!(
        Package::from_recipe("x.nix", "{ pname = \"a\"; homepage = \"https://github.com/o/a\"; hash = \"h\"; }", &none, &none).err(),
        Some(DiscoveryError::MissingVersion)
    );
    let odd = Package::from_recipe("x.nix", "{ pname = \"a\"; homepage = \"a\u{0}b\"; hash = \"h\"; version = \"1\"; }", &none, &none);
    assert_eq!(odd.unwrap().unwrap().repo, None);
}

#[test]
fn recipe_homepages_without_repository_name() {
    let none: Vec<String> = vec![];
    for homepage in ["ssh://github.com", "git+ssh://host", "ssh://git@github.com/o/r.git", "https://example.org"] {
        let text = format!("{{ pname = \"a\"; homepage = \"{homepage}\"; hash = \"h\"; version = \"1\"; }}");
        let mut p = Package::from_recipe("x.nix", &text, &none, &none).unwrap().unwrap();
        assert_eq!(p.homepage, homepage);
        assert_eq!(p.repo, None);
        assert_eq!(p.repo_or_fail(), None);
        assert!(p.result.status.contains(UpdateStatus::Failed));
        assert_eq!(p.result.message, Some("Homepage has no owner/repo repository name".to_string()));
    }
    let text = "{ pname = \"a\"; homepage = \"https://github.com/o/r/tree/main\"; hash = \"h\"; version = \"1\"; }";
    let mut p = Package::from_recipe("x.nix", text, &none, &none).unwrap().unwrap();
    assert_eq!(p.repo_or_fail(), Some("o/r".to_string()));
    assert!(!p.result.status.contains(UpdateStatus::Failed));
    let text = "{ pname = \"a\"; homepage = \"git@github.com:o/r.git\"; hash = \"h\"; version = \"1\"; }";
    assert_eq!(Package::from_recipe("x.nix", text, &none, &none).unwrap().unwrap().repo, Some("o/r".to_string()));
}

#[test]
fn config_exclusions() {
    let c = Config { cachix_name: "me".to_string(), excluded_packages: vec!["foo".to_string()] };
    assert!(c.is_excluded("foo"));
    assert!(!c.is_excluded("foobar"));
}
