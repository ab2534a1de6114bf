use nix_updater::ast::{Ast, EditError};
use nix_updater::oracle::extract_hash;
use nix_updater::package::{classify, PackageKind};

#[test]
fn set_rewrites_version_in_recipe() {
    let mut ast = Ast::from_text("{\npname = \"foo\";\nversion = \"1.0.0\";\nhash = \"sha256-AAAA=\";\n}");
    assert_eq!(ast.set("version", "1.0.0", "1.2.0"), Ok(()));
    assert_eq!(ast.content(), "{\npname = \"foo\";\nversion = \"1.2.0\";\nhash = \"sha256-AAAA=\";\n}");
}

#[test]
fn set_then_get_round_trip() {
    let before = "{ lib, fetchurl }:\n{\n  pname = \"foo\";\n  # keep this comment\n  version   =  \"1.0.0\";\n  hash = \"sha256-AAAA=\";\n}\n";
    let mut ast = Ast::from_text(before);
    assert_eq!(ast.get("version"), Some("1.0.0".to_string()));
    assert_eq!(ast.set("version", "1.0.0", "1.2.0"), Ok(()));
    assert_eq!(ast.get("version"), Some("1.2.0".to_string()));
    assert_eq!(ast.content(), before.replace("\"1.0.0\"", "\"1.2.0\""));
    assert_eq!(ast.get("pname"), Some("foo".to_string()));
}

#[test]
fn set_missing_attribute_fails() {
    let text = "{ pname = \"foo\"; version = \"1.0.0\"; }";
    let mut ast = Ast::from_text(text);
    assert_eq!(ast.set("version", "9.9.9", "1.2.0"), Err(EditError::NotFound));
    assert_eq!(ast.set("rev", "1.0.0", "1.2.0"), Err(EditError::NotFound));
    assert_eq!(ast.content(), text);
}

#[test]
fn set_skips_interpolated_string() {
    let text = "{ pname = \"foo\"; src = \"${pname}-1.0\"; }";
    let mut ast = Ast::from_text(text);
    assert_eq!(ast.get("src"), Some("${pname}-1.0".to_string()));
    assert_eq!(ast.set("src", "${pname}-1.0", "bar"), Ok(()));
    assert_eq!(ast.content(), text);
}

#[test]
fn get_reads_identifier_let_and_inherit() {
    let ast = Ast::from_text("let\n  owner = \"me\";\nin {\n  pname = \"foo\";\n  repo = pname;\n  inherit version;\n}");
    assert_eq!(ast.get("repo"), Some("pname".to_string()));
    assert_eq!(ast.get("owner"), Some("me".to_string()));
    assert_eq!(ast.get("version"), None);
    assert_eq!(ast.get("missing"), None);
}

#[test]
fn get_reaches_let_binding_after_inherit() {
    let ast = Ast::from_text("{ a = { inherit foo; }; b = let foo = \"y\"; in foo; }");
    assert_eq!(ast.get("foo"), Some("y".to_string()));
    let direct = Ast::from_text("let foo = \"y\"; in { foo = \"x\"; }");
    assert_eq!(direct.get("foo"), Some("x".to_string()));
}

#[test]
fn platforms_yields_two_blocks() {
    let ast = Ast::from_text("{ platformData = { linux = { filename = \"foo-linux.whl\"; hash = \"sha256-OLD=\"; }; mac = { filename = \"foo-mac.whl\"; hash = \"sha256-OLD2=\"; }; }; }");
    let blocks = ast.platforms();
    assert_eq!(blocks.len(), 2);
    assert_eq!(blocks[0].platform_name, "linux");
    assert_eq!(blocks[0].get("filename"), Some("foo-linux.whl".to_string()));
    assert_eq!(blocks[0].get("hash"), Some("sha256-OLD=".to_string()));
    assert_eq!(blocks[1].platform_name, "mac");
    assert_eq!(blocks[1].get("filename"), Some("foo-mac.whl".to_string()));
    assert_eq!(blocks[1].get("hash"), Some("sha256-OLD2=".to_string()));
    assert_eq!(blocks[0].attributes.len(), 2);
    assert_eq!(blocks[1].attributes.len(), 2);
}

#[test]
fn platforms_keep_to_their_container() {
    let ast = Ast::from_text("{ meta = { linux = { filename = \"x\"; }; }; dists = { \"x86_64\" = { platform = \"manylinux\"; hash = \"sha256-A=\"; extra = { deep = \"no\"; }; }; empty = { n = 1; }; }; }");
    let blocks = ast.platforms();
    assert_eq!(blocks.len(), 1);
    assert_eq!(blocks[0].platform_name, "x86_64");
    assert_eq!(blocks[0].get("platform"), Some("manylinux".to_string()));
    assert_eq!(blocks[0].get("filename"), None);
    assert_eq!(blocks[0].get("deep"), None);
    assert_eq!(blocks[0].attributes.len(), 2);
}

#[test]
fn platforms_of_recipe_without_container() {
    let ast = Ast::from_text("{ pname = \"foo\"; }");
    assert_eq!(ast.platforms().len(), 0);
}

#[test]
fn update_git_replaces_rev_version_and_hash() {
    let mut ast = Ast::from_text("{ version = \"0-unstable-aaaa1111\"; src = fetchFromGitHub { rev = \"aaaa1111\"; hash = \"sha256-OLD=\"; }; }");
    assert_eq!(ast.update_git(Some("aaaa1111"), "bbbb2222", "sha256-NEW=", None), Ok(()));
    assert_eq!(ast.content(), "{ version = \"0-unstable-bbbb2222\"; src = fetchFromGitHub { rev = \"bbbb2222\"; hash = \"sha256-NEW=\"; }; }");
}

#[test]
fn update_git_keeps_unrelated_version() {
    let mut ast = Ast::from_text("{ version = \"1.0\"; rev = \"aaaa\"; hash = \"sha256-OLD=\"; }");
    assert_eq!(ast.update_git(Some("aaaa"), "bbbb", "", None), Ok(()));
    assert_eq!(ast.content(), "{ version = \"1.0\"; rev = \"bbbb\"; hash = \"sha256-OLD=\"; }");
}

#[test]
fn update_git_with_wrong_old_rev_fails() {
    let mut ast = Ast::from_text("{ rev = \"aaaa\"; hash = \"sha256-OLD=\"; }");
    assert_eq!(ast.update_git(Some("cccc"), "bbbb", "sha256-NEW=", None), Err(EditError::NotFound));
    assert_eq!(ast.update_git(None, "bbbb", "sha256-NEW=", Some("sha256-OLD=")), Ok(()));
    assert_eq!(ast.content(), "{ rev = \"aaaa\"; hash = \"sha256-NEW=\"; }");
}

#[test]
fn update_vendor_takes_hash_from_failed_build() {
    let mut ast = Ast::from_text("{ cargoHash = \"\"; }");
    let diag = "error: hash mismatch in fixed-output derivation\n         specified: sha256-AAAAAAAAAAAAAAAAAAAAAAAAAAAAAAAAAAAAAAAAAAA=\n            got:    sha256-ABC123=\n";
    assert_eq!(ast.update_vendor("cargo", false, diag), Ok(()));
    assert_eq!(ast.content(), "{ cargoHash = \"sha256-ABC123=\"; }");
}

#[test]
fn update_vendor_leaves_text_after_successful_build() {
    let mut ast = Ast::from_text("{ vendorHash = \"\"; }");
    assert_eq!(ast.update_vendor("vendor", true, "got: sha256-X="), Ok(()));
    assert_eq!(ast.content(), "{ vendorHash = \"\"; }");
    assert_eq!(ast.update_vendor("vendor", false, "no hash here"), Ok(()));
    assert_eq!(ast.content(), "{ vendorHash = \"\"; }");
}

#[test]
fn update_vendor_fills_empty_assignment_when_absent() {
    let mut ast = Ast::from_text("{ npmDepsHash = \"\" + \"\"; }");
    assert_eq!(ast.get("npmDepsHash"), None);
    assert_eq!(ast.update_vendor("npmDeps", false, "got: sha256-N="), Ok(()));
    assert_eq!(ast.content(), "{ npmDepsHash = \"sha256-N=\" + \"\"; }");
}

#[test]
fn oracle_extracts_hash_after_marker() {
    assert_eq!(extract_hash("...got: sha256-ABC123=\n"), Some("sha256-ABC123=".to_string()));
    assert_eq!(extract_hash("a\n   got:    sha256-Z= trailing\nmore"), Some("sha256-Z=".to_string()));
    assert_eq!(extract_hash("nothing to see"), None);
    assert_eq!(extract_hash("got:\nsha256-next-line="), None);
    assert_eq!(extract_hash("got:   \t\n"), None);
}

#[test]
fn detects_function_calls_and_kinds() {
    let rust = Ast::from_text("{ rustPlatform }: rustPlatform.buildRustPackage { pname = \"x\"; }");
    assert!(rust.contains_function_call("buildRustPackage"));
    assert!(!rust.contains_function_call("fetchPypi"));
    assert_eq!(classify(&rust), PackageKind::Cargo);
    let py = Ast::from_text("{ src = fetchPypi { pname = \"x\"; }; }");
    assert_eq!(classify(&py), PackageKind::PyPi);
    let npm = Ast::from_text("buildNpmPackage { pname = \"x\"; }");
    assert_eq!(classify(&npm), PackageKind::Npm);
    let go = Ast::from_text("buildGoModule { pname = \"x\"; }");
    assert_eq!(classify(&go), PackageKind::Go);
    let gh = Ast::from_text("{ url = \"https://github.com/o/r/releases/download/v1/x.tar.gz\"; }");
    assert_eq!(classify(&gh), PackageKind::GitHub);
    let git = Ast::from_text("{ src = fetchgit { url = \"https://example.org/r.git\"; }; }");
    assert_eq!(classify(&git), PackageKind::Git);
    assert_eq!(PackageKind::GitHub.label(), "GitHub");
}

#[test]
fn non_ascii_text_keeps_spans() {
    let mut ast = Ast::from_text("{ description = \"ünïcödé — ok\"; version = \"1\"; }");
    assert_eq!(ast.get("description"), Some("ünïcödé — ok".to_string()));
    assert_eq!(ast.set("version", "1", "2"), Ok(()));
    assert_eq!(ast.content(), "{ description = \"ünïcödé — ok\"; version = \"2\"; }");
}
