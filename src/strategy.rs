//! The per-source update strategies as decisions and edits: whether a recipe
//! needs work, what each kind of upstream changes in the recipe, where its
//! artifacts are fetched from, and how a batch ends.
use vstd::prelude::*;

use crate::ast::{get_attr, key_index, set_or_keep, update_git_text, Ast, BlockV, EditError, PlatformBlock, opt_str, blocks_view};
use crate::clients::{filenames, find_wheel, wheel_from, PyPiReleaseFile};
use crate::package::{short_hash, short_hash_spec, skip_spec, should_skip_update, UpdateResult, UpdateStatus};
use crate::text::{chars_of, string_of};

verus! {

/// The statuses after deciding whether a recipe at `current` needs updating
/// to `latest`: up to date when it does not (unless it already failed).
pub open spec fn begin_status(s: Set<UpdateStatus>, force: bool, current: Seq<char>, latest: Seq<char>) -> Set<UpdateStatus> {
    if skip_spec(force, current, latest) && !s.contains(UpdateStatus::Failed) {
        s.insert(UpdateStatus::UpToDate)
    } else {
        s
    }
}

/// A skipped recipe's record: the message says it is up to date, and the
/// versions, revisions and changes are as they were.
pub open spec fn skipped_record(before: UpdateResult, after: UpdateResult) -> bool {
    &&& crate::package::opt_string_view(after.message) == Some("Up to date"@)
    &&& after.old_version == before.old_version
    &&& after.new_version == before.new_version
    &&& after.old_git_commit == before.old_git_commit
    &&& after.new_git_commit == before.new_git_commit
    &&& after.changes == before.changes
}

/// Decides whether a recipe at `current` needs updating to `latest`; when it
/// does not, the result records it as up to date.
pub fn begin_update(result: &mut UpdateResult, force: bool, current: &str, latest: &str) -> (proceed: bool)
    ensures
        proceed == !skip_spec(force, current@, latest@),
        final(result).status@ == begin_status(old(result).status@, force, current@, latest@),
        proceed ==> *final(result) == *old(result),
        !proceed ==> skipped_record(*old(result), *final(result)),
{
    if should_skip_update(force, current, latest) {
        result.up_to_date();
        false
    } else {
        true
    }
}


/// Decides whether a plain checkout needs updating: it does not when both its
/// hash and its revision are already the resolver's and no update is forced.
pub fn begin_checkout_update(
    result: &mut UpdateResult,
    force: bool,
    current_hash: &str,
    new_hash: &str,
    current_rev: Option<&str>,
    new_rev: Option<&str>,
) -> (proceed: bool)
    ensures
        proceed == !(current_hash@ == new_hash@ && opt_str(current_rev) == opt_str(new_rev) && !force),
        final(result).status@ == if proceed {
            old(result).status@
        } else {
            begin_status(old(result).status@, force, current_hash@, new_hash@)
        },
        proceed ==> *final(result) == *old(result),
        !proceed ==> skipped_record(*old(result), *final(result)),
{
    let same_rev = match (current_rev, new_rev) {
        (Some(a), Some(b)) => a.to_string() == b.to_string(),
        (None, None) => true,
        _ => false,
    };
    proof {
        if current_rev is Some && new_rev is Some {
            assert(same_rev == (current_rev.unwrap()@ == new_rev.unwrap()@));
        }
    }
    if same_rev {
        begin_update(result, force, current_hash, new_hash)
    } else {
        true
    }
}

/// Decides whether a revision-based recipe needs updating: not when both
/// revisions are known and the skip rule holds; a failure when upstream gave
/// no revision.
pub fn begin_revision_update(result: &mut UpdateResult, force: bool, current: Option<&str>, latest: Option<&str>) -> (proceed: bool)
    ensures
        ({
            let c = opt_str(current);
            let l = opt_str(latest);
            if c is Some && l is Some && skip_spec(force, c.unwrap(), l.unwrap()) {
                !proceed && final(result).status@ == begin_status(old(result).status@, force, c.unwrap(), l.unwrap())
                    && skipped_record(*old(result), *final(result))
            } else if l is None {
                !proceed && final(result).status@ == set![UpdateStatus::Failed]
                    && crate::package::opt_string_view(final(result).message) == Some("Could not get latest commit from GitHub"@)
            } else {
                proceed && *final(result) == *old(result)
            }
        }),
{
    match (current, latest) {
        (Some(c), Some(l)) => {
            if !begin_update(result, force, c, l) {
                return false;
            }
        },
        _ => {},
    }
    if latest.is_none() {
        result.failed("Could not get latest commit from GitHub");
        return false;
    }
    true
}

/// The text after the attribute `attr` is cleared to the empty string (when
/// it is there), and whether that succeeded.
pub open spec fn clear_text(t: Seq<char>, attr: Seq<char>) -> (Seq<char>, bool) {
    match get_attr(t, attr) {
        Some(o) => set_or_keep(t, attr, o, Seq::empty()),
        None => (t, true),
    }
}

/// Clears attribute `attr` to the empty string, when it is there.
pub fn clear_attr(ast: &mut Ast, attr: &str) -> (r: Result<(), EditError>)
    ensures
        clear_text(old(ast)@, attr@) == (final(ast)@, r is Ok),
{
    proof {
        reveal_strlit("");
    }
    match ast.get(attr) {
        Some(o) => ast.set(attr, &o, ""),
        None => Ok(()),
    }
}

/// Recipe text after a crates.io release update: the version (when it
/// differs), the source hash (when there is one) and a cleared `cargoHash`.
pub open spec fn crate_release_text(t: Seq<char>, current: Seq<char>, latest: Seq<char>, new_hash: Seq<char>) -> (Seq<char>, bool) {
    let (t1, ok1) = if current != latest {
        set_or_keep(t, "version"@, current, latest)
    } else {
        (t, true)
    };
    if !ok1 {
        (t1, false)
    } else {
        let (t2, ok2) = match get_attr(t1, "hash"@) {
            Some(o) => set_or_keep(t1, "hash"@, o, new_hash),
            None => (t1, true),
        };
        if !ok2 {
            (t2, false)
        } else {
            clear_text(t2, "cargoHash"@)
        }
    }
}

/// Moves a recipe fetched from crates.io to release `latest`, whose source
/// hash is `new_hash`, and clears `cargoHash` for the build oracle.
pub fn edit_crate_release(ast: &mut Ast, current_version: &str, latest_version: &str, new_hash: &str) -> (r: Result<(), EditError>)
    ensures
        crate_release_text(old(ast)@, current_version@, latest_version@, new_hash@) == (final(ast)@, r is Ok),
{
    if current_version.to_string() != latest_version.to_string() {
        let r = ast.set("version", current_version, latest_version);
        if r.is_err() {
            return r;
        }
    }
    match ast.get("hash") {
        Some(o) => {
            let r = ast.set("hash", &o, new_hash);
            if r.is_err() {
                return r;
            }
        },
        None => {},
    }
    clear_attr(ast, "cargoHash")
}

/// Recipe text after a revision update of a Rust recipe: revision and hash,
/// the version set to the short revision (when it differs), and a cleared
/// `cargoHash`.
pub open spec fn cargo_git_text(t: Seq<char>, current_rev: Seq<char>, latest_rev: Seq<char>, new_hash: Seq<char>, current_version: Seq<char>) -> (Seq<char>, bool) {
    let (t1, ok1) = update_git_text(t, Some(current_rev), latest_rev, new_hash, None);
    if !ok1 {
        (t1, false)
    } else {
        let v = short_hash_spec(latest_rev);
        let (t2, ok2) = if current_version != v {
            set_or_keep(t1, "version"@, current_version, v)
        } else {
            (t1, true)
        };
        if !ok2 {
            (t2, false)
        } else {
            clear_text(t2, "cargoHash"@)
        }
    }
}

/// Moves a Rust recipe built from a git source to revision `latest_rev`;
/// returns the new version (the short revision).
pub fn edit_cargo_git(ast: &mut Ast, current_rev: &str, latest_rev: &str, new_hash: &str, current_version: &str) -> (r: Result<String, EditError>)
    ensures
        cargo_git_text(old(ast)@, current_rev@, latest_rev@, new_hash@, current_version@) == (final(ast)@, r is Ok),
        r matches Ok(v) ==> v@ == short_hash_spec(latest_rev@),
{
    let r = ast.update_git(Some(current_rev), latest_rev, new_hash, None);
    if r.is_err() {
        return Err(EditError::NotFound);
    }
    let v = short_hash(latest_rev);
    if current_version.to_string() != v {
        let r = ast.set("version", current_version, &v);
        if r.is_err() {
            return Err(EditError::NotFound);
        }
    }
    let r = clear_attr(ast, "cargoHash");
    if r.is_err() {
        return Err(EditError::NotFound);
    }
    Ok(v)
}

/// Recipe text after a plain checkout update: revision and hash (the old
/// hash given), then a cleared `vendorHash`.
pub open spec fn checkout_text(t: Seq<char>, old_rev: Option<Seq<char>>, new_rev: Seq<char>, new_hash: Seq<char>, current_hash: Seq<char>) -> (Seq<char>, bool) {
    let (t1, ok1) = update_git_text(t, old_rev, new_rev, new_hash, Some(current_hash));
    if !ok1 {
        (t1, false)
    } else {
        clear_text(t1, "vendorHash"@)
    }
}

/// Moves a plain source checkout to revision `new_rev` (empty when the
/// resolver gave none) with hash `new_hash`; returns whether the recipe has a
/// `cargoHash` for the build oracle to fill.
pub fn edit_checkout(ast: &mut Ast, old_rev: Option<&str>, new_rev: &str, new_hash: &str, current_hash: &str) -> (r: Result<bool, EditError>)
    ensures
        checkout_text(old(ast)@, opt_str(old_rev), new_rev@, new_hash@, current_hash@) == (final(ast)@, r is Ok),
        r matches Ok(b) ==> b == get_attr(final(ast)@, "cargoHash"@) is Some,
{
    let r = ast.update_git(old_rev, new_rev, new_hash, Some(current_hash));
    if r.is_err() {
        return Err(EditError::NotFound);
    }
    let r = clear_attr(ast, "vendorHash");
    if r.is_err() {
        return Err(EditError::NotFound);
    }
    Ok(ast.get("cargoHash").is_some())
}

/// Recipe text after a revision update whose dependency hash `lock_attr` is
/// then cleared for the build oracle.
pub open spec fn revision_text(t: Seq<char>, current_rev: Option<Seq<char>>, latest: Seq<char>, new_hash: Seq<char>, lock_attr: Seq<char>) -> (Seq<char>, bool) {
    let (t1, ok1) = update_git_text(t, current_rev, latest, new_hash, None);
    if !ok1 {
        (t1, false)
    } else {
        clear_text(t1, lock_attr)
    }
}

/// Moves a Go module recipe to revision `latest` and clears `vendorHash`.
pub fn edit_go(ast: &mut Ast, current_rev: Option<&str>, latest: &str, new_hash: &str) -> (r: Result<(), EditError>)
    ensures
        revision_text(old(ast)@, opt_str(current_rev), latest@, new_hash@, "vendorHash"@) == (final(ast)@, r is Ok),
{
    let r = ast.update_git(current_rev, latest, new_hash, None);
    if r.is_err() {
        return r;
    }
    clear_attr(ast, "vendorHash")
}

/// The part of `v` before its first `-`.
pub open spec fn version_base(v: Seq<char>) -> Seq<char>
    decreases v.len(),
{
    if v.len() == 0 {
        v
    } else if v.last() == '-' && !v.drop_last().contains('-') {
        v.drop_last()
    } else if v.drop_last().contains('-') {
        version_base(v.drop_last())
    } else {
        v
    }
}

/// The version of an npm recipe at `commit`: the semantic part of the
/// current version joined to the short commit.
pub open spec fn npm_version_spec(current: Seq<char>, commit: Seq<char>) -> Seq<char> {
    version_base(current) + "-"@ + short_hash_spec(commit)
}

/// The version of an npm recipe at `commit`.
pub fn npm_version(current: &str, commit: &str) -> (r: String)
    ensures
        r@ == npm_version_spec(current@, commit@),
{
    let c = chars_of(current);
    let mut k: usize = 0;
    while k < c.len() && c[k] != '-'
        invariant
            k <= c.len(),
            forall|m: int| 0 <= m < k ==> c@[m] != '-',
        decreases c.len() - k,
    {
        k = k + 1;
    }
    proof {
        lemma_version_base(c@, k as int);
    }
    let mut out = crate::text::slice_chars(c.as_slice(), 0, k);
    out.push('-');
    let s = short_hash(commit);
    let sc = chars_of(&s);
    out.extend_from_slice(sc.as_slice());
    proof {
        reveal_strlit("-");
        assert(out@ =~= version_base(c@) + "-"@ + short_hash_spec(commit@));
    }
    string_of(out.as_slice())
}

proof fn lemma_version_base(v: Seq<char>, k: int)
    requires
        0 <= k <= v.len(),
        forall|m: int| 0 <= m < k ==> v[m] != '-',
        k == v.len() || v[k] == '-',
    ensures
        version_base(v) == v.subrange(0, k),
    decreases v.len(),
{
    if v.len() == 0 {
        assert(v.subrange(0, 0) =~= v);
    } else if k == v.len() {
        assert(!v.drop_last().contains('-'));
        assert(v.subrange(0, k) =~= v);
    } else if k == v.len() - 1 {
        assert(!v.drop_last().contains('-'));
        assert(v.subrange(0, k) =~= v.drop_last());
    } else {
        assert(v.drop_last()[k] == '-');
        lemma_version_base(v.drop_last(), k);
        assert(v.drop_last().subrange(0, k) =~= v.subrange(0, k));
    }
}

/// Recipe text after an npm revision update: revision and hash, the derived
/// version, and a cleared `npmDepsHash`.
pub open spec fn npm_text(t: Seq<char>, current_rev: Option<Seq<char>>, latest: Seq<char>, new_hash: Seq<char>, current_version: Seq<char>) -> (Seq<char>, bool) {
    let (t1, ok1) = update_git_text(t, current_rev, latest, new_hash, None);
    if !ok1 {
        (t1, false)
    } else {
        let (t2, ok2) = set_or_keep(t1, "version"@, current_version, npm_version_spec(current_version, latest));
        if !ok2 {
            (t2, false)
        } else {
            clear_text(t2, "npmDepsHash"@)
        }
    }
}

/// Moves an npm recipe to revision `latest`; returns its new version.
pub fn edit_npm(ast: &mut Ast, current_rev: Option<&str>, latest: &str, new_hash: &str, current_version: &str) -> (r: Result<String, EditError>)
    ensures
        npm_text(old(ast)@, opt_str(current_rev), latest@, new_hash@, current_version@) == (final(ast)@, r is Ok),
        r matches Ok(v) ==> v@ == npm_version_spec(current_version@, latest@),
{
    let r = ast.update_git(current_rev, latest, new_hash, None);
    if r.is_err() {
        return Err(EditError::NotFound);
    }
    let v = npm_version(current_version, latest);
    let r = ast.set("version", current_version, &v);
    if r.is_err() {
        return Err(EditError::NotFound);
    }
    let r = clear_attr(ast, "npmDepsHash");
    if r.is_err() {
        return Err(EditError::NotFound);
    }
    Ok(v)
}

/// Recipe text after a GitHub release update: the version, then the source
/// hash when a new one was computed.
pub open spec fn release_text(t: Seq<char>, current: Seq<char>, latest: Seq<char>, current_hash: Seq<char>, new_hash: Option<Seq<char>>) -> (Seq<char>, bool) {
    let (t1, ok1) = set_or_keep(t, "version"@, current, latest);
    if !ok1 || new_hash is None {
        (t1, ok1)
    } else {
        set_or_keep(t1, "hash"@, current_hash, new_hash.unwrap())
    }
}

/// Moves a GitHub release recipe to version `latest`, with the source hash
/// when one was computed.
pub fn edit_release(ast: &mut Ast, current_version: &str, latest: &str, current_hash: &str, new_hash: Option<&str>) -> (r: Result<(), EditError>)
    ensures
        release_text(old(ast)@, current_version@, latest@, current_hash@, opt_str(new_hash)) == (final(ast)@, r is Ok),
{
    let r = ast.set("version", current_version, latest);
    if r.is_err() {
        return r;
    }
    match new_hash {
        Some(h) => ast.set("hash", current_hash, h),
        None => Ok(()),
    }
}

/// `tag` without one leading `v`.
pub open spec fn tag_version_spec(tag: Seq<char>) -> Seq<char> {
    if tag.len() > 0 && tag[0] == 'v' {
        tag.skip(1)
    } else {
        tag
    }
}

/// The version that a release tag names: the tag without a leading `v`.
pub fn tag_version(tag: &str) -> (r: String)
    ensures
        r@ == tag_version_spec(tag@),
{
    let t = chars_of(tag);
    let start: usize = if t.len() > 0 && t[0] == 'v' {
        1
    } else {
        0
    };
    let s = crate::text::slice_chars(t.as_slice(), start, t.len());
    proof {
        assert(s@ =~= tag_version_spec(t@));
    }
    string_of(s.as_slice())
}

/// The concatenation of `parts`.
pub(crate) fn concat(parts: &[&str]) -> (r: String)
    ensures
        r@ == parts@.fold_left(Seq::<char>::empty(), |acc: Seq<char>, p: &str| acc + p@),
{
    let mut out: Vec<char> = Vec::new();
    let mut i: usize = 0;
    while i < parts.len()
        invariant
            i <= parts.len(),
            out@ == parts@.take(i as int).fold_left(Seq::<char>::empty(), |acc: Seq<char>, p: &str| acc + p@),
        decreases parts.len() - i,
    {
        let c = chars_of(parts[i]);
        out.extend_from_slice(c.as_slice());
        proof {
            assert(parts@.take(i + 1).drop_last() =~= parts@.take(i as int));
        }
        i = i + 1;
    }
    proof {
        assert(parts@.take(parts@.len() as int) =~= parts@);
    }
    string_of(out.as_slice())
}

/// Where a GitHub release asset is downloaded from.
pub fn release_asset_url(repo: &str, tag: &str, filename: &str) -> (r: String)
    ensures
        r@ == "https://github.com/"@ + repo@ + "/releases/download/"@ + tag@ + "/"@ + filename@,
{
    let parts = ["https://github.com/", repo, "/releases/download/", tag, "/", filename];
    let r = concat(&parts);
    proof {
        assert(parts@.drop_last().drop_last().drop_last().drop_last().drop_last().drop_last() =~= Seq::<&str>::empty());
        reveal_with_fuel(Seq::fold_left, 7);
        assert(r@ =~= "https://github.com/"@ + repo@ + "/releases/download/"@ + tag@ + "/"@ + filename@);
    }
    r
}

/// Where the source tarball of a release is downloaded from.
pub fn release_tarball_url(homepage: &str, tag: &str) -> (r: String)
    ensures
        r@ == homepage@ + "/archive/refs/tags/"@ + tag@ + ".tar.gz"@,
{
    let parts = [homepage, "/archive/refs/tags/", tag, ".tar.gz"];
    let r = concat(&parts);
    proof {
        assert(parts@.drop_last().drop_last().drop_last().drop_last() =~= Seq::<&str>::empty());
        reveal_with_fuel(Seq::fold_left, 5);
        assert(r@ =~= homepage@ + "/archive/refs/tags/"@ + tag@ + ".tar.gz"@);
    }
    r
}

/// Where the npm lock file of a repository is read at a given commit.
pub fn package_lock_url(repo_path: &str, commit: &str) -> (r: String)
    ensures
        r@ == "https://raw.githubusercontent.com/"@ + repo_path@ + "/"@ + commit@ + "/package-lock.json"@,
{
    let parts = ["https://raw.githubusercontent.com/", repo_path, "/", commit, "/package-lock.json"];
    let r = concat(&parts);
    proof {
        assert(parts@.drop_last().drop_last().drop_last().drop_last().drop_last() =~= Seq::<&str>::empty());
        reveal_with_fuel(Seq::fold_left, 6);
        assert(r@ =~= "https://raw.githubusercontent.com/"@ + repo_path@ + "/"@ + commit@ + "/package-lock.json"@);
    }
    r
}


/// A content hash to recompute: the hash it replaces, the artifact to
/// prefetch, and the platform or file it belongs to.
pub struct HashJob {
    pub label: String,
    pub old_hash: String,
    pub url: String,
}

pub type HashJobV = (Seq<char>, Seq<char>, Seq<char>);

impl View for HashJob {
    type V = HashJobV;

    open spec fn view(&self) -> HashJobV {
        (self.label@, self.old_hash@, self.url@)
    }
}

pub open spec fn jobs_view(v: Seq<HashJob>) -> Seq<HashJobV> {
    Seq::new(v.len(), |i: int| v[i]@)
}

/// The value of attribute `k` of a block.
pub open spec fn block_attr(b: BlockV, k: Seq<char>) -> Option<Seq<char>> {
    match key_index(b.1, k, 0) {
        Some(i) => Some(b.1[i].1),
        None => None,
    }
}

/// The PyPI hash jobs of blocks `i..`, appended to `acc`: each block with a
/// `platform` and a `hash` needs the first released file whose name holds
/// the platform tag; a block without one fails the whole plan.
pub open spec fn pypi_jobs_from(
    blocks: Seq<BlockV>,
    names: Seq<Seq<char>>,
    urls: Seq<Seq<char>>,
    i: int,
    acc: Seq<HashJobV>,
) -> Result<Seq<HashJobV>, Seq<char>>
    decreases blocks.len() - i,
{
    if i < 0 || i >= blocks.len() {
        Ok(acc)
    } else if block_attr(blocks[i], "platform"@) is Some && block_attr(blocks[i], "hash"@) is Some {
        let tag = block_attr(blocks[i], "platform"@).unwrap();
        match wheel_from(names, tag, 0) {
            Some(w) => pypi_jobs_from(
                blocks,
                names,
                urls,
                i + 1,
                acc.push((blocks[i].0, block_attr(blocks[i], "hash"@).unwrap(), urls[w])),
            ),
            None => Err("No wheel found for platform "@ + tag),
        }
    } else {
        pypi_jobs_from(blocks, names, urls, i + 1, acc)
    }
}

pub open spec fn file_urls(files: Seq<PyPiReleaseFile>) -> Seq<Seq<char>> {
    Seq::new(files.len(), |i: int| files[i].url@)
}

proof fn lemma_wheel_bound(names: Seq<Seq<char>>, tag: Seq<char>, i: int)
    ensures
        wheel_from(names, tag, i) matches Some(w) ==> 0 <= w < names.len(),
    decreases names.len() - i,
{
    if 0 <= i < names.len() {
        lemma_wheel_bound(names, tag, i + 1);
    }
}

/// The hashes to recompute for the platform blocks of a PyPI recipe, given
/// the files released for the new version; an error message when a block's
/// platform has no released file.
pub fn pypi_hash_jobs(blocks: &Vec<PlatformBlock>, files: &Vec<PyPiReleaseFile>) -> (r: Result<Vec<HashJob>, String>)
    ensures
        match r {
            Ok(jobs) => pypi_jobs_from(blocks_view(blocks@), filenames(files@), file_urls(files@), 0, Seq::empty()) == Ok::<Seq<HashJobV>, Seq<char>>(jobs_view(jobs@)),
            Err(m) => pypi_jobs_from(blocks_view(blocks@), filenames(files@), file_urls(files@), 0, Seq::empty()) == Err::<Seq<HashJobV>, Seq<char>>(m@),
        },
{
    let ghost bv = blocks_view(blocks@);
    let ghost names = filenames(files@);
    let ghost urls = file_urls(files@);
    let mut jobs: Vec<HashJob> = Vec::new();
    proof {
        assert(jobs_view(jobs@) =~= Seq::empty());
    }
    let mut i: usize = 0;
    while i < blocks.len()
        invariant
            bv == blocks_view(blocks@),
            names == filenames(files@),
            urls == file_urls(files@),
            pypi_jobs_from(bv, names, urls, 0, Seq::empty()) == pypi_jobs_from(bv, names, urls, i as int, jobs_view(jobs@)),
        decreases blocks.len() - i,
    {
        let b = &blocks[i];
        proof {
            assert(bv[i as int] == b@);
        }
        let platform = b.get("platform");
        let hash = b.get("hash");
        match (platform, hash) {
            (Some(platform), Some(hash)) => {
                match find_wheel(files, &platform) {
                    Some(w) => {
                        proof {
                            lemma_wheel_bound(names, platform@, 0);
                            assert(urls[w as int] == files@[w as int].url@);
                        }
                        let ghost before = jobs_view(jobs@);
                        let job = HashJob { label: b.platform_name.clone(), old_hash: hash, url: files[w].url.clone() };
                        jobs.push(job);
                        proof {
                            assert(jobs_view(jobs@) =~= before.push((bv[i as int].0, block_attr(bv[i as int], "hash"@).unwrap(), urls[w as int])));
                        }
                    },
                    None => {
                        let parts = ["No wheel found for platform ", platform.as_str()];
                        let m = concat(&parts);
                        proof {
                            assert(parts@.drop_last().drop_last() =~= Seq::<&str>::empty());
                            reveal_with_fuel(Seq::fold_left, 3);
                            assert(m@ =~= "No wheel found for platform "@ + platform@);
                        }
                        return Err(m);
                    },
                }
            },
            _ => {},
        }
        i = i + 1;
    }
    Ok(jobs)
}

/// The GitHub release hash jobs of blocks `i..`, appended to `acc`: each
/// block with a `filename` and a `hash` is fetched from the release's assets.
pub open spec fn release_jobs_from(blocks: Seq<BlockV>, repo: Seq<char>, tag: Seq<char>, i: int, acc: Seq<HashJobV>) -> Seq<HashJobV>
    decreases blocks.len() - i,
{
    if i < 0 || i >= blocks.len() {
        acc
    } else if block_attr(blocks[i], "filename"@) is Some && block_attr(blocks[i], "hash"@) is Some {
        let f = block_attr(blocks[i], "filename"@).unwrap();
        release_jobs_from(
            blocks,
            repo,
            tag,
            i + 1,
            acc.push((f, block_attr(blocks[i], "hash"@).unwrap(), "https://github.com/"@ + repo + "/releases/download/"@ + tag + "/"@ + f)),
        )
    } else {
        release_jobs_from(blocks, repo, tag, i + 1, acc)
    }
}

/// The hashes to recompute for the platform blocks of a GitHub release
/// recipe at release `tag` of `repo`.
pub fn release_hash_jobs(blocks: &Vec<PlatformBlock>, repo: &str, tag: &str) -> (r: Vec<HashJob>)
    ensures
        jobs_view(r@) == release_jobs_from(blocks_view(blocks@), repo@, tag@, 0, Seq::empty()),
{
    let ghost bv = blocks_view(blocks@);
    let mut jobs: Vec<HashJob> = Vec::new();
    proof {
        assert(jobs_view(jobs@) =~= Seq::empty());
    }
    let mut i: usize = 0;
    while i < blocks.len()
        invariant
            bv == blocks_view(blocks@),
            release_jobs_from(bv, repo@, tag@, 0, Seq::empty()) == release_jobs_from(bv, repo@, tag@, i as int, jobs_view(jobs@)),
        decreases blocks.len() - i,
    {
        let b = &blocks[i];
        proof {
            assert(bv[i as int] == b@);
        }
        match (b.get("filename"), b.get("hash")) {
            (Some(f), Some(h)) => {
                let url = release_asset_url(repo, tag, &f);
                let ghost before = jobs_view(jobs@);
                jobs.push(HashJob { label: f, old_hash: h, url });
                proof {
                    assert(jobs_view(jobs@) =~= before.push(jobs@.last()@));
                }
            },
            _ => {},
        }
        i = i + 1;
    }
    jobs
}

/// A recipe goes to the builder when it was updated, or when the run forces
/// it or only builds; a failed recipe never does.
pub open spec fn build_wanted(s: Set<UpdateStatus>, force: bool, build_only: bool) -> bool {
    !s.contains(UpdateStatus::Failed) && (s.contains(UpdateStatus::Updated) || force || build_only)
}

/// The statuses once a build has run: `Built` is added on success, unless
/// the recipe has failed.
pub open spec fn built_status(s: Set<UpdateStatus>, succeeded: bool) -> Set<UpdateStatus> {
    if succeeded && !s.contains(UpdateStatus::Failed) {
        s.insert(UpdateStatus::Built)
    } else {
        s
    }
}

/// The statuses after a push to the binary cache: cached, unless the recipe
/// failed.
pub open spec fn cached_status(s: Set<UpdateStatus>) -> Set<UpdateStatus> {
    if s.contains(UpdateStatus::Failed) {
        s
    } else {
        s.insert(UpdateStatus::Cached)
    }
}

/// Whether a recipe goes to the builder.
pub fn needs_build(result: &UpdateResult, force: bool, build_only: bool) -> (r: bool)
    ensures
        r == build_wanted(result.status@, force, build_only),
{
    !result.status.contains(UpdateStatus::Failed) && (result.status.contains(UpdateStatus::Updated) || force
        || build_only)
}

/// Records the builder's verdict.
pub fn record_build(result: &mut UpdateResult, succeeded: bool)
    ensures
        final(result).status@ == built_status(old(result).status@, succeeded),
        final(result).message == old(result).message,
        final(result).changes == old(result).changes,
{
    if succeeded && !result.status.contains(UpdateStatus::Failed) {
        result.status.insert(UpdateStatus::Built);
    }
}

/// A built recipe is pushed to the binary cache when caching is on.
pub fn should_push_cache(result: &UpdateResult, cache: bool) -> (r: bool)
    ensures
        r == (cache && result.status@.contains(UpdateStatus::Built)),
{
    cache && result.status.contains(UpdateStatus::Built)
}

/// Records a push of one store path to the binary cache.
pub fn record_cached(result: &mut UpdateResult)
    ensures
        final(result).status@ == cached_status(old(result).status@),
        final(result).message == old(result).message,
        final(result).changes == old(result).changes,
{
    if !result.status.contains(UpdateStatus::Failed) {
        result.status.insert(UpdateStatus::Cached);
    }
}

/// A recipe's statuses after the build and cache steps, composed from the
/// contracts of `needs_build`, `record_build`, `should_push_cache` and
/// `record_cached`: the build runs when wanted, and a push is recorded when
/// the recipe is built, caching is on and a push was made.
pub open spec fn finish_status(
    s: Set<UpdateStatus>,
    force: bool,
    build_only: bool,
    build_ok: bool,
    cache: bool,
    pushed: bool,
) -> Set<UpdateStatus> {
    let b = if build_wanted(s, force, build_only) {
        built_status(s, build_ok)
    } else {
        s
    };
    if cache && b.contains(UpdateStatus::Built) && pushed {
        cached_status(b)
    } else {
        b
    }
}

/// What a recipe does with the outcome of one hash prefetch: a new hash
/// replaces the job's old one; no hash fails the recipe with `what` and the
/// job's label, and the update stops.
pub fn apply_hash_job(ast: &mut Ast, result: &mut UpdateResult, job: &HashJob, new_hash: Option<&str>, what: &str) -> (r: Result<bool, EditError>)
    ensures
        match new_hash {
            Some(h) => {
                &&& set_or_keep(old(ast)@, "hash"@, job.old_hash@, h@) == (final(ast)@, r is Ok)
                &&& r is Ok ==> r == Ok::<bool, EditError>(true)
                &&& *final(result) == *old(result)
            },
            None => {
                &&& r == Ok::<bool, EditError>(false)
                &&& final(ast)@ == old(ast)@
                &&& final(result).status@ == set![UpdateStatus::Failed]
                &&& crate::package::opt_string_view(final(result).message) == Some(what@ + job.label@)
            },
        },
{
    match new_hash {
        Some(h) => {
            let r = ast.set("hash", &job.old_hash, h);
            match r {
                Ok(()) => Ok(true),
                Err(e) => Err(e),
            }
        },
        None => {
            let parts = [what, job.label.as_str()];
            let m = concat(&parts);
            proof {
                assert(parts@.drop_last().drop_last() =~= Seq::<&str>::empty());
                reveal_with_fuel(Seq::fold_left, 3);
                assert(m@ =~= what@ + job.label@);
            }
            result.failed(&m);
            Ok(false)
        },
    }
}

pub open spec fn statuses(results: Seq<UpdateResult>) -> Seq<Set<UpdateStatus>> {
    Seq::new(results.len(), |i: int| results[i].status@)
}

/// Every recipe of the batch reached `Built`.
pub open spec fn all_built(results: Seq<UpdateResult>) -> bool {
    forall|i: int| 0 <= i < results.len() ==> (#[trigger] results[i]).status@.contains(UpdateStatus::Built)
}

/// Whether the shared build-log directory can go: only when every recipe of
/// the batch was built.
pub fn should_remove_logs(results: &Vec<UpdateResult>) -> (r: bool)
    ensures
        r == all_built(results@),
{
    let mut i: usize = 0;
    while i < results.len()
        invariant
            i <= results.len(),
            forall|k: int| 0 <= k < i ==> (#[trigger] results@[k]).status@.contains(UpdateStatus::Built),
        decreases results.len() - i,
    {
        if !results[i].status.contains(UpdateStatus::Built) {
            return false;
        }
        i = i + 1;
    }
    true
}

/// Whether no recipe of the batch needed an update.
pub fn all_up_to_date(results: &Vec<UpdateResult>) -> (r: bool)
    ensures
        r == forall|i: int| 0 <= i < results@.len() ==> (#[trigger] results@[i]).status@.contains(UpdateStatus::UpToDate),
{
    let mut i: usize = 0;
    while i < results.len()
        invariant
            i <= results.len(),
            forall|k: int| 0 <= k < i ==> (#[trigger] results@[k]).status@.contains(UpdateStatus::UpToDate),
        decreases results.len() - i,
    {
        if !results[i].status.contains(UpdateStatus::UpToDate) {
            return false;
        }
        i = i + 1;
    }
    true
}


/// `a` comes no later than `b` in lexicographic order of characters.
pub open spec fn lex_le(a: Seq<char>, b: Seq<char>) -> bool
    decreases a.len(),
{
    if a.len() == 0 {
        true
    } else if b.len() == 0 {
        false
    } else if (a[0] as u32) != (b[0] as u32) {
        (a[0] as u32) < (b[0] as u32)
    } else {
        lex_le(a.skip(1), b.skip(1))
    }
}

proof fn lemma_lex_total(a: Seq<char>, b: Seq<char>)
    ensures
        lex_le(a, b) || lex_le(b, a),
    decreases a.len(),
{
    if a.len() > 0 && b.len() > 0 && (a[0] as u32) == (b[0] as u32) {
        lemma_lex_total(a.skip(1), b.skip(1));
    }
}

proof fn lemma_lex_trans(a: Seq<char>, b: Seq<char>, c: Seq<char>)
    requires
        lex_le(a, b),
        lex_le(b, c),
    ensures
        lex_le(a, c),
    decreases a.len(),
{
    if a.len() > 0 && b.len() > 0 && c.len() > 0 && (a[0] as u32) == (b[0] as u32) && (b[0] as u32) == (c[0] as u32) {
        lemma_lex_trans(a.skip(1), b.skip(1), c.skip(1));
    }
}

fn lex_le_exec(a: &[char], b: &[char]) -> (r: bool)
    ensures
        r == lex_le(a@, b@),
{
    let mut i: usize = 0;
    proof {
        assert(a@.skip(0) =~= a@);
        assert(b@.skip(0) =~= b@);
    }
    while i < a.len() && i < b.len() && (a[i] as u32) == (b[i] as u32)
        invariant
            i <= a.len(),
            i <= b.len(),
            lex_le(a@, b@) == lex_le(a@.skip(i as int), b@.skip(i as int)),
        decreases a.len() - i,
    {
        proof {
            assert(a@.skip(i as int).skip(1) =~= a@.skip(i + 1));
            assert(b@.skip(i as int).skip(1) =~= b@.skip(i + 1));
        }
        i = i + 1;
    }
    if i == a.len() {
        true
    } else if i == b.len() {
        false
    } else {
        (a[i] as u32) < (b[i] as u32)
    }
}

/// The rows of the report, as indices into `names` (one name per recipe):
/// every recipe whose result is not up to date, exactly once, ordered by
/// name.
pub fn report_order(results: &Vec<UpdateResult>, names: &Vec<String>) -> (r: Vec<usize>)
    requires
        results@.len() == names@.len(),
    ensures
        r@.no_duplicates(),
        forall|i: usize| r@.contains(i) <==> (i < results@.len() && !(#[trigger] results@[i as int]).status@.contains(UpdateStatus::UpToDate)),
        forall|a: int, b: int| 0 <= a < b < r@.len() ==> lex_le(names@[r@[a] as int]@, names@[r@[b] as int]@),
{
    let mut keys: Vec<Vec<char>> = Vec::new();
    let mut k: usize = 0;
    while k < names.len()
        invariant
            k <= names.len(),
            keys@.len() == k,
            forall|m: int| 0 <= m < k ==> (#[trigger] keys@[m])@ == names@[m]@,
        decreases names.len() - k,
    {
        keys.push(chars_of(names[k].as_str()));
        k = k + 1;
    }
    let mut out: Vec<usize> = Vec::new();
    let mut i: usize = 0;
    while i < results.len()
        invariant
            i <= results.len(),
            results@.len() == names@.len(),
            keys@.len() == names@.len(),
            forall|m: int| 0 <= m < keys@.len() ==> (#[trigger] keys@[m])@ == names@[m]@,
            out@.no_duplicates(),
            forall|j: usize| out@.contains(j) <==> (j < i && !(#[trigger] results@[j as int]).status@.contains(UpdateStatus::UpToDate)),
            forall|a: int, b: int| 0 <= a < b < out@.len() ==> lex_le(names@[out@[a] as int]@, names@[out@[b] as int]@),
        decreases results.len() - i,
    {
        if !results[i].status.contains(UpdateStatus::UpToDate) {
            proof {
                assert forall|a: int| 0 <= a < out@.len() implies out@[a] < i by {
                    assert(out@.contains(out@[a]));
                    assert(out@.contains(out@[a]) ==> (out@[a] < i && !results@[out@[a] as int].status@.contains(UpdateStatus::UpToDate)));
                }
            }
            let mut p: usize = 0;
            while p < out.len() && lex_le_exec(keys[out[p]].as_slice(), keys[i].as_slice())
                invariant
                    p <= out@.len(),
                    i < results@.len(),
                    results@.len() == names@.len(),
                    keys@.len() == names@.len(),
                    forall|m: int| 0 <= m < keys@.len() ==> (#[trigger] keys@[m])@ == names@[m]@,
                    forall|a: int| 0 <= a < out@.len() ==> out@[a] < i,
                    forall|a: int| 0 <= a < p ==> lex_le(names@[out@[a] as int]@, names@[i as int]@),
                decreases out@.len() - p,
            {
                p = p + 1;
            }
            let ghost before = out@;
            proof {
                if p < before.len() {
                    assert(before.contains(before[p as int]));
                    lemma_lex_total(names@[before[p as int] as int]@, names@[i as int]@);
                }
                assert(!before.contains(i));
            }
            out.insert(p, i);
            proof {
                assert(out@ =~= before.take(p as int).push(i) + before.skip(p as int));
                assert forall|j: usize| out@.contains(j) <==> (j < i + 1 && !(#[trigger] results@[j as int]).status@.contains(UpdateStatus::UpToDate)) by {
                    if out@.contains(j) {
                        let q = choose|q: int| 0 <= q < out@.len() && out@[q] == j;
                        if q < p {
                            assert(before.contains(before[q]));
                        } else if q > p {
                            assert(before.contains(before[q - 1]));
                        }
                    }
                    if j < i && !results@[j as int].status@.contains(UpdateStatus::UpToDate) {
                        assert(before.contains(j));
                        let q = choose|q: int| 0 <= q < before.len() && before[q] == j;
                        if q < p {
                            assert(out@[q] == j);
                        } else {
                            assert(out@[q + 1] == j);
                        }
                    }
                    if j == i {
                        assert(out@[p as int] == i);
                    }
                }
                assert forall|a: int, b: int| 0 <= a < b < out@.len() implies lex_le(names@[out@[a] as int]@, names@[out@[b] as int]@) by {
                    if b < p {
                    } else if b == p {
                    } else if a < p {
                        if b == p + 1 {
                            lemma_lex_trans(names@[out@[a] as int]@, names@[i as int]@, names@[out@[b] as int]@);
                        } else {
                            assert(lex_le(names@[before[p as int] as int]@, names@[before[b - 1] as int]@) || p == b - 1);
                            lemma_lex_trans(names@[out@[a] as int]@, names@[i as int]@, names@[before[p as int] as int]@);
                            if p < b - 1 {
                                lemma_lex_trans(names@[out@[a] as int]@, names@[before[p as int] as int]@, names@[out@[b] as int]@);
                            }
                        }
                    } else if a == p {
                        if b - 1 > p {
                            lemma_lex_trans(names@[i as int]@, names@[before[p as int] as int]@, names@[out@[b] as int]@);
                        }
                    } else {
                    }
                }
                assert forall|x: int, y: int| 0 <= x < out@.len() && 0 <= y < out@.len() && x != y implies out@[x] != out@[y] by {
                    if x != p as int && y != p as int {
                        let xb = if x < p { x } else { x - 1 };
                        let yb = if y < p { y } else { y - 1 };
                        assert(before[xb] != before[yb]);
                    } else if x == p as int {
                        let yb = if y < p { y } else { y - 1 };
                        assert(before.contains(before[yb]));
                    } else {
                        let xb = if x < p { x } else { x - 1 };
                        assert(before.contains(before[xb]));
                    }
                }
            }
        } else {
            proof {
                assert forall|j: usize| out@.contains(j) <==> (j < i + 1 && !(#[trigger] results@[j as int]).status@.contains(UpdateStatus::UpToDate)) by {
                }
            }
        }
        i = i + 1;
    }
    out
}

} // verus!
