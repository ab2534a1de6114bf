//! What the upstream registries answer, as plain values, and the decisions
//! taken on those answers.
use vstd::prelude::*;

use crate::text::{chars_of, contains_exec, contains_seq, is_space, is_space_char, slice_chars, string_of};

verus! {

/// A crates.io crate record.
pub struct CrateResponse {
    pub crate_data: CrateInfo,
}

/// The part of a crate record that is read: its highest published version.
pub struct CrateInfo {
    pub max_version: String,
}

/// A PyPI project record: its latest version and, per version, the files
/// released for it.
pub struct PyPiProjectResponse {
    pub info: PyPiProjectInfo,
    pub releases: Vec<(String, Vec<PyPiReleaseFile>)>,
}

pub struct PyPiProjectInfo {
    pub version: String,
}

/// A released file: its name and where to download it.
pub struct PyPiReleaseFile {
    pub filename: String,
    pub url: String,
}

pub open spec fn filenames(files: Seq<PyPiReleaseFile>) -> Seq<Seq<char>> {
    Seq::new(files.len(), |i: int| files[i].filename@)
}

/// The first file, from `i` on, whose name contains `tag`.
pub open spec fn wheel_from(names: Seq<Seq<char>>, tag: Seq<char>, i: int) -> Option<int>
    decreases names.len() - i,
{
    if i < 0 || i >= names.len() {
        None
    } else if contains_seq(names[i], tag) {
        Some(i)
    } else {
        wheel_from(names, tag, i + 1)
    }
}

/// Index of the first released file whose name contains the platform tag.
pub fn find_wheel(files: &Vec<PyPiReleaseFile>, platform: &str) -> (r: Option<usize>)
    ensures
        r matches Some(i) ==> wheel_from(filenames(files@), platform@, 0) == Some(i as int),
        r is None ==> wheel_from(filenames(files@), platform@, 0) is None,
{
    let tag = chars_of(platform);
    let ghost names = filenames(files@);
    let mut i: usize = 0;
    while i < files.len()
        invariant
            names == filenames(files@),
            tag@ == platform@,
            wheel_from(names, platform@, 0) == wheel_from(names, platform@, i as int),
        decreases files@.len() - i,
    {
        let name = chars_of(files[i].filename.as_str());
        proof {
            assert(names[i as int] == files@[i as int].filename@);
        }
        if contains_exec(name.as_slice(), tag.as_slice()) {
            return Some(i);
        }
        i = i + 1;
    }
    None
}

pub open spec fn release_keys(r: Seq<(String, Vec<PyPiReleaseFile>)>) -> Seq<Seq<char>> {
    Seq::new(r.len(), |i: int| r[i].0@)
}

/// The first index, from `i` on, whose key is `k`.
pub open spec fn key_from(keys: Seq<Seq<char>>, k: Seq<char>, i: int) -> Option<int>
    decreases keys.len() - i,
{
    if i < 0 || i >= keys.len() {
        None
    } else if keys[i] == k {
        Some(i)
    } else {
        key_from(keys, k, i + 1)
    }
}

impl PyPiProjectResponse {
    /// The files released for `version`.
    pub fn releases_for(&self, version: &str) -> (r: Option<&Vec<PyPiReleaseFile>>)
        ensures
            ({
                let i = key_from(release_keys(self.releases@), version@, 0);
                match r {
                    Some(files) => i matches Some(k) && *files == self.releases@[k].1,
                    None => i is None,
                }
            }),
    {
        let v = version.to_string();
        let ghost keys = release_keys(self.releases@);
        let mut i: usize = 0;
        while i < self.releases.len()
            invariant
                keys == release_keys(self.releases@),
                v@ == version@,
                key_from(keys, version@, 0) == key_from(keys, version@, i as int),
            decreases self.releases@.len() - i,
        {
            proof {
                assert(keys[i as int] == self.releases@[i as int].0@);
            }
            if self.releases[i].0 == v {
                return Some(&self.releases[i].1);
            }
            i = i + 1;
        }
        None
    }
}

/// The content-hash prefetcher and the hash-and-revision resolver, as far as
/// reading their output goes.
pub struct Nix;

/// Index just past `s.take(j)` once trailing whitespace is dropped.
pub open spec fn trim_end_at(s: Seq<char>, j: int) -> int
    decreases j,
{
    if j <= 0 || j > s.len() || !is_space(s[j - 1]) {
        j
    } else {
        trim_end_at(s, j - 1)
    }
}

/// Start of the line that ends at `j`.
pub open spec fn line_start(s: Seq<char>, j: int) -> int
    decreases j,
{
    if j <= 0 || j > s.len() || s[j - 1] == '\n' {
        j
    } else {
        line_start(s, j - 1)
    }
}

/// The last line of `s` once trailing whitespace is dropped, if non-empty.
pub open spec fn last_line(s: Seq<char>) -> Option<Seq<char>> {
    let e = trim_end_at(s, s.len() as int);
    let b = line_start(s, e);
    let l = s.subrange(b, e);
    let l2 = if l.len() > 0 && l.last() == '\r' { l.drop_last() } else { l };
    if l2.len() == 0 {
        None
    } else {
        Some(l2)
    }
}

impl Nix {
    /// The line of the resolver's output that holds its answer: the last
    /// one, once trailing whitespace is dropped, if it is not empty.
    pub fn answer_line(stdout: &str) -> (r: Option<String>)
        ensures
            r matches Some(l) ==> last_line(stdout@) == Some(l@),
            r is None ==> last_line(stdout@) is None,
    {
        let s = chars_of(stdout);
        let mut e = s.len();
        while e > 0 && is_space_char(s[e - 1])
            invariant
                e <= s.len(),
                trim_end_at(s@, s@.len() as int) == trim_end_at(s@, e as int),
            decreases e,
        {
            e = e - 1;
        }
        let mut b = e;
        while b > 0 && s[b - 1] != '\n'
            invariant
                b <= e <= s.len(),
                line_start(s@, e as int) == line_start(s@, b as int),
            decreases b,
        {
            b = b - 1;
        }
        let mut l = slice_chars(s.as_slice(), b, e);
        if l.len() > 0 && l[l.len() - 1] == '\r' {
            l.pop();
        }
        if l.len() == 0 {
            None
        } else {
            Some(string_of(l.as_slice()))
        }
    }
}


/// The branches whose latest commit is looked up, in order: the recorded
/// default branch alone, or else `HEAD`, `main` and `master`.
pub open spec fn branch_candidates(default_branch: Option<Seq<char>>) -> Seq<Seq<char>> {
    match default_branch {
        Some(b) => seq![b],
        None => seq!["HEAD"@, "main"@, "master"@],
    }
}

/// The next step of resolving a repository's latest commit.
pub enum BranchStep {
    /// Look up the commit of this branch.
    Query(String),
    /// This commit is the answer.
    Resolved(String),
    /// No candidate branch resolved.
    NotFound,
}

/// A step, as plain values.
pub enum BranchStepV {
    Query(Seq<char>),
    Resolved(Seq<char>),
    NotFound,
}

impl View for BranchStep {
    type V = BranchStepV;

    open spec fn view(&self) -> BranchStepV {
        match self {
            BranchStep::Query(b) => BranchStepV::Query(b@),
            BranchStep::Resolved(c) => BranchStepV::Resolved(c@),
            BranchStep::NotFound => BranchStepV::NotFound,
        }
    }
}

/// After `tried` lookups, the last of which gave `last`: stop at a resolved
/// commit, else look up the next candidate, else give up.
pub open spec fn branch_step_spec(default_branch: Option<Seq<char>>, tried: int, last: Option<Seq<char>>) -> BranchStepV {
    match last {
        Some(c) => BranchStepV::Resolved(c),
        None => if 0 <= tried < branch_candidates(default_branch).len() {
            BranchStepV::Query(branch_candidates(default_branch)[tried])
        } else {
            BranchStepV::NotFound
        },
    }
}

/// The answer of a resolution driven by `branch_step_spec` where the
/// `k`-th lookup gives `results[k]`.
pub open spec fn resolve_run(
    default_branch: Option<Seq<char>>,
    results: Seq<Option<Seq<char>>>,
    tried: nat,
    last: Option<Seq<char>>,
) -> Option<Seq<char>>
    decreases results.len() - tried,
{
    match branch_step_spec(default_branch, tried as int, last) {
        BranchStepV::Resolved(c) => Some(c),
        BranchStepV::NotFound => None,
        BranchStepV::Query(_) => if tried < results.len() {
            resolve_run(default_branch, results, tried + 1, results[tried as int])
        } else {
            None
        },
    }
}

/// The next step of resolving the latest commit of a repository whose
/// metadata names `default_branch` (if any), after `tried` lookups of which
/// the last gave `last`.
pub fn branch_step(default_branch: Option<&str>, tried: usize, last: Option<&str>) -> (r: BranchStep)
    ensures
        r@ == branch_step_spec(crate::ast::opt_str(default_branch), tried as int, crate::ast::opt_str(last)),
{
    match last {
        Some(c) => BranchStep::Resolved(c.to_string()),
        None => match default_branch {
            Some(b) => if tried == 0 {
                BranchStep::Query(b.to_string())
            } else {
                BranchStep::NotFound
            },
            None => {
                proof {
                    reveal_strlit("HEAD");
                    reveal_strlit("main");
                    reveal_strlit("master");
                }
                if tried == 0 {
                    BranchStep::Query("HEAD".to_string())
                } else if tried == 1 {
                    BranchStep::Query("main".to_string())
                } else if tried == 2 {
                    BranchStep::Query("master".to_string())
                } else {
                    BranchStep::NotFound
                }
            },
        },
    }
}

/// Resolution falls back from `HEAD` to `main` to `master`, stops at the
/// first branch that resolves, and finds nothing only when all three fail.
pub proof fn lemma_branch_fallback(results: Seq<Option<Seq<char>>>)
    requires
        results.len() == 3,
    ensures
        branch_step_spec(None, 0, None) == BranchStepV::Query("HEAD"@),
        branch_step_spec(None, 1, None) == BranchStepV::Query("main"@),
        branch_step_spec(None, 2, None) == BranchStepV::Query("master"@),
        branch_step_spec(None, 3, None) == BranchStepV::NotFound,
        forall|k: int, c: Seq<char>| branch_step_spec(None, k, Some(c)) == BranchStepV::Resolved(c),
        resolve_run(None, results, 0, None) == if results[0] is Some {
            results[0]
        } else if results[1] is Some {
            results[1]
        } else {
            results[2]
        },
        resolve_run(None, results, 0, None) is None <==> (results[0] is None && results[1] is None
            && results[2] is None),
{
    assert(resolve_run(None, results, 3, results[2]) == results[2]);
    assert(resolve_run(None, results, 2, results[1]) == if results[1] is Some { results[1] } else { results[2] });
    assert(resolve_run(None, results, 1, results[0]) == if results[0] is Some { results[0] } else if results[1] is Some { results[1] } else { results[2] });
}

} // verus!
