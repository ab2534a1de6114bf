//! Recipes' upstream kinds and the per-recipe outcome record of a run.
use vstd::prelude::*;

use crate::ast::{get_attr, has_call, Ast};
use crate::text::{chars_of, contains_exec, contains_seq, occurs_at, string_of};

verus! {

/// Where a recipe's upstream lives.
#[derive(Clone, Copy, Debug, PartialEq, Eq, Structural)]
pub enum PackageKind {
    PyPi,
    GitHub,
    Cargo,
    Npm,
    Go,
    Git,
}

/// The name under which a kind is shown.
pub open spec fn kind_label(k: PackageKind) -> Seq<char> {
    match k {
        PackageKind::PyPi => "PyPi"@,
        PackageKind::GitHub => "GitHub"@,
        PackageKind::Cargo => "Cargo"@,
        PackageKind::Npm => "Npm"@,
        PackageKind::Go => "Go"@,
        PackageKind::Git => "Git"@,
    }
}

impl PackageKind {
    /// The name under which this kind is shown.
    pub fn label(&self) -> (r: String)
        ensures
            r@ == kind_label(*self),
    {
        match self {
            PackageKind::PyPi => "PyPi".to_string(),
            PackageKind::GitHub => "GitHub".to_string(),
            PackageKind::Cargo => "Cargo".to_string(),
            PackageKind::Npm => "Npm".to_string(),
            PackageKind::Go => "Go".to_string(),
            PackageKind::Git => "Git".to_string(),
        }
    }
}

/// The kind of a recipe, from the calls it makes and the URLs it names: a
/// PyPI fetch, a Rust, npm or Go build, a GitHub release download, else a
/// plain source checkout.
pub open spec fn classify_spec(
    pypi: bool,
    rust: bool,
    npm: bool,
    go: bool,
    content: Seq<char>,
) -> PackageKind {
    if pypi {
        PackageKind::PyPi
    } else if rust {
        PackageKind::Cargo
    } else if npm {
        PackageKind::Npm
    } else if go {
        PackageKind::Go
    } else if contains_seq(content, "github.com"@) && contains_seq(content, "releases"@)
        && contains_seq(content, "download"@) {
        PackageKind::GitHub
    } else {
        PackageKind::Git
    }
}

/// The upstream kind of the recipe held by `ast`.
pub fn classify(ast: &Ast) -> (r: PackageKind)
    ensures
        r == classify_spec(
            crate::ast::has_call(ast@, "fetchPypi"@),
            crate::ast::has_call(ast@, "rustPlatform.buildRustPackage"@),
            crate::ast::has_call(ast@, "buildNpmPackage"@),
            crate::ast::has_call(ast@, "buildGoModule"@),
            ast@,
        ),
{
    let pypi = ast.contains_function_call("fetchPypi");
    let rust = ast.contains_function_call("rustPlatform.buildRustPackage");
    let npm = ast.contains_function_call("buildNpmPackage");
    let go = ast.contains_function_call("buildGoModule");
    if pypi {
        return PackageKind::PyPi;
    }
    if rust {
        return PackageKind::Cargo;
    }
    if npm {
        return PackageKind::Npm;
    }
    if go {
        return PackageKind::Go;
    }
    let content = chars_of(&ast.content());
    let a = chars_of("github.com");
    let b = chars_of("releases");
    let c = chars_of("download");
    if contains_exec(content.as_slice(), a.as_slice()) && contains_exec(content.as_slice(), b.as_slice())
        && contains_exec(content.as_slice(), c.as_slice()) {
        PackageKind::GitHub
    } else {
        PackageKind::Git
    }
}

/// Whether a recipe named `pname` takes part in a run: it must contain one of
/// the `wanted` filters (when any are given) and equal none of `exclude`.
pub open spec fn selected_spec(pname: Seq<char>, wanted: Seq<Seq<char>>, exclude: Seq<Seq<char>>) -> bool {
    (wanted.len() == 0 || exists|i: int| 0 <= i < wanted.len() && contains_seq(pname, #[trigger] wanted[i]))
        && !(exists|i: int| 0 <= i < exclude.len() && #[trigger] exclude[i] == pname)
}

pub open spec fn strings_view(v: Seq<String>) -> Seq<Seq<char>> {
    Seq::new(v.len(), |i: int| v[i]@)
}

/// Whether a recipe named `pname` takes part in a run.
pub fn is_selected(pname: &str, wanted: &Vec<String>, exclude: &Vec<String>) -> (r: bool)
    ensures
        r == selected_spec(pname@, strings_view(wanted@), strings_view(exclude@)),
{
    let p = chars_of(pname);
    let ghost inc = strings_view(wanted@);
    let ghost exc = strings_view(exclude@);
    if wanted.len() > 0 {
        let mut found = false;
        let mut i: usize = 0;
        while i < wanted.len()
            invariant
                i <= wanted.len(),
                inc == strings_view(wanted@),
                p@ == pname@,
                found <==> exists|k: int| 0 <= k < i && contains_seq(pname@, #[trigger] inc[k]),
            decreases wanted.len() - i,
        {
            let f = chars_of(wanted[i].as_str());
            proof {
                assert(inc[i as int] == wanted@[i as int]@);
            }
            if contains_exec(p.as_slice(), f.as_slice()) {
                found = true;
            }
            i = i + 1;
        }
        if !found {
            return false;
        }
    }
    let mut i: usize = 0;
    let owned = pname.to_string();
    while i < exclude.len()
        invariant
            i <= exclude.len(),
            exc == strings_view(exclude@),
            owned@ == pname@,
            forall|k: int| 0 <= k < i ==> #[trigger] exc[k] != pname@,
        decreases exclude.len() - i,
    {
        proof {
            assert(exc[i as int] == exclude@[i as int]@);
        }
        if exclude[i] == owned {
            return false;
        }
        i = i + 1;
    }
    true
}


/// A character git-url-parse accepts in a URL scheme after its first letter.
pub open spec fn scheme_char(c: char) -> bool {
    let u = c as u32;
    (0x61 <= u && u <= 0x7a) || (0x41 <= u && u <= 0x5a) || (0x30 <= u && u <= 0x39) || c == '+' || c == '-'
        || c == '.'
}

/// End of the run of scheme characters of `s` that starts at `i`.
pub open spec fn scheme_end(s: Seq<char>, i: int) -> int
    decreases s.len() - i,
{
    if 0 <= i < s.len() && scheme_char(s[i]) {
        scheme_end(s, i + 1)
    } else {
        i
    }
}

/// `url` opens with a scheme (an ASCII letter, then scheme characters, then
/// `://`) that contains `ssh`. git-url-parse then takes the URL as ssh-like
/// and drops the first byte of its path by slicing, which panics when that
/// path is empty or starts with a character of more than one byte; such URLs
/// are left out as a whole.
pub open spec fn ssh_scheme(url: Seq<char>) -> bool {
    url.len() > 0 && ((0x61 <= (url[0] as u32) && (url[0] as u32) <= 0x7a) || (0x41 <= (url[0] as u32)
        && (url[0] as u32) <= 0x5a)) && occurs_at(url, "://"@, scheme_end(url, 1)) && contains_seq(
        url.take(scheme_end(url, 1)),
        "ssh"@,
    )
}

fn is_scheme_char(c: char) -> (r: bool)
    ensures
        r == scheme_char(c),
{
    let u = c as u32;
    (0x61 <= u && u <= 0x7a) || (0x41 <= u && u <= 0x5a) || (0x30 <= u && u <= 0x39) || c == '+' || c == '-'
        || c == '.'
}

/// Whether `url` opens with a scheme that contains `ssh`.
pub fn has_ssh_scheme(url: &str) -> (r: bool)
    ensures
        r == ssh_scheme(url@),
{
    let s = chars_of(url);
    if s.len() == 0 {
        return false;
    }
    let u0 = s[0] as u32;
    if !((0x61 <= u0 && u0 <= 0x7a) || (0x41 <= u0 && u0 <= 0x5a)) {
        return false;
    }
    let mut e: usize = 1;
    while e < s.len() && is_scheme_char(s[e])
        invariant
            1 <= e <= s.len(),
            scheme_end(s@, 1) == scheme_end(s@, e as int),
        decreases s.len() - e,
    {
        e = e + 1;
    }
    let sep = chars_of("://");
    let ssh = chars_of("ssh");
    if !crate::text::occurs_at_exec(s.as_slice(), sep.as_slice(), e) {
        return false;
    }
    let head = crate::text::slice_chars(s.as_slice(), 0, e);
    proof {
        assert(head@ =~= s@.take(e as int));
    }
    contains_exec(head.as_slice(), ssh.as_slice())
}

/// The `owner/repo` name of a repository URL, as git-url-parse reads it.
pub uninterp spec fn git_repo_fullname(url: Seq<char>) -> Option<Seq<char>>;

/// Relies on `git_url_parse::GitUrl::parse`, `GitUrl::provider_info` for
/// `GenericProvider`, and `GenericProvider::fullname`: the `owner/repo` name
/// of a repository URL, or nothing when the URL does not parse (as for any
/// text holding a NUL character) or its path has no `owner/repo` form.
#[verifier::external_body]
fn repo_fullname(url: &str) -> (r: Option<String>)
    requires
        !ssh_scheme(url@),
    ensures
        match r {
            Some(p) => git_repo_fullname(url@) == Some(p@),
            None => git_repo_fullname(url@) is None,
        },
        url@.contains('\0') ==> r is None,
{
    match git_url_parse::GitUrl::parse(url) {
        Ok(u) => match u.provider_info::<git_url_parse::types::provider::GenericProvider>() {
            Ok(p) => Some(p.fullname()),
            Err(_) => None,
        },
        Err(_) => None,
    }
}

/// Why a recipe could not be taken into a run.
#[derive(Clone, Copy, Debug, PartialEq, Eq, Structural)]
pub enum DiscoveryError {
    MissingHomepage,
    MissingHash,
    MissingVersion,
}

/// A recipe taken into a run: where it is, what it is, what it holds now and
/// what happened to it.
pub struct Package {
    pub name: String,
    pub path: String,
    pub kind: PackageKind,
    pub homepage: String,
    pub repo: Option<String>,
    pub version: String,
    pub nix_hash: String,
    pub text: String,
    pub result: UpdateResult,
}

/// The kind of the recipe with text `t`.
pub open spec fn recipe_kind(t: Seq<char>) -> PackageKind {
    classify_spec(
        has_call(t, "fetchPypi"@),
        has_call(t, "rustPlatform.buildRustPackage"@),
        has_call(t, "buildNpmPackage"@),
        has_call(t, "buildGoModule"@),
        t,
    )
}

impl Package {
    /// The recipe at `path` with text `text`, when it declares a `pname` that
    /// the filters select; an error when it lacks a homepage, a hash or a
    /// version. Its `repo` is the homepage's `owner/repo` name when the
    /// homepage has one (an ssh-scheme homepage is not read for it).
    pub fn from_recipe(path: &str, text: &str, wanted: &Vec<String>, exclude: &Vec<String>) -> (r: Result<Option<Package>, DiscoveryError>)
        ensures
            ({
                let t = text@;
                let pname = get_attr(t, "pname"@);
                if pname is None || !selected_spec(pname.unwrap(), strings_view(wanted@), strings_view(exclude@)) {
                    r == Ok::<Option<Package>, DiscoveryError>(None)
                } else if get_attr(t, "homepage"@) is None {
                    r == Err::<Option<Package>, DiscoveryError>(DiscoveryError::MissingHomepage)
                } else if get_attr(t, "hash"@) is None {
                    r == Err::<Option<Package>, DiscoveryError>(DiscoveryError::MissingHash)
                } else if get_attr(t, "version"@) is None {
                    r == Err::<Option<Package>, DiscoveryError>(DiscoveryError::MissingVersion)
                } else {
                    r matches Ok(Some(p)) && {
                        &&& p.name@ == pname.unwrap()
                        &&& p.path@ == path@
                        &&& p.kind == recipe_kind(t)
                        &&& p.homepage@ == get_attr(t, "homepage"@).unwrap()
                        &&& opt_string_view(p.repo) == if ssh_scheme(get_attr(t, "homepage"@).unwrap()) {
                            None
                        } else {
                            git_repo_fullname(get_attr(t, "homepage"@).unwrap())
                        }
                        &&& p.nix_hash@ == get_attr(t, "hash"@).unwrap()
                        &&& p.version@ == get_attr(t, "version"@).unwrap()
                        &&& p.text@ == t
                        &&& p.result.status@ == Set::<UpdateStatus>::empty()
                        &&& p.result.changes@.len() == 0
                    }
                }
            }),
    {
        let ast = Ast::from_text(text);
        let pname = match ast.get("pname") {
            Some(p) => p,
            None => return Ok(None),
        };
        if !is_selected(&pname, wanted, exclude) {
            return Ok(None);
        }
        let homepage = match ast.get("homepage") {
            Some(h) => h,
            None => return Err(DiscoveryError::MissingHomepage),
        };
        let nix_hash = match ast.get("hash") {
            Some(h) => h,
            None => return Err(DiscoveryError::MissingHash),
        };
        let version = match ast.get("version") {
            Some(v) => v,
            None => return Err(DiscoveryError::MissingVersion),
        };
        let repo = if has_ssh_scheme(&homepage) {
            None
        } else {
            repo_fullname(&homepage)
        };
        let kind = classify(&ast);
        Ok(Some(Package {
            name: pname,
            path: path.to_string(),
            kind,
            homepage,
            repo,
            version,
            nix_hash,
            text: text.to_string(),
            result: UpdateResult::new(),
        }))
    }

    /// The editor over the recipe's text as it was discovered.
    pub fn ast(&self) -> (r: Ast)
        ensures
            r@ == self.text@,
    {
        Ast::from_text(&self.text)
    }

    /// The width of the recipe's name on screen, in characters.
    pub fn display_width(&self) -> (r: usize)
        ensures
            r == self.name@.len(),
    {
        self.name.as_str().unicode_len()
    }

    /// The recipe's name as a terminal hyperlink to its homepage.
    pub fn name(&self) -> (r: String)
        ensures
            r@ == "\x1B]8;;"@ + self.homepage@ + "\x1B\\"@ + self.name@ + "\x1B]8;;\x1B\\"@,
    {
        let parts = ["\x1B]8;;", self.homepage.as_str(), "\x1B\\", self.name.as_str(), "\x1B]8;;\x1B\\"];
        let r = crate::strategy::concat(&parts);
        proof {
            assert(parts@.drop_last().drop_last().drop_last().drop_last().drop_last() =~= Seq::<&str>::empty());
            reveal_with_fuel(Seq::fold_left, 6);
            assert(r@ =~= "\x1B]8;;"@ + self.homepage@ + "\x1B\\"@ + self.name@ + "\x1B]8;;\x1B\\"@);
        }
        r
    }

    /// The recipe's `owner/repo` name, for the strategies that query a
    /// repository host; without one the recipe fails.
    pub fn repo_or_fail(&mut self) -> (r: Option<String>)
        ensures
            r == old(self).repo,
            final(self).repo == old(self).repo,
            final(self).name == old(self).name,
            final(self).text == old(self).text,
            old(self).repo is Some ==> final(self).result == old(self).result,
            old(self).repo is None ==> final(self).result.status@ == set![UpdateStatus::Failed] && opt_string_view(
                final(self).result.message,
            ) == Some("Homepage has no owner/repo repository name"@),
    {
        match &self.repo {
            Some(r) => {
                let c = r.clone();
                Some(c)
            },
            None => {
                self.result.failed("Homepage has no owner/repo repository name");
                None
            },
        }
    }

    /// Whether the recipe was found up to date.
    pub fn is_up_to_date(&self) -> (r: bool)
        ensures
            r == self.result.status@.contains(UpdateStatus::UpToDate),
    {
        self.result.status.contains(UpdateStatus::UpToDate)
    }
}

/// A recipe needs no update: its current identity (version or revision) is
/// the latest one and no update is forced.
pub open spec fn skip_spec(force: bool, current: Seq<char>, latest: Seq<char>) -> bool {
    current == latest && !force
}

/// Whether to skip the update of a recipe whose identity is `current` when
/// upstream's latest is `latest`.
pub fn should_skip_update(force: bool, current: &str, latest: &str) -> (r: bool)
    ensures
        r == skip_spec(force, current@, latest@),
{
    let c = current.to_string();
    let l = latest.to_string();
    c == l && !force
}

/// `h` without a leading `sha256-`, cut to its first 8 characters.
pub open spec fn short_hash_spec(h: Seq<char>) -> Seq<char> {
    let s = if h.len() >= 7 && h.take(7) == "sha256-"@ {
        h.skip(7)
    } else {
        h
    };
    if s.len() <= 8 {
        s
    } else {
        s.take(8)
    }
}

/// A short form of a hash or revision: a leading `sha256-` dropped, then the
/// first 8 characters.
pub fn short_hash(hash: &str) -> (r: String)
    ensures
        r@ == short_hash_spec(hash@),
{
    let h = chars_of(hash);
    let prefix = chars_of("sha256-");
    proof {
        reveal_strlit("sha256-");
    }
    let start: usize = if h.len() >= 7 && crate::text::occurs_at_exec(h.as_slice(), prefix.as_slice(), 0) {
        proof {
            assert(h@.subrange(0, 7) =~= h@.take(7));
        }
        7
    } else {
        proof {
            if h@.len() >= 7 && h@.take(7) == "sha256-"@ {
                assert(h@.subrange(0, 7) =~= h@.take(7));
            }
        }
        0
    };
    let end: usize = if h.len() - start <= 8 {
        h.len()
    } else {
        start + 8
    };
    let s = crate::text::slice_chars(h.as_slice(), start, end);
    proof {
        assert(h@.skip(0) =~= h@);
        assert(s@ =~= short_hash_spec(h@));
    }
    string_of(s.as_slice())
}

/// What happened to a recipe in a run.
#[derive(Clone, Copy, Debug, PartialEq, Eq, Structural, Hash)]
pub enum UpdateStatus {
    Built,
    Cached,
    Failed,
    Updated,
    UpToDate,
    Unknown,
}

impl Default for UpdateStatus {
    fn default() -> (r: UpdateStatus)
        ensures
            r == UpdateStatus::Unknown,
    {
        UpdateStatus::Unknown
    }
}

/// A set of statuses.
#[derive(Clone, Copy, Debug, PartialEq, Eq, Structural, Default)]
pub struct StatusSet {
    built: bool,
    cached: bool,
    failed: bool,
    updated: bool,
    up_to_date: bool,
    unknown: bool,
}

impl View for StatusSet {
    type V = Set<UpdateStatus>;

    closed spec fn view(&self) -> Set<UpdateStatus> {
        Set::new(
            |s: UpdateStatus|
                match s {
                    UpdateStatus::Built => self.built,
                    UpdateStatus::Cached => self.cached,
                    UpdateStatus::Failed => self.failed,
                    UpdateStatus::Updated => self.updated,
                    UpdateStatus::UpToDate => self.up_to_date,
                    UpdateStatus::Unknown => self.unknown,
                },
        )
    }
}

impl StatusSet {
    /// The empty set.
    pub fn new() -> (r: StatusSet)
        ensures
            r@ == Set::<UpdateStatus>::empty(),
    {
        let r = StatusSet {
            built: false,
            cached: false,
            failed: false,
            updated: false,
            up_to_date: false,
            unknown: false,
        };
        proof {
            assert(r@ =~= Set::<UpdateStatus>::empty());
        }
        r
    }

    pub fn contains(&self, s: UpdateStatus) -> (r: bool)
        ensures
            r == self@.contains(s),
    {
        match s {
            UpdateStatus::Built => self.built,
            UpdateStatus::Cached => self.cached,
            UpdateStatus::Failed => self.failed,
            UpdateStatus::Updated => self.updated,
            UpdateStatus::UpToDate => self.up_to_date,
            UpdateStatus::Unknown => self.unknown,
        }
    }

    pub fn insert(&mut self, s: UpdateStatus)
        ensures
            final(self)@ == old(self)@.insert(s),
    {
        match s {
            UpdateStatus::Built => self.built = true,
            UpdateStatus::Cached => self.cached = true,
            UpdateStatus::Failed => self.failed = true,
            UpdateStatus::Updated => self.updated = true,
            UpdateStatus::UpToDate => self.up_to_date = true,
            UpdateStatus::Unknown => self.unknown = true,
        }
        proof {
            assert(self@ =~= old(self)@.insert(s));
        }
    }

    pub fn clear(&mut self)
        ensures
            final(self)@ == Set::<UpdateStatus>::empty(),
    {
        *self = StatusSet::new();
    }
}

pub open spec fn opt_str_view(o: Option<&str>) -> Option<Seq<char>> {
    match o {
        Some(s) => Some(s@),
        None => None,
    }
}

pub open spec fn opt_string_view(o: Option<String>) -> Option<Seq<char>> {
    match o {
        Some(s) => Some(s@),
        None => None,
    }
}

/// The description of a change from `o` to `n`.
pub open spec fn change_text(o: Seq<char>, n: Seq<char>) -> Seq<char> {
    o + " → "@ + n
}

/// The outcome of one recipe in a run: statuses, a message, the old and new
/// version and revision, and the changes made, in order.
#[derive(Debug, Default)]
pub struct UpdateResult {
    pub status: StatusSet,
    pub message: Option<String>,
    pub old_version: Option<String>,
    pub new_version: Option<String>,
    pub old_git_commit: Option<String>,
    pub new_git_commit: Option<String>,
    pub changes: Vec<String>,
}

pub open spec fn changes_view(v: Seq<String>) -> Seq<Seq<char>> {
    Seq::new(v.len(), |i: int| v[i]@)
}

/// Status symbol shown for `check`: a cross whenever the recipe failed, a
/// tick for a reached `Built`, `Updated` or `Cached`, a dash otherwise.
pub open spec fn status_symbol(status: Set<UpdateStatus>, check: UpdateStatus) -> Seq<char> {
    if status.contains(UpdateStatus::Failed) {
        "✗"@
    } else if (check == UpdateStatus::Built || check == UpdateStatus::Updated || check
        == UpdateStatus::Cached) && status.contains(check) {
        "✓"@
    } else {
        "-"@
    }
}

impl UpdateResult {
    /// An empty outcome.
    pub fn new() -> (r: UpdateResult)
        ensures
            r.status@ == Set::<UpdateStatus>::empty(),
            r.message is None,
            r.old_version is None,
            r.new_version is None,
            r.old_git_commit is None,
            r.new_git_commit is None,
            r.changes@.len() == 0,
    {
        UpdateResult {
            status: StatusSet::new(),
            message: None,
            old_version: None,
            new_version: None,
            old_git_commit: None,
            new_git_commit: None,
            changes: Vec::new(),
        }
    }

    /// The symbol shown for status `check` in the report.
    pub fn status(&self, check: UpdateStatus) -> (r: String)
        ensures
            r@ == status_symbol(self.status@, check),
    {
        if self.status.contains(UpdateStatus::Failed) {
            "✗".to_string()
        } else if (check == UpdateStatus::Built || check == UpdateStatus::Updated || check
            == UpdateStatus::Cached) && self.status.contains(check) {
            "✓".to_string()
        } else {
            "-".to_string()
        }
    }

    /// Marks the recipe failed: `Failed` becomes its only status.
    pub fn failed(&mut self, message: &str)
        ensures
            final(self).status@ == set![UpdateStatus::Failed],
            opt_string_view(final(self).message) == Some(message@),
            final(self).old_version == old(self).old_version,
            final(self).new_version == old(self).new_version,
            final(self).old_git_commit == old(self).old_git_commit,
            final(self).new_git_commit == old(self).new_git_commit,
            final(self).changes == old(self).changes,
    {
        self.status.clear();
        self.status.insert(UpdateStatus::Failed);
        proof {
            assert(self.status@ =~= set![UpdateStatus::Failed]);
        }
        self.message = Some(message.to_string());
    }

    /// Sets the message.
    pub fn message(&mut self, message: &str)
        ensures
            opt_string_view(final(self).message) == Some(message@),
            final(self).status == old(self).status,
            final(self).old_version == old(self).old_version,
            final(self).new_version == old(self).new_version,
            final(self).old_git_commit == old(self).old_git_commit,
            final(self).new_git_commit == old(self).new_git_commit,
            final(self).changes == old(self).changes,
    {
        self.message = Some(message.to_string());
    }

    /// Records that the recipe is up to date (unless it already failed).
    pub fn up_to_date(&mut self)
        ensures
            final(self).status@ == if old(self).status@.contains(UpdateStatus::Failed) {
                old(self).status@
            } else {
                old(self).status@.insert(UpdateStatus::UpToDate)
            },
            opt_string_view(final(self).message) == Some("Up to date"@),
            final(self).old_version == old(self).old_version,
            final(self).new_version == old(self).new_version,
            final(self).old_git_commit == old(self).old_git_commit,
            final(self).new_git_commit == old(self).new_git_commit,
            final(self).changes == old(self).changes,
    {
        if !self.status.contains(UpdateStatus::Failed) {
            self.status.insert(UpdateStatus::UpToDate);
        }
        self.message = Some("Up to date".to_string());
    }

    /// Records a change of revision from `old` to `new`, when both are given
    /// and differ: `Updated` (unless the recipe failed), the change in short
    /// form, and both revisions.
    pub fn git_commit(&mut self, from: Option<&str>, to: Option<&str>)
        ensures
            ({
                let o = opt_str_view(from);
                let n = opt_str_view(to);
                if o is Some && n is Some && o != n {
                    &&& final(self).status@ == if old(self).status@.contains(UpdateStatus::Failed) {
                        old(self).status@
                    } else {
                        old(self).status@.insert(UpdateStatus::Updated)
                    }
                    &&& changes_view(final(self).changes@) == changes_view(old(self).changes@).push(
                        change_text(short_hash_spec(o.unwrap()), short_hash_spec(n.unwrap())),
                    )
                    &&& opt_string_view(final(self).old_git_commit) == o
                    &&& opt_string_view(final(self).new_git_commit) == n
                    &&& final(self).old_version == old(self).old_version
                    &&& final(self).new_version == old(self).new_version
                } else {
                    final(self).status == old(self).status && final(self).changes == old(self).changes
                        && final(self).old_git_commit == old(self).old_git_commit
                        && final(self).new_git_commit == old(self).new_git_commit
                        && final(self).old_version == old(self).old_version
                        && final(self).new_version == old(self).new_version
                }
            }),
            final(self).message == old(self).message,
    {
        match (from, to) {
            (Some(o), Some(n)) => {
                let os = o.to_string();
                let ns = n.to_string();
                if os != ns {
                    if !self.status.contains(UpdateStatus::Failed) {
                        self.status.insert(UpdateStatus::Updated);
                    }
                    let c = change_string(&short_hash(o), &short_hash(n));
                    let ghost before = changes_view(self.changes@);
                    self.changes.push(c);
                    proof {
                        assert(changes_view(self.changes@) =~= before.push(c@));
                    }
                    self.old_git_commit = Some(os);
                    self.new_git_commit = Some(ns);
                }
            },
            _ => {},
        }
    }

    /// Records a change of version from `old` to `new`, when both are given,
    /// differ, and the old one holds no interpolation: `Updated` (unless the
    /// recipe failed), the change, and both versions.
    pub fn version(&mut self, from: Option<&str>, to: Option<&str>)
        ensures
            ({
                let o = opt_str_view(from);
                let n = opt_str_view(to);
                if o is Some && n is Some && o != n && !contains_seq(o.unwrap(), "${"@)
                    && !contains_seq(o.unwrap(), "}"@) {
                    &&& final(self).status@ == if old(self).status@.contains(UpdateStatus::Failed) {
                        old(self).status@
                    } else {
                        old(self).status@.insert(UpdateStatus::Updated)
                    }
                    &&& changes_view(final(self).changes@) == changes_view(old(self).changes@).push(
                        change_text(o.unwrap(), n.unwrap()),
                    )
                    &&& opt_string_view(final(self).old_version) == o
                    &&& opt_string_view(final(self).new_version) == n
                    &&& final(self).old_git_commit == old(self).old_git_commit
                    &&& final(self).new_git_commit == old(self).new_git_commit
                } else {
                    final(self).status == old(self).status && final(self).changes == old(self).changes
                        && final(self).old_git_commit == old(self).old_git_commit
                        && final(self).new_git_commit == old(self).new_git_commit
                        && final(self).old_version == old(self).old_version
                        && final(self).new_version == old(self).new_version
                }
            }),
            final(self).message == old(self).message,
    {
        match (from, to) {
            (Some(o), Some(n)) => {
                let os = o.to_string();
                let ns = n.to_string();
                let oc = chars_of(o);
                let d = chars_of("${");
                let b = chars_of("}");
                if os != ns && !contains_exec(oc.as_slice(), d.as_slice()) && !contains_exec(
                    oc.as_slice(),
                    b.as_slice(),
                ) {
                    if !self.status.contains(UpdateStatus::Failed) {
                        self.status.insert(UpdateStatus::Updated);
                    }
                    let c = change_string(o, n);
                    let ghost before = changes_view(self.changes@);
                    self.changes.push(c);
                    proof {
                        assert(changes_view(self.changes@) =~= before.push(c@));
                    }
                    self.old_version = Some(os);
                    self.new_version = Some(ns);
                }
            },
            _ => {},
        }
    }
}

fn change_string(o: &str, n: &str) -> (r: String)
    ensures
        r@ == change_text(o@, n@),
{
    let mut v = chars_of(o);
    let arrow = chars_of(" → ");
    let nc = chars_of(n);
    v.extend_from_slice(arrow.as_slice());
    v.extend_from_slice(nc.as_slice());
    string_of(v.as_slice())
}

} // verus!
