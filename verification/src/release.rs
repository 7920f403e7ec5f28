//! How the editor extension finds the server binary: the release asset for
//! the platform, where a downloaded release lives, which old downloads to
//! remove, and in which order the places are tried.
use vstd::prelude::*;

use crate::text::{chars_of, str_eq};

verus! {

/// The operating systems the editor reports.
#[derive(PartialEq, Eq, Structural, Clone, Copy, Debug)]
pub enum Os {
    Mac,
    Linux,
    Windows,
}

/// The processor architectures the editor reports.
#[derive(PartialEq, Eq, Structural, Clone, Copy, Debug)]
pub enum Arch {
    Aarch64,
    X86,
    X8664,
}

/// The name of the server binary.
pub open spec fn binary_name() -> Seq<char> {
    "md-fold-server"@
}

/// The repository whose releases carry the server binary.
pub open spec fn github_repo() -> Seq<char> {
    "rsomani95/zed-markdown-fold"@
}

/// The target triple of the release binary for a platform, where one is
/// built.
pub open spec fn target_of(os: Os, arch: Arch) -> Option<Seq<char>> {
    match (os, arch) {
        (Os::Mac, Arch::Aarch64) => Some("aarch64-apple-darwin"@),
        (Os::Mac, Arch::X8664) => Some("x86_64-apple-darwin"@),
        (Os::Linux, Arch::Aarch64) => Some("aarch64-unknown-linux-musl"@),
        (Os::Linux, Arch::X8664) => Some("x86_64-unknown-linux-musl"@),
        _ => None,
    }
}

/// The name of the server binary.
pub fn binary_name_string() -> (res: String)
    ensures
        res@ == binary_name(),
{
    String::from_str("md-fold-server")
}

/// The repository whose releases carry the server binary.
pub fn github_repo_string() -> (res: String)
    ensures
        res@ == github_repo(),
{
    String::from_str("rsomani95/zed-markdown-fold")
}

/// The target triple of the release binary for a platform.
pub fn platform_target(os: Os, arch: Arch) -> (res: Option<String>)
    ensures
        match res {
            Some(s) => target_of(os, arch) == Some(s@),
            None => target_of(os, arch) is None,
        },
{
    match (os, arch) {
        (Os::Mac, Arch::Aarch64) => Some(String::from_str("aarch64-apple-darwin")),
        (Os::Mac, Arch::X8664) => Some(String::from_str("x86_64-apple-darwin")),
        (Os::Linux, Arch::Aarch64) => Some(String::from_str("aarch64-unknown-linux-musl")),
        (Os::Linux, Arch::X8664) => Some(String::from_str("x86_64-unknown-linux-musl")),
        _ => None,
    }
}

/// The error for a platform without a release binary.
pub fn unsupported_platform_message() -> (res: String)
    ensures
        res@ == "unsupported platform"@,
{
    String::from_str("unsupported platform")
}

/// The release asset for `platform`: `md-fold-server-<platform>.gz`.
pub fn asset_name(platform: &str) -> (res: String)
    ensures
        res@ == binary_name() + "-"@ + platform@ + ".gz"@,
{
    binary_name_string().concat("-").concat(platform).concat(".gz")
}

/// The directory a release is unpacked into: `md-fold-server-<version>`.
pub fn version_dir(version: &str) -> (res: String)
    ensures
        res@ == binary_name() + "-"@ + version@,
{
    binary_name_string().concat("-").concat(version)
}

/// The binary inside the directory of a release.
pub fn binary_path(version_dir: &str) -> (res: String)
    ensures
        res@ == version_dir@ + "/"@ + binary_name(),
{
    String::from_str(version_dir).concat("/").concat("md-fold-server")
}

/// The error for a release without the asset for this platform.
pub fn missing_asset_message(asset_name: &str) -> (res: String)
    ensures
        res@ == "no release asset '"@ + asset_name@ + "' found"@,
{
    String::from_str("no release asset '").concat(asset_name).concat("' found")
}

/// The error for a directory that could not be created.
pub fn create_dir_message(dir: &str, reason: &str) -> (res: String)
    ensures
        res@ == "failed to create directory '"@ + dir@ + "': "@ + reason@,
{
    String::from_str("failed to create directory '").concat(dir).concat("': ").concat(reason)
}

/// The error when the binary is nowhere to be found.
pub fn not_found_message() -> (res: String)
    ensures
        res@ == binary_name() + " not found. Create a GitHub release at "@ + github_repo()
            + " or place the binary in the extension work directory."@,
{
    binary_name_string().concat(" not found. Create a GitHub release at ").concat(
        "rsomani95/zed-markdown-fold",
    ).concat(" or place the binary in the extension work directory.")
}

/// Whether `name` is the directory of an older release: it starts with
/// `md-fold-server-` and is not the directory of the current one.
pub fn is_stale_version_dir(name: &str, current: &str) -> (res: bool)
    ensures
        res == ({
            let p = binary_name() + "-"@;
            &&& p.len() <= name@.len()
            &&& name@.take(p.len() as int) == p
            &&& name@ != current@
        }),
{
    let prefix = chars_of("md-fold-server-");
    let n = chars_of(name);
    let ghost p = binary_name() + "-"@;
    proof {
        assert(p == "md-fold-server-"@) by {
            reveal_strlit("md-fold-server");
            reveal_strlit("-");
            reveal_strlit("md-fold-server-");
            assert(p =~= "md-fold-server-"@);
        }
    }
    if prefix.len() > n.len() {
        return false;
    }
    let mut k: usize = 0;
    while k < prefix.len()
        invariant
            p == binary_name() + "-"@,
            prefix@ == p,
            n@ == name@,
            prefix@.len() <= n@.len(),
            k <= prefix@.len(),
            forall|j: int| 0 <= j < k ==> n@[j] == prefix@[j],
        decreases prefix.len() - k,
    {
        if n[k] != prefix[k] {
            assert(n@.take(p.len() as int)[k as int] != p[k as int]);
            assert(n@.take(p.len() as int) != p);
            return false;
        }
        k = k + 1;
    }
    assert(n@.take(p.len() as int) =~= p);
    !str_eq(name, current)
}

/// The release asset to fetch on a platform, or the error for a platform
/// without a release binary.
pub fn plan_asset(os: Os, arch: Arch) -> (res: Result<String, String>)
    ensures
        match target_of(os, arch) {
            Some(t) => res matches Ok(a) && a@ == binary_name() + "-"@ + t + ".gz"@,
            None => res matches Err(e) && e@ == "unsupported platform"@,
        },
{
    match platform_target(os, arch) {
        Some(platform) => Ok(asset_name(platform.as_str())),
        None => Err(unsupported_platform_message()),
    }
}

/// Where a release is downloaded from and installed to.
pub struct ReleasePlan {
    /// The URL of the asset.
    pub download_url: String,
    /// The directory of this release.
    pub version_dir: String,
    /// The binary inside that directory.
    pub binary_path: String,
}

/// Picks, from the assets of the release `version` given as (name, URL)
/// pairs, the first one named `asset_name`, and where it goes; or the error
/// when the release has no such asset.
pub fn select_release(asset_name: &str, version: &str, assets: &Vec<(String, String)>) -> (res:
    Result<ReleasePlan, String>)
    ensures
        match res {
            Ok(plan) => exists|i: int|
                0 <= i < assets@.len() && #[trigger] assets@[i].0@ == asset_name@
                    && plan.download_url@ == assets@[i].1@ && (forall|j: int|
                    0 <= j < i ==> #[trigger] assets@[j].0@ != asset_name@)
                    && plan.version_dir@ == binary_name() + "-"@ + version@
                    && plan.binary_path@ == plan.version_dir@ + "/"@ + binary_name(),
            Err(e) => (forall|j: int| 0 <= j < assets@.len() ==> #[trigger] assets@[j].0@ != asset_name@)
                && e@ == "no release asset '"@ + asset_name@ + "' found"@,
        },
{
    let mut i: usize = 0;
    while i < assets.len()
        invariant
            i <= assets@.len(),
            forall|j: int| 0 <= j < i ==> #[trigger] assets@[j].0@ != asset_name@,
        decreases assets.len() - i,
    {
        if str_eq(assets[i].0.as_str(), asset_name) {
            let dir = version_dir(version);
            let bin = binary_path(dir.as_str());
            let url = assets[i].1.clone();
            return Ok(ReleasePlan { download_url: url, version_dir: dir, binary_path: bin });
        }
        i = i + 1;
    }
    Err(missing_asset_message(asset_name))
}

/// What to do with a selected release, given whether its binary is
/// already installed.
pub enum Install {
    /// The binary of this release is installed: use it as it is.
    Reuse { path: String },
    /// Create `dir`, download `url` into `path`, make it executable and
    /// remove the directories of older releases.
    Download { url: String, dir: String, path: String },
}

/// An installed binary is reused; otherwise the release is downloaded.
pub fn install_step(plan: ReleasePlan, installed: bool) -> (res: Install)
    ensures
        installed ==> (res matches Install::Reuse { path } && path@ == plan.binary_path@),
        !installed ==> (res matches Install::Download { url, dir, path } && url@
            == plan.download_url@ && dir@ == plan.version_dir@ && path@ == plan.binary_path@),
{
    if installed {
        Install::Reuse { path: plan.binary_path }
    } else {
        Install::Download { url: plan.download_url, dir: plan.version_dir, path: plan.binary_path }
    }
}

/// What the search for the binary has learned so far.
pub enum Observed {
    /// The search begins, with the path remembered from an earlier search.
    Start { cached: Option<String> },
    /// Whether the remembered path is an existing file.
    CachedFile { path: String, is_file: bool },
    /// Where the system `PATH` has the binary.
    SystemPath { found: Option<String> },
    /// What fetching the latest release gave: the binary's path or an error.
    Release { result: Result<String, String> },
    /// Whether the binary lies in the extension's work directory.
    WorkDir { is_file: bool },
}

/// What the search does next.
pub enum Next {
    /// Check whether `path` is an existing file.
    CheckCachedFile { path: String },
    /// Look the binary up on the system `PATH`.
    CheckSystemPath,
    /// Fetch the latest release, or reuse its installed binary.
    FetchRelease,
    /// Check the extension's work directory.
    CheckWorkDir,
    /// The binary is at `path`.
    Found { path: String },
    /// The binary is nowhere; the search fails with `message`.
    Failed { message: String },
}

/// The search for the binary tries, in order: the remembered path, the
/// system `PATH`, the latest release, and the extension's work directory.
pub open spec fn next_spec(obs: Observed, next: Next) -> bool {
    match obs {
        Observed::Start { cached } => match cached {
            Some(p) => next matches Next::CheckCachedFile { path } && path@ == p@,
            None => next is CheckSystemPath,
        },
        Observed::CachedFile { path, is_file } => if is_file {
            next matches Next::Found { path: q } && q@ == path@
        } else {
            next is CheckSystemPath
        },
        Observed::SystemPath { found } => match found {
            Some(p) => next matches Next::Found { path } && path@ == p@,
            None => next is FetchRelease,
        },
        Observed::Release { result } => match result {
            Ok(p) => next matches Next::Found { path } && path@ == p@,
            Err(_) => next is CheckWorkDir,
        },
        Observed::WorkDir { is_file } => if is_file {
            next matches Next::Found { path } && path@ == binary_name()
        } else {
            next matches Next::Failed { message } && message@ == binary_name()
                + " not found. Create a GitHub release at "@ + github_repo()
                + " or place the binary in the extension work directory."@
        },
    }
}

/// The next step of the search for the binary, given what it has learned.
pub fn next_step(obs: Observed) -> (res: Next)
    ensures
        next_spec(obs, res),
{
    match obs {
        Observed::Start { cached } => match cached {
            Some(p) => Next::CheckCachedFile { path: p },
            None => Next::CheckSystemPath,
        },
        Observed::CachedFile { path, is_file } => if is_file {
            Next::Found { path }
        } else {
            Next::CheckSystemPath
        },
        Observed::SystemPath { found } => match found {
            Some(p) => Next::Found { path: p },
            None => Next::FetchRelease,
        },
        Observed::Release { result } => match result {
            Ok(p) => Next::Found { path: p },
            Err(_) => Next::CheckWorkDir,
        },
        Observed::WorkDir { is_file } => if is_file {
            Next::Found { path: binary_name_string() }
        } else {
            Next::Failed { message: not_found_message() }
        },
    }
}

/// The path a step reports the binary at, if it is `Found`.
pub open spec fn found_path(next: Next) -> Option<Seq<char>> {
    match next {
        Next::Found { path } => Some(path@),
        _ => None,
    }
}

/// The remembered path after a step: the path it found, if any, else the
/// one remembered before.
pub open spec fn cache_step(cached: Option<Seq<char>>, found: Option<Seq<char>>) -> Option<
    Seq<char>,
> {
    match found {
        Some(p) => Some(p),
        None => cached,
    }
}

/// The search for the binary, with the path it remembers from one search
/// to the next.
pub struct BinaryLocator {
    cached: Option<String>,
}

impl BinaryLocator {
    /// The remembered path.
    pub closed spec fn cached(&self) -> Option<Seq<char>> {
        match self.cached {
            Some(p) => Some(p@),
            None => None,
        }
    }

    /// No path remembered yet.
    pub fn new() -> (res: Self)
        ensures
            res.cached() is None,
    {
        BinaryLocator { cached: None }
    }

    /// The remembered path.
    pub fn cached_path(&self) -> (res: Option<String>)
        ensures
            match res {
                Some(p) => self.cached() == Some(p@),
                None => self.cached() is None,
            },
    {
        match &self.cached {
            Some(p) => Some(p.clone()),
            None => None,
        }
    }

    /// The first step of a search: check the remembered path, if there is
    /// one, else the system `PATH`.
    pub fn start(&self) -> (res: Next)
        ensures
            match self.cached() {
                Some(p) => res matches Next::CheckCachedFile { path } && path@ == p,
                None => res is CheckSystemPath,
            },
    {
        next_step(Observed::Start { cached: self.cached_path() })
    }

    /// The next step of the search, given what the last step learned; a
    /// path that the search finds is remembered.
    pub fn observe(&mut self, obs: Observed) -> (res: Next)
        ensures
            next_spec(obs, res),
            final(self).cached() == cache_step(old(self).cached(), found_path(res)),
    {
        let next = next_step(obs);
        if let Next::Found { path } = &next {
            self.cached = Some(path.clone());
        }
        next
    }
}

/// The remembered path after steps that found `founds` in order (`None`
/// for a step that found nothing), starting from `cached`.
pub open spec fn cache_after(cached: Option<Seq<char>>, founds: Seq<Option<Seq<char>>>) -> Option<
    Seq<char>,
>
    decreases founds.len(),
{
    if founds.len() == 0 {
        cached
    } else {
        cache_step(cache_after(cached, founds.drop_last()), founds.last())
    }
}

/// The last path among `founds`, if any step found one.
pub open spec fn last_found(founds: Seq<Option<Seq<char>>>) -> Option<Seq<char>>
    decreases founds.len(),
{
    if founds.len() == 0 {
        None
    } else if founds.last() is Some {
        founds.last()
    } else {
        last_found(founds.drop_last())
    }
}

/// The remembered path is always the last path a search returned: after
/// any steps, it is the last path found, or the one remembered before if
/// none was found; a step that finds nothing leaves it as it was.
pub proof fn law_cache_holds_last_found(cached: Option<Seq<char>>, founds: Seq<Option<Seq<char>>>)
    ensures
        cache_after(cached, founds) == (match last_found(founds) {
            Some(p) => Some(p),
            None => cached,
        }),
    decreases founds.len(),
{
    if founds.len() > 0 {
        law_cache_holds_last_found(cached, founds.drop_last());
    }
}

} // verus!
