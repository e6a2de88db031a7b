//! Core addon data structures.

use vstd::prelude::*;
use vstd::string::StringExecFns;
use crate::text::{chars_of, copy_strings, eq_ignore_ascii_case, range_eq_ignore_case, views};
use crate::sources::{clone_opt_string, opt_view};

verus! {

broadcast use vstd::string::group_string_axioms;

/// Information about an addon from a source (e.g., CurseForge).
#[derive(Debug, Clone)]
pub struct AddonInfo {
    pub id: String,
    pub name: String,
    pub slug: String,
    pub description: Option<String>,
    pub download_count: Option<u64>,
    pub source: String,
}

/// Paginated search results from an addon source.
#[derive(Debug, Clone)]
pub struct SearchResult {
    pub addons: Vec<AddonInfo>,
    pub page: u32,
    pub page_size: u32,
    pub total_count: u32,
}

/// `ceil(a / b)` for `b > 0`, and 0 for `b == 0`.
pub open spec fn pages_for(total: int, page_size: int) -> int {
    if page_size <= 0 {
        0
    } else {
        (total + page_size - 1) / page_size
    }
}

impl SearchResult {
    /// The number of pages needed to show `total_count` results,
    /// `page_size` per page (0 when the page size is 0).
    pub fn total_pages(&self) -> (r: u32)
        ensures
            r == pages_for(self.total_count as int, self.page_size as int),
    {
        if self.page_size == 0 {
            return 0;
        }
        let q = self.total_count / self.page_size;
        let rem = self.total_count % self.page_size;
        proof {
            lemma_ceil_div(self.total_count as int, self.page_size as int);
        }
        if rem == 0 {
            q
        } else {
            q + 1
        }
    }
}

proof fn lemma_ceil_div(t: int, p: int)
    requires
        p > 0,
        t >= 0,
        t <= u32::MAX,
    ensures
        t % p == 0 ==> (t + p - 1) / p == t / p,
        t % p != 0 ==> (t + p - 1) / p == t / p + 1,
        t / p <= t,
        t % p != 0 ==> t / p < t,
{
    let q = t / p;
    let r = t % p;
    assert(t == q * p + r) by (nonlinear_arith)
        requires
            p > 0,
            q == t / p,
            r == t % p,
            t >= 0,
    ;
    assert(0 <= r < p);
    if r == 0 {
        assert((t + p - 1) / p == q) by (nonlinear_arith)
            requires
                t == q * p,
                p > 0,
        ;
    } else {
        assert((t + p - 1) / p == q + 1) by (nonlinear_arith)
            requires
                t == q * p + r,
                0 < r < p,
        ;
    }
    assert(q <= q * p) by (nonlinear_arith)
        requires
            p > 0,
            q >= 0,
    ;
    assert(q >= 0) by (nonlinear_arith)
        requires
            q == t / p,
            t >= 0,
            p > 0,
    ;
}

/// Version information for a specific addon release.
#[derive(Debug, Clone)]
pub struct VersionInfo {
    /// The CurseForge file ID, for sources that number their files.
    pub file_id: Option<u32>,
    /// The release identity of sources without numeric file IDs (Wago).
    pub external_release_id: Option<String>,
    pub version: String,
    pub display_name: String,
    pub download_url: String,
    pub file_name: String,
    pub file_size: u64,
    pub game_versions: Vec<String>,
    pub released_at: String,
    pub dependencies: Vec<DependencyInfo>,
    /// Canonical directory names from CurseForge file modules.
    /// Each entry is a top-level folder this addon installs.
    pub modules: Vec<String>,
}

/// Dependency information for an addon.
#[derive(Debug, Clone)]
pub struct DependencyInfo {
    pub addon_id: String,
    pub dependency_type: DependencyType,
}

/// Type of dependency relationship.
#[derive(Debug, Clone, Copy, PartialEq, Eq, Structural)]
pub enum DependencyType {
    Required,
    Optional,
    Embedded,
}

/// Release channel preference for addon files.
///
/// CurseForge uses `releaseType` integers: 1=Release, 2=Beta, 3=Alpha.
/// A channel preference of Beta means "accept Release and Beta files" —
/// i.e., any file whose `releaseType <= channel` is eligible.
#[derive(Debug, Clone, Copy, PartialEq, Eq, Structural, PartialOrd, Ord, Hash)]
pub enum ReleaseChannel {
    Stable,
    Beta,
    Alpha,
}

/// The CurseForge `releaseType` number of a channel.
pub open spec fn rank(c: ReleaseChannel) -> u32 {
    match c {
        ReleaseChannel::Stable => 1,
        ReleaseChannel::Beta => 2,
        ReleaseChannel::Alpha => 3,
    }
}

/// The lowercase name of a channel.
pub open spec fn channel_name(c: ReleaseChannel) -> Seq<char> {
    match c {
        ReleaseChannel::Stable => seq!['s', 't', 'a', 'b', 'l', 'e'],
        ReleaseChannel::Beta => seq!['b', 'e', 't', 'a'],
        ReleaseChannel::Alpha => seq!['a', 'l', 'p', 'h', 'a'],
    }
}

pub open spec fn release_word() -> Seq<char> {
    seq!['r', 'e', 'l', 'e', 'a', 's', 'e']
}

/// The channel a user-supplied name selects: `stable` (or its alias
/// `release`), `beta` or `alpha`, any letter case.
pub open spec fn channel_from_name(s: Seq<char>) -> Option<ReleaseChannel> {
    if eq_ignore_ascii_case(s, channel_name(ReleaseChannel::Stable)) || eq_ignore_ascii_case(
        s,
        release_word(),
    ) {
        Some(ReleaseChannel::Stable)
    } else if eq_ignore_ascii_case(s, channel_name(ReleaseChannel::Beta)) {
        Some(ReleaseChannel::Beta)
    } else if eq_ignore_ascii_case(s, channel_name(ReleaseChannel::Alpha)) {
        Some(ReleaseChannel::Alpha)
    } else {
        None
    }
}

impl ReleaseChannel {
    /// Returns the CurseForge `releaseType` integer for this channel.
    pub fn as_cf_release_type(self) -> (r: u32)
        ensures
            r == rank(self),
    {
        match self {
            ReleaseChannel::Stable => 1,
            ReleaseChannel::Beta => 2,
            ReleaseChannel::Alpha => 3,
        }
    }

    /// Returns true if a file with the given CurseForge `releaseType` is
    /// acceptable under this channel preference.
    pub fn includes_release_type(self, release_type: u32) -> (r: bool)
        ensures
            r == (release_type <= rank(self)),
    {
        release_type <= self.as_cf_release_type()
    }

    /// The channel's lowercase name, as shown to users and stored in files.
    pub fn as_str(self) -> (r: &'static str)
        ensures
            r@ == channel_name(self),
    {
        proof {
            reveal_strlit("stable");
            reveal_strlit("beta");
            reveal_strlit("alpha");
        }
        match self {
            ReleaseChannel::Stable => "stable",
            ReleaseChannel::Beta => "beta",
            ReleaseChannel::Alpha => "alpha",
        }
    }

    /// `self` admits every file that `other` admits.
    pub fn at_least(self, other: ReleaseChannel) -> (r: bool)
        ensures
            r == (rank(self) >= rank(other)),
    {
        self.as_cf_release_type() >= other.as_cf_release_type()
    }

    /// Parses a channel name: `stable` or `release`, `beta`, `alpha`, any
    /// letter case; anything else is an error that names the input.
    pub fn parse(s: &str) -> (r: Result<ReleaseChannel, String>)
        ensures
            channel_from_name(s@) matches Some(c) ==> r == Ok::<ReleaseChannel, String>(c),
            channel_from_name(s@) is None ==> (r matches Err(m) && m@ == unknown_channel_message(s@)),
    {
        let v = chars_of(s);
        let stable = chars_of("stable");
        let release = chars_of("release");
        let beta = chars_of("beta");
        let alpha = chars_of("alpha");
        proof {
            reveal_strlit("stable");
            reveal_strlit("release");
            reveal_strlit("beta");
            reveal_strlit("alpha");
            assert(stable@ == channel_name(ReleaseChannel::Stable));
            assert(release@ == release_word());
            assert(beta@ == channel_name(ReleaseChannel::Beta));
            assert(alpha@ == channel_name(ReleaseChannel::Alpha));
            assert(v@.subrange(0, v@.len() as int) == v@);
        }
        if range_eq_ignore_case(&v, 0, v.len(), &stable) || range_eq_ignore_case(
            &v,
            0,
            v.len(),
            &release,
        ) {
            Ok(ReleaseChannel::Stable)
        } else if range_eq_ignore_case(&v, 0, v.len(), &beta) {
            Ok(ReleaseChannel::Beta)
        } else if range_eq_ignore_case(&v, 0, v.len(), &alpha) {
            Ok(ReleaseChannel::Alpha)
        } else {
            let mut m = String::from_str("unknown release channel '");
            m.append(s);
            m.append("' (expected: stable, beta, alpha)");
            proof {
                reveal_strlit("unknown release channel '");
                reveal_strlit("' (expected: stable, beta, alpha)");
            }
            Err(m)
        }
    }
}

/// The error text for an unknown channel name.
pub open spec fn unknown_channel_message(s: Seq<char>) -> Seq<char> {
    "unknown release channel '"@ + s + "' (expected: stable, beta, alpha)"@
}

impl Default for ReleaseChannel {
    fn default() -> (r: ReleaseChannel)
        ensures
            r == ReleaseChannel::Stable,
    {
        ReleaseChannel::Stable
    }
}

impl core::str::FromStr for ReleaseChannel {
    type Err = String;

    fn from_str(s: &str) -> (r: Result<ReleaseChannel, String>)
        ensures
            channel_from_name(s@) matches Some(c) ==> r == Ok::<ReleaseChannel, String>(c),
            channel_from_name(s@) is None ==> (r matches Err(m) && m@ == unknown_channel_message(s@)),
    {
        ReleaseChannel::parse(s)
    }
}

/// A channel's name parses back to the channel.
pub proof fn law_channel_name_roundtrip(c: ReleaseChannel)
    ensures
        channel_from_name(channel_name(c)) == Some(c),
{
    let n = channel_name(c);
    assert(eq_ignore_ascii_case(n, n));
    let s = channel_name(ReleaseChannel::Stable);
    let b = channel_name(ReleaseChannel::Beta);
    let a = channel_name(ReleaseChannel::Alpha);
    let r = release_word();
    assert(!eq_ignore_ascii_case(b, s) && !eq_ignore_ascii_case(b, r)) by {
        assert(b.len() != s.len() && b.len() != r.len());
    }
    assert(!eq_ignore_ascii_case(a, s) && !eq_ignore_ascii_case(a, r) && !eq_ignore_ascii_case(a, b)) by {
        assert(a.len() != s.len() && a.len() != r.len() && a.len() != b.len());
    }
}

/// A wider channel admits every release type a narrower one admits.
pub proof fn law_channels_nest(narrow: ReleaseChannel, wide: ReleaseChannel, release_type: u32)
    requires
        rank(narrow) <= rank(wide),
        release_type <= rank(narrow),
    ensures
        release_type <= rank(wide),
{
}

/// WoW game flavor, used to select the correct flavor-specific `.toc` file.
#[derive(Debug, Clone, Copy, PartialEq, Eq, Structural)]
pub enum GameFlavor {
    Retail,
    Classic,
}

/// The TOC file suffix of a flavor.
pub open spec fn flavor_suffix(f: GameFlavor) -> Seq<char> {
    match f {
        GameFlavor::Retail => "_Mainline"@,
        GameFlavor::Classic => "_Classic"@,
    }
}

impl GameFlavor {
    /// Returns the TOC file suffix for this flavor (e.g., `_Mainline` for Retail).
    pub fn toc_suffix(self) -> (r: &'static str)
        ensures
            r@ == flavor_suffix(self),
    {
        match self {
            GameFlavor::Retail => "_Mainline",
            GameFlavor::Classic => "_Classic",
        }
    }
}

impl Default for GameFlavor {
    fn default() -> (r: GameFlavor)
        ensures
            r == GameFlavor::Retail,
    {
        GameFlavor::Retail
    }
}

/// An addon that has been installed and is tracked in the registry.
#[derive(Debug, Clone)]
pub struct InstalledAddon {
    pub name: String,
    pub slug: String,
    pub version: String,
    pub source: String,
    pub addon_id: String,
    pub directories: Vec<String>,
    pub is_dependency: bool,
    pub required_by: Vec<String>,
    pub installed_file_id: Option<u32>,
    pub display_name: Option<String>,
    pub channel: Option<ReleaseChannel>,
    pub ignored: Option<bool>,
    pub game_versions: Option<Vec<String>>,
    pub released_at: Option<String>,
    pub auto_update: Option<bool>,
    /// The release identity of sources without numeric file IDs (Wago).
    pub external_release_id: Option<String>,
}

/// An unset flag reads as `false`.
pub open spec fn flag(f: Option<bool>) -> bool {
    match f {
        Some(b) => b,
        None => false,
    }
}

impl InstalledAddon {
    pub fn is_ignored(&self) -> (r: bool)
        ensures
            r == flag(self.ignored),
    {
        match self.ignored {
            Some(b) => b,
            None => false,
        }
    }

    pub fn is_auto_update(&self) -> (r: bool)
        ensures
            r == flag(self.auto_update),
    {
        match self.auto_update {
            Some(b) => b,
            None => false,
        }
    }
}

/// The content of an installed addon, strings taken by their text.
#[verifier::ext_equal]
pub struct AddonModel {
    pub name: Seq<char>,
    pub slug: Seq<char>,
    pub version: Seq<char>,
    pub source: Seq<char>,
    pub addon_id: Seq<char>,
    pub directories: Seq<Seq<char>>,
    pub is_dependency: bool,
    pub required_by: Seq<Seq<char>>,
    pub installed_file_id: Option<u32>,
    pub display_name: Option<Seq<char>>,
    pub channel: Option<ReleaseChannel>,
    pub ignored: Option<bool>,
    pub game_versions: Option<Seq<Seq<char>>>,
    pub released_at: Option<Seq<char>>,
    pub auto_update: Option<bool>,
    pub external_release_id: Option<Seq<char>>,
}

pub open spec fn opt_views(o: Option<Vec<String>>) -> Option<Seq<Seq<char>>> {
    match o {
        Some(v) => Some(views(v@)),
        None => None,
    }
}

fn copy_opt_strings(o: &Option<Vec<String>>) -> (r: Option<Vec<String>>)
    ensures
        opt_views(r) == opt_views(*o),
{
    match o {
        Some(v) => Some(copy_strings(v)),
        None => None,
    }
}

impl InstalledAddon {
    pub open spec fn model(&self) -> AddonModel {
        AddonModel {
            name: self.name@,
            slug: self.slug@,
            version: self.version@,
            source: self.source@,
            addon_id: self.addon_id@,
            directories: views(self.directories@),
            is_dependency: self.is_dependency,
            required_by: views(self.required_by@),
            installed_file_id: self.installed_file_id,
            display_name: opt_view(self.display_name),
            channel: self.channel,
            ignored: self.ignored,
            game_versions: opt_views(self.game_versions),
            released_at: opt_view(self.released_at),
            auto_update: self.auto_update,
            external_release_id: opt_view(self.external_release_id),
        }
    }

    /// A copy with the same content.
    pub fn duplicate(&self) -> (r: InstalledAddon)
        ensures
            r.model() == self.model(),
    {
        InstalledAddon {
            name: self.name.clone(),
            slug: self.slug.clone(),
            version: self.version.clone(),
            source: self.source.clone(),
            addon_id: self.addon_id.clone(),
            directories: copy_strings(&self.directories),
            is_dependency: self.is_dependency,
            required_by: copy_strings(&self.required_by),
            installed_file_id: self.installed_file_id,
            display_name: clone_opt_string(&self.display_name),
            channel: self.channel,
            ignored: self.ignored,
            game_versions: copy_opt_strings(&self.game_versions),
            released_at: clone_opt_string(&self.released_at),
            auto_update: self.auto_update,
            external_release_id: clone_opt_string(&self.external_release_id),
        }
    }
}

} // verus!
