//! Addon sources: which platform an addon comes from, how a user names an
//! addon, and the data every source reports about releases.

pub mod curseforge;
pub mod wago;

use vstd::prelude::*;
use crate::addon::VersionInfo;
use crate::error::WowctlError;
use vstd::string::StringExecFns;
use crate::text::{
    chars_of, concat3, eq_ignore_ascii_case, find_char, find_from, find_seq, index_of_in,
    lemma_find_from_bounds, lemma_index_of_in_bounds, range_eq_ignore_case, range_starts_with,
    starts_with, string_of_range, trim, trim_bounds,
};

verus! {

broadcast use vstd::string::group_string_axioms;

/// The addon platforms wowctl can talk to.
#[derive(Debug, Clone, Copy, PartialEq, Eq, Structural, Hash)]
pub enum SourceKind {
    CurseForge,
    Wago,
}

/// The canonical string stored in the registry's per-addon `source` field.
pub open spec fn kind_name(k: SourceKind) -> Seq<char> {
    match k {
        SourceKind::CurseForge => "curseforge"@,
        SourceKind::Wago => "wago"@,
    }
}

/// The source a name selects, any letter case.
pub open spec fn kind_from_name(s: Seq<char>) -> Option<SourceKind> {
    if eq_ignore_ascii_case(s, kind_name(SourceKind::CurseForge)) {
        Some(SourceKind::CurseForge)
    } else if eq_ignore_ascii_case(s, kind_name(SourceKind::Wago)) {
        Some(SourceKind::Wago)
    } else {
        None
    }
}

pub open spec fn unknown_source_message(s: Seq<char>) -> Seq<char> {
    "unknown source '"@ + s + "' (expected: curseforge, wago)"@
}

impl SourceKind {
    /// The canonical string stored in the registry's per-addon `source` field.
    pub fn as_str(self) -> (r: &'static str)
        ensures
            r@ == kind_name(self),
    {
        match self {
            SourceKind::CurseForge => "curseforge",
            SourceKind::Wago => "wago",
        }
    }

    /// Parses a source name (`curseforge` or `wago`, any letter case).
    pub fn parse(s: &str) -> (r: Result<SourceKind, String>)
        ensures
            kind_from_name(s@) matches Some(k) ==> r == Ok::<SourceKind, String>(k),
            kind_from_name(s@) is None ==> (r matches Err(m) && m@ == unknown_source_message(s@)),
    {
        let v = chars_of(s);
        let cf = chars_of("curseforge");
        let wg = chars_of("wago");
        proof {
            reveal_strlit("curseforge");
            reveal_strlit("wago");
            assert(v@.subrange(0, v@.len() as int) == v@);
        }
        if range_eq_ignore_case(&v, 0, v.len(), &cf) {
            Ok(SourceKind::CurseForge)
        } else if range_eq_ignore_case(&v, 0, v.len(), &wg) {
            Ok(SourceKind::Wago)
        } else {
            Err(concat3("unknown source '", s, "' (expected: curseforge, wago)"))
        }
    }
}

impl core::str::FromStr for SourceKind {
    type Err = String;

    fn from_str(s: &str) -> (r: Result<SourceKind, String>)
        ensures
            kind_from_name(s@) matches Some(k) ==> r == Ok::<SourceKind, String>(k),
            kind_from_name(s@) is None ==> (r matches Err(m) && m@ == unknown_source_message(s@)),
    {
        SourceKind::parse(s)
    }
}

/// A source's canonical name parses back to it.
pub proof fn law_source_name_roundtrip(k: SourceKind)
    ensures
        kind_from_name(kind_name(k)) == Some(k),
{
    reveal_strlit("curseforge");
    reveal_strlit("wago");
    let n = kind_name(k);
    assert(eq_ignore_ascii_case(n, n));
    assert(kind_name(SourceKind::Wago).len() != kind_name(SourceKind::CurseForge).len());
}

/// A character that ends a URL path segment.
pub open spec fn ends_segment(c: char) -> bool {
    c == '/' || c == '?' || c == '#'
}

/// The first position at or after `from` holding a segment end, or `s.len()`.
pub open spec fn segment_end(s: Seq<char>, from: int) -> int
    decreases s.len() - from,
{
    if from < 0 || from >= s.len() {
        s.len() as int
    } else if ends_segment(s[from]) {
        from
    } else {
        segment_end(s, from + 1)
    }
}

pub proof fn lemma_segment_end(s: Seq<char>, from: int)
    requires
        0 <= from <= s.len(),
    ensures
        from <= segment_end(s, from) <= s.len(),
    decreases s.len() - from,
{
    if from < s.len() && !ends_segment(s[from]) {
        lemma_segment_end(s, from + 1);
    }
}

/// The path segment right after the first `marker` in `url`, stopping at
/// `/`, `?` or `#`; `None` when the marker is absent or the segment empty.
pub open spec fn slug_after_spec(url: Seq<char>, marker: Seq<char>) -> Option<Seq<char>> {
    match find_from(url, marker, 0) {
        None => None,
        Some(i) => {
            let a = i + marker.len();
            let e = segment_end(url, a);
            if e > a {
                Some(url.subrange(a, e))
            } else {
                None
            }
        },
    }
}

pub(crate) fn find_segment_end(v: &Vec<char>, from: usize) -> (r: usize)
    requires
        from <= v.len(),
    ensures
        r == segment_end(v@, from as int),
{
    let mut i = from;
    while i < v.len()
        invariant
            from <= i <= v.len(),
            segment_end(v@, i as int) == segment_end(v@, from as int),
        decreases v.len() - i,
    {
        let c = v[i];
        if c == '/' || c == '?' || c == '#' {
            return i;
        }
        i += 1;
    }
    i
}

/// Extracts the path segment immediately after `marker`, stopping at
/// `/`, `?`, or `#`. Returns None if the marker is absent or the segment empty.
pub fn slug_after(url: &str, marker: &str) -> (r: Option<String>)
    ensures
        match slug_after_spec(url@, marker@) {
            None => r is None,
            Some(s) => r matches Some(x) && x@ == s,
        },
{
    let v = chars_of(url);
    let m = chars_of(marker);
    let i = match find_seq(&v, &m, 0) {
        None => return None,
        Some(i) => i,
    };
    proof {
        lemma_find_from_bounds(v@, m@, 0);
    }
    let a = i + m.len();
    let e = find_segment_end(&v, a);
    proof {
        lemma_segment_end(v@, a as int);
    }
    if e > a {
        Some(string_of_range(&v, a, e))
    } else {
        None
    }
}

pub open spec fn wago_marker() -> Seq<char> {
    "addons.wago.io/addons/"@
}

pub open spec fn curseforge_marker() -> Seq<char> {
    "curseforge.com/wow/addons/"@
}

pub open spec fn unrecognized_url_message(url: Seq<char>) -> Seq<char> {
    "Unrecognized addon URL: "@ + url
        + " (expected a curseforge.com or addons.wago.io addon page URL)"@
}

/// The source and slug an addon page URL names, or the error text.
pub open spec fn addon_url_result(url: Seq<char>) -> Result<(SourceKind, Seq<char>), Seq<char>> {
    match slug_after_spec(url, wago_marker()) {
        Some(s) => Ok((SourceKind::Wago, s)),
        None => match slug_after_spec(url, curseforge_marker()) {
            Some(s) => Ok((SourceKind::CurseForge, s)),
            None => Err(unrecognized_url_message(url)),
        },
    }
}

pub open spec fn missing_slug_message(prefix: Seq<char>) -> Seq<char> {
    "Missing slug after '"@ + prefix + ":'"@
}

/// The source and slug a user-supplied addon spec names, or the error text.
///
/// - `classcodex`: a bare slug, CurseForge;
/// - `wago:classcodex`, `curseforge:weakauras-2`: an explicit source prefix;
/// - `https://addons.wago.io/addons/classcodex`: a Wago page URL;
/// - `https://www.curseforge.com/wow/addons/weakauras-2`: a CurseForge page URL.
pub open spec fn addon_spec_result(input: Seq<char>) -> Result<(SourceKind, Seq<char>), Seq<char>> {
    let t = trim(input);
    if t.len() == 0 {
        Err("Empty addon spec"@)
    } else if starts_with(t, "http://"@) || starts_with(t, "https://"@) {
        addon_url_result(t)
    } else {
        let c = index_of_in(t, ':', 0, t.len() as int);
        if c < t.len() {
            let prefix = t.subrange(0, c);
            let rest = t.subrange(c + 1, t.len() as int);
            match kind_from_name(prefix) {
                None => Err(unknown_source_message(prefix)),
                Some(k) => if rest.len() == 0 {
                    Err(missing_slug_message(prefix))
                } else {
                    Ok((k, rest))
                },
            }
        } else {
            Ok((SourceKind::CurseForge, t))
        }
    }
}

/// The contract shape shared by the spec parsers: `r` is what `spec`
/// prescribes, errors carried as `WowctlError::Source`.
pub open spec fn matches_spec_result(
    r: Result<(SourceKind, String), WowctlError>,
    spec: Result<(SourceKind, Seq<char>), Seq<char>>,
) -> bool {
    match spec {
        Ok((k, s)) => r matches Ok((k2, s2)) && k2 == k && s2@ == s,
        Err(m) => r matches Err(WowctlError::Source(m2)) && m2@ == m,
    }
}

fn parse_addon_url(url: &str) -> (r: Result<(SourceKind, String), WowctlError>)
    ensures
        matches_spec_result(r, addon_url_result(url@)),
{
    proof {
        reveal_strlit("addons.wago.io/addons/");
        reveal_strlit("curseforge.com/wow/addons/");
    }
    if let Some(slug) = slug_after(url, "addons.wago.io/addons/") {
        return Ok((SourceKind::Wago, slug));
    }
    if let Some(slug) = slug_after(url, "curseforge.com/wow/addons/") {
        return Ok((SourceKind::CurseForge, slug));
    }
    Err(
        WowctlError::Source(
            concat3(
                "Unrecognized addon URL: ",
                url,
                " (expected a curseforge.com or addons.wago.io addon page URL)",
            ),
        ),
    )
}

/// Parses a user-supplied addon spec into (Source, Slug).
///
/// Accepted forms:
/// - `classcodex` — bare slug, defaults to CurseForge
/// - `wago:classcodex`, `curseforge:weakauras-2` — explicit source prefix
/// - `https://addons.wago.io/addons/classcodex` — Wago page URL
/// - `https://www.curseforge.com/wow/addons/weakauras-2` — CurseForge page URL
pub fn parse_addon_spec(input: &str) -> (r: Result<(SourceKind, String), WowctlError>)
    ensures
        matches_spec_result(r, addon_spec_result(input@)),
{
    let raw = chars_of(input);
    let (lo, hi) = trim_bounds(&raw, 0, raw.len());
    assert(raw@.subrange(0, raw@.len() as int) == raw@);
    let t = string_of_range(&raw, lo, hi);
    let v = chars_of(t.as_str());
    assert(v@.subrange(0, v@.len() as int) == v@);
    if v.len() == 0 {
        proof {
            reveal_strlit("Empty addon spec");
            reveal_strlit("");
            assert("Empty addon spec"@ + ""@ + ""@ == "Empty addon spec"@);
        }
        return Err(WowctlError::Source(concat3("Empty addon spec", "", "")));
    }
    let http = chars_of("http://");
    let https = chars_of("https://");
    proof {
        reveal_strlit("http://");
        reveal_strlit("https://");
        reveal_strlit("");
    }
    if range_starts_with(&v, 0, v.len(), &http) || range_starts_with(&v, 0, v.len(), &https) {
        return parse_addon_url(t.as_str());
    }
    let c = find_char(&v, ':', 0, v.len());
    if c < v.len() {
        let prefix = string_of_range(&v, 0, c);
        let rest = string_of_range(&v, c + 1, v.len());
        match SourceKind::parse(prefix.as_str()) {
            Err(m) => Err(WowctlError::Source(m)),
            Ok(k) => {
                if c + 1 == v.len() {
                    Err(WowctlError::Source(concat3("Missing slug after '", prefix.as_str(), ":'")))
                } else {
                    Ok((k, rest))
                }
            },
        }
    } else {
        Ok((SourceKind::CurseForge, t))
    }
}

/// Where `m` does not begin inside `p`, searching `p + x` past `p` is
/// searching `x`, shifted by the length of `p`.
proof fn lemma_find_from_shift(p: Seq<char>, x: Seq<char>, m: Seq<char>, j: int)
    requires
        0 <= j,
    ensures
        match find_from(x, m, j) {
            Some(k) => find_from(p + x, m, p.len() + j) == Some(p.len() + k),
            None => find_from(p + x, m, p.len() + j) is None,
        },
    decreases x.len() - j,
{
    let s = p + x;
    let i = p.len() + j;
    if !(j + m.len() > x.len()) {
        assert(s.subrange(i, i + m.len()) =~= x.subrange(j, j + m.len()));
        if x.subrange(j, j + m.len()) != m && j + m.len() != x.len() {
            lemma_find_from_shift(p, x, m, j + 1);
        }
    }
}

/// A search for `m` never stops inside a prefix that holds no character
/// `m` starts with.
proof fn lemma_find_from_skips(p: Seq<char>, x: Seq<char>, m: Seq<char>, i: int)
    requires
        0 <= i <= p.len(),
        m.len() > 0,
        forall|k: int| 0 <= k < p.len() ==> p[k] != m[0],
    ensures
        find_from(p + x, m, i) == find_from(p + x, m, p.len() as int),
    decreases p.len() - i,
{
    let s = p + x;
    if i < p.len() && i + m.len() <= s.len() {
        assert(s.subrange(i, i + m.len())[0] == p[i]);
        assert(s.subrange(i, i + m.len()) != m);
        if i + m.len() != s.len() {
            lemma_find_from_skips(p, x, m, i + 1);
        }
    }
}

/// Segment ends in `p + x` past `p` are those of `x`, shifted.
proof fn lemma_segment_end_shift(p: Seq<char>, x: Seq<char>, a: int)
    requires
        0 <= a,
    ensures
        segment_end(p + x, p.len() + a) == p.len() + segment_end(x, a),
    decreases x.len() - a,
{
    if a < x.len() {
        assert((p + x)[p.len() + a] == x[a]);
        if !ends_segment(x[a]) {
            lemma_segment_end_shift(p, x, a + 1);
        }
    }
}

/// The slug after a marker is the same once a prefix that holds no
/// character the marker starts with is put in front.
proof fn lemma_slug_after_prefix(p: Seq<char>, x: Seq<char>, m: Seq<char>)
    requires
        m.len() > 0,
        forall|k: int| 0 <= k < p.len() ==> p[k] != m[0],
    ensures
        slug_after_spec(p + x, m) == slug_after_spec(x, m),
{
    lemma_find_from_skips(p, x, m, 0);
    lemma_find_from_shift(p, x, m, 0);
    assert(p.len() + 0 == p.len());
    match find_from(x, m, 0) {
        None => {},
        Some(k) => {
            lemma_find_from_bounds(x, m, 0);
            let a = k + m.len();
            lemma_segment_end_shift(p, x, a);
            lemma_segment_end(x, a);
            let e = segment_end(x, a);
            if e > a {
                assert((p + x).subrange(p.len() + a, p.len() + e) =~= x.subrange(a, e));
            }
        },
    }
}

/// Whitespace after a prefix that ends in a non-whitespace character is
/// trimmed from what follows the prefix alone.
proof fn lemma_trim_end_after(p: Seq<char>, x: Seq<char>)
    requires
        p.len() > 0,
        !crate::text::is_ws(p.last()),
    ensures
        crate::text::trim_end(p + x) == p + crate::text::trim_end(x),
    decreases x.len(),
{
    if x.len() > 0 {
        assert((p + x).last() == x.last());
        assert((p + x).drop_last() =~= p + x.drop_last());
        lemma_trim_end_after(p, x.drop_last());
    } else {
        assert(p + x =~= p);
        assert((p + x).last() == p.last());
    }
}

/// An input that starts with a URL scheme is read as an addon page URL.
proof fn lemma_scheme_input_is_url(p: Seq<char>, rest: Seq<char>)
    requires
        p.len() > 0,
        !crate::text::is_ws(p[0]),
        !crate::text::is_ws(p.last()),
        p == "http://"@ || p == "https://"@,
    ensures
        trim(p + rest) == p + crate::text::trim_end(rest),
        addon_spec_result(p + rest) == addon_url_result(p + crate::text::trim_end(rest)),
{
    let s = p + rest;
    assert(s[0] == p[0]);
    assert(crate::text::trim_start(s) == s);
    lemma_trim_end_after(p, rest);
    let t = p + crate::text::trim_end(rest);
    assert(t.subrange(0, p.len() as int) =~= p);
}

/// An addon spec written with `http://` reads exactly as the same spec
/// written with `https://`: both are read as an addon page URL, both name
/// the same source and slug, and one fails exactly when the other does.
pub proof fn law_http_reads_as_https(rest: Seq<char>)
    ensures
        addon_spec_result("http://"@ + rest) == addon_url_result(trim("http://"@ + rest)),
        addon_spec_result("https://"@ + rest) == addon_url_result(trim("https://"@ + rest)),
        addon_spec_result("http://"@ + rest) is Ok <==> addon_spec_result("https://"@ + rest) is Ok,
        addon_spec_result("http://"@ + rest) is Ok ==> addon_spec_result("http://"@ + rest)
            == addon_spec_result("https://"@ + rest),
{
    reveal_strlit("http://");
    reveal_strlit("https://");
    reveal_strlit("addons.wago.io/addons/");
    reveal_strlit("curseforge.com/wow/addons/");
    let h = "http://"@;
    let hs = "https://"@;
    let x = crate::text::trim_end(rest);
    lemma_scheme_input_is_url(h, rest);
    lemma_scheme_input_is_url(hs, rest);
    lemma_slug_after_prefix(h, x, wago_marker());
    lemma_slug_after_prefix(hs, x, wago_marker());
    lemma_slug_after_prefix(h, x, curseforge_marker());
    lemma_slug_after_prefix(hs, x, curseforge_marker());
}

/// `source:slug` names that source and that slug, for each source's
/// canonical name and every slug that does not end in whitespace (a slug may
/// itself hold `:`; only the first one separates).
pub proof fn law_prefixed_spec_names_source(k: SourceKind, slug: Seq<char>)
    requires
        slug.len() > 0,
        !crate::text::is_ws(slug.last()),
    ensures
        addon_spec_result(kind_name(k) + ":"@ + slug) == Ok::<(SourceKind, Seq<char>), Seq<char>>((k, slug)),
{
    reveal_strlit("curseforge");
    reveal_strlit("wago");
    reveal_strlit(":");
    reveal_strlit("http://");
    reveal_strlit("https://");
    let n = kind_name(k);
    let t = n + ":"@ + slug;
    assert(t[0] == n[0]);
    assert(crate::text::trim_start(t) == t);
    assert(t.last() == slug.last());
    assert(crate::text::trim_end(t) == t);
    assert(trim(t) == t);
    assert(n[0] == 'c' || n[0] == 'w');
    if t.len() >= 7 {
        assert(t.subrange(0, 7)[0] != "http://"@[0]);
    }
    if t.len() >= 8 {
        assert(t.subrange(0, 8)[0] != "https://"@[0]);
    }
    assert(!starts_with(t, "http://"@));
    assert(!starts_with(t, "https://"@));
    lemma_index_of_in_bounds(t, ':', 0, t.len() as int);
    let c = index_of_in(t, ':', 0, t.len() as int);
    assert(t[n.len() as int] == ':');
    assert forall|j: int| 0 <= j < n.len() implies t[j] != ':' by {
        assert(t[j] == n[j]);
    }
    assert(c == n.len());
    assert(t.subrange(0, c) =~= n);
    assert(t.subrange(c + 1, t.len() as int) =~= slug);
    law_source_name_roundtrip(k);
}

/// A bare slug, with no `:` in it and no surrounding whitespace, names
/// that slug on CurseForge.
pub proof fn law_bare_slug_is_curseforge(slug: Seq<char>)
    requires
        slug.len() > 0,
        !crate::text::is_ws(slug[0]),
        !crate::text::is_ws(slug.last()),
        forall|i: int| 0 <= i < slug.len() ==> slug[i] != ':',
    ensures
        addon_spec_result(slug) == Ok::<(SourceKind, Seq<char>), Seq<char>>((SourceKind::CurseForge, slug)),
{
    reveal_strlit("http://");
    reveal_strlit("https://");
    assert(crate::text::trim_start(slug) == slug);
    assert(crate::text::trim_end(slug) == slug);
    assert(trim(slug) == slug);
    if slug.len() >= 7 {
        assert(slug.subrange(0, 7)[4] != "http://"@[4]);
    }
    if slug.len() >= 8 {
        assert(slug.subrange(0, 8)[5] != "https://"@[5]);
    }
    assert(!starts_with(slug, "http://"@));
    assert(!starts_with(slug, "https://"@));
    lemma_index_of_in_bounds(slug, ':', 0, slug.len() as int);
}

/// Lightweight version info from a batch lookup, sufficient for update detection.
#[derive(Debug, Clone)]
pub struct BatchVersionCheck {
    pub addon_id: String,
    pub file_id: Option<u32>,
    pub external_release_id: Option<String>,
    pub version: String,
    pub display_name: String,
    pub released_at: String,
}

/// The option's string view.
pub open spec fn opt_view(o: Option<String>) -> Option<Seq<char>> {
    match o {
        Some(s) => Some(s@),
        None => None,
    }
}

pub fn clone_opt_string(o: &Option<String>) -> (r: Option<String>)
    ensures
        opt_view(r) == opt_view(*o),
{
    match o {
        Some(s) => Some(s.clone()),
        None => None,
    }
}

impl BatchVersionCheck {
    /// The update-detection view of a full version lookup.
    pub fn from_version_info(addon_id: &str, v: &VersionInfo) -> (r: BatchVersionCheck)
        ensures
            r.addon_id@ == addon_id@,
            r.file_id == v.file_id,
            opt_view(r.external_release_id) == opt_view(v.external_release_id),
            r.version@ == v.version@,
            r.display_name@ == v.display_name@,
            r.released_at@ == v.released_at@,
    {
        BatchVersionCheck {
            addon_id: addon_id.to_owned(),
            file_id: v.file_id,
            external_release_id: clone_opt_string(&v.external_release_id),
            version: v.version.clone(),
            display_name: v.display_name.clone(),
            released_at: v.released_at.clone(),
        }
    }
}

pub const MAX_RETRIES: u32 = 3;

pub const INITIAL_BACKOFF_MS: u64 = 1000;

/// What one attempt of an API request came back with.
#[derive(Debug, Clone, Copy, PartialEq, Eq, Structural)]
pub enum AttemptOutcome {
    Success,
    Unauthorized,
    NotFound,
    RateLimited { retry_after_ms: Option<u64> },
    OtherStatus,
    NetworkError,
}

/// Why a request was given up.
#[derive(Debug, Clone, Copy, PartialEq, Eq, Structural)]
pub enum FailureKind {
    Unauthorized,
    NotFound,
    RateLimited,
    Status,
    Network,
}

/// What the client does after an attempt.
#[derive(Debug, Clone, Copy, PartialEq, Eq, Structural)]
pub enum RetryAction {
    /// Read the response body.
    Accept,
    /// Sleep this many milliseconds, then try again.
    Wait { ms: u64 },
    /// Stop with the error of this kind.
    Fail(FailureKind),
}

/// Attempts made so far, and the wait before the next plain retry.
#[derive(Debug, Clone, Copy, PartialEq, Eq, Structural)]
pub struct RetryState {
    pub attempts: u32,
    pub backoff_ms: u64,
}

/// The state before the first attempt.
pub fn initial_retry_state() -> (r: RetryState)
    ensures
        r == (RetryState { attempts: 0, backoff_ms: INITIAL_BACKOFF_MS }),
{
    RetryState { attempts: 0, backoff_ms: INITIAL_BACKOFF_MS }
}

/// How an HTTP status reads for a source: 2xx succeeds; 401 is an
/// authentication failure on Wago (an ordinary error on CurseForge); 404
/// is not found; 429 is rate limiting.
pub open spec fn status_outcome(kind: SourceKind, status: u16, retry_after_ms: Option<u64>) -> AttemptOutcome {
    if 200 <= status <= 299 {
        AttemptOutcome::Success
    } else if status == 401 && kind == SourceKind::Wago {
        AttemptOutcome::Unauthorized
    } else if status == 404 {
        AttemptOutcome::NotFound
    } else if status == 429 {
        AttemptOutcome::RateLimited { retry_after_ms }
    } else {
        AttemptOutcome::OtherStatus
    }
}

pub fn classify_status(kind: SourceKind, status: u16, retry_after_ms: Option<u64>) -> (r: AttemptOutcome)
    ensures
        r == status_outcome(kind, status, retry_after_ms),
{
    if 200 <= status && status <= 299 {
        AttemptOutcome::Success
    } else if status == 401 && kind == SourceKind::Wago {
        AttemptOutcome::Unauthorized
    } else if status == 404 {
        AttemptOutcome::NotFound
    } else if status == 429 {
        AttemptOutcome::RateLimited { retry_after_ms }
    } else {
        AttemptOutcome::OtherStatus
    }
}

/// The next state and action after an attempt (the `attempts` of `st`
/// counts it). A rate limit or a network error is retried, after the
/// backoff (which then doubles), until `MAX_RETRIES` attempts were made;
/// CurseForge waits as long as a `Retry-After` header says instead,
/// keeping the backoff.
pub open spec fn retry_spec(kind: SourceKind, st: RetryState, outcome: AttemptOutcome) -> (RetryState, RetryAction) {
    let backoff = RetryState { attempts: st.attempts, backoff_ms: (st.backoff_ms * 2) as u64 };
    match outcome {
        AttemptOutcome::Success => (st, RetryAction::Accept),
        AttemptOutcome::Unauthorized => (st, RetryAction::Fail(FailureKind::Unauthorized)),
        AttemptOutcome::NotFound => (st, RetryAction::Fail(FailureKind::NotFound)),
        AttemptOutcome::OtherStatus => (st, RetryAction::Fail(FailureKind::Status)),
        AttemptOutcome::RateLimited { retry_after_ms } => if st.attempts >= MAX_RETRIES {
            (st, RetryAction::Fail(FailureKind::RateLimited))
        } else if kind == SourceKind::CurseForge && retry_after_ms is Some {
            (st, RetryAction::Wait { ms: retry_after_ms->0 })
        } else {
            (backoff, RetryAction::Wait { ms: st.backoff_ms })
        },
        AttemptOutcome::NetworkError => if st.attempts >= MAX_RETRIES {
            (st, RetryAction::Fail(FailureKind::Network))
        } else {
            (backoff, RetryAction::Wait { ms: st.backoff_ms })
        },
    }
}

/// Counts a new attempt.
pub fn start_attempt(st: RetryState) -> (r: RetryState)
    requires
        st.attempts < u32::MAX,
    ensures
        r == (RetryState { attempts: (st.attempts + 1) as u32, ..st }),
{
    RetryState { attempts: st.attempts + 1, backoff_ms: st.backoff_ms }
}

/// Decides what follows an attempt.
pub fn retry_step(kind: SourceKind, st: RetryState, outcome: AttemptOutcome) -> (r: (RetryState, RetryAction))
    requires
        st.backoff_ms <= u64::MAX / 2,
    ensures
        r == retry_spec(kind, st, outcome),
{
    match outcome {
        AttemptOutcome::Success => (st, RetryAction::Accept),
        AttemptOutcome::Unauthorized => (st, RetryAction::Fail(FailureKind::Unauthorized)),
        AttemptOutcome::NotFound => (st, RetryAction::Fail(FailureKind::NotFound)),
        AttemptOutcome::OtherStatus => (st, RetryAction::Fail(FailureKind::Status)),
        AttemptOutcome::RateLimited { retry_after_ms } => {
            if st.attempts >= MAX_RETRIES {
                (st, RetryAction::Fail(FailureKind::RateLimited))
            } else {
                match retry_after_ms {
                    Some(ms) => {
                        if kind == SourceKind::CurseForge {
                            return (st, RetryAction::Wait { ms });
                        }
                    },
                    None => {},
                }
                (RetryState { attempts: st.attempts, backoff_ms: st.backoff_ms * 2 }, RetryAction::Wait {
                    ms: st.backoff_ms,
                })
            }
        },
        AttemptOutcome::NetworkError => {
            if st.attempts >= MAX_RETRIES {
                (st, RetryAction::Fail(FailureKind::Network))
            } else {
                (RetryState { attempts: st.attempts, backoff_ms: st.backoff_ms * 2 }, RetryAction::Wait {
                    ms: st.backoff_ms,
                })
            }
        },
    }
}

/// The state after `n` attempts that each failed with a network error,
/// starting from the initial state.
pub open spec fn after_network_errors(kind: SourceKind, n: nat) -> (RetryState, RetryAction)
    decreases n,
{
    if n == 0 {
        (RetryState { attempts: 0, backoff_ms: INITIAL_BACKOFF_MS }, RetryAction::Accept)
    } else {
        let prev = after_network_errors(kind, (n - 1) as nat).0;
        retry_spec(kind, RetryState { attempts: (prev.attempts + 1) as u32, ..prev }, AttemptOutcome::NetworkError)
    }
}

/// Network errors are retried with waits of 1 s and then 2 s, and the
/// request gives up at the third failed attempt: no request makes more
/// than `MAX_RETRIES` attempts this way.
pub proof fn law_network_retries_bounded(kind: SourceKind)
    ensures
        after_network_errors(kind, 1).1 == (RetryAction::Wait { ms: 1000 }),
        after_network_errors(kind, 2).1 == (RetryAction::Wait { ms: 2000 }),
        after_network_errors(kind, 3).1 == RetryAction::Fail(FailureKind::Network),
{
    reveal_with_fuel(after_network_errors, 4);
}

/// How the circuit breaker counts a finished request.
#[derive(Debug, Clone, Copy, PartialEq, Eq, Structural)]
pub enum BreakerUpdate {
    Success,
    Skip,
    Failure,
}

/// Successes close the circuit; "not found", an already open circuit and,
/// on Wago, a rejected key say nothing of the API's health; any other
/// error counts as a failure.
pub open spec fn breaker_update_spec(kind: SourceKind, err: Option<WowctlError>) -> BreakerUpdate {
    match err {
        None => BreakerUpdate::Success,
        Some(WowctlError::AddonNotFound(_)) => BreakerUpdate::Skip,
        Some(WowctlError::CircuitBreakerOpen) => BreakerUpdate::Skip,
        Some(WowctlError::Unauthorized(_)) => if kind == SourceKind::Wago {
            BreakerUpdate::Skip
        } else {
            BreakerUpdate::Failure
        },
        Some(_) => BreakerUpdate::Failure,
    }
}

pub fn breaker_update<T>(kind: SourceKind, result: &Result<T, WowctlError>) -> (r: BreakerUpdate)
    ensures
        r == breaker_update_spec(kind, match result {
            Ok(_) => None,
            Err(e) => Some(*e),
        }),
{
    match result {
        Ok(_) => BreakerUpdate::Success,
        Err(WowctlError::AddonNotFound(_)) => BreakerUpdate::Skip,
        Err(WowctlError::CircuitBreakerOpen) => BreakerUpdate::Skip,
        Err(WowctlError::Unauthorized(_)) => {
            if kind == SourceKind::Wago {
                BreakerUpdate::Skip
            } else {
                BreakerUpdate::Failure
            }
        },
        Err(_) => BreakerUpdate::Failure,
    }
}

/// The message of the 401 error users see; it points at where keys come
/// from.
pub open spec fn unauthorized_text() -> Seq<char> {
    "Wago rejected the access key (HTTP 401). Personal access keys come from https://addons.wago.io/patreon and require the 'Wago Addons Supporter' Patreon tier ($3/month). Update WOWCTL_WAGO_ACCESS_KEY or run 'wowctl config set wago_access_key <key>'."@
}

pub fn unauthorized_error() -> (r: WowctlError)
    ensures
        r matches WowctlError::Unauthorized(m) && m@ == unauthorized_text(),
{
    proof {
        reveal_strlit("Wago rejected the access key (HTTP 401). Personal access keys come from https://addons.wago.io/patreon and require the 'Wago Addons Supporter' Patreon tier ($3/month). Update WOWCTL_WAGO_ACCESS_KEY or run 'wowctl config set wago_access_key <key>'.");
    }
    WowctlError::Unauthorized(String::from_str(
        "Wago rejected the access key (HTTP 401). Personal access keys come from https://addons.wago.io/patreon and require the 'Wago Addons Supporter' Patreon tier ($3/month). Update WOWCTL_WAGO_ACCESS_KEY or run 'wowctl config set wago_access_key <key>'.",
    ))
}

pub open spec fn api_name(kind: SourceKind) -> Seq<char> {
    match kind {
        SourceKind::CurseForge => "CurseForge"@,
        SourceKind::Wago => "Wago"@,
    }
}

/// The error a request stops with. `status` is the response status as
/// shown (e.g. `500 Internal Server Error`), `detail` the response text or
/// the network error; `post` tells a CurseForge POST, whose 404 names a
/// resource rather than an addon.
pub open spec fn failure_error_spec(
    kind: SourceKind,
    failure: FailureKind,
    post: bool,
    status: Seq<char>,
    detail: Seq<char>,
) -> (int, Seq<char>) {
    match failure {
        FailureKind::Unauthorized => (0, unauthorized_text()),
        FailureKind::NotFound => (1, if kind == SourceKind::Wago {
            "Addon not found on Wago"@
        } else if post {
            "Resource not found on CurseForge"@
        } else {
            "Addon not found on CurseForge"@
        }),
        FailureKind::RateLimited => (2, "Rate limited by "@ + api_name(kind) + " API after multiple retries"@),
        FailureKind::Status => (3, api_name(kind) + " API error ("@ + status + "): "@ + detail),
        FailureKind::Network => (2, "Failed to connect to "@ + api_name(kind) + " API after 3 attempts: "@ + detail),
    }
}

/// The variant (0 unauthorized, 1 not found, 2 network, 3 source) and
/// message of an error.
pub open spec fn error_shape(e: WowctlError) -> (int, Seq<char>) {
    match e {
        WowctlError::Unauthorized(m) => (0, m@),
        WowctlError::AddonNotFound(m) => (1, m@),
        WowctlError::Network(m) => (2, m@),
        WowctlError::Source(m) => (3, m@),
        _ => (-1, Seq::empty()),
    }
}

fn api_label(kind: SourceKind) -> (r: &'static str)
    ensures
        r@ == api_name(kind),
{
    proof {
        reveal_strlit("CurseForge");
        reveal_strlit("Wago");
    }
    match kind {
        SourceKind::CurseForge => "CurseForge",
        SourceKind::Wago => "Wago",
    }
}

pub fn failure_error(kind: SourceKind, failure: FailureKind, post: bool, status: &str, detail: &str) -> (r: WowctlError)
    ensures
        error_shape(r) == failure_error_spec(kind, failure, post, status@, detail@),
{
    proof {
        reveal_strlit("Addon not found on Wago");
        reveal_strlit("Resource not found on CurseForge");
        reveal_strlit("Addon not found on CurseForge");
    }
    match failure {
        FailureKind::Unauthorized => unauthorized_error(),
        FailureKind::NotFound => {
            if kind == SourceKind::Wago {
                WowctlError::AddonNotFound(String::from_str("Addon not found on Wago"))
            } else if post {
                WowctlError::AddonNotFound(String::from_str("Resource not found on CurseForge"))
            } else {
                WowctlError::AddonNotFound(String::from_str("Addon not found on CurseForge"))
            }
        },
        FailureKind::RateLimited => {
            let m = concat3("Rate limited by ", api_label(kind), " API after multiple retries");
            WowctlError::Network(m)
        },
        FailureKind::Status => {
            let mut m = String::from_str(api_label(kind));
            m.append(" API error (");
            m.append(status);
            m.append("): ");
            m.append(detail);
            proof {
                assert(m@ =~= api_name(kind) + " API error ("@ + status@ + "): "@ + detail@);
            }
            WowctlError::Source(m)
        },
        FailureKind::Network => {
            let mut m = String::from_str("Failed to connect to ");
            m.append(api_label(kind));
            m.append(" API after 3 attempts: ");
            m.append(detail);
            proof {
                assert(m@ =~= "Failed to connect to "@ + api_name(kind) + " API after 3 attempts: "@ + detail@);
            }
            WowctlError::Network(m)
        },
    }
}

/// The lowercase hexadecimal digit for `d < 16`.
pub open spec fn hex_digit(d: nat) -> char {
    if d < 10 {
        (48 + d) as char
    } else {
        (87 + d) as char
    }
}

/// A byte as two lowercase hexadecimal digits.
pub open spec fn hex_byte(b: u8) -> Seq<char> {
    seq![hex_digit((b / 16) as nat), hex_digit((b % 16) as nat)]
}

/// Bytes as `{:02x?}` shows a slice: `[50, 4b, 03, 04]`.
pub open spec fn hex_list(bs: Seq<u8>) -> Seq<char> {
    "["@ + hex_items(bs) + "]"@
}

pub open spec fn hex_items(bs: Seq<u8>) -> Seq<char>
    decreases bs.len(),
{
    if bs.len() == 0 {
        Seq::empty()
    } else if bs.len() == 1 {
        hex_byte(bs[0])
    } else {
        hex_items(bs.drop_last()) + ", "@ + hex_byte(bs.last())
    }
}

fn hex_char(d: u8) -> (c: char)
    requires
        d < 16,
    ensures
        c == hex_digit(d as nat),
{
    if d < 10 {
        (d + 48) as char
    } else {
        (d + 87) as char
    }
}

fn push_hex_list(out: &mut String, bs: &[u8], n: usize)
    requires
        n <= bs.len(),
    ensures
        final(out)@ == old(out)@ + hex_list(bs@.take(n as int)),
{
    proof {
        reveal_strlit("[");
        reveal_strlit("]");
        reveal_strlit(", ");
    }
    let ghost start = out@;
    out.append("[");
    let mut i: usize = 0;
    while i < n
        invariant
            i <= n <= bs.len(),
            out@ == start + "["@ + hex_items(bs@.take(i as int)),
        decreases n - i,
    {
        if i > 0 {
            out.append(", ");
        }
        let b = bs[i];
        crate::text::push_char(out, hex_char(b / 16));
        crate::text::push_char(out, hex_char(b % 16));
        proof {
            let cur = bs@.take(i + 1);
            assert(cur.drop_last() =~= bs@.take(i as int));
            assert(cur.last() == b);
            if i > 0 {
                assert(out@ =~= start + "["@ + (hex_items(bs@.take(i as int)) + ", "@ + hex_byte(b)));
            } else {
                assert(bs@.take(i as int).len() == 0);
                assert(hex_items(bs@.take(i as int)) =~= Seq::<char>::empty());
                assert(cur.len() == 1 && cur[0] == b);
                assert(out@ =~= start + "["@ + hex_byte(b));
            }
        }
        i += 1;
    }
    out.append("]");
    assert(out@ =~= start + hex_list(bs@.take(n as int)));
}

pub open spec fn zip_magic() -> Seq<u8> {
    seq![0x50u8, 0x4bu8, 0x03u8, 0x04u8]
}

pub open spec fn bad_status_message(status: Seq<char>) -> Seq<char> {
    "Download failed with status: "@ + status
}

pub open spec fn html_message(content_type: Seq<char>, url: Seq<char>) -> Seq<char> {
    "CDN returned "@ + content_type + " instead of a zip file — the download URL may be invalid: "@ + url
}

pub open spec fn bad_zip_message(body: Seq<u8>, url: Seq<char>) -> Seq<char> {
    "Downloaded file is not a valid zip archive (bad magic bytes). Got "@ + crate::text::dec_digits(body.len())
        + " bytes, first 4: "@ + hex_list(body.take(if body.len() < 4 {
        body.len() as int
    } else {
        4
    })) + ". The CDN may have returned an error page. URL: "@ + url
}

/// Checks a downloaded response before it is written to disk: a success
/// status, a content type that is not an HTML or text error page, and the
/// zip magic bytes `PK\x03\x04` at the start of the body.
pub fn check_download(status_ok: bool, status: &str, content_type: &str, body: &[u8], download_url: &str) -> (r: Result<(), WowctlError>)
    ensures
        !status_ok ==> (r matches Err(WowctlError::Network(m)) && m@ == bad_status_message(status@)),
        status_ok && (crate::text::contains_seq(content_type@, "text/html"@) || crate::text::contains_seq(
            content_type@,
            "text/plain"@,
        )) ==> (r matches Err(WowctlError::Network(m)) && m@ == html_message(content_type@, download_url@)),
        status_ok && !crate::text::contains_seq(content_type@, "text/html"@) && !crate::text::contains_seq(
            content_type@,
            "text/plain"@,
        ) ==> (if body@.len() >= 4 && body@.take(4) == zip_magic() {
            r is Ok
        } else {
            r matches Err(WowctlError::Extraction(m)) && m@ == bad_zip_message(body@, download_url@)
        }),
{
    proof {
        reveal_strlit("");
        reveal_strlit("text/html");
        reveal_strlit("text/plain");
    }
    if !status_ok {
        return Err(WowctlError::Network(concat3("Download failed with status: ", status, "")));
    }
    if crate::text::contains_str(content_type, "text/html") || crate::text::contains_str(content_type, "text/plain") {
        let mut m = String::from_str("CDN returned ");
        m.append(content_type);
        m.append(" instead of a zip file — the download URL may be invalid: ");
        m.append(download_url);
        assert(m@ =~= html_message(content_type@, download_url@));
        return Err(WowctlError::Network(m));
    }
    if body.len() >= 4 && body[0] == 0x50u8 && body[1] == 0x4bu8 && body[2] == 0x03u8 && body[3] == 0x04u8 {
        assert(body@.take(4) =~= zip_magic());
        return Ok(());
    }
    proof {
        if body@.len() >= 4 && body@.take(4) == zip_magic() {
            assert(body@.take(4)[0] == body@[0]);
            assert(body@.take(4)[1] == body@[1]);
            assert(body@.take(4)[2] == body@[2]);
            assert(body@.take(4)[3] == body@[3]);
        }
    }
    let n: usize = if body.len() < 4 {
        body.len()
    } else {
        4
    };
    let mut m = String::from_str("Downloaded file is not a valid zip archive (bad magic bytes). Got ");
    m.append(crate::text::decimal(body.len() as u64).as_str());
    m.append(" bytes, first 4: ");
    push_hex_list(&mut m, body, n);
    m.append(". The CDN may have returned an error page. URL: ");
    m.append(download_url);
    assert(m@ =~= bad_zip_message(body@, download_url@));
    Err(WowctlError::Extraction(m))
}

} // verus!
