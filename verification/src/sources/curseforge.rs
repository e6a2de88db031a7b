//! CurseForge: the decisions the client makes on what the API returns.
//!
//! The HTTP client and the JSON models live with the program; the values
//! they read are handed to these functions as plain data.

use vstd::prelude::*;
use vstd::string::StringExecFns;
use crate::addon::{channel_name, rank, AddonInfo, DependencyInfo, DependencyType, ReleaseChannel, VersionInfo};
use crate::error::WowctlError;
use crate::sources::BatchVersionCheck;
use crate::text::{
    chars_of, copy_strings, dec_digits, decimal, is_digit, join, join_from, lemma_lex_basic, lemma_lex_trans, lex_lt,
    parse_u64, parse_u64_spec,
    split_whitespace, str_lt, trim, trim_string, views, words,
};

verus! {

broadcast use vstd::string::group_string_axioms;

pub const WOW_RETAIL_VERSION_TYPE_ID: u32 = 517;

/// `{CDN base}/{id / 1000}/{id % 1000}/{file name}`.
pub open spec fn cdn_url(file_id: u32, file_name: Seq<char>) -> Seq<char> {
    "https://edge.forgecdn.net/files/"@ + dec_digits((file_id / 1000) as nat) + "/"@ + dec_digits(
        (file_id % 1000) as nat,
    ) + "/"@ + file_name
}

/// Constructs a CurseForge CDN download URL from a file ID and filename.
///
/// The CDN path format is `/files/{id / 1000}/{id % 1000}/{filename}`,
/// matching the URLs the API returns when `downloadUrl` is populated.
pub fn build_cdn_url(file_id: u32, file_name: &str) -> (r: String)
    ensures
        r@ == cdn_url(file_id, file_name@),
{
    proof {
        reveal_strlit("https://edge.forgecdn.net/files");
        reveal_strlit("https://edge.forgecdn.net/files/");
        reveal_strlit("/");
    }
    let mut r = String::from_str("https://edge.forgecdn.net/files");
    r.append("/");
    r.append(decimal((file_id / 1000) as u64).as_str());
    r.append("/");
    r.append(decimal((file_id % 1000) as u64).as_str());
    r.append("/");
    r.append(file_name);
    assert(r@ =~= cdn_url(file_id, file_name@));
    r
}

/// A token that starts like a version: a digit, or `v` and a digit.
pub open spec fn looks_like_version(s: Seq<char>) -> bool {
    s.len() > 0 && (is_digit(s[0]) || (s[0] == 'v' && s.len() > 1 && is_digit(s[1])))
}

fn looks_like_version_str(s: &str) -> (r: bool)
    ensures
        r == looks_like_version(s@),
{
    let v = chars_of(s);
    if v.len() == 0 {
        return false;
    }
    ('0' <= v[0] && v[0] <= '9') || (v[0] == 'v' && v.len() > 1 && '0' <= v[1] && v[1] <= '9')
}

/// The first position at or after `k` of a version-like word, or the
/// number of words.
pub open spec fn first_version_word(ps: Seq<Seq<char>>, k: int) -> int
    decreases ps.len() - k,
{
    if k < 0 || k >= ps.len() || looks_like_version(ps[k]) {
        k
    } else {
        first_version_word(ps, k + 1)
    }
}

/// The version part of a file display name: everything from the first
/// version-like word on (the whole name when it starts with one), else all
/// but the first word; a name of at most one word is the version itself.
pub open spec fn version_of(display_name: Seq<char>) -> Seq<char> {
    let t = trim(display_name);
    let ps = words(t);
    if ps.len() <= 1 || looks_like_version(ps[0]) {
        t
    } else {
        let k = first_version_word(ps, 1);
        if k < ps.len() {
            join(ps.subrange(k, ps.len() as int), " "@)
        } else {
            join(ps.subrange(1, ps.len() as int), " "@)
        }
    }
}

/// Extracts a version string from a CurseForge file display name.
///
/// Display names typically follow `<AddonName> <version>`, but the version
/// part can contain spaces (e.g. "Plumber 1.8.8 b"). We find the first
/// token that looks like a version (starts with a digit or 'v' + digit)
/// and return everything from that point onward.
pub fn extract_version(display_name: &str) -> (r: String)
    ensures
        r@ == version_of(display_name@),
{
    let t = trim_string(display_name);
    let parts = split_whitespace(t.as_str());
    if parts.len() <= 1 {
        return t;
    }
    assert(views(parts@)[0] == parts@[0]@);
    if looks_like_version_str(parts[0].as_str()) {
        return t;
    }
    let ghost ps = views(parts@);
    let mut k: usize = 1;
    while k < parts.len()
        invariant
            1 <= k <= parts.len(),
            ps == views(parts@),
            t@ == trim(display_name@),
            ps == words(t@),
            ps.len() > 1,
            !looks_like_version(ps[0]),
            first_version_word(ps, k as int) == first_version_word(ps, 1),
        decreases parts.len() - k,
    {
        assert(ps[k as int] == parts@[k as int]@);
        if looks_like_version_str(parts[k].as_str()) {
            proof {
                reveal_strlit(" ");
            }
            return join_from(&parts, k, " ");
        }
        k += 1;
    }
    proof {
        reveal_strlit(" ");
    }
    join_from(&parts, 1, " ")
}

/// `httpdate::parse_http_date`, with the resulting time given as whole
/// seconds since the Unix epoch. The result is named: it is a function of
/// the text alone.
pub uninterp spec fn http_date_secs(s: Seq<char>) -> Option<u64>;

/// Calls `httpdate::parse_http_date`. The crate only yields dates from 1970
/// on, so the conversion to seconds since the epoch cannot fail; nothing
/// beyond the name is stated of the result.
#[verifier::external_body]
fn parse_http_date_secs(s: &str) -> (r: Option<u64>)
    ensures
        r == http_date_secs(s@),
{
    match httpdate::parse_http_date(s) {
        Ok(t) => match t.duration_since(std::time::UNIX_EPOCH) {
            Ok(d) => Some(d.as_secs()),
            Err(_) => None,
        },
        Err(_) => None,
    }
}

/// Milliseconds from `now_nanos` until the date `date_secs` (both counted
/// from the Unix epoch), or `None` when the date has passed.
pub open spec fn delay_until(date_secs: u64, now_nanos: u128) -> Option<u64> {
    let date_nanos = date_secs * 1_000_000_000;
    if date_nanos >= now_nanos {
        Some(((date_nanos - now_nanos) / 1_000_000) as u64)
    } else {
        None
    }
}

/// The wait a `Retry-After` date asks for, given the current time.
pub fn retry_delay_until(date_secs: u64, now_nanos: u128) -> (r: Option<u64>)
    ensures
        r == delay_until(date_secs, now_nanos),
{
    let date_nanos: u128 = date_secs as u128 * 1_000_000_000;
    if date_nanos >= now_nanos {
        Some(((date_nanos - now_nanos) / 1_000_000) as u64)
    } else {
        None
    }
}

/// A `Retry-After` value that is a number of seconds: at least one second,
/// in milliseconds.
pub open spec fn retry_seconds_ms(value: Seq<char>) -> Option<u64> {
    match parse_u64_spec(trim(value)) {
        Some(n) => Some((if n < 1 {
            1
        } else {
            n
        } * 1000) as u64),
        None => None,
    }
}

/// Parses a `Retry-After` header value (seconds or HTTP-date) into a delay
/// in milliseconds, or `None` if it is neither or the date has passed.
pub fn parse_retry_after_value(value: &str) -> (r: Option<u64>)
    requires
        parse_u64_spec(trim(value@)) matches Some(n) ==> n <= u64::MAX / 1000,
    ensures
        parse_u64_spec(trim(value@)) is Some ==> r == retry_seconds_ms(value@),
        parse_u64_spec(trim(value@)) is None ==> match http_date_secs(trim(value@)) {
            Some(d) => r is None || exists|now: u128| r == delay_until(d, now),
            None => r is None,
        },
{
    let trimmed = trim_string(value);
    if let Some(seconds) = parse_u64(trimmed.as_str()) {
        let s = if seconds < 1 {
            1
        } else {
            seconds
        };
        return Some(s * 1000);
    }
    match parse_http_date_secs(trimmed.as_str()) {
        Some(date) => match crate::clock::now_unix_nanos() {
            Some(now) => retry_delay_until(date, now),
            None => None,
        },
        None => None,
    }
}

/// One entry of a mod's `latestFilesIndexes`.
#[derive(Debug, Clone, Copy)]
pub struct FileIndex {
    pub file_id: u32,
    pub game_version_type_id: Option<u32>,
    pub release_type: u32,
}

/// The fields of a CurseForge file that the client reads.
#[derive(Debug, Clone)]
pub struct CfFile {
    pub id: u32,
    pub display_name: String,
    pub file_name: String,
    pub download_url: Option<String>,
    pub file_length: u64,
    pub game_versions: Vec<String>,
    /// `(modId, relationType)` of each dependency.
    pub dependencies: Vec<(u32, u32)>,
    pub file_date: String,
    pub release_type: u32,
    pub file_fingerprint: u64,
    /// Names of the file's modules (its top-level directories).
    pub modules: Vec<String>,
}

/// A retail index entry the channel accepts.
pub open spec fn eligible_index(ix: FileIndex, channel: ReleaseChannel) -> bool {
    ix.game_version_type_id == Some(WOW_RETAIL_VERSION_TYPE_ID) && ix.release_type <= rank(channel)
}

/// The largest file ID among the eligible entries of `ixs[..n]`.
pub open spec fn max_eligible_id(ixs: Seq<FileIndex>, channel: ReleaseChannel, n: int) -> Option<u32>
    decreases n,
{
    if n <= 0 || n > ixs.len() {
        None
    } else {
        let prev = max_eligible_id(ixs, channel, n - 1);
        let ix = ixs[n - 1];
        if !eligible_index(ix, channel) {
            prev
        } else {
            match prev {
                Some(m) => if ix.file_id > m {
                    Some(ix.file_id)
                } else {
                    Some(m)
                },
                None => Some(ix.file_id),
            }
        }
    }
}

/// The newest retail file the channel allows, by file ID.
pub fn select_batch_file_id(indexes: &[FileIndex], channel: ReleaseChannel) -> (r: Option<u32>)
    ensures
        r == max_eligible_id(indexes@, channel, indexes@.len() as int),
{
    let mut best: Option<u32> = None;
    let mut i: usize = 0;
    while i < indexes.len()
        invariant
            0 <= i <= indexes.len(),
            best == max_eligible_id(indexes@, channel, i as int),
        decreases indexes.len() - i,
    {
        let ix = indexes[i];
        if ix.game_version_type_id == Some(WOW_RETAIL_VERSION_TYPE_ID) && channel.includes_release_type(
            ix.release_type,
        ) {
            best = match best {
                Some(m) => if ix.file_id > m {
                    Some(ix.file_id)
                } else {
                    Some(m)
                },
                None => Some(ix.file_id),
            };
        }
        i += 1;
    }
    best
}

/// The position of the first file with ID `id`.
pub open spec fn file_position(files: Seq<CfFile>, id: u32, k: int) -> Option<int>
    decreases files.len() - k,
{
    if k < 0 || k >= files.len() {
        None
    } else if files[k].id == id {
        Some(k)
    } else {
        file_position(files, id, k + 1)
    }
}

/// The version check of a mod: its newest eligible retail file, when that
/// file is among the mod's latest files.
pub open spec fn batch_check_spec(
    mod_id: u32,
    latest_files: Option<Seq<CfFile>>,
    indexes: Seq<FileIndex>,
    channel: ReleaseChannel,
) -> Option<(u32, Seq<char>, Seq<char>, Seq<char>)> {
    match max_eligible_id(indexes, channel, indexes.len() as int) {
        None => None,
        Some(fid) => match latest_files {
            None => None,
            Some(files) => match file_position(files, fid, 0) {
                None => None,
                Some(p) => Some((fid, version_of(files[p].display_name@), files[p].display_name@, files[p].file_date@)),
            },
        },
    }
}

/// Builds the version check of one mod from its latest files and their
/// index entries, or `None` when no retail file fits the channel.
pub fn batch_check_for_mod(
    mod_id: u32,
    latest_files: &Option<Vec<CfFile>>,
    indexes: &[FileIndex],
    channel: ReleaseChannel,
) -> (r: Option<BatchVersionCheck>)
    ensures
        match r {
            Some(c) => batch_check_spec(mod_id, match latest_files {
                Some(v) => Some(v@),
                None => None,
            }, indexes@, channel) == Some((c.file_id->0, c.version@, c.display_name@, c.released_at@))
                && c.file_id is Some && c.addon_id@ == dec_digits(mod_id as nat) && c.external_release_id is None,
            None => batch_check_spec(mod_id, match latest_files {
                Some(v) => Some(v@),
                None => None,
            }, indexes@, channel) is None,
        },
{
    let fid = match select_batch_file_id(indexes, channel) {
        Some(f) => f,
        None => return None,
    };
    let files = match latest_files {
        Some(v) => v,
        None => return None,
    };
    let mut k: usize = 0;
    while k < files.len()
        invariant
            0 <= k <= files.len(),
            file_position(files@, fid, k as int) == file_position(files@, fid, 0),
            max_eligible_id(indexes@, channel, indexes@.len() as int) == Some(fid),
            latest_files matches Some(v) && v@ == files@,
        decreases files.len() - k,
    {
        if files[k].id == fid {
            let f = &files[k];
            let version = extract_version(f.display_name.as_str());
            return Some(
                BatchVersionCheck {
                    addon_id: decimal(mod_id as u64),
                    file_id: Some(fid),
                    external_release_id: None,
                    version,
                    display_name: f.display_name.clone(),
                    released_at: f.file_date.clone(),
                },
            );
        }
        k += 1;
    }
    None
}

/// How a CurseForge `relationType` reads: 3 required, 1 embedded, any
/// other optional.
pub open spec fn dependency_type_of(relation_type: u32) -> DependencyType {
    if relation_type == 3 {
        DependencyType::Required
    } else if relation_type == 1 {
        DependencyType::Embedded
    } else {
        DependencyType::Optional
    }
}

pub fn dependency_type_for(relation_type: u32) -> (r: DependencyType)
    ensures
        r == dependency_type_of(relation_type),
{
    match relation_type {
        3 => DependencyType::Required,
        2 => DependencyType::Optional,
        1 => DependencyType::Embedded,
        _ => DependencyType::Optional,
    }
}

/// The last of the files the channel allows with the greatest date (dates
/// compared as text), among `files[..n]`.
pub open spec fn latest_file_index(files: Seq<CfFile>, channel: ReleaseChannel, n: int) -> Option<int>
    decreases n,
{
    if n <= 0 || n > files.len() {
        None
    } else {
        let prev = latest_file_index(files, channel, n - 1);
        let f = files[n - 1];
        if !(f.release_type <= rank(channel)) {
            prev
        } else {
            match prev {
                Some(p) => if lex_lt(f.file_date@, files[p].file_date@) {
                    Some(p)
                } else {
                    Some(n - 1)
                },
                None => Some(n - 1),
            }
        }
    }
}

proof fn lemma_latest_file_index(files: Seq<CfFile>, channel: ReleaseChannel, n: int)
    ensures
        latest_file_index(files, channel, n) matches Some(p) ==> 0 <= p < n && p < files.len(),
    decreases n,
{
    if n > 0 && n <= files.len() {
        lemma_latest_file_index(files, channel, n - 1);
    }
}

/// Picks the newest file of the channel (`max_by_key` on the file date:
/// the last of equally new ones).
pub fn select_latest_file(files: &[CfFile], channel: ReleaseChannel) -> (r: Option<usize>)
    ensures
        match r {
            Some(p) => latest_file_index(files@, channel, files@.len() as int) == Some(p as int),
            None => latest_file_index(files@, channel, files@.len() as int) is None,
        },
{
    let mut best: Option<usize> = None;
    let mut i: usize = 0;
    while i < files.len()
        invariant
            0 <= i <= files.len(),
            match best {
                Some(p) => latest_file_index(files@, channel, i as int) == Some(p as int) && p < i,
                None => latest_file_index(files@, channel, i as int) is None,
            },
        decreases files.len() - i,
    {
        proof {
            lemma_latest_file_index(files@, channel, i as int);
        }
        if channel.includes_release_type(files[i].release_type) {
            best = match best {
                Some(p) => if str_lt(files[i].file_date.as_str(), files[p].file_date.as_str()) {
                    Some(p)
                } else {
                    Some(i)
                },
                None => Some(i),
            };
        }
        i += 1;
    }
    best
}

pub open spec fn no_compatible_message(channel: ReleaseChannel) -> Seq<char> {
    "No compatible "@ + channel_name(channel) + " version found for WoW Retail"@
}

/// The newest file of the channel, or the error that there is none.
pub fn latest_file_or_error(files: &[CfFile], channel: ReleaseChannel) -> (r: Result<usize, WowctlError>)
    ensures
        match latest_file_index(files@, channel, files@.len() as int) {
            Some(p) => r == Ok::<usize, WowctlError>(p as usize) && p < files@.len(),
            None => r matches Err(WowctlError::Source(m)) && m@ == no_compatible_message(channel),
        },
{
    proof {
        lemma_latest_file_index(files@, channel, files@.len() as int);
    }
    match select_latest_file(files, channel) {
        Some(p) => Ok(p),
        None => Err(WowctlError::Source(crate::text::concat3("No compatible ", channel.as_str(), " version found for WoW Retail"))),
    }
}

/// The IDs of the required dependencies, in order.
pub open spec fn required_ids(d: Seq<DependencyInfo>) -> Seq<Seq<char>>
    decreases d.len(),
{
    if d.len() == 0 {
        Seq::empty()
    } else if d.last().dependency_type == DependencyType::Required {
        required_ids(d.drop_last()).push(d.last().addon_id@)
    } else {
        required_ids(d.drop_last())
    }
}

/// The addon IDs of the dependencies an install must bring in: the
/// required ones.
pub fn required_dependency_ids(deps: &[DependencyInfo]) -> (r: Vec<String>)
    ensures
        views(r@) == required_ids(deps@),
{
    let mut r: Vec<String> = Vec::new();
    let mut i: usize = 0;
    while i < deps.len()
        invariant
            0 <= i <= deps.len(),
            views(r@) == required_ids(deps@.take(i as int)),
        decreases deps.len() - i,
    {
        proof {
            assert(deps@.take(i + 1).drop_last() =~= deps@.take(i as int));
            assert(deps@.take(i + 1).last() == deps@[i as int]);
        }
        if deps[i].dependency_type == DependencyType::Required {
            let ghost before = r@;
            r.push(deps[i].addon_id.clone());
            assert(views(r@) =~= views(before).push(deps@[i as int].addon_id@));
        }
        i += 1;
    }
    assert(deps@.take(deps.len() as int) =~= deps@);
    r
}

pub open spec fn slug_not_found_message(slug: Seq<char>) -> Seq<char> {
    "Addon '"@ + slug + "' not found"@
}

/// The search result whose slug is exactly `slug` (the first such), or
/// the error that there is none.
pub fn addon_with_slug(addons: &[AddonInfo], slug: &str) -> (r: Result<usize, WowctlError>)
    ensures
        match r {
            Ok(i) => i < addons@.len() && addons@[i as int].slug@ == slug@ && forall|j: int|
                0 <= j < i ==> addons@[j].slug@ != slug@,
            Err(e) => (e matches WowctlError::AddonNotFound(m) && m@ == slug_not_found_message(slug@)) && forall|j: int|
                0 <= j < addons@.len() ==> addons@[j].slug@ != slug@,
        },
{
    let key = String::from_str(slug);
    let mut i: usize = 0;
    while i < addons.len()
        invariant
            0 <= i <= addons@.len(),
            key@ == slug@,
            forall|j: int| 0 <= j < i ==> addons@[j].slug@ != slug@,
        decreases addons@.len() - i,
    {
        if addons[i].slug == key {
            return Ok(i);
        }
        i += 1;
    }
    Err(WowctlError::AddonNotFound(crate::text::concat3("Addon '", slug, "' not found")))
}

pub open spec fn dep_views(d: Seq<DependencyInfo>) -> Seq<(Seq<char>, DependencyType)> {
    d.map_values(|x: DependencyInfo| (x.addon_id@, x.dependency_type))
}

pub open spec fn deps_of(d: Seq<(u32, u32)>) -> Seq<(Seq<char>, DependencyType)> {
    d.map_values(|x: (u32, u32)| (dec_digits(x.0 as nat), dependency_type_of(x.1)))
}

/// The version info of the chosen file, with the download URL resolved.
pub fn version_info_from_file(file: &CfFile, download_url: String) -> (r: VersionInfo)
    ensures
        r.file_id == Some(file.id),
        r.external_release_id is None,
        r.version@ == version_of(file.display_name@),
        r.display_name@ == file.display_name@,
        r.download_url@ == download_url@,
        r.file_name@ == file.file_name@,
        r.file_size == file.file_length,
        views(r.game_versions@) == views(file.game_versions@),
        r.released_at@ == file.file_date@,
        dep_views(r.dependencies@) == deps_of(file.dependencies@),
        views(r.modules@) == views(file.modules@),
{
    let mut deps: Vec<DependencyInfo> = Vec::new();
    let mut i: usize = 0;
    while i < file.dependencies.len()
        invariant
            0 <= i <= file.dependencies.len(),
            dep_views(deps@) == deps_of(file.dependencies@).take(i as int),
        decreases file.dependencies.len() - i,
    {
        let (mod_id, relation) = file.dependencies[i];
        let ghost before = deps@;
        deps.push(
            DependencyInfo { addon_id: decimal(mod_id as u64), dependency_type: dependency_type_for(relation) },
        );
        assert(dep_views(deps@) =~= dep_views(before).push(
            (dec_digits(mod_id as nat), dependency_type_of(relation)),
        ));
        assert(deps_of(file.dependencies@).take(i + 1) =~= deps_of(file.dependencies@).take(i as int).push(
            (dec_digits(mod_id as nat), dependency_type_of(relation)),
        ));
        i += 1;
    }
    assert(deps_of(file.dependencies@).take(file.dependencies.len() as int) =~= deps_of(file.dependencies@));
    VersionInfo {
        file_id: Some(file.id),
        external_release_id: None,
        version: extract_version(file.display_name.as_str()),
        display_name: file.display_name.clone(),
        download_url,
        file_name: file.file_name.clone(),
        file_size: file.file_length,
        game_versions: copy_strings(&file.game_versions),
        released_at: file.file_date.clone(),
        dependencies: deps,
        modules: copy_strings(&file.modules),
    }
}

/// The download URL to use: the one the dedicated endpoint gave when it
/// gave a non-empty one, else the CDN URL built from the file.
pub fn fallback_download_url(endpoint_url: Option<String>, file_id: u32, file_name: &str) -> (r: String)
    ensures
        (endpoint_url matches Some(u) && u@.len() > 0) ==> r@ == endpoint_url->0@,
        !(endpoint_url matches Some(u) && u@.len() > 0) ==> r@ == cdn_url(file_id, file_name@),
{
    match endpoint_url {
        Some(u) => {
            if chars_of(u.as_str()).len() > 0 {
                return u;
            }
            build_cdn_url(file_id, file_name)
        },
        None => build_cdn_url(file_id, file_name),
    }
}

/// Results from a bulk fingerprint lookup against CurseForge.
#[derive(Debug, Clone)]
pub struct FingerprintMatchesResult {
    pub exact_matches: Vec<FingerprintMatch>,
    pub partial_matches: Vec<FingerprintMatch>,
    pub unmatched_fingerprints: Vec<u32>,
}

/// A single fingerprint match against a CurseForge addon.
#[derive(Debug, Clone, Copy)]
pub struct FingerprintMatch {
    pub mod_id: u32,
    pub file_id: u32,
    pub file_fingerprint: u32,
}

/// A match for the mod `mod_id` whose file `file_id` has the (64-bit, as
/// the API sends it) fingerprint; the fingerprint keeps its low 32 bits.
pub fn fingerprint_match(mod_id: u32, file_id: u32, file_fingerprint: u64) -> (r: FingerprintMatch)
    ensures
        r.mod_id == mod_id,
        r.file_id == file_id,
        r.file_fingerprint == file_fingerprint as u32,
{
    FingerprintMatch { mod_id, file_id, file_fingerprint: file_fingerprint as u32 }
}

/// A file the channel allows.
pub open spec fn allowed_file(f: CfFile, channel: ReleaseChannel) -> bool {
    f.release_type <= rank(channel)
}

proof fn lemma_latest_file_newest(files: Seq<CfFile>, channel: ReleaseChannel, n: int)
    requires
        0 <= n <= files.len(),
    ensures
        match latest_file_index(files, channel, n) {
            Some(p) => {
                &&& 0 <= p < n
                &&& allowed_file(files[p], channel)
                &&& forall|j: int| 0 <= j < n && allowed_file(#[trigger] files[j], channel) ==> !lex_lt(
                    files[p].file_date@,
                    files[j].file_date@,
                )
                &&& forall|j: int| p < j < n && allowed_file(#[trigger] files[j], channel) ==> lex_lt(
                    files[j].file_date@,
                    files[p].file_date@,
                )
            },
            None => forall|j: int| 0 <= j < n ==> !allowed_file(#[trigger] files[j], channel),
        },
    decreases n,
{
    if n > 0 {
        lemma_latest_file_newest(files, channel, n - 1);
        let f = files[n - 1];
        lemma_lex_basic(f.file_date@, f.file_date@);
        if allowed_file(f, channel) {
            match latest_file_index(files, channel, n - 1) {
                None => {},
                Some(q) => {
                    let fq = files[q];
                    lemma_lex_basic(f.file_date@, fq.file_date@);
                    if !lex_lt(f.file_date@, fq.file_date@) {
                        assert forall|j: int| 0 <= j < n && allowed_file(#[trigger] files[j], channel) implies !lex_lt(
                            f.file_date@,
                            files[j].file_date@,
                        ) by {
                            if j < n - 1 {
                                lemma_lex_trans(fq.file_date@, f.file_date@, files[j].file_date@);
                            }
                        }
                    }
                },
            }
        }
    }
}

/// The file picked for a channel is one the channel allows, and no file it
/// allows is newer; of equally new files, the last one listed is picked.
/// Nothing is picked only when the channel allows no file.
pub proof fn law_latest_file_is_newest_allowed(files: Seq<CfFile>, channel: ReleaseChannel)
    ensures
        match latest_file_index(files, channel, files.len() as int) {
            Some(p) => {
                &&& 0 <= p < files.len()
                &&& allowed_file(files[p], channel)
                &&& forall|j: int| 0 <= j < files.len() && allowed_file(#[trigger] files[j], channel) ==> !lex_lt(
                    files[p].file_date@,
                    files[j].file_date@,
                )
                &&& forall|j: int| p < j < files.len() && allowed_file(#[trigger] files[j], channel) ==> lex_lt(
                    files[j].file_date@,
                    files[p].file_date@,
                )
            },
            None => forall|j: int| 0 <= j < files.len() ==> !allowed_file(#[trigger] files[j], channel),
        },
{
    lemma_latest_file_newest(files, channel, files.len() as int);
}

proof fn lemma_max_eligible(ixs: Seq<FileIndex>, channel: ReleaseChannel, n: int)
    requires
        0 <= n <= ixs.len(),
    ensures
        match max_eligible_id(ixs, channel, n) {
            Some(m) => {
                &&& exists|i: int| 0 <= i < n && eligible_index(#[trigger] ixs[i], channel) && ixs[i].file_id == m
                &&& forall|i: int| 0 <= i < n && eligible_index(#[trigger] ixs[i], channel) ==> ixs[i].file_id <= m
            },
            None => forall|i: int| 0 <= i < n ==> !eligible_index(#[trigger] ixs[i], channel),
        },
    decreases n,
{
    if n > 0 {
        lemma_max_eligible(ixs, channel, n - 1);
        let ix = ixs[n - 1];
        if eligible_index(ix, channel) {
            assert(eligible_index(ixs[n - 1], channel) && ixs[n - 1].file_id == ix.file_id);
        }
    }
}

/// The file ID a batch lookup picks for a channel is the largest among the
/// retail entries the channel allows, and is one of them; none is picked
/// only when the channel allows no retail entry.
pub proof fn law_batch_pick_is_largest_eligible(ixs: Seq<FileIndex>, channel: ReleaseChannel)
    ensures
        match max_eligible_id(ixs, channel, ixs.len() as int) {
            Some(m) => {
                &&& exists|i: int| 0 <= i < ixs.len() && eligible_index(#[trigger] ixs[i], channel) && ixs[i].file_id == m
                &&& forall|i: int| 0 <= i < ixs.len() && eligible_index(#[trigger] ixs[i], channel) ==> ixs[i].file_id <= m
            },
            None => forall|i: int| 0 <= i < ixs.len() ==> !eligible_index(#[trigger] ixs[i], channel),
        },
{
    lemma_max_eligible(ixs, channel, ixs.len() as int);
}

} // verus!
