//! Wago Addons: the decisions the client makes on what the external API
//! returns.
//!
//! The HTTP client and the JSON models live with the program; what the
//! logic reads of a response is handed over in the plain types below.

use vstd::prelude::*;
use vstd::string::StringExecFns;
use crate::addon::{channel_name, rank, AddonInfo, ReleaseChannel, VersionInfo};
use crate::error::WowctlError;
use crate::sources::{opt_view, clone_opt_string, BatchVersionCheck};
use crate::text::{
    after_last, chars_of, concat3, last_segment, lemma_lex_basic, lemma_lex_trans, lex_lt, str_lt, string_of_range, views,
};

verus! {

broadcast use vstd::string::group_string_axioms;

/// One release of an addon.
#[derive(Debug, Clone)]
pub struct WagoRelease {
    pub label: String,
    pub download_link: Option<String>,
    /// Byte-identical across detail/recents/search for the same release;
    /// the release identity (`external_release_id`).
    pub created_at: Option<String>,
    pub supported_retail_patch: Option<String>,
}

/// Releases keyed by Wago stability tier. Tiers map 1:1 onto ReleaseChannel.
#[derive(Debug, Clone)]
pub struct WagoReleases {
    pub stable: Option<WagoRelease>,
    pub beta: Option<WagoRelease>,
    pub alpha: Option<WagoRelease>,
}

/// An addon as the search endpoint lists it.
#[derive(Debug, Clone)]
pub struct WagoSearchItem {
    pub id: String,
    pub slug: Option<String>,
    pub display_name: String,
    pub summary: Option<String>,
    pub download_count: Option<u64>,
    pub website_url: Option<String>,
    pub is_hidden_from_external: bool,
}

/// An addon as the detail endpoint returns it.
#[derive(Debug, Clone)]
pub struct WagoAddonDetail {
    pub id: String,
    pub slug: String,
    pub display_name: String,
    pub summary: Option<String>,
    pub download_count: Option<u64>,
    pub is_hidden_from_external: bool,
    pub recent_releases: WagoReleases,
}

/// Maps a ReleaseChannel to Wago's stability query-parameter value.
pub fn stability_param(channel: ReleaseChannel) -> (r: &'static str)
    ensures
        r@ == channel_name(channel),
{
    channel.as_str()
}

/// The sort key of a release: its creation time, or nothing.
pub open spec fn created_key(r: WagoRelease) -> Seq<char> {
    match r.created_at {
        Some(c) => c@,
        None => Seq::empty(),
    }
}

/// The releases a channel may install, in tier order (stable ⊆ beta ⊆ alpha).
pub open spec fn stable_part(rs: WagoReleases) -> Seq<WagoRelease> {
    match rs.stable {
        Some(r) => seq![r],
        None => Seq::empty(),
    }
}

pub open spec fn beta_part(rs: WagoReleases, channel: ReleaseChannel) -> Seq<WagoRelease> {
    let s = stable_part(rs);
    if rank(channel) >= 2 {
        match rs.beta {
            Some(r) => s.push(r),
            None => s,
        }
    } else {
        s
    }
}

pub open spec fn candidates(rs: WagoReleases, channel: ReleaseChannel) -> Seq<WagoRelease> {
    let b = beta_part(rs, channel);
    if rank(channel) >= 3 {
        match rs.alpha {
            Some(r) => b.push(r),
            None => b,
        }
    } else {
        b
    }
}

/// The last of the releases of `cs[..n]` with the greatest key.
pub open spec fn newest(cs: Seq<WagoRelease>, n: int) -> Option<WagoRelease>
    decreases n,
{
    if n <= 0 || n > cs.len() {
        None
    } else {
        match newest(cs, n - 1) {
            Some(p) => if lex_lt(created_key(cs[n - 1]), created_key(p)) {
                Some(p)
            } else {
                Some(cs[n - 1])
            },
            None => Some(cs[n - 1]),
        }
    }
}

/// The release a channel picks: the newest it allows, newest judged by
/// created_at (fixed-width ISO-8601 UTC, so lexicographic order equals
/// chronological order).
pub open spec fn select_release_spec(rs: WagoReleases, channel: ReleaseChannel) -> Option<WagoRelease> {
    let cs = candidates(rs, channel);
    newest(cs, cs.len() as int)
}

fn key_str(r: &WagoRelease) -> (k: &str)
    ensures
        k@ == created_key(*r),
{
    proof {
        reveal_strlit("");
    }
    match &r.created_at {
        Some(c) => c.as_str(),
        None => "",
    }
}

fn newer<'a>(best: Option<&'a WagoRelease>, cand: &'a WagoRelease) -> (r: Option<&'a WagoRelease>)
    ensures
        r == (match best {
            Some(p) => if lex_lt(created_key(*cand), created_key(*p)) {
                Some(p)
            } else {
                Some(cand)
            },
            None => Some(cand),
        }),
{
    match best {
        Some(p) => {
            if str_lt(key_str(cand), key_str(p)) {
                Some(p)
            } else {
                Some(cand)
            }
        },
        None => Some(cand),
    }
}

pub open spec fn deref_opt(o: Option<&WagoRelease>) -> Option<WagoRelease> {
    match o {
        Some(p) => Some(*p),
        None => None,
    }
}

/// Picks the newest release the channel allows (stable ⊆ beta ⊆ alpha).
pub fn select_release(releases: &WagoReleases, channel: ReleaseChannel) -> (r: Option<&WagoRelease>)
    ensures
        match r {
            Some(p) => select_release_spec(*releases, channel) == Some(*p),
            None => select_release_spec(*releases, channel) is None,
        },
{
    let ghost cs = candidates(*releases, channel);
    let ghost s = stable_part(*releases);
    let mut best: Option<&WagoRelease> = None;
    if let Some(r) = &releases.stable {
        best = newer(best, r);
    }
    assert(deref_opt(best) == newest(s, s.len() as int)) by {
        if s.len() == 1 {
            assert(newest(s, 0) is None);
        }
    }
    let ghost b = beta_part(*releases, channel);
    if channel.at_least(ReleaseChannel::Beta) {
        if let Some(r) = &releases.beta {
            best = newer(best, r);
            assert(s.push(*r).drop_last() =~= s);
            assert(newest(s.push(*r), s.len() as int) == newest(s, s.len() as int)) by {
                lemma_newest_prefix(s.push(*r), s, s.len() as int);
            }
        }
    }
    assert(deref_opt(best) == newest(b, b.len() as int));
    if channel.at_least(ReleaseChannel::Alpha) {
        if let Some(r) = &releases.alpha {
            best = newer(best, r);
            assert(newest(b.push(*r), b.len() as int) == newest(b, b.len() as int)) by {
                lemma_newest_prefix(b.push(*r), b, b.len() as int);
            }
        }
    }
    assert(deref_opt(best) == newest(cs, cs.len() as int));
    best
}

/// `newest` over a prefix depends only on the prefix.
proof fn lemma_newest_prefix(a: Seq<WagoRelease>, b: Seq<WagoRelease>, n: int)
    requires
        0 <= n <= b.len() <= a.len(),
        forall|i: int| 0 <= i < b.len() ==> a[i] == b[i],
    ensures
        newest(a, n) == newest(b, n),
    decreases n,
{
    if n > 0 {
        lemma_newest_prefix(a, b, n - 1);
    }
}

/// `s` with every trailing `c` removed (`str::trim_end_matches`).
pub open spec fn trim_trailing(s: Seq<char>, c: char) -> Seq<char>
    decreases s.len(),
{
    if s.len() > 0 && s.last() == c {
        trim_trailing(s.drop_last(), c)
    } else {
        s
    }
}

/// An item's slug: the explicit field, else the last path segment of its
/// website URL, when that is not empty.
pub open spec fn item_slug_spec(slug: Option<Seq<char>>, website_url: Option<Seq<char>>) -> Option<Seq<char>> {
    match slug {
        Some(s) => Some(s),
        None => match website_url {
            Some(u) => {
                let seg = last_segment(trim_trailing(u, '/'), '/');
                if seg.len() > 0 {
                    Some(seg)
                } else {
                    None
                }
            },
            None => None,
        },
    }
}

/// Resolves an item's Slug: explicit field first, else the last path
/// segment of its website URL.
pub fn item_slug(item: &WagoSearchItem) -> (r: Option<String>)
    ensures
        opt_view(r) == item_slug_spec(opt_view(item.slug), opt_view(item.website_url)),
{
    if let Some(s) = &item.slug {
        return Some(s.clone());
    }
    match &item.website_url {
        Some(u) => {
            let v = chars_of(u.as_str());
            let mut n = v.len();
            assert(v@.subrange(0, n as int) =~= v@);
            while n > 0 && v[n - 1] == '/'
                invariant
                    n <= v.len(),
                    v@ == u@,
                    trim_trailing(v@.subrange(0, n as int), '/') == trim_trailing(u@, '/'),
                decreases n,
            {
                assert(v@.subrange(0, n as int).drop_last() =~= v@.subrange(0, n - 1));
                n -= 1;
            }
            let trimmed = string_of_range(&v, 0, n);
            assert(trimmed@ == trim_trailing(u@, '/')) by {
                if n > 0 {
                    assert(v@.subrange(0, n as int).last() == v@[n - 1]);
                }
            }
            let seg = after_last(trimmed.as_str(), '/');
            if chars_of(seg.as_str()).len() > 0 {
                Some(seg)
            } else {
                None
            }
        },
        None => None,
    }
}

fn wago_word() -> (r: String)
    ensures
        r@ == "wago"@,
{
    String::from_str("wago")
}

/// The listing of a search item: its slug (or, lacking one, its ID) and
/// its fields, tagged with the source `wago`.
pub fn to_addon_info(item: &WagoSearchItem) -> (r: AddonInfo)
    ensures
        r.id@ == item.id@,
        r.name@ == item.display_name@,
        r.slug@ == (match item_slug_spec(opt_view(item.slug), opt_view(item.website_url)) {
            Some(s) => s,
            None => item.id@,
        }),
        opt_view(r.description) == opt_view(item.summary),
        r.download_count == item.download_count,
        r.source@ == "wago"@,
{
    let slug = match item_slug(item) {
        Some(s) => s,
        None => item.id.clone(),
    };
    AddonInfo {
        id: item.id.clone(),
        name: item.display_name.clone(),
        slug,
        description: clone_opt_string(&item.summary),
        download_count: item.download_count,
        source: wago_word(),
    }
}

/// The listing of an addon from its detail record.
pub fn detail_to_addon_info(detail: &WagoAddonDetail) -> (r: AddonInfo)
    ensures
        r.id@ == detail.id@,
        r.name@ == detail.display_name@,
        r.slug@ == detail.slug@,
        opt_view(r.description) == opt_view(detail.summary),
        r.download_count == detail.download_count,
        r.source@ == "wago"@,
{
    AddonInfo {
        id: detail.id.clone(),
        name: detail.display_name.clone(),
        slug: detail.slug.clone(),
        description: clone_opt_string(&detail.summary),
        download_count: detail.download_count,
        source: wago_word(),
    }
}

pub open spec fn no_link_message(label: Seq<char>) -> Seq<char> {
    "Wago release '"@ + label + "' has no download link"@
}

/// The version info of a release, downloaded as `file_name`. Wago reports
/// no file IDs, sizes, dependencies or modules.
pub fn to_version_info(release: &WagoRelease, file_name: String) -> (r: Result<VersionInfo, WowctlError>)
    ensures
        release.download_link is None ==> (r matches Err(WowctlError::Source(m)) && m@ == no_link_message(
            release.label@,
        )),
        release.download_link matches Some(link) ==> (r matches Ok(v) && v.file_id is None && opt_view(
            v.external_release_id,
        ) == opt_view(release.created_at) && v.version@ == release.label@ && v.display_name@ == release.label@
            && v.download_url@ == link@ && v.file_name@ == file_name@ && v.file_size == 0 && views(v.game_versions@)
            == (match release.supported_retail_patch {
            Some(p) => seq![p@],
            None => Seq::empty(),
        }) && v.released_at@ == (match release.created_at {
            Some(c) => c@,
            None => Seq::empty(),
        }) && v.dependencies@.len() == 0 && v.modules@.len() == 0),
{
    let download_url = match &release.download_link {
        Some(l) => l.clone(),
        None => {
            return Err(
                WowctlError::Source(concat3("Wago release '", release.label.as_str(), "' has no download link")),
            );
        },
    };
    let mut game_versions: Vec<String> = Vec::new();
    if let Some(p) = &release.supported_retail_patch {
        game_versions.push(p.clone());
        assert(views(game_versions@) =~= seq![p@]);
    } else {
        assert(views(game_versions@) =~= Seq::<Seq<char>>::empty());
    }
    let released_at = match &release.created_at {
        Some(c) => c.clone(),
        None => String::new(),
    };
    Ok(
        VersionInfo {
            file_id: None,
            external_release_id: clone_opt_string(&release.created_at),
            version: release.label.clone(),
            display_name: release.label.clone(),
            download_url,
            file_name,
            file_size: 0,
            game_versions,
            released_at,
            dependencies: Vec::new(),
            modules: Vec::new(),
        },
    )
}

/// The version check of one addon of a batch lookup, when its channel has
/// a release.
pub fn batch_check_from_releases(addon_id: &String, releases: &WagoReleases, channel: ReleaseChannel) -> (r: Option<
    BatchVersionCheck,
>)
    ensures
        match r {
            Some(c) => select_release_spec(*releases, channel) matches Some(rel) && c.addon_id@ == addon_id@
                && c.file_id is None && opt_view(c.external_release_id) == opt_view(rel.created_at) && c.version@
                == rel.label@ && c.display_name@ == rel.label@ && c.released_at@ == created_key(rel),
            None => select_release_spec(*releases, channel) is None,
        },
{
    match select_release(releases, channel) {
        Some(rel) => Some(
            BatchVersionCheck {
                addon_id: addon_id.clone(),
                file_id: None,
                external_release_id: clone_opt_string(&rel.created_at),
                version: rel.label.clone(),
                display_name: rel.label.clone(),
                released_at: match &rel.created_at {
                    Some(c) => c.clone(),
                    None => String::new(),
                },
            },
        ),
        None => None,
    }
}

pub open spec fn no_release_message(channel: ReleaseChannel, slug: Seq<char>) -> Seq<char> {
    "No "@ + channel_name(channel) + " release found on Wago for '"@ + slug + "'"@
}

pub open spec fn hidden_message(slug: Seq<char>) -> Seq<char> {
    "Addon '"@ + slug + "' is hidden from external clients by its author"@
}

/// A detail record as the client may use it: hidden addons are reported
/// as not found.
pub fn check_visible(detail: &WagoAddonDetail) -> (r: Result<(), WowctlError>)
    ensures
        !detail.is_hidden_from_external ==> r is Ok,
        detail.is_hidden_from_external ==> (r matches Err(WowctlError::AddonNotFound(m)) && m@ == hidden_message(
            detail.slug@,
        )),
{
    if detail.is_hidden_from_external {
        return Err(
            WowctlError::AddonNotFound(
                concat3("Addon '", detail.slug.as_str(), "' is hidden from external clients by its author"),
            ),
        );
    }
    Ok(())
}

/// The latest version of an addon from its detail record: the release its
/// channel picks, downloaded as `{slug}.zip`.
pub fn latest_version_from_detail(detail: &WagoAddonDetail, channel: ReleaseChannel) -> (r: Result<
    VersionInfo,
    WowctlError,
>)
    ensures
        select_release_spec(detail.recent_releases, channel) is None ==> (r matches Err(WowctlError::Source(m))
            && m@ == no_release_message(channel, detail.slug@)),
        select_release_spec(detail.recent_releases, channel) matches Some(rel) ==> (match rel.download_link {
            None => r matches Err(WowctlError::Source(m)) && m@ == no_link_message(rel.label@),
            Some(link) => r matches Ok(v) && v.version@ == rel.label@ && v.download_url@ == link@ && v.file_name@
                == detail.slug@ + ".zip"@ && opt_view(v.external_release_id) == opt_view(rel.created_at),
        }),
{
    match select_release(&detail.recent_releases, channel) {
        Some(rel) => {
            proof {
                reveal_strlit("");
            }
            let name = concat3(detail.slug.as_str(), ".zip", "");
            to_version_info(rel, name)
        },
        None => {
            let mut m = String::from_str("No ");
            m.append(channel.as_str());
            m.append(" release found on Wago for '");
            m.append(detail.slug.as_str());
            m.append("'");
            assert(m@ =~= no_release_message(channel, detail.slug@));
            Err(WowctlError::Source(m))
        },
    }
}

/// The search items an external client may show: those not hidden by
/// their authors, in order.
pub open spec fn visible(items: Seq<WagoSearchItem>) -> Seq<WagoSearchItem>
    decreases items.len(),
{
    if items.len() == 0 {
        items
    } else if items.last().is_hidden_from_external {
        visible(items.drop_last())
    } else {
        visible(items.drop_last()).push(items.last())
    }
}

/// The positions of the visible items.
pub fn visible_items(items: &[WagoSearchItem]) -> (r: Vec<usize>)
    ensures
        r@.map_values(|i: usize| items@[i as int]) == visible(items@),
        forall|k: int| 0 <= k < r.len() ==> #[trigger] r@[k] < items.len(),
{
    let mut r: Vec<usize> = Vec::new();
    let mut i: usize = 0;
    while i < items.len()
        invariant
            0 <= i <= items.len(),
            r@.map_values(|j: usize| items@[j as int]) == visible(items@.take(i as int)),
            forall|k: int| 0 <= k < r.len() ==> #[trigger] r@[k] < i,
        decreases items.len() - i,
    {
        assert(items@.take(i + 1).drop_last() =~= items@.take(i as int));
        if !items[i].is_hidden_from_external {
            let ghost before = r@;
            r.push(i);
            assert(r@.map_values(|j: usize| items@[j as int]) =~= before.map_values(|j: usize| items@[j as int]).push(
                items@[i as int],
            ));
        }
        i += 1;
    }
    assert(items@.take(items.len() as int) =~= items@);
    r
}

/// The first item whose slug is `slug`.
pub open spec fn item_with_slug(items: Seq<WagoSearchItem>, slug: Seq<char>, k: int) -> Option<int>
    decreases items.len() - k,
{
    if k < 0 || k >= items.len() {
        None
    } else if item_slug_spec(opt_view(items[k].slug), opt_view(items[k].website_url)) == Some(slug) {
        Some(k)
    } else {
        item_with_slug(items, slug, k + 1)
    }
}

/// Finds the search item whose slug matches exactly.
pub fn find_item_by_slug(items: &[WagoSearchItem], slug: &str) -> (r: Option<usize>)
    ensures
        match r {
            Some(k) => item_with_slug(items@, slug@, 0) == Some(k as int),
            None => item_with_slug(items@, slug@, 0) is None,
        },
{
    let key = String::from_str(slug);
    let mut k: usize = 0;
    while k < items.len()
        invariant
            0 <= k <= items.len(),
            key@ == slug@,
            item_with_slug(items@, slug@, k as int) == item_with_slug(items@, slug@, 0),
        decreases items.len() - k,
    {
        match item_slug(&items[k]) {
            Some(s) => {
                if s == key {
                    return Some(k);
                }
            },
            None => {},
        }
        k += 1;
    }
    None
}

pub open spec fn slug_not_found_message(slug: Seq<char>) -> Seq<char> {
    "Addon '"@ + slug + "' not found on Wago"@
}

/// The answer of a slug lookup that fell back to the detail endpoint: the
/// detail when its slug matches; not found when it does not or the addon
/// is unknown; any other error as it came.
pub fn slug_lookup_from_detail(slug: &str, detail: Result<WagoAddonDetail, WowctlError>) -> (r: Result<
    AddonInfo,
    WowctlError,
>)
    ensures
        (detail matches Ok(d) && d.slug@ == slug@) ==> (r matches Ok(info) && info.slug@ == slug@ && info.id@
            == detail->Ok_0.id@ && info.name@ == detail->Ok_0.display_name@ && opt_view(info.description) == opt_view(
            detail->Ok_0.summary,
        ) && info.download_count == detail->Ok_0.download_count && info.source@ == "wago"@),
        ((detail matches Ok(d) && d.slug@ != slug@) || detail matches Err(WowctlError::AddonNotFound(_))) ==> (r matches Err(
            WowctlError::AddonNotFound(m),
        ) && m@ == slug_not_found_message(slug@)),
        (detail matches Err(e) && !(e is AddonNotFound)) ==> r == Err::<AddonInfo, WowctlError>(detail->Err_0),
{
    let key = String::from_str(slug);
    match detail {
        Ok(d) => {
            if d.slug == key {
                Ok(detail_to_addon_info(&d))
            } else {
                Err(WowctlError::AddonNotFound(concat3("Addon '", slug, "' not found on Wago")))
            }
        },
        Err(WowctlError::AddonNotFound(_)) => Err(
            WowctlError::AddonNotFound(concat3("Addon '", slug, "' not found on Wago")),
        ),
        Err(e) => Err(e),
    }
}

/// `x` is no newer than `p`.
pub open spec fn no_newer(x: WagoRelease, p: WagoRelease) -> bool {
    !lex_lt(created_key(p), created_key(x))
}

/// A channel takes the newest release among the tiers it allows: stable
/// always, beta from the beta channel on, alpha on the alpha channel. No
/// allowed release is newer than the one picked, the one picked is an
/// allowed one, and nothing is picked only when no tier the channel allows
/// has a release.
pub proof fn law_picks_newest_allowed(rs: WagoReleases, channel: ReleaseChannel)
    ensures
        rs.stable matches Some(s) ==> (select_release_spec(rs, channel) matches Some(p) && no_newer(s, p)),
        rank(channel) >= rank(ReleaseChannel::Beta) && rs.beta is Some ==> (select_release_spec(rs, channel) matches Some(p)
            && no_newer(rs.beta->0, p)),
        rank(channel) >= rank(ReleaseChannel::Alpha) && rs.alpha is Some ==> (select_release_spec(rs, channel) matches Some(p)
            && no_newer(rs.alpha->0, p)),
        select_release_spec(rs, channel) matches Some(p) ==> rs.stable == Some(p) || (rank(channel) >= rank(
            ReleaseChannel::Beta,
        ) && rs.beta == Some(p)) || (rank(channel) >= rank(ReleaseChannel::Alpha) && rs.alpha == Some(p)),
        select_release_spec(rs, channel) is None ==> rs.stable is None && (rank(channel) >= rank(ReleaseChannel::Beta)
            ==> rs.beta is None) && (rank(channel) >= rank(ReleaseChannel::Alpha) ==> rs.alpha is None),
{
    let cs = candidates(rs, channel);
    reveal_with_fuel(newest, 4);
    let n = cs.len() as int;
    if n >= 1 {
        lemma_lex_basic(created_key(cs[0]), created_key(cs[0]));
    }
    if n >= 2 {
        lemma_lex_basic(created_key(cs[0]), created_key(cs[1]));
        lemma_lex_basic(created_key(cs[1]), created_key(cs[1]));
    }
    if n >= 3 {
        lemma_lex_basic(created_key(cs[0]), created_key(cs[2]));
        lemma_lex_basic(created_key(cs[1]), created_key(cs[2]));
        lemma_lex_basic(created_key(cs[2]), created_key(cs[2]));
        lemma_lex_trans(created_key(cs[2]), created_key(cs[0]), created_key(cs[1]));
        lemma_lex_trans(created_key(cs[2]), created_key(cs[1]), created_key(cs[0]));
        lemma_lex_trans(created_key(cs[1]), created_key(cs[0]), created_key(cs[2]));
        lemma_lex_trans(created_key(cs[0]), created_key(cs[1]), created_key(cs[2]));
        lemma_lex_trans(created_key(cs[1]), created_key(cs[2]), created_key(cs[0]));
        lemma_lex_trans(created_key(cs[0]), created_key(cs[2]), created_key(cs[1]));
    }
}

/// A wider channel never picks an older release than a narrower one: when
/// the narrower channel picks a release, the wider one picks one at least
/// as new.
pub proof fn law_wider_channel_never_older(rs: WagoReleases, narrow: ReleaseChannel, wide: ReleaseChannel)
    requires
        rank(narrow) <= rank(wide),
    ensures
        select_release_spec(rs, narrow) matches Some(p) ==> (select_release_spec(rs, wide) matches Some(q)
            && no_newer(p, q)),
{
    law_picks_newest_allowed(rs, narrow);
    law_picks_newest_allowed(rs, wide);
}

} // verus!
