//! The decisions of `wowctl info`: which lines describe an installed
//! addon.

use vstd::prelude::*;
use vstd::string::{StringExecFns, StringSliceAdditionalSpecFns};
use crate::addon::{channel_name, flag, InstalledAddon};
use crate::colors::Paint;
use crate::commands::stale::date_dashes;
use crate::error::WowctlError;
use crate::registry::Registry;
use crate::sources::opt_view;
use crate::text::{join, join_from, utf8_bytes, views};

verus! {

broadcast use vstd::string::group_string_axioms;

/// Whether the release date reads as a date: it starts like `YYYY-MM-DD`,
/// and its tenth byte ends a character.
pub open spec fn release_date_cut(raw: Seq<char>) -> bool {
    date_dashes(utf8_bytes(raw)) && vstd::utf8::is_char_boundary(utf8_bytes(raw), 10)
}

/// The release date as shown: its first ten bytes when it reads as a date,
/// else all of it.
pub open spec fn release_date_shown(raw: Seq<char>, shown: Seq<char>) -> bool {
    if release_date_cut(raw) {
        utf8_bytes(shown) == utf8_bytes(raw).take(10)
    } else {
        shown == raw
    }
}

/// Formats an ISO 8601 date string (e.g., "2025-02-15T10:30:00Z") into a
/// friendlier "YYYY-MM-DD" display. Returns the raw string if parsing fails.
pub fn format_release_date(raw: &str) -> (r: String)
    ensures
        release_date_shown(raw@, r@),
{
    let b = raw.as_bytes();
    assert(b@ == utf8_bytes(raw@));
    if b.len() >= 10 && b[4] == 45u8 && b[7] == 45u8 && raw.is_char_boundary(10) {
        let (head, _) = raw.split_at(10);
        head.to_owned()
    } else {
        raw.to_owned()
    }
}

/// One line of the description.
#[derive(Debug, Clone)]
pub enum InfoLine {
    /// The addon's name, in bold.
    Title(String),
    /// `  {label}: {value}`, the label in bold, the value in the paint.
    Field { label: String, value: String, paint: Option<Paint> },
    /// `  {label}:`, in bold, before a list.
    Header(String),
    /// `    - {value}`, in the paint.
    Item { value: String, paint: Option<Paint> },
}

/// A line, its texts taken by view.
pub enum LineModel {
    Title(Seq<char>),
    Field(Seq<char>, Seq<char>, Option<Paint>),
    Header(Seq<char>),
    Item(Seq<char>, Option<Paint>),
}

pub open spec fn line_model(l: InfoLine) -> LineModel {
    match l {
        InfoLine::Title(s) => LineModel::Title(s@),
        InfoLine::Field { label, value, paint } => LineModel::Field(label@, value@, paint),
        InfoLine::Header(s) => LineModel::Header(s@),
        InfoLine::Item { value, paint } => LineModel::Item(value@, paint),
    }
}

pub open spec fn line_models(v: Seq<InfoLine>) -> Seq<LineModel> {
    v.map_values(|l: InfoLine| line_model(l))
}

pub open spec fn items(v: Seq<Seq<char>>, paint: Option<Paint>) -> Seq<LineModel> {
    v.map_values(|s: Seq<char>| LineModel::Item(s, paint))
}

pub open spec fn when(c: bool, lines: Seq<LineModel>) -> Seq<LineModel> {
    if c {
        lines
    } else {
        Seq::empty()
    }
}

pub open spec fn head_part(a: InstalledAddon) -> Seq<LineModel> {
    seq![LineModel::Title(a.name@), LineModel::Field("Version"@, a.version@, Some(Paint::Green))]
        + when(a.display_name is Some, seq![LineModel::Field("Release"@, opt_view(a.display_name)->0, Some(Paint::Dimmed))])
        + seq![LineModel::Field("Source"@, a.source@, Some(Paint::Cyan)), LineModel::Field("Slug"@, a.slug@, Some(Paint::Dimmed))]
}

pub open spec fn dirs_part(a: InstalledAddon) -> Seq<LineModel> {
    when(a.directories@.len() > 0, seq![LineModel::Header("Directories"@)] + items(views(a.directories@), None))
}

pub open spec fn released_part(a: InstalledAddon, released_shown: Seq<char>) -> Seq<LineModel> {
    when(a.released_at is Some, seq![LineModel::Field("Released"@, released_shown, Some(Paint::Dimmed))])
}

pub open spec fn settings_part(a: InstalledAddon) -> Seq<LineModel> {
    when(
        a.game_versions matches Some(g) && g@.len() > 0,
        seq![LineModel::Field("Game Versions"@, join(views(a.game_versions->0@), ", "@), None)],
    ) + when(a.channel is Some, seq![LineModel::Field("Channel"@, channel_name(a.channel->0), Some(Paint::Yellow))])
        + when(flag(a.ignored), seq![LineModel::Field("Ignored"@, "yes (skipped during updates)"@, Some(Paint::Yellow))])
        + when(flag(a.auto_update), seq![LineModel::Field("Auto-update"@, "enabled"@, Some(Paint::Green))])
}

pub open spec fn type_part(a: InstalledAddon) -> Seq<LineModel> {
    if a.is_dependency {
        seq![LineModel::Field("Type"@, "Dependency"@, Some(Paint::Yellow))] + when(
            a.required_by@.len() > 0,
            seq![LineModel::Header("Required by"@)] + items(views(a.required_by@), Some(Paint::Cyan)),
        )
    } else {
        seq![LineModel::Field("Type"@, "Manually installed"@, Some(Paint::Green))]
    }
}

pub open spec fn url_part(a: InstalledAddon) -> Seq<LineModel> {
    when(
        a.source@ == "curseforge"@,
        seq![LineModel::Field("URL"@, "https://www.curseforge.com/wow/addons/"@ + a.slug@, Some(Paint::Blue))],
    )
}

/// The description, given the release date as shown.
pub open spec fn info_spec(a: InstalledAddon, released_shown: Seq<char>) -> Seq<LineModel> {
    head_part(a) + dirs_part(a) + released_part(a, released_shown) + settings_part(a) + type_part(a) + url_part(a)
}

fn field(label: &str, value: String, paint: Option<Paint>) -> (r: InfoLine)
    ensures
        line_model(r) == LineModel::Field(label@, value@, paint),
{
    InfoLine::Field { label: String::from_str(label), value, paint }
}

fn push_items(out: &mut Vec<InfoLine>, v: &Vec<String>, paint: Option<Paint>)
    ensures
        line_models(final(out)@) == line_models(old(out)@) + items(views(v@), paint),
{
    let ghost start = line_models(out@);
    let mut i: usize = 0;
    while i < v.len()
        invariant
            0 <= i <= v.len(),
            line_models(out@) == start + items(views(v@).take(i as int), paint),
        decreases v.len() - i,
    {
        let ghost before = line_models(out@);
        out.push(InfoLine::Item { value: v[i].clone(), paint });
        proof {
            assert(line_models(out@) =~= before.push(LineModel::Item(v@[i as int]@, paint)));
            assert(items(views(v@).take(i + 1), paint) =~= items(views(v@).take(i as int), paint).push(
                LineModel::Item(v@[i as int]@, paint),
            ));
        }
        i += 1;
    }
    assert(views(v@).take(v.len() as int) =~= views(v@));
}

fn push_head(out: &mut Vec<InfoLine>, a: &InstalledAddon)
    ensures
        line_models(final(out)@) == line_models(old(out)@) + head_part(*a),
{
    proof {
        reveal_strlit("Version");
        reveal_strlit("Release");
        reveal_strlit("Source");
        reveal_strlit("Slug");
    }
    let ghost s0 = line_models(out@);
    out.push(InfoLine::Title(a.name.clone()));
    out.push(field("Version", a.version.clone(), Some(Paint::Green)));
    let ghost s1 = line_models(out@);
    assert(s1 =~= s0 + seq![LineModel::Title(a.name@), LineModel::Field("Version"@, a.version@, Some(Paint::Green))]);
    if let Some(d) = &a.display_name {
        out.push(field("Release", d.clone(), Some(Paint::Dimmed)));
    }
    let ghost s2 = line_models(out@);
    assert(s2 =~= s1 + when(a.display_name is Some, seq![LineModel::Field("Release"@, opt_view(a.display_name)->0, Some(Paint::Dimmed))]));
    out.push(field("Source", a.source.clone(), Some(Paint::Cyan)));
    out.push(field("Slug", a.slug.clone(), Some(Paint::Dimmed)));
    assert(line_models(out@) =~= s2 + seq![LineModel::Field("Source"@, a.source@, Some(Paint::Cyan)), LineModel::Field("Slug"@, a.slug@, Some(Paint::Dimmed))]);
    assert(line_models(out@) =~= s0 + head_part(*a));
}

fn push_dirs(out: &mut Vec<InfoLine>, a: &InstalledAddon)
    ensures
        line_models(final(out)@) == line_models(old(out)@) + dirs_part(*a),
{
    proof {
        reveal_strlit("Directories");
    }
    let ghost s0 = line_models(out@);
    if a.directories.len() > 0 {
        out.push(InfoLine::Header(String::from_str("Directories")));
        let ghost h = line_models(out@);
        assert(h =~= s0.push(LineModel::Header("Directories"@)));
        push_items(out, &a.directories, None);
        assert(line_models(out@) =~= s0 + (seq![LineModel::Header("Directories"@)] + items(views(a.directories@), None)));
    } else {
        assert(line_models(out@) =~= s0 + Seq::<LineModel>::empty());
    }
}

fn push_released(out: &mut Vec<InfoLine>, a: &InstalledAddon) -> (shown: String)
    ensures
        a.released_at matches Some(d) ==> release_date_shown(d@, shown@),
        line_models(final(out)@) == line_models(old(out)@) + released_part(*a, shown@),
{
    proof {
        reveal_strlit("Released");
    }
    let ghost s0 = line_models(out@);
    let mut shown = String::new();
    if let Some(r) = &a.released_at {
        shown = format_release_date(r.as_str());
        out.push(field("Released", shown.clone(), Some(Paint::Dimmed)));
    }
    assert(line_models(out@) =~= s0 + released_part(*a, shown@));
    shown
}

fn push_settings(out: &mut Vec<InfoLine>, a: &InstalledAddon)
    ensures
        line_models(final(out)@) == line_models(old(out)@) + settings_part(*a),
{
    proof {
        reveal_strlit("Game Versions");
        reveal_strlit("Channel");
        reveal_strlit("Ignored");
        reveal_strlit("yes (skipped during updates)");
        reveal_strlit("Auto-update");
        reveal_strlit("enabled");
        reveal_strlit(", ");
    }
    let ghost s0 = line_models(out@);
    if let Some(g) = &a.game_versions {
        if g.len() > 0 {
            out.push(field("Game Versions", join_from(g, 0, ", "), None));
            assert(views(g@).subrange(0, g@.len() as int) =~= views(g@));
        }
    }
    let ghost s1 = line_models(out@);
    assert(s1 =~= s0 + when(
        a.game_versions matches Some(g) && g@.len() > 0,
        seq![LineModel::Field("Game Versions"@, join(views(a.game_versions->0@), ", "@), None)],
    ));
    if let Some(c) = a.channel {
        out.push(field("Channel", String::from_str(c.as_str()), Some(Paint::Yellow)));
    }
    let ghost s2 = line_models(out@);
    assert(s2 =~= s1 + when(a.channel is Some, seq![LineModel::Field("Channel"@, channel_name(a.channel->0), Some(Paint::Yellow))]));
    if a.is_ignored() {
        out.push(field("Ignored", String::from_str("yes (skipped during updates)"), Some(Paint::Yellow)));
    }
    let ghost s3 = line_models(out@);
    assert(s3 =~= s2 + when(flag(a.ignored), seq![LineModel::Field("Ignored"@, "yes (skipped during updates)"@, Some(Paint::Yellow))]));
    if a.is_auto_update() {
        out.push(field("Auto-update", String::from_str("enabled"), Some(Paint::Green)));
    }
    assert(line_models(out@) =~= s3 + when(flag(a.auto_update), seq![LineModel::Field("Auto-update"@, "enabled"@, Some(Paint::Green))]));
    assert(line_models(out@) =~= s0 + settings_part(*a));
}

fn push_type(out: &mut Vec<InfoLine>, a: &InstalledAddon)
    ensures
        line_models(final(out)@) == line_models(old(out)@) + type_part(*a),
{
    proof {
        reveal_strlit("Type");
        reveal_strlit("Dependency");
        reveal_strlit("Required by");
        reveal_strlit("Manually installed");
    }
    let ghost s0 = line_models(out@);
    if a.is_dependency {
        out.push(field("Type", String::from_str("Dependency"), Some(Paint::Yellow)));
        let ghost t = line_models(out@);
        if a.required_by.len() > 0 {
            out.push(InfoLine::Header(String::from_str("Required by")));
            let ghost h = line_models(out@);
            assert(h =~= t.push(LineModel::Header("Required by"@)));
            push_items(out, &a.required_by, Some(Paint::Cyan));
        }
        assert(line_models(out@) =~= s0 + (seq![LineModel::Field("Type"@, "Dependency"@, Some(Paint::Yellow))] + when(
                a.required_by@.len() > 0,
                seq![LineModel::Header("Required by"@)] + items(views(a.required_by@), Some(Paint::Cyan)),
            )));
    } else {
        out.push(field("Type", String::from_str("Manually installed"), Some(Paint::Green)));
        assert(line_models(out@) =~= s0 + seq![LineModel::Field("Type"@, "Manually installed"@, Some(Paint::Green))]);
    }
}

fn push_url(out: &mut Vec<InfoLine>, a: &InstalledAddon)
    ensures
        line_models(final(out)@) == line_models(old(out)@) + url_part(*a),
{
    proof {
        reveal_strlit("URL");
        reveal_strlit("curseforge");
        reveal_strlit("https://www.curseforge.com/wow/addons/");
        reveal_strlit("");
    }
    let ghost s0 = line_models(out@);
    if a.source == String::from_str("curseforge") {
        out.push(field("URL", crate::text::concat3("https://www.curseforge.com/wow/addons/", a.slug.as_str(), ""), Some(Paint::Blue)));
    }
    assert(line_models(out@) =~= s0 + url_part(*a));
}

/// The lines that describe an installed addon.
pub fn info_lines(a: &InstalledAddon) -> (r: Vec<InfoLine>)
    ensures
        exists|shown: Seq<char>|
            (a.released_at matches Some(d) ==> release_date_shown(d@, shown)) && line_models(r@) == info_spec(*a, shown),
{
    let mut out: Vec<InfoLine> = Vec::new();
    assert(line_models(out@) =~= Seq::<LineModel>::empty());
    push_head(&mut out, a);
    assert(line_models(out@) =~= head_part(*a));
    push_dirs(&mut out, a);
    let shown = push_released(&mut out, a);
    push_settings(&mut out, a);
    push_type(&mut out, a);
    push_url(&mut out, a);
    assert(line_models(out@) == info_spec(*a, shown@));
    out
}

pub open spec fn not_installed_text(slug: Seq<char>) -> Seq<char> {
    "Addon '"@ + slug + "' is not installed"@
}

/// The description of the installed addon `slug`, or the error that it is
/// not installed.
pub fn info(registry: &Registry, slug: &str) -> (r: Result<Vec<InfoLine>, WowctlError>)
    requires
        registry.wf(),
    ensures
        !registry@.contains_key(slug@) ==> (r matches Err(WowctlError::AddonNotFound(m)) && m@ == not_installed_text(slug@)),
        registry@.contains_key(slug@) ==> (r matches Ok(v) && exists|shown: Seq<char>|
            (registry@[slug@].released_at matches Some(d) ==> release_date_shown(d@, shown)) && line_models(v@) == info_spec(registry@[slug@], shown)),
{
    match registry.get(slug) {
        Some(a) => Ok(info_lines(a)),
        None => Err(WowctlError::AddonNotFound(crate::text::concat3("Addon '", slug, "' is not installed"))),
    }
}

} // verus!
