use wowctl::addon::InstalledAddon;
use wowctl::commands::stale::{find_stale_addons, format_age, months_between, parse_date_prefix, today};
use wowctl::registry::Registry;

fn make_addon(slug: &str, released_at: Option<&str>) -> InstalledAddon {
    InstalledAddon {
        name: slug.to_string(),
        slug: slug.to_string(),
        version: "1.0.0".to_string(),
        source: "curseforge".to_string(),
        addon_id: "1".to_string(),
        directories: vec![],
        is_dependency: false,
        required_by: vec![],
        installed_file_id: None,
        display_name: None,
        channel: None,
        ignored: None,
        game_versions: None,
        released_at: released_at.map(|s| s.to_string()),
        auto_update: None,
        external_release_id: None,
    }
}

fn now() -> (i32, u32, u32) {
    today().expect("the clock reads after 1970")
}

fn date_months_ago(months: u32) -> String {
    let (y, m, d) = now();
    let total_months = y * 12 + m as i32 - months as i32;
    let new_y = (total_months - 1) / 12;
    let new_m = ((total_months - 1) % 12 + 1) as u32;
    let new_d = d.min(28); // Safe day to avoid month overflow
    format!("{new_y:04}-{new_m:02}-{new_d:02}T00:00:00Z")
}

#[test]
fn parse_released_date_iso8601() {
    let result = parse_date_prefix("2025-02-15T10:30:00Z");
    assert_eq!(result, Some((2025, 2, 15)));
}

#[test]
fn parse_released_date_date_only() {
    let result = parse_date_prefix("2025-02-15");
    assert_eq!(result, Some((2025, 2, 15)));
}

#[test]
fn parse_released_date_invalid_returns_none() {
    assert_eq!(parse_date_prefix("not-a-date"), None);
}

#[test]
fn parse_released_date_empty_returns_none() {
    assert_eq!(parse_date_prefix(""), None);
}

#[test]
fn age_months_calculation() {
    let age = months_between((2025, 1, 15), (2025, 5, 20));
    assert_eq!(age, 4);
}

#[test]
fn age_months_boundary() {
    // Same day of month — should count as exactly N months
    let age = months_between((2025, 1, 15), (2025, 4, 15));
    assert_eq!(age, 3);
}

#[test]
fn age_months_day_before_reduces_count() {
    // Day is earlier in the month → one fewer month
    let age = months_between((2025, 1, 20), (2025, 4, 15));
    assert_eq!(age, 2);
}

#[test]
fn filters_out_ignored_addons() {
    let mut registry = Registry::default();
    let mut addon = make_addon("old-addon", Some("2020-01-01T00:00:00Z"));
    addon.ignored = Some(true);
    registry.add(addon);

    let (stale, unknown) = find_stale_addons(&registry, 3, now());
    assert!(stale.is_empty());
    assert!(unknown.is_empty());
}

#[test]
fn includes_non_ignored_stale_addon() {
    let mut registry = Registry::default();
    registry.add(make_addon("old-addon", Some("2020-01-01T00:00:00Z")));

    let (stale, _) = find_stale_addons(&registry, 3, now());
    assert_eq!(stale.len(), 1);
    assert_eq!(stale[0].0.slug, "old-addon");
}

#[test]
fn excludes_addon_within_threshold() {
    let mut registry = Registry::default();
    let recent = date_months_ago(1);
    registry.add(make_addon("fresh-addon", Some(&recent)));

    let (stale, _) = find_stale_addons(&registry, 3, now());
    assert!(stale.is_empty());
}

#[test]
fn includes_addon_beyond_threshold() {
    let mut registry = Registry::default();
    let old = date_months_ago(6);
    registry.add(make_addon("stale-addon", Some(&old)));

    let (stale, _) = find_stale_addons(&registry, 3, now());
    assert_eq!(stale.len(), 1);
    assert_eq!(stale[0].0.slug, "stale-addon");
}

#[test]
fn missing_released_at_separated() {
    let mut registry = Registry::default();
    registry.add(make_addon("no-date-addon", None));

    let (stale, unknown) = find_stale_addons(&registry, 3, now());
    assert!(stale.is_empty());
    assert_eq!(unknown.len(), 1);
    assert_eq!(unknown[0].slug, "no-date-addon");
}

#[test]
fn dependency_of_fresh_addon_excluded() {
    let mut registry = Registry::default();

    // Fresh parent
    let recent = date_months_ago(1);
    registry.add(make_addon("parent-addon", Some(&recent)));

    // Old dependency required by the fresh parent
    let mut dep = make_addon("old-lib", Some("2020-01-01T00:00:00Z"));
    dep.is_dependency = true;
    dep.required_by = vec!["parent-addon".to_string()];
    registry.add(dep);

    let (stale, _) = find_stale_addons(&registry, 3, now());
    // The old dependency should NOT appear because its parent is fresh
    assert!(
        stale.iter().all(|(a, _)| a.slug != "old-lib"),
        "dependency of fresh addon should be excluded"
    );
}

#[test]
fn orphaned_stale_dependency_included() {
    let mut registry = Registry::default();
    let mut dep = make_addon("orphan-lib", Some("2020-01-01T00:00:00Z"));
    dep.is_dependency = true;
    dep.required_by = vec![];
    registry.add(dep);

    let (stale, _) = find_stale_addons(&registry, 3, now());
    assert_eq!(stale.len(), 1);
    assert_eq!(stale[0].0.slug, "orphan-lib");
}

#[test]
fn stale_addons_sorted_oldest_first() {
    let mut registry = Registry::default();
    registry.add(make_addon("four-mo", Some(&date_months_ago(4))));
    registry.add(make_addon("twelve-mo", Some(&date_months_ago(12))));
    registry.add(make_addon("eight-mo", Some(&date_months_ago(8))));

    let (stale, _) = find_stale_addons(&registry, 3, now());
    let slugs: Vec<&str> = stale.iter().map(|(a, _)| a.slug.as_str()).collect();
    assert_eq!(slugs, vec!["twelve-mo", "eight-mo", "four-mo"]);
}

#[test]
fn stale_addons_same_date_stable_sort() {
    let mut registry = Registry::default();
    let date = date_months_ago(6);
    registry.add(make_addon("bbb-addon", Some(&date)));
    registry.add(make_addon("aaa-addon", Some(&date)));

    let (stale, _) = find_stale_addons(&registry, 3, now());
    let slugs: Vec<&str> = stale.iter().map(|(a, _)| a.slug.as_str()).collect();
    // Same age → alphabetical by slug
    assert_eq!(slugs, vec!["aaa-addon", "bbb-addon"]);
}

#[test]
fn format_age_singular() {
    assert_eq!(format_age(1), "1 month");
}

#[test]
fn format_age_plural_months() {
    assert_eq!(format_age(5), "5 months");
}

#[test]
fn format_age_years() {
    assert_eq!(format_age(24), "2 years");
}

#[test]
fn format_age_years_and_months() {
    assert_eq!(format_age(26), "2 years, 2 months");
}

#[test]
fn format_age_less_than_one() {
    assert_eq!(format_age(0), "< 1 month");
}


#[test]
fn dependency_of_removed_addon_included() {
    let mut registry = Registry::default();
    let recent = date_months_ago(1);
    registry.add(make_addon("fresh-addon", Some(&recent)));

    // Required by an addon that is no longer installed, and by a stale one.
    let mut dep = make_addon("old-lib", Some("2020-01-01T00:00:00Z"));
    dep.is_dependency = true;
    dep.required_by = vec!["removed-addon".to_string(), "stale-parent".to_string()];
    registry.add(dep);
    registry.add(make_addon("stale-parent", Some("2020-06-01T00:00:00Z")));

    let (stale, _) = find_stale_addons(&registry, 3, now());
    let slugs: Vec<&str> = stale.iter().map(|(a, _)| a.slug.as_str()).collect();
    assert_eq!(slugs, vec!["old-lib", "stale-parent"]);

    // A fresh requirer still holds it back.
    let mut held = make_addon("held-lib", Some("2020-01-01T00:00:00Z"));
    held.is_dependency = true;
    held.required_by = vec!["removed-addon".to_string(), "fresh-addon".to_string()];
    registry.add(held);
    let (stale, _) = find_stale_addons(&registry, 3, now());
    assert!(stale.iter().all(|(a, _)| a.slug != "held-lib"));
}
