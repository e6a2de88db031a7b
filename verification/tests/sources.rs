use wowctl::sources::{parse_addon_spec, SourceKind};

#[test]
fn bare_slug_defaults_to_curseforge() {
    assert_eq!(
        parse_addon_spec("weakauras-2").unwrap(),
        (SourceKind::CurseForge, "weakauras-2".to_string())
    );
}

#[test]
fn wago_prefix_selects_wago() {
    assert_eq!(
        parse_addon_spec("wago:classcodex").unwrap(),
        (SourceKind::Wago, "classcodex".to_string())
    );
}

#[test]
fn curseforge_prefix_selects_curseforge() {
    assert_eq!(
        parse_addon_spec("curseforge:weakauras-2").unwrap(),
        (SourceKind::CurseForge, "weakauras-2".to_string())
    );
}

#[test]
fn prefix_is_case_insensitive() {
    assert_eq!(
        parse_addon_spec("WAGO:classcodex").unwrap(),
        (SourceKind::Wago, "classcodex".to_string())
    );
}

#[test]
fn wago_url_selects_wago() {
    assert_eq!(
        parse_addon_spec("https://addons.wago.io/addons/classcodex").unwrap(),
        (SourceKind::Wago, "classcodex".to_string())
    );
}

#[test]
fn wago_url_with_trailing_slash() {
    assert_eq!(
        parse_addon_spec("https://addons.wago.io/addons/classcodex/").unwrap(),
        (SourceKind::Wago, "classcodex".to_string())
    );
}

#[test]
fn wago_url_with_query_string() {
    assert_eq!(
        parse_addon_spec("https://addons.wago.io/addons/classcodex?utm_source=x").unwrap(),
        (SourceKind::Wago, "classcodex".to_string())
    );
}

#[test]
fn curseforge_url_selects_curseforge() {
    assert_eq!(
        parse_addon_spec("https://www.curseforge.com/wow/addons/weakauras-2").unwrap(),
        (SourceKind::CurseForge, "weakauras-2".to_string())
    );
}

#[test]
fn curseforge_url_without_www() {
    assert_eq!(
        parse_addon_spec("https://curseforge.com/wow/addons/details").unwrap(),
        (SourceKind::CurseForge, "details".to_string())
    );
}

#[test]
fn unknown_prefix_errors() {
    let err = parse_addon_spec("wowinterface:foo").unwrap_err();
    assert!(err.message().contains("unknown source"));
}

#[test]
fn unknown_url_errors() {
    assert!(parse_addon_spec("https://example.com/addons/foo").is_err());
}

#[test]
fn empty_slug_after_prefix_errors() {
    assert!(parse_addon_spec("wago:").is_err());
}

#[test]
fn bare_wago_addons_url_root_errors() {
    assert!(parse_addon_spec("https://addons.wago.io/addons/").is_err());
}

#[test]
fn empty_input_errors() {
    assert!(parse_addon_spec("").is_err());
    assert!(parse_addon_spec("   ").is_err());
}

#[test]
fn source_kind_string_roundtrip() {
    assert_eq!(SourceKind::CurseForge.as_str(), "curseforge");
    assert_eq!(SourceKind::Wago.as_str(), "wago");
    assert_eq!(
        "curseforge".parse::<SourceKind>().unwrap(),
        SourceKind::CurseForge
    );
    assert_eq!("wago".parse::<SourceKind>().unwrap(), SourceKind::Wago);
    assert_eq!("WAGO".parse::<SourceKind>().unwrap(), SourceKind::Wago);
    assert!("wowinterface".parse::<SourceKind>().is_err());
    assert_eq!(SourceKind::Wago.as_str(), "wago");
    assert_eq!(SourceKind::CurseForge.as_str(), "curseforge");
}

