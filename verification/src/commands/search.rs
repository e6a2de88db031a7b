//! The decisions of `wowctl search`: which sources are asked and how
//! their results are labelled and paged.

use vstd::prelude::*;
use crate::sources::SourceKind;

verus! {

/// How a source is named in search output.
pub open spec fn source_title(kind: SourceKind) -> Seq<char> {
    match kind {
        SourceKind::CurseForge => "CurseForge"@,
        SourceKind::Wago => "Wago"@,
    }
}

pub fn source_label(kind: SourceKind) -> (r: &'static str)
    ensures
        r@ == source_title(kind),
{
    match kind {
        SourceKind::CurseForge => "CurseForge",
        SourceKind::Wago => "Wago",
    }
}

/// The sources a search without `--source` asks: CurseForge, and Wago
/// where an access key is configured.
pub fn search_sources(has_wago_key: bool) -> (r: Vec<SourceKind>)
    ensures
        r@ == if has_wago_key {
            seq![SourceKind::CurseForge, SourceKind::Wago]
        } else {
            seq![SourceKind::CurseForge]
        },
{
    let mut kinds: Vec<SourceKind> = Vec::new();
    kinds.push(SourceKind::CurseForge);
    if has_wago_key {
        kinds.push(SourceKind::Wago);
    }
    kinds
}

/// The page to suggest next: the following one, while there is one.
pub fn next_page(page: u32, total_pages: u32) -> (r: Option<u32>)
    ensures
        total_pages > 1 && page < total_pages ==> r == Some((page + 1) as u32),
        !(total_pages > 1 && page < total_pages) ==> r is None,
{
    if total_pages > 1 && page < total_pages {
        Some(page + 1)
    } else {
        None
    }
}

} // verus!
