//! WoW `.toc` metadata: the `## Key: Value` header lines and the UI escape
//! codes that titles carry.

use vstd::prelude::*;
use crate::text::{
    chars_of, find_char, index_of_in, line_bounds, lines, lines_from,
    push_char, range_eq, range_starts_with, starts_with, string_of_range, trim, trim_bounds, views,
};

verus! {

broadcast use vstd::string::group_string_axioms;

// ---------------------------------------------------------------------------
// WoW UI escape codes
// ---------------------------------------------------------------------------

/// The first `k >= j` with `s[k] == '|'` followed by `lo` or `up`, or `s.len()`.
pub open spec fn pipe_pair_at(s: Seq<char>, j: int, lo: char, up: char) -> int
    decreases s.len() - j,
{
    if j < 0 || j >= s.len() {
        s.len() as int
    } else if s[j] == '|' && j + 1 < s.len() && (s[j + 1] == lo || s[j + 1] == up) {
        j
    } else {
        pipe_pair_at(s, j + 1, lo, up)
    }
}

/// The position right after the pair found by `pipe_pair_at`, or `s.len()`.
pub open spec fn after_pipe_pair(s: Seq<char>, j: int, lo: char, up: char) -> int {
    let k = pipe_pair_at(s, j, lo, up);
    if k < s.len() {
        k + 2
    } else {
        s.len() as int
    }
}

pub proof fn lemma_pipe_pair_bounds(s: Seq<char>, j: int, lo: char, up: char)
    requires
        0 <= j <= s.len(),
    ensures
        j <= pipe_pair_at(s, j, lo, up) <= s.len(),
        pipe_pair_at(s, j, lo, up) < s.len() ==> pipe_pair_at(s, j, lo, up) + 1 < s.len(),
    decreases s.len() - j,
{
    if j < s.len() && !(s[j] == '|' && j + 1 < s.len() && (s[j + 1] == lo || s[j + 1] == up)) {
        lemma_pipe_pair_bounds(s, j + 1, lo, up);
    }
}

/// The visible text of `s[i..]`: `|cAARRGGBB` and `|r` color codes and
/// `|T...|t` textures dropped, `|H...|h<text>|h` hyperlinks reduced to their
/// text, `|n` shown as a space, any other `|` kept, and every other
/// character kept as it is.
pub open spec fn visible_from(s: Seq<char>, i: int) -> Seq<char>
    decreases s.len() - i,
{
    if i < 0 || i >= s.len() {
        seq![]
    } else if s[i] == '|' && i + 1 < s.len() {
        let c = s[i + 1];
        if c == 'c' || c == 'C' {
            let skip = if s.len() - i < 10 {
                s.len() - i
            } else {
                10
            };
            visible_from(s, i + skip)
        } else if c == 'r' || c == 'R' {
            visible_from(s, i + 2)
        } else if c == 'T' || c == 't' {
            proof {
                lemma_pipe_pair_bounds(s, i + 2, 't', 'T');
            }
            visible_from(s, after_pipe_pair(s, i + 2, 't', 'T'))
        } else if c == 'H' {
            let j = after_pipe_pair(s, i + 2, 'h', 'H');
            proof {
                lemma_pipe_pair_bounds(s, i + 2, 'h', 'H');
                lemma_pipe_pair_bounds(s, j, 'h', 'H');
            }
            let k = pipe_pair_at(s, j, 'h', 'H');
            s.subrange(j, k) + visible_from(s, after_pipe_pair(s, j, 'h', 'H'))
        } else if c == 'n' {
            seq![' '] + visible_from(s, i + 2)
        } else {
            seq!['|'] + visible_from(s, i + 1)
        }
    } else {
        seq![s[i]] + visible_from(s, i + 1)
    }
}

/// Text without a `|` is all visible: it comes back unchanged.
pub proof fn law_plain_text_unchanged(s: Seq<char>, i: int)
    requires
        0 <= i <= s.len(),
        !s.contains('|'),
    ensures
        visible_from(s, i) == s.subrange(i, s.len() as int),
    decreases s.len() - i,
{
    if i < s.len() {
        assert(s[i] != '|');
        law_plain_text_unchanged(s, i + 1);
        assert(s.subrange(i, s.len() as int) =~= seq![s[i]] + s.subrange(i + 1, s.len() as int));
    } else {
        assert(s.subrange(i, s.len() as int) =~= Seq::<char>::empty());
    }
}

/// First `k >= j` with `|` followed by `lo`/`up`, or `s.len()`.
fn find_pipe_pair(s: &Vec<char>, j: usize, lo: char, up: char) -> (k: usize)
    requires
        j <= s@.len(),
    ensures
        k == pipe_pair_at(s@, j as int, lo, up),
{
    let mut k = j;
    while k < s.len()
        invariant
            j <= k <= s@.len(),
            pipe_pair_at(s@, k as int, lo, up) == pipe_pair_at(s@, j as int, lo, up),
        decreases s.len() - k,
    {
        if s[k] == '|' && k + 1 < s.len() && (s[k + 1] == lo || s[k + 1] == up) {
            return k;
        }
        k += 1;
    }
    k
}

/// Strips WoW UI escape codes from a string, keeping only visible text.
///
/// Handles: `|cAARRGGBB` (color start), `|r` (color reset), `|T...|t` (texture),
/// `|H...|h...|h` (hyperlink — keeps display text), `|n` (newline marker).
/// Text outside the codes is kept character for character, so a string
/// without `|` comes back unchanged (`law_plain_text_unchanged`).
pub fn strip_wow_escape_codes(input: &str) -> (r: String)
    ensures
        r@ == visible_from(input@, 0),
        !input@.contains('|') ==> r@ == input@,
{
    let v = chars_of(input);
    let len = v.len();
    let ghost s = v@;
    let mut result = String::new();
    let mut i: usize = 0;
    while i < len
        invariant
            s == v@,
            len == s.len(),
            i <= len,
            result@ + visible_from(s, i as int) == visible_from(s, 0),
        decreases len - i,
    {
        let ghost before = result@;
        if v[i] == '|' && i + 1 < len {
            let c = v[i + 1];
            if c == 'c' || c == 'C' {
                let skip = if len - i < 10 { len - i } else { 10 };
                i += skip;
            } else if c == 'r' || c == 'R' {
                i += 2;
            } else if c == 'T' || c == 't' {
                let k = find_pipe_pair(&v, i + 2, 't', 'T');
                proof {
                    lemma_pipe_pair_bounds(s, i + 2, 't', 'T');
                }
                i = if k < len { k + 2 } else { len };
            } else if c == 'H' {
                let k0 = find_pipe_pair(&v, i + 2, 'h', 'H');
                proof {
                    lemma_pipe_pair_bounds(s, i + 2, 'h', 'H');
                }
                let j = if k0 < len { k0 + 2 } else { len };
                let k = find_pipe_pair(&v, j, 'h', 'H');
                proof {
                    lemma_pipe_pair_bounds(s, j as int, 'h', 'H');
                }
                let mut m = j;
                while m < k
                    invariant
                        s == v@,
                        len == s.len(),
                        i + 1 < len,
                        s[i as int] == '|',
                        s[i + 1] == 'H',
                        j == after_pipe_pair(s, i + 2, 'h', 'H'),
                        k == pipe_pair_at(s, j as int, 'h', 'H'),
                        before + visible_from(s, i as int) == visible_from(s, 0),
                        j <= m <= k <= len,
                        result@ == before + s.subrange(j as int, m as int),
                    decreases k - m,
                {
                    push_char(&mut result, v[m]);
                    assert(s.subrange(j as int, m + 1) == s.subrange(j as int, m as int).push(s[m as int]));
                    m += 1;
                }
                i = if k < len { k + 2 } else { len };
            } else if c == 'n' {
                push_char(&mut result, ' ');
                i += 2;
            } else {
                push_char(&mut result, '|');
                i += 1;
            }
        } else {
            push_char(&mut result, v[i]);
            i += 1;
        }
    }
    assert(visible_from(s, len as int) == Seq::<char>::empty());
    proof {
        if !input@.contains('|') {
            law_plain_text_unchanged(input@, 0);
            assert(input@.subrange(0, input@.len() as int) =~= input@);
        }
    }
    result
}

// ---------------------------------------------------------------------------
// TOC metadata
// ---------------------------------------------------------------------------

/// Metadata extracted from a WoW addon `.toc` file.
#[derive(Debug, Clone)]
pub struct TocMetadata {
    pub curse_project_id: Option<String>,
    pub title: Option<String>,
    pub version: Option<String>,
    /// WoW client interface versions this addon supports (from `## Interface:`).
    pub interface_versions: Vec<String>,
    /// Required addon dependencies (from `## Dependencies:` and `## RequiredDeps:`).
    pub dependencies: Vec<String>,
    /// WoWInterface addon ID (from `## X-WoWI-ID:`).
    pub wowi_id: Option<String>,
    /// Wago addon ID (from `## X-Wago-ID:`).
    pub wago_id: Option<String>,
    /// Tukui project ID (from `## X-Tukui-ProjectID:`).
    pub tukui_id: Option<String>,
}

/// The mathematical content of a `TocMetadata`.
pub struct TocModel {
    pub curse_project_id: Option<Seq<char>>,
    pub title: Option<Seq<char>>,
    pub version: Option<Seq<char>>,
    pub interface_versions: Seq<Seq<char>>,
    pub dependencies: Seq<Seq<char>>,
    pub wowi_id: Option<Seq<char>>,
    pub wago_id: Option<Seq<char>>,
    pub tukui_id: Option<Seq<char>>,
}

pub open spec fn ov(o: Option<String>) -> Option<Seq<char>> {
    match o {
        Some(s) => Some(s@),
        None => None,
    }
}

impl TocMetadata {
    pub open spec fn model(&self) -> TocModel {
        TocModel {
            curse_project_id: ov(self.curse_project_id),
            title: ov(self.title),
            version: ov(self.version),
            interface_versions: views(self.interface_versions@),
            dependencies: views(self.dependencies@),
            wowi_id: ov(self.wowi_id),
            wago_id: ov(self.wago_id),
            tukui_id: ov(self.tukui_id),
        }
    }

    /// Empty metadata.
    pub fn new() -> (m: TocMetadata)
        ensures
            m.model() == empty_model(),
    {
        let m = TocMetadata {
            curse_project_id: None,
            title: None,
            version: None,
            interface_versions: Vec::new(),
            dependencies: Vec::new(),
            wowi_id: None,
            wago_id: None,
            tukui_id: None,
        };
        assert(views(m.interface_versions@) =~= Seq::<Seq<char>>::empty());
        assert(views(m.dependencies@) =~= Seq::<Seq<char>>::empty());
        m
    }
}

impl Default for TocMetadata {
    fn default() -> (m: TocMetadata)
        ensures
            m.model() == empty_model(),
    {
        TocMetadata::new()
    }
}

pub open spec fn empty_model() -> TocModel {
    TocModel {
        curse_project_id: None,
        title: None,
        version: None,
        interface_versions: seq![],
        dependencies: seq![],
        wowi_id: None,
        wago_id: None,
        tukui_id: None,
    }
}

/// The trimmed, non-empty pieces of `ps[k..]`, in order.
pub open spec fn nonempty_trimmed(ps: Seq<Seq<char>>, k: int) -> Seq<Seq<char>>
    decreases ps.len() - k,
{
    if k < 0 || k >= ps.len() {
        seq![]
    } else if trim(ps[k]).len() > 0 {
        seq![trim(ps[k])] + nonempty_trimmed(ps, k + 1)
    } else {
        nonempty_trimmed(ps, k + 1)
    }
}

/// `acc` extended by the pieces of `ps[k..]` it does not hold yet, in order.
pub open spec fn add_unique(acc: Seq<Seq<char>>, ps: Seq<Seq<char>>, k: int) -> Seq<Seq<char>>
    decreases ps.len() - k,
{
    if k < 0 || k >= ps.len() {
        acc
    } else if acc.contains(ps[k]) {
        add_unique(acc, ps, k + 1)
    } else {
        add_unique(acc.push(ps[k]), ps, k + 1)
    }
}

/// The value of a `##` header line: `Some((key, value))` when the trimmed line
/// starts with `##` and has a `:` after it; key and value are trimmed.
pub open spec fn header_of(line: Seq<char>) -> Option<(Seq<char>, Seq<char>)> {
    let t = trim(line);
    if starts_with(t, "##"@) {
        let rest = trim(t.subrange(2, t.len() as int));
        let c = index_of_in(rest, ':', 0, rest.len() as int);
        if c < rest.len() {
            Some((trim(rest.subrange(0, c)), trim(rest.subrange(c + 1, rest.len() as int))))
        } else {
            None
        }
    } else {
        None
    }
}

/// `Some(v)` when `v` is not empty.
pub open spec fn nonempty(v: Seq<char>) -> Option<Seq<char>> {
    if v.len() > 0 {
        Some(v)
    } else {
        None
    }
}

/// The metadata after one more TOC line.
pub open spec fn apply_toc_line(m: TocModel, line: Seq<char>) -> TocModel {
    match header_of(line) {
        None => m,
        Some((key, value)) => {
            if key == "X-Curse-Project-ID"@ {
                TocModel { curse_project_id: Some(value), ..m }
            } else if key == "Title"@ {
                let clean = trim(visible_from(value, 0));
                TocModel { title: nonempty(clean), ..m }
            } else if key == "Version"@ {
                TocModel { version: Some(value), ..m }
            } else if key == "Interface"@ {
                TocModel {
                    interface_versions: nonempty_trimmed(crate::text::split(value, ','), 0),
                    ..m
                }
            } else if key == "Dependencies"@ || key == "RequiredDeps"@ {
                TocModel {
                    dependencies: add_unique(
                        m.dependencies,
                        nonempty_trimmed(crate::text::split(value, ','), 0),
                        0,
                    ),
                    ..m
                }
            } else if key == "X-WoWI-ID"@ {
                if value.len() > 0 {
                    TocModel { wowi_id: Some(value), ..m }
                } else {
                    m
                }
            } else if key == "X-Wago-ID"@ {
                if value.len() > 0 {
                    TocModel { wago_id: Some(value), ..m }
                } else {
                    m
                }
            } else if key == "X-Tukui-ProjectID"@ {
                if value.len() > 0 {
                    TocModel { tukui_id: Some(value), ..m }
                } else {
                    m
                }
            } else {
                m
            }
        },
    }
}

/// The metadata after lines `ls[k..]`, starting from `m`.
pub open spec fn toc_from(ls: Seq<Seq<char>>, k: int, m: TocModel) -> TocModel
    decreases ls.len() - k,
{
    if k < 0 || k >= ls.len() {
        m
    } else {
        toc_from(ls, k + 1, apply_toc_line(m, ls[k]))
    }
}

/// The metadata a TOC file's text declares: its lines applied in order to
/// empty metadata.
pub open spec fn toc_spec(contents: Seq<char>) -> TocModel {
    toc_from(lines(contents), 0, empty_model())
}


proof fn lemma_nonempty_trimmed_shift(a: Seq<Seq<char>>, r: Seq<Seq<char>>, k: int)
    requires
        0 <= k,
    ensures
        nonempty_trimmed(a + r, a.len() + k) == nonempty_trimmed(r, k),
    decreases r.len() - k,
{
    if k < r.len() {
        assert((a + r)[a.len() + k] == r[k]);
        lemma_nonempty_trimmed_shift(a, r, k + 1);
    }
}

proof fn lemma_toc_from_shift(a: Seq<Seq<char>>, r: Seq<Seq<char>>, k: int, m: TocModel)
    requires
        0 <= k,
    ensures
        toc_from(a + r, a.len() + k, m) == toc_from(r, k, m),
    decreases r.len() - k,
{
    if k < r.len() {
        assert((a + r)[a.len() + k] == r[k]);
        lemma_toc_from_shift(a, r, k + 1, apply_toc_line(m, r[k]));
    }
}

/// The trimmed, non-empty comma-separated items of `val`.
fn comma_items(val: &Vec<char>) -> (out: Vec<String>)
    ensures
        views(out@) == nonempty_trimmed(crate::text::split(val@, ','), 0),
{
    let mut out: Vec<String> = Vec::new();
    let ghost total = nonempty_trimmed(crate::text::split(val@, ','), 0);
    let mut pos: usize = 0;
    loop
        invariant
            pos <= val.len(),
            total == nonempty_trimmed(crate::text::split(val@, ','), 0),
            views(out@) + nonempty_trimmed(crate::text::split_from(val@, ',', pos as int), 0) == total,
        decreases val.len() - pos,
    {
        let j = find_char(val, ',', pos, val.len());
        proof {
            crate::text::lemma_split_from_unfold(val@, ',', pos as int);
        }
        let ghost piece = val@.subrange(pos as int, j as int);
        let ghost rest = if j < val.len() {
            crate::text::split_from(val@, ',', j + 1)
        } else {
            Seq::<Seq<char>>::empty()
        };
        proof {
            if j == val.len() {
                assert(seq![piece] + rest =~= seq![piece]);
            }
            lemma_nonempty_trimmed_shift(seq![piece], rest, 0);
        }
        let (a, b) = trim_bounds(val, pos, j);
        let ghost old_out = out@;
        if a < b {
            let item = string_of_range(val, a, b);
            out.push(item);
            proof {
                assert(views(out@) == views(old_out).push(item@));
                assert(views(out@) + nonempty_trimmed(rest, 0) == views(old_out) + (seq![item@] + nonempty_trimmed(rest, 0)));
            }
        }
        if j >= val.len() {
            proof {
                assert(nonempty_trimmed(rest, 0) =~= Seq::<Seq<char>>::empty());
                assert(views(out@) + Seq::<Seq<char>>::empty() == views(out@));
            }
            return out;
        }
        pos = j + 1;
    }
}

/// `deps` extended by the items it does not hold yet, in order.
fn add_unique_items(deps: &mut Vec<String>, items: &Vec<String>)
    ensures
        views(final(deps)@) == add_unique(views(old(deps)@), views(items@), 0),
{
    let mut k: usize = 0;
    while k < items.len()
        invariant
            0 <= k <= items.len(),
            add_unique(views(deps@), views(items@), k as int) == add_unique(views(old(deps)@), views(items@), 0),
        decreases items.len() - k,
    {
        let mut found = false;
        let mut q: usize = 0;
        while q < deps.len()
            invariant
                0 <= q <= deps.len(),
                k < items.len(),
                found == (exists|x: int| 0 <= x < q && deps@[x]@ == items@[k as int]@),
            decreases deps.len() - q,
        {
            if deps[q] == items[k] {
                found = true;
            }
            q += 1;
        }
        proof {
            if found {
                let x = choose|x: int| 0 <= x < q && deps@[x]@ == items@[k as int]@;
                assert(views(deps@)[x] == views(items@)[k as int]);
            } else {
                assert forall|x: int| 0 <= x < views(deps@).len() implies views(deps@)[x] != views(items@)[k as int] by {
                    assert(deps@[x]@ != items@[k as int]@);
                }
            }
        }
        if !found {
            let ghost old_deps = deps@;
            deps.push(items[k].clone());
            assert(views(deps@) == views(old_deps).push(views(items@)[k as int]));
        }
        k += 1;
    }
}

/// An optional string holding `v[lo..hi]` when that range is not empty.
fn nonempty_range(v: &Vec<char>, lo: usize, hi: usize) -> (r: Option<String>)
    requires
        lo <= hi <= v.len(),
    ensures
        ov(r) == nonempty(v@.subrange(lo as int, hi as int)),
{
    if lo < hi {
        Some(string_of_range(v, lo, hi))
    } else {
        None
    }
}

/// Applies one TOC line `v[lo..hi]` to `meta`.
fn apply_line(meta: &mut TocMetadata, v: &Vec<char>, lo: usize, hi: usize)
    requires
        lo <= hi <= v.len(),
    ensures
        final(meta).model() == apply_toc_line(old(meta).model(), v@.subrange(lo as int, hi as int)),
{
    let ghost line = v@.subrange(lo as int, hi as int);
    let (a, b) = trim_bounds(v, lo, hi);
    let hh = chars_of("##");
    proof {
        reveal_strlit("##");
    }
    if !range_starts_with(v, a, b, &hh) {
        return;
    }
    let (c1, d1) = trim_bounds(v, a + 2, b);
    assert(v@.subrange(a as int, b as int).subrange(2, b - a) == v@.subrange(a + 2, b as int));
    let c = find_char(v, ':', c1, d1);
    proof {
        crate::text::lemma_index_of_in_sub(v@, ':', c1 as int, c1 as int, d1 as int);
    }
    if c >= d1 {
        return;
    }
    let (ka, kb) = trim_bounds(v, c1, c);
    let (va, vb) = trim_bounds(v, c + 1, d1);
    assert(v@.subrange(c1 as int, d1 as int).subrange(0, c - c1) == v@.subrange(c1 as int, c as int));
    assert(v@.subrange(c1 as int, d1 as int).subrange(c - c1 + 1, d1 - c1) == v@.subrange(c + 1, d1 as int));
    let ghost key = v@.subrange(ka as int, kb as int);
    let ghost value = v@.subrange(va as int, vb as int);
    assert(header_of(line) == Some((key, value)));
    let k_curse = chars_of("X-Curse-Project-ID");
    let k_title = chars_of("Title");
    let k_version = chars_of("Version");
    let k_interface = chars_of("Interface");
    let k_deps = chars_of("Dependencies");
    let k_req = chars_of("RequiredDeps");
    let k_wowi = chars_of("X-WoWI-ID");
    let k_wago = chars_of("X-Wago-ID");
    let k_tukui = chars_of("X-Tukui-ProjectID");
    if range_eq(v, ka, kb, &k_curse) {
        meta.curse_project_id = Some(string_of_range(v, va, vb));
    } else if range_eq(v, ka, kb, &k_title) {
        let value_str = string_of_range(v, va, vb);
        let stripped = strip_wow_escape_codes(value_str.as_str());
        let sv = chars_of(stripped.as_str());
        let (ta, tb) = trim_bounds(&sv, 0, sv.len());
        assert(sv@.subrange(0, sv@.len() as int) == sv@);
        meta.title = nonempty_range(&sv, ta, tb);
    } else if range_eq(v, ka, kb, &k_version) {
        meta.version = Some(string_of_range(v, va, vb));
    } else if range_eq(v, ka, kb, &k_interface) {
        let val = crate::text::sub_vec(v, va, vb);
        meta.interface_versions = comma_items(&val);
    } else if range_eq(v, ka, kb, &k_deps) || range_eq(v, ka, kb, &k_req) {
        let val = crate::text::sub_vec(v, va, vb);
        let items = comma_items(&val);
        add_unique_items(&mut meta.dependencies, &items);
    } else if range_eq(v, ka, kb, &k_wowi) {
        if va < vb {
            meta.wowi_id = Some(string_of_range(v, va, vb));
        }
    } else if range_eq(v, ka, kb, &k_wago) {
        if va < vb {
            meta.wago_id = Some(string_of_range(v, va, vb));
        }
    } else if range_eq(v, ka, kb, &k_tukui) {
        if va < vb {
            meta.tukui_id = Some(string_of_range(v, va, vb));
        }
    }
}

/// Parses a TOC file's contents into metadata: every `## Key: Value` line
/// whose key is known sets its field, in file order.
pub fn parse_toc_contents(contents: &str) -> (meta: TocMetadata)
    ensures
        meta.model() == toc_spec(contents@),
{
    let v = chars_of(contents);
    let mut meta = TocMetadata::new();
    let ghost total = toc_spec(v@);
    let mut start: usize = 0;
    while start < v.len()
        invariant
            v@ == contents@,
            start <= v.len(),
            total == toc_spec(v@),
            toc_from(lines_from(v@, start as int), 0, meta.model()) == total,
        decreases v.len() - start,
    {
        let (line_end, next) = line_bounds(&v, start);
        let ghost line = v@.subrange(start as int, line_end as int);
        let ghost rest = lines_from(v@, next as int);
        let ghost before = meta.model();
        proof {
            lemma_toc_from_shift(seq![line], rest, 0, apply_toc_line(before, line));
        }
        apply_line(&mut meta, &v, start, line_end);
        start = next;
    }
    meta
}

} // verus!
