//! Deciding whether a newer release of the app should be offered, from the release's tag, notes
//! and assets.
use vstd::prelude::*;

use crate::text::{
    all_digits, ascii_lower, chars_of, decimal, digits_to_u32, ends_with, eq_str, in_class,
    lower_char, parse_u32_digits, push_decimal, run_end, skip_class, split_chars, split_on,
    starts_with, take_class, to_lower, trim_bounds, trim_ws, views, CharClass,
};

verus! {

/// A `major.minor.patch` version.
#[derive(Debug, Clone, Copy, PartialEq, Eq, PartialOrd, Ord, Structural)]
pub struct Version(pub u32, pub u32, pub u32);

/// What the app should show about an available update.
#[derive(Debug, Clone, Copy, PartialEq, Eq, Structural)]
pub enum UpdateStatus {
    NoUpdate,
    Banner,
    Blocking,
}

/// A downloadable file attached to a release.
#[derive(Debug, Clone)]
pub struct Asset {
    pub name: String,
    pub browser_download_url: String,
}

/// A published release: its tag, notes, page and attached files.
#[derive(Debug, Clone)]
pub struct Release {
    pub tag_name: String,
    pub body: Option<String>,
    pub html_url: String,
    pub assets: Vec<Asset>,
}

/// The outcome of an update check.
#[derive(Debug, Clone, PartialEq)]
pub struct UpdateCheckResult {
    pub status: UpdateStatus,
    pub latest_version: String,
    pub installer_url: String,
}

/// Every URL the update check hands out lies under this prefix.
pub const ALLOWED_URL_PREFIX: &'static str = "https://github.com/vinaynasha/VsnapU_Downloader/";

/// The release-notes marker that introduces a minimum supported version.
pub const MIN_VERSION_MARKER: &'static str = "min-version:";

// ---------------------------------------------------------------------------------------------
// Versions
// ---------------------------------------------------------------------------------------------

/// Numeric, component-by-component order of versions.
pub open spec fn version_lt(a: Version, b: Version) -> bool {
    ||| a.0 < b.0
    ||| (a.0 == b.0 && a.1 < b.1)
    ||| (a.0 == b.0 && a.1 == b.1 && a.2 < b.2)
}

pub open spec fn version_le(a: Version, b: Version) -> bool {
    version_lt(a, b) || a == b
}

/// The leading digits-and-dots run of a version string, after trimming whitespace and any
/// `v`/`V` prefix.
pub open spec fn version_digits(raw: Seq<char>) -> Seq<char> {
    take_class(
        skip_class(trim_ws(raw), CharClass::VersionPrefix),
        CharClass::DigitOrDot,
    )
}

/// A version string read as exactly three dot-separated numbers, each fitting a `u32`.
pub open spec fn spec_parse_version(raw: Seq<char>) -> Option<Version> {
    let parts = split_on(version_digits(raw), '.');
    if parts.len() != 3 {
        None
    } else {
        match (digits_to_u32(parts[0]), digits_to_u32(parts[1]), digits_to_u32(parts[2])) {
            (Some(a), Some(b), Some(c)) => Some(Version(a, b, c)),
            _ => None,
        }
    }
}

/// `major.minor.patch` in decimal.
pub open spec fn version_text(v: Version) -> Seq<char> {
    decimal(v.0 as nat) + seq!['.'] + decimal(v.1 as nat) + seq!['.'] + decimal(v.2 as nat)
}

impl Version {
    /// Whether `self` comes strictly before `other` in numeric order.
    pub fn is_older_than(&self, other: &Version) -> (r: bool)
        ensures
            r == version_lt(*self, *other),
    {
        self.0 < other.0 || (self.0 == other.0 && self.1 < other.1) || (self.0 == other.0
            && self.1 == other.1 && self.2 < other.2)
    }
}

/// The version in `v[from..to]`.
fn parse_version_chars(v: &Vec<char>, from: usize, to: usize) -> (r: Option<Version>)
    requires
        from <= to <= v@.len(),
    ensures
        r == spec_parse_version(v@.subrange(from as int, to as int)),
{
    let ghost raw = v@.subrange(from as int, to as int);
    let (a, b) = trim_bounds(v, from, to);
    let p = run_end(v, a, b, CharClass::VersionPrefix);
    let q = run_end(v, p, b, CharClass::DigitOrDot);
    assert(version_digits(raw) == v@.subrange(p as int, q as int));
    let parts = split_chars(v, p, q, '.');
    if parts.len() != 3 {
        return None;
    }
    proof {
        assert(views(parts@)[0] == parts@[0]@);
        assert(views(parts@)[1] == parts@[1]@);
        assert(views(parts@)[2] == parts@[2]@);
        assert(parts@[0]@.subrange(0, parts@[0]@.len() as int) =~= parts@[0]@);
        assert(parts@[1]@.subrange(0, parts@[1]@.len() as int) =~= parts@[1]@);
        assert(parts@[2]@.subrange(0, parts@[2]@.len() as int) =~= parts@[2]@);
    }
    let major = parse_u32_digits(&parts[0], 0, parts[0].len());
    let minor = parse_u32_digits(&parts[1], 0, parts[1].len());
    let patch = parse_u32_digits(&parts[2], 0, parts[2].len());
    match (major, minor, patch) {
        (Some(x), Some(y), Some(z)) => Some(Version(x, y, z)),
        _ => None,
    }
}

/// Reads a version tag such as `0.1.6`, `v1.2.3` or `0.1.6-beta.2`: surrounding whitespace and a
/// leading `v`/`V` are ignored, and anything after the leading digits-and-dots run is dropped.
pub fn parse_version(raw: &str) -> (r: Option<Version>)
    ensures
        r == spec_parse_version(raw@),
{
    let v = chars_of(raw);
    assert(v@.subrange(0, v@.len() as int) =~= raw@);
    parse_version_chars(&v, 0, v.len())
}

fn version_string(v: Version) -> (s: String)
    ensures
        s@ == version_text(v),
{
    let mut s = String::new();
    push_decimal(&mut s, v.0 as u64);
    s.push('.');
    push_decimal(&mut s, v.1 as u64);
    s.push('.');
    push_decimal(&mut s, v.2 as u64);
    assert(s@ =~= version_text(v));
    s
}

// ---------------------------------------------------------------------------------------------
// The minimum-version marker in release notes
// ---------------------------------------------------------------------------------------------

/// A line without a trailing carriage return.
pub open spec fn strip_cr(line: Seq<char>) -> Seq<char> {
    if line.len() > 0 && line.last() == '\r' {
        line.drop_last()
    } else {
        line
    }
}

/// `str::lines`: the pieces between `\n`s, a `\r` before a `\n` dropped, and no empty piece
/// after a final `\n`.
pub open spec fn body_lines(body: Seq<char>) -> Seq<Seq<char>> {
    let parts = split_on(body, '\n');
    let n = if parts.last().len() == 0 {
        parts.len() - 1
    } else {
        parts.len() as int
    };
    Seq::new(n as nat, |i: int| if i + 1 < parts.len() { strip_cr(parts[i]) } else { parts[i] })
}

/// After the marker: the rest of a line whose lowercased text, without leading whitespace and
/// list or quote markers, starts with `min-version:`.
pub open spec fn marker_rest(line: Seq<char>) -> Option<Seq<char>> {
    let lower = ascii_lower(skip_class(line, CharClass::ListMarker));
    if MIN_VERSION_MARKER@.is_prefix_of(lower) {
        Some(lower.skip(MIN_VERSION_MARKER@.len() as int))
    } else {
        None
    }
}

/// The version on the first marker line, if that line's value parses.
pub open spec fn first_marker_version(lines: Seq<Seq<char>>) -> Option<Version>
    decreases lines.len(),
{
    if lines.len() == 0 {
        None
    } else {
        match marker_rest(lines[0]) {
            Some(rest) => spec_parse_version(rest),
            None => first_marker_version(lines.drop_first()),
        }
    }
}

pub open spec fn spec_extract_min_version(body: Seq<char>) -> Option<Version> {
    first_marker_version(body_lines(body))
}

/// The lowercased, cleaned text of `line[..to]` when it carries the marker.
fn marked_line(line: &Vec<char>, to: usize, marker: &Vec<char>) -> (r: Option<Vec<char>>)
    requires
        to <= line@.len(),
        marker@ == MIN_VERSION_MARKER@,
    ensures
        r is Some <==> marker_rest(line@.take(to as int)) is Some,
        r is Some ==> r->0@.len() >= marker@.len() && r->0@.skip(marker@.len() as int)
            == marker_rest(line@.take(to as int))->0,
{
    let ghost s = line@.take(to as int);
    let a = run_end(line, 0, to, CharClass::ListMarker);
    assert(line@.subrange(0, to as int) =~= s);
    let mut lower: Vec<char> = Vec::new();
    let mut j = a;
    while j < to
        invariant
            a <= j <= to <= line@.len(),
            lower@ == ascii_lower(line@.subrange(a as int, j as int)),
        decreases to - j,
    {
        lower.push(to_lower(line[j]));
        assert(ascii_lower(line@.subrange(a as int, j + 1)) =~= ascii_lower(
            line@.subrange(a as int, j as int),
        ).push(lower_char(line@[j as int])));
        j = j + 1;
    }
    assert(lower@ == ascii_lower(skip_class(s, CharClass::ListMarker)));
    if lower.len() < marker.len() {
        return None;
    }
    let mut k: usize = 0;
    while k < marker.len()
        invariant
            k <= marker@.len() <= lower@.len(),
            marker@ == MIN_VERSION_MARKER@,
            s == line@.take(to as int),
            lower@ == ascii_lower(skip_class(s, CharClass::ListMarker)),
            forall|i: int| 0 <= i < k ==> marker@[i] == lower@[i],
        decreases marker@.len() - k,
    {
        if marker[k] != lower[k] {
            assert(marker@[k as int] != lower@[k as int]);
            return None;
        }
        k = k + 1;
    }
    assert(marker@.is_prefix_of(lower@)) by {
        assert(lower@.take(marker@.len() as int) =~= marker@);
    }
    Some(lower)
}

/// Finds a `min-version: X.Y.Z` line in a release's notes. Only the first line that carries the
/// marker is used; an unparsable value there yields `None`, and later lines are not consulted.
pub fn extract_min_version(body: &str) -> (r: Option<Version>)
    ensures
        r == spec_extract_min_version(body@),
{
    proof {
        reveal_strlit("min-version:");
    }
    let marker = chars_of(MIN_VERSION_MARKER);
    let v = chars_of(body);
    let parts = split_chars(&v, 0, v.len(), '\n');
    let ghost pieces = split_on(body@, '\n');
    let ghost lines = body_lines(body@);
    proof {
        assert(v@.subrange(0, v@.len() as int) =~= body@);
        crate::text::lemma_split_on_nonempty(body@, '\n');
    }
    let count = parts.len();
    let n = if parts[count - 1].len() == 0 {
        count - 1
    } else {
        count
    };
    assert(views(parts@)[count - 1] == parts@[count - 1]@);
    assert(n == lines.len());
    let mut i: usize = 0;
    assert(lines.skip(0) =~= lines);
    while i < n
        invariant
            n == lines.len() <= count == parts@.len() == pieces.len(),
            views(parts@) == pieces,
            lines == body_lines(body@),
            pieces == split_on(body@, '\n'),
            marker@ == MIN_VERSION_MARKER@,
            i <= n,
            first_marker_version(lines) == first_marker_version(lines.skip(i as int)),
        decreases n - i,
    {
        let line = &parts[i];
        assert(views(parts@)[i as int] == line@);
        let len = line.len();
        let end = if i + 1 < count && len > 0 && line[len - 1] == '\r' {
            len - 1
        } else {
            len
        };
        proof {
            assert(line@.take(end as int) =~= lines[i as int]);
            assert(lines.skip(i as int)[0] == lines[i as int]);
            assert(lines.skip(i as int).drop_first() =~= lines.skip(i + 1));
        }
        match marked_line(line, end, &marker) {
            Some(lower) => {
                return parse_version_chars(&lower, marker.len(), lower.len());
            },
            None => {},
        }
        i = i + 1;
    }
    assert(lines.skip(i as int).len() == 0);
    None
}

// ---------------------------------------------------------------------------------------------
// Deciding
// ---------------------------------------------------------------------------------------------

/// The status for `current` when `latest` is the newest release and `min_version` its minimum:
/// a minimum above `latest` is ignored; below an honoured minimum the update is blocking;
/// otherwise a newer release shows a banner.
pub open spec fn spec_decide(current: Version, latest: Version, min_version: Option<Version>) -> UpdateStatus {
    if min_version is Some && version_le(min_version->0, latest) && version_lt(
        current,
        min_version->0,
    ) {
        UpdateStatus::Blocking
    } else if version_lt(current, latest) {
        UpdateStatus::Banner
    } else {
        UpdateStatus::NoUpdate
    }
}

/// The update status of `current` against the newest release `latest` and its optional minimum.
pub fn decide(current: Version, latest: Version, min_version: Option<Version>) -> (r: UpdateStatus)
    ensures
        r == spec_decide(current, latest, min_version),
{
    let effective_min = match min_version {
        Some(min) => {
            if latest.is_older_than(&min) {
                None
            } else {
                Some(min)
            }
        },
        None => None,
    };
    if let Some(min) = effective_min {
        if current.is_older_than(&min) {
            return UpdateStatus::Blocking;
        }
    }
    if current.is_older_than(&latest) {
        UpdateStatus::Banner
    } else {
        UpdateStatus::NoUpdate
    }
}

/// Whether `url` lies inside the app's own release repository.
pub fn is_allowed_update_url(url: &str) -> (r: bool)
    ensures
        r == ALLOWED_URL_PREFIX@.is_prefix_of(url@),
{
    starts_with(url, ALLOWED_URL_PREFIX)
}

// ---------------------------------------------------------------------------------------------
// Choosing the installer
// ---------------------------------------------------------------------------------------------

/// The installer file extension for an operating system name, empty when there is none.
pub open spec fn installer_suffix(os: Seq<char>) -> Seq<char> {
    if os == "windows"@ {
        ".msi"@
    } else if os == "macos"@ {
        ".dmg"@
    } else {
        Seq::empty()
    }
}

pub open spec fn asset_matches(asset: Asset, suffix: Seq<char>) -> bool {
    ends_with(ascii_lower(asset.name@), suffix)
}

/// The download URL of the first asset whose lowercased name ends with `suffix`.
pub open spec fn first_matching_url(assets: Seq<Asset>, suffix: Seq<char>) -> Option<Seq<char>>
    decreases assets.len(),
{
    if assets.len() == 0 {
        None
    } else if asset_matches(assets[0], suffix) {
        Some(assets[0].browser_download_url@)
    } else {
        first_matching_url(assets.drop_first(), suffix)
    }
}

pub open spec fn spec_pick_installer_url(release: Release, os: Seq<char>) -> Seq<char> {
    let suffix = installer_suffix(os);
    if suffix.len() > 0 {
        match first_matching_url(release.assets@, suffix) {
            Some(url) => url,
            None => release.html_url@,
        }
    } else {
        release.html_url@
    }
}

fn name_ends_with_lower(name: &str, suffix: &Vec<char>) -> (r: bool)
    ensures
        r == ends_with(ascii_lower(name@), suffix@),
{
    let n = chars_of(name);
    if suffix.len() > n.len() {
        return false;
    }
    let off = n.len() - suffix.len();
    let ghost lower = ascii_lower(n@);
    let mut k: usize = 0;
    while k < suffix.len()
        invariant
            n@ == name@,
            lower == ascii_lower(n@),
            off + suffix@.len() == n@.len(),
            n@.len() <= usize::MAX,
            k <= suffix@.len(),
            forall|j: int| 0 <= j < k ==> lower[off + j] == suffix@[j],
        decreases suffix@.len() - k,
    {
        if to_lower(n[off + k]) != suffix[k] {
            assert(lower[off + k] != suffix@[k as int]);
            return false;
        }
        k = k + 1;
    }
    assert(lower.subrange(off as int, lower.len() as int) =~= suffix@);
    true
}

/// The installer for `os` ("windows": the first `.msi` asset, "macos": the first `.dmg` asset,
/// matched case-insensitively), or the release page when there is none.
pub fn pick_installer_url(release: &Release, os: &str) -> (r: String)
    ensures
        r@ == spec_pick_installer_url(*release, os@),
{
    proof {
        reveal_strlit("windows");
        reveal_strlit("macos");
        reveal_strlit(".msi");
        reveal_strlit(".dmg");
    }
    let suffix: Vec<char> = if eq_str(os, "windows") {
        chars_of(".msi")
    } else if eq_str(os, "macos") {
        chars_of(".dmg")
    } else {
        Vec::new()
    };
    assert(suffix@ == installer_suffix(os@));
    if suffix.len() > 0 {
        let mut i: usize = 0;
        assert(release.assets@.skip(0) =~= release.assets@);
        while i < release.assets.len()
            invariant
                i <= release.assets@.len(),
                suffix@ == installer_suffix(os@),
                suffix@.len() > 0,
                first_matching_url(release.assets@, suffix@) == first_matching_url(
                    release.assets@.skip(i as int),
                    suffix@,
                ),
            decreases release.assets@.len() - i,
        {
            let ghost rest = release.assets@.skip(i as int);
            assert(rest[0] == release.assets@[i as int]);
            assert(rest.drop_first() =~= release.assets@.skip(i + 1));
            if name_ends_with_lower(release.assets[i].name.as_str(), &suffix) {
                return release.assets[i].browser_download_url.clone();
            }
            i = i + 1;
        }
        assert(release.assets@.skip(i as int).len() == 0);
    }
    release.html_url.clone()
}

// ---------------------------------------------------------------------------------------------
// The whole check
// ---------------------------------------------------------------------------------------------

pub open spec fn min_version_of(body: Option<String>) -> Option<Version> {
    match body {
        Some(b) => spec_extract_min_version(b@),
        None => None,
    }
}

pub open spec fn is_allowed(url: Seq<char>) -> bool {
    ALLOWED_URL_PREFIX@.is_prefix_of(url)
}

/// Status, latest version text and installer URL of an update check.
pub open spec fn spec_evaluate(current: Seq<char>, os: Seq<char>, release: Release) -> (
    UpdateStatus,
    Seq<char>,
    Seq<char>,
) {
    let nothing = (UpdateStatus::NoUpdate, Seq::<char>::empty(), Seq::<char>::empty());
    match (spec_parse_version(current), spec_parse_version(release.tag_name@)) {
        (Some(cur), Some(latest)) => {
            let status = spec_decide(cur, latest, min_version_of(release.body));
            if status == UpdateStatus::NoUpdate {
                nothing
            } else {
                let picked = spec_pick_installer_url(release, os);
                let url = if is_allowed(picked) {
                    picked
                } else {
                    release.html_url@
                };
                if !is_allowed(url) {
                    nothing
                } else {
                    (status, version_text(latest), url)
                }
            }
        },
        _ => nothing,
    }
}

impl UpdateCheckResult {
    /// No update to offer.
    pub fn none() -> (r: UpdateCheckResult)
        ensures
            r.status == UpdateStatus::NoUpdate,
            r.latest_version@ == Seq::<char>::empty(),
            r.installer_url@ == Seq::<char>::empty(),
    {
        UpdateCheckResult {
            status: UpdateStatus::NoUpdate,
            latest_version: String::new(),
            installer_url: String::new(),
        }
    }
}

/// Checks the running version `current_version` on `os` against `release`.
pub fn evaluate(current_version: &str, os: &str, release: &Release) -> (r: UpdateCheckResult)
    ensures
        (r.status, r.latest_version@, r.installer_url@) == spec_evaluate(
            current_version@,
            os@,
            *release,
        ),
{
    let current = parse_version(current_version);
    let latest = parse_version(release.tag_name.as_str());
    let (current, latest) = match (current, latest) {
        (Some(c), Some(l)) => (c, l),
        _ => {
            return UpdateCheckResult::none();
        },
    };
    let min_version = match &release.body {
        Some(b) => extract_min_version(b.as_str()),
        None => None,
    };
    let status = decide(current, latest, min_version);
    if status == UpdateStatus::NoUpdate {
        return UpdateCheckResult::none();
    }
    let mut installer_url = pick_installer_url(release, os);
    if !is_allowed_update_url(installer_url.as_str()) {
        installer_url = release.html_url.clone();
    }
    if !is_allowed_update_url(installer_url.as_str()) {
        return UpdateCheckResult::none();
    }
    UpdateCheckResult { status, latest_version: version_string(latest), installer_url }
}

} // verus!

verus! {

// ---------------------------------------------------------------------------------------------
// Laws
// ---------------------------------------------------------------------------------------------

/// Version order is a strict total order: irreflexive, transitive, and any two distinct
/// versions are ordered one way or the other.
pub proof fn lemma_version_order_is_total(a: Version, b: Version, c: Version)
    ensures
        !version_lt(a, a),
        version_lt(a, b) && version_lt(b, c) ==> version_lt(a, c),
        version_lt(a, b) ==> !version_lt(b, a),
        a != b ==> version_lt(a, b) || version_lt(b, a),
{
}

/// No update is offered exactly when the latest release is not newer than the running version;
/// in particular a blocking update is always a newer release.
pub proof fn lemma_decide_offers_only_newer_releases(
    current: Version,
    latest: Version,
    min_version: Option<Version>,
)
    ensures
        (spec_decide(current, latest, min_version) == UpdateStatus::NoUpdate) <==> !version_lt(
            current,
            latest,
        ),
        spec_decide(current, latest, min_version) == UpdateStatus::Blocking ==> version_lt(
            current,
            latest,
        ),
{
}

/// A minimum above the latest release can never be met by updating, so it is ignored: the
/// status is the one without any minimum.
pub proof fn lemma_decide_ignores_unreachable_minimum(
    current: Version,
    latest: Version,
    min: Version,
)
    requires
        version_lt(latest, min),
    ensures
        spec_decide(current, latest, Some(min)) == spec_decide(current, latest, None),
{
}

/// Running the latest release never shows an update, whatever minimum its notes name.
pub proof fn lemma_latest_release_is_up_to_date(latest: Version, min_version: Option<Version>)
    ensures
        spec_decide(latest, latest, min_version) == UpdateStatus::NoUpdate,
{
}

/// The update is blocking exactly when the running version is below a minimum that the latest
/// release itself meets.
pub proof fn lemma_decide_blocks_below_minimum(
    current: Version,
    latest: Version,
    min_version: Option<Version>,
)
    ensures
        (spec_decide(current, latest, min_version) == UpdateStatus::Blocking) <==> (
        min_version is Some && version_le(min_version->0, latest) && version_lt(
            current,
            min_version->0,
        )),
{
}

/// An update check either offers nothing (empty version and URL) or offers a URL inside the
/// app's own repository together with the latest version's text.
pub proof fn lemma_evaluate_offers_only_own_urls(current: Seq<char>, os: Seq<char>, release: Release)
    ensures
        ({
            let (status, latest_version, installer_url) = spec_evaluate(current, os, release);
            if status == UpdateStatus::NoUpdate {
                latest_version.len() == 0 && installer_url.len() == 0
            } else {
                &&& is_allowed(installer_url)
                &&& spec_parse_version(release.tag_name@) is Some
                &&& latest_version == version_text(spec_parse_version(release.tag_name@)->0)
            }
        }),
{
}

} // verus!

verus! {

proof fn lemma_digits_have_no_dot(s: Seq<char>)
    requires
        all_digits(s),
    ensures
        !s.contains('.'),
{
    if s.contains('.') {
        let i = choose|i: int| 0 <= i < s.len() && s[i] == '.';
        assert(crate::text::is_ascii_digit(s[i]));
    }
}

/// The characters of a version's text: digits and dots, starting and ending with a digit, in
/// three dot-separated pieces that read back as the version's numbers.
proof fn lemma_version_text_shape(v: Version)
    ensures
        ({
            let t = version_text(v);
            &&& t.len() > 0
            &&& crate::text::is_ascii_digit(t[0])
            &&& crate::text::is_ascii_digit(t.last())
            &&& forall|j: int| 0 <= j < t.len() ==> in_class(CharClass::DigitOrDot, #[trigger] t[j])
            &&& split_on(t, '.') == seq![
                decimal(v.0 as nat),
                decimal(v.1 as nat),
                decimal(v.2 as nat),
            ]
            &&& digits_to_u32(decimal(v.0 as nat)) == Some(v.0)
            &&& digits_to_u32(decimal(v.1 as nat)) == Some(v.1)
            &&& digits_to_u32(decimal(v.2 as nat)) == Some(v.2)
        }),
{
    let a = decimal(v.0 as nat);
    let b = decimal(v.1 as nat);
    let c = decimal(v.2 as nat);
    crate::text::lemma_decimal(v.0 as nat);
    crate::text::lemma_decimal(v.1 as nat);
    crate::text::lemma_decimal(v.2 as nat);
    let t = version_text(v);
    let ab = a + seq!['.'] + b;
    assert(t == ab + seq!['.'] + c);
    assert(t[0] == a[0]);
    assert(t.last() == c.last()) by {
        assert(t[t.len() - 1] == c[c.len() - 1]);
    }
    assert(crate::text::is_ascii_digit(a[0]));
    assert(crate::text::is_ascii_digit(c[c.len() - 1]));
    assert forall|j: int| 0 <= j < t.len() implies in_class(
        CharClass::DigitOrDot,
        #[trigger] t[j],
    ) by {
        if j < a.len() {
            assert(t[j] == a[j]);
        } else if j == a.len() {
        } else if j < a.len() + 1 + b.len() {
            assert(t[j] == b[j - a.len() - 1]);
        } else if j == a.len() + 1 + b.len() {
        } else {
            assert(t[j] == c[j - a.len() - 2 - b.len()]);
        }
    }
    lemma_digits_have_no_dot(a);
    lemma_digits_have_no_dot(b);
    lemma_digits_have_no_dot(c);
    crate::text::lemma_split_on_without_sep(a, '.');
    crate::text::lemma_split_on_append(a, '.', b);
    crate::text::lemma_split_on_append(ab, '.', c);
    assert(split_on(t, '.') =~= seq![a, b, c]);
}

/// The latest version text that an update check reports reads back as the same version.
pub proof fn lemma_version_text_parses_back(v: Version)
    ensures
        spec_parse_version(version_text(v)) == Some(v),
{
    lemma_version_tag_parses(v, Seq::empty(), Seq::empty(), Seq::empty());
    assert(Seq::<char>::empty() + Seq::<char>::empty() + version_text(v) + Seq::<char>::empty()
        =~= version_text(v));
}

proof fn lemma_tag_trim(space: Seq<char>, prefix: Seq<char>, t: Seq<char>, suffix: Seq<char>)
    requires
        forall|j: int| 0 <= j < space.len() ==> crate::text::is_ws(#[trigger] space[j]),
        forall|j: int| 0 <= j < prefix.len() ==> in_class(CharClass::VersionPrefix, #[trigger] prefix[j]),
        t.len() > 0,
        crate::text::is_ascii_digit(t[0]),
        crate::text::is_ascii_digit(t.last()),
    ensures
        trim_ws(space + prefix + t + suffix) == prefix + t + crate::text::trim_end_class(
            suffix,
            CharClass::Whitespace,
        ),
{
    let x = space + prefix + t + suffix;
    let pt = prefix + t;
    assert forall|j: int| 0 <= j < space.len() implies in_class(CharClass::Whitespace, #[trigger] x[j]) by {
        assert(x[j] == space[j]);
    }
    if prefix.len() > 0 {
        assert(x[space.len() as int] == prefix[0]);
        assert(in_class(CharClass::VersionPrefix, prefix[0]));
    } else {
        assert(x[space.len() as int] == t[0]);
    }
    crate::text::lemma_skip_class(x, CharClass::Whitespace, space.len() as int);
    assert(x.skip(space.len() as int) =~= pt + suffix);
    assert(pt.last() == t.last());
    crate::text::lemma_trim_end_class_append(pt, suffix, CharClass::Whitespace);
}

proof fn lemma_tag_digits(prefix: Seq<char>, t: Seq<char>, rest: Seq<char>)
    requires
        forall|j: int| 0 <= j < prefix.len() ==> in_class(CharClass::VersionPrefix, #[trigger] prefix[j]),
        t.len() > 0,
        crate::text::is_ascii_digit(t[0]),
        forall|j: int| 0 <= j < t.len() ==> in_class(CharClass::DigitOrDot, #[trigger] t[j]),
        rest.len() == 0 || !in_class(CharClass::DigitOrDot, rest[0]),
    ensures
        take_class(skip_class(prefix + t + rest, CharClass::VersionPrefix), CharClass::DigitOrDot)
            == t,
{
    let z = prefix + t + rest;
    assert forall|j: int| 0 <= j < prefix.len() implies in_class(CharClass::VersionPrefix, #[trigger] z[j]) by {
        assert(z[j] == prefix[j]);
    }
    assert(z[prefix.len() as int] == t[0]);
    crate::text::lemma_skip_class(z, CharClass::VersionPrefix, prefix.len() as int);
    let w = t + rest;
    assert(z.skip(prefix.len() as int) =~= w);
    assert forall|j: int| 0 <= j < t.len() implies in_class(CharClass::DigitOrDot, #[trigger] w[j]) by {
        assert(w[j] == t[j]);
    }
    if rest.len() > 0 {
        assert(w[t.len() as int] == rest[0]);
    }
    crate::text::lemma_take_class(w, CharClass::DigitOrDot, t.len() as int);
    assert(w.take(t.len() as int) =~= t);
}

/// A version tag reads as its version whatever whitespace and `v`/`V` prefix come before it and
/// whatever suffix follows the patch number (such as `-beta.2` or `+build5`), as long as the
/// suffix does not itself continue the digits-and-dots run.
pub proof fn lemma_version_tag_parses(v: Version, space: Seq<char>, prefix: Seq<char>, suffix: Seq<char>)
    requires
        forall|j: int| 0 <= j < space.len() ==> crate::text::is_ws(#[trigger] space[j]),
        forall|j: int| 0 <= j < prefix.len() ==> in_class(CharClass::VersionPrefix, #[trigger] prefix[j]),
        suffix.len() == 0 || !in_class(CharClass::DigitOrDot, suffix[0]),
    ensures
        spec_parse_version(space + prefix + version_text(v) + suffix) == Some(v),
{
    let t = version_text(v);
    let x = space + prefix + t + suffix;
    let rest = crate::text::trim_end_class(suffix, CharClass::Whitespace);
    assert(version_digits(x) == t) by {
        lemma_version_text_shape(v);
        lemma_tag_trim(space, prefix, t, suffix);
        crate::text::lemma_trim_end_class_shape(suffix, CharClass::Whitespace);
        if rest.len() > 0 {
            assert(rest[0] == suffix[0]);
        }
        lemma_tag_digits(prefix, t, rest);
    }
    lemma_version_text_shape(v);
}

} // verus!

verus! {

/// A line without a `:` never carries the marker.
proof fn lemma_no_colon_no_marker(line: Seq<char>)
    requires
        !line.contains(':'),
    ensures
        marker_rest(line) is None,
{
    reveal_strlit("min-version:");
    let cleaned = skip_class(line, CharClass::ListMarker);
    crate::text::lemma_skip_class_is_suffix(line, CharClass::ListMarker);
    let lower = ascii_lower(cleaned);
    if MIN_VERSION_MARKER@.is_prefix_of(lower) {
        assert(MIN_VERSION_MARKER@[11] == ':');
        assert(lower[11] == ':');
        assert(lower[11] == lower_char(cleaned[11]));
        let off = line.len() - cleaned.len();
        assert(cleaned[11] == line[off + 11]);
        assert(line.contains(':'));
    }
}

/// The first marker line decides: with no marker on the lines before `k`, the result is the
/// version on line `k`.
proof fn lemma_first_marker_at(lines: Seq<Seq<char>>, k: int)
    requires
        0 <= k < lines.len(),
        forall|j: int| 0 <= j < k ==> marker_rest(#[trigger] lines[j]) is None,
        marker_rest(lines[k]) is Some,
    ensures
        first_marker_version(lines) == spec_parse_version(marker_rest(lines[k])->0),
    decreases k,
{
    if k > 0 {
        let t = lines.drop_first();
        assert(marker_rest(lines[0]) is None);
        assert forall|j: int| 0 <= j < k - 1 implies marker_rest(#[trigger] t[j]) is None by {
            assert(t[j] == lines[j + 1]);
        }
        assert(t[k - 1] == lines[k]);
        lemma_first_marker_at(t, k - 1);
    }
}

pub open spec fn min_version_line(v: Version) -> Seq<char> {
    "min-version: "@ + version_text(v)
}

proof fn lemma_min_version_line(v: Version)
    ensures
        min_version_line(v).len() > 0,
        !min_version_line(v).contains('\n'),
        min_version_line(v).last() != '\r',
        marker_rest(min_version_line(v)) == Some(seq![' '] + version_text(v)),
        spec_parse_version(seq![' '] + version_text(v)) == Some(v),
{
    reveal_strlit("min-version: ");
    reveal_strlit("min-version:");
    lemma_version_text_shape(v);
    let p = "min-version: "@;
    let t = version_text(v);
    let m = min_version_line(v);
    assert(p.len() == 13);
    assert forall|j: int| 0 <= j < m.len() implies m[j] != '\n' && !('A' <= m[j] && m[j] <= 'Z') by {
        if j >= 13 {
            assert(m[j] == t[j - 13]);
            assert(in_class(CharClass::DigitOrDot, t[j - 13]));
        }
    }
    assert(!m.contains('\n'));
    assert(m.last() == t.last()) by {
        assert(m[m.len() - 1] == t[t.len() - 1]);
    }
    assert(m[0] == 'm');
    crate::text::lemma_skip_class(m, CharClass::ListMarker, 0);
    assert(m.skip(0) =~= m);
    assert(ascii_lower(m) =~= m);
    assert(MIN_VERSION_MARKER@ =~= m.take(12));
    assert(m.skip(12) =~= seq![' '] + t);
    lemma_version_tag_parses(v, seq![' '], Seq::empty(), Seq::empty());
    assert(seq![' '] + Seq::<char>::empty() + t + Seq::<char>::empty() =~= seq![' '] + t);
}

/// However many lines of notes come first, a `min-version: X.Y.Z` line after them is found, and
/// whatever lines follow it do not matter: notes without any `:` cannot carry the marker.
pub proof fn lemma_min_version_line_is_found(notes: Seq<char>, v: Version, tail: Seq<char>)
    requires
        !notes.contains(':'),
        tail.len() == 0 || tail[0] == '\n',
    ensures
        spec_extract_min_version(notes + seq!['\n'] + min_version_line(v) + tail) == Some(v),
{
    let m = min_version_line(v);
    lemma_min_version_line(v);
    let y = m + tail;
    let body = notes + seq!['\n'] + m + tail;
    assert(body =~= notes + seq!['\n'] + y);
    crate::text::lemma_split_on_concat(notes, '\n', y);
    crate::text::lemma_split_on_without_sep(m, '\n');
    let a = split_on(notes, '\n');
    let k = a.len() as int;
    let b = split_on(y, '\n');
    if tail.len() > 0 {
        let t2 = tail.drop_first();
        assert(y =~= m + seq!['\n'] + t2);
        crate::text::lemma_split_on_concat(m, '\n', t2);
        crate::text::lemma_split_on_nonempty(t2, '\n');
        assert(b[0] == m);
        assert(b.len() >= 2);
    } else {
        assert(y =~= m);
        assert(b[0] == m);
    }
    let parts = split_on(body, '\n');
    assert(parts == a + b);
    assert(parts[k] == m);
    let lines = body_lines(body);
    assert(lines.len() >= k + 1) by {
        if parts.last().len() == 0 {
            assert(parts.len() - 1 != k);
        }
    }
    assert(lines[k] == m) by {
        if k + 1 < parts.len() {
            assert(strip_cr(m) == m);
        }
    }
    crate::text::lemma_split_on_pieces_lack(notes, '\n', ':');
    assert forall|j: int| 0 <= j < k implies marker_rest(#[trigger] lines[j]) is None by {
        assert(parts[j] == a[j]);
        assert(!a[j].contains(':'));
        assert(lines[j] == strip_cr(a[j]));
        assert(!strip_cr(a[j]).contains(':')) by {
            if strip_cr(a[j]).contains(':') {
                let i = choose|i: int| 0 <= i < strip_cr(a[j]).len() && strip_cr(a[j])[i] == ':';
                assert(a[j][i] == ':');
            }
        }
        lemma_no_colon_no_marker(lines[j]);
    }
    lemma_first_marker_at(lines, k);
}

/// Version order is lexicographic on (major, minor, patch), compared as numbers.
pub proof fn lemma_version_order_is_lexicographic(a: Version, b: Version)
    ensures
        version_lt(a, b) <==> (a.0 < b.0 || (a.0 == b.0 && a.1 < b.1) || (a.0 == b.0 && a.1 == b.1
            && a.2 < b.2)),
        (spec_decide(a, b, None) == UpdateStatus::Banner) <==> (a.0 < b.0 || (a.0 == b.0 && a.1
            < b.1) || (a.0 == b.0 && a.1 == b.1 && a.2 < b.2)),
{
}

/// The installer for Windows is the first asset whose lowercased name ends with `.msi`, for macOS
/// the first whose lowercased name ends with `.dmg`, and when there is none, or for any other
/// operating system, the release page.
pub proof fn lemma_installer_is_first_matching_asset(release: Release, os: Seq<char>)
    ensures
        ({
            let assets = release.assets@;
            let suffix = if os == "windows"@ {
                ".msi"@
            } else if os == "macos"@ {
                ".dmg"@
            } else {
                Seq::<char>::empty()
            };
            let url = spec_pick_installer_url(release, os);
            if suffix.len() == 0 {
                url == release.html_url@
            } else {
                ||| exists|i: int|
                    #![trigger assets[i]]
                    0 <= i < assets.len() && ends_with(ascii_lower(assets[i].name@), suffix) && (
                    forall|j: int|
                        0 <= j < i ==> !ends_with(ascii_lower((#[trigger] assets[j]).name@), suffix))
                        && url == assets[i].browser_download_url@
                ||| (forall|j: int|
                    0 <= j < assets.len() ==> !ends_with(
                        ascii_lower((#[trigger] assets[j]).name@),
                        suffix,
                    )) && url == release.html_url@
            }
        }),
{
    reveal_strlit("windows");
    reveal_strlit("macos");
    reveal_strlit(".msi");
    reveal_strlit(".dmg");
    let suffix = installer_suffix(os);
    if suffix.len() > 0 {
        lemma_first_matching_url(release.assets@, suffix);
    }
}

proof fn lemma_first_matching_url(assets: Seq<Asset>, suffix: Seq<char>)
    ensures
        match first_matching_url(assets, suffix) {
            Some(url) => exists|i: int|
                #![trigger assets[i]]
                0 <= i < assets.len() && ends_with(ascii_lower(assets[i].name@), suffix) && (forall|
                    j: int,
                |
                    0 <= j < i ==> !ends_with(ascii_lower((#[trigger] assets[j]).name@), suffix))
                    && url == assets[i].browser_download_url@,
            None => forall|j: int|
                0 <= j < assets.len() ==> !ends_with(
                    ascii_lower((#[trigger] assets[j]).name@),
                    suffix,
                ),
        },
    decreases assets.len(),
{
    if assets.len() > 0 {
        if asset_matches(assets[0], suffix) {
            assert(ends_with(ascii_lower(assets[0].name@), suffix));
        } else {
            let t = assets.drop_first();
            lemma_first_matching_url(t, suffix);
            match first_matching_url(t, suffix) {
                Some(url) => {
                    let i = choose|i: int|
                        #![trigger t[i]]
                        0 <= i < t.len() && ends_with(ascii_lower(t[i].name@), suffix) && (forall|
                            j: int,
                        |
                            0 <= j < i ==> !ends_with(ascii_lower((#[trigger] t[j]).name@), suffix))
                            && url == t[i].browser_download_url@;
                    assert(assets[i + 1] == t[i]);
                    assert forall|j: int| 0 <= j < i + 1 implies !ends_with(
                        ascii_lower((#[trigger] assets[j]).name@),
                        suffix,
                    ) by {
                        if j > 0 {
                            assert(assets[j] == t[j - 1]);
                        }
                    }
                },
                None => {
                    assert forall|j: int| 0 <= j < assets.len() implies !ends_with(
                        ascii_lower((#[trigger] assets[j]).name@),
                        suffix,
                    ) by {
                        if j > 0 {
                            assert(assets[j] == t[j - 1]);
                        }
                    }
                },
            }
        }
    }
}

} // verus!
