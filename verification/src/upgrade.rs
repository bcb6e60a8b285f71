//! Automatic upgrades: how often to look, whether a release is newer, which of
//! its files to take, and how to restart.
use std::io::Read;
use std::time::Duration;
use vstd::prelude::*;
use vstd::slice::slice_subrange;
use vstd::string::StrSliceExecFns;
use vstd::utf8::*;
use crate::text;
use crate::time;
use crate::tun;

verus! {

// ---------------------------------------------------------------------------
// The interval
// ---------------------------------------------------------------------------

/// The shortest interval, in seconds.
pub const MIN_INTERVAL_SECS: u64 = 3600;

pub const EMPTY_INTERVAL: &'static str = "empty interval";

pub const INVALID_NUMBER: &'static str = "invalid number";

pub const INTERVAL_TOO_SHORT: &'static str = "minimum auto-upgrade interval is 1h";

pub const UNKNOWN_UNIT: &'static str = "unknown time unit '";

pub const SUPPORTED_UNITS: &'static str =
    "'. Supported units are h (hours), d (days), w (weeks), m (months).";

/// The length of a unit in seconds; a month has thirty days.
pub open spec fn unit_secs(c: char) -> Option<nat> {
    if c == 'h' {
        Some(3600)
    } else if c == 'd' {
        Some(86400)
    } else if c == 'w' {
        Some(604800)
    } else if c == 'm' {
        Some(2592000)
    } else {
        None
    }
}

/// The number of seconds that an interval denotes, or the message that refuses
/// it: a number and a unit, of at least one hour.
pub open spec fn interval_of(s: Seq<char>) -> Result<nat, Seq<char>> {
    let t = text::trim_seq(s);
    if t.len() == 0 {
        Err(EMPTY_INTERVAL@)
    } else {
        match (text::decimal_up_to(t.drop_last(), u64::MAX as nat), unit_secs(t.last())) {
            (None, _) => Err(INVALID_NUMBER@),
            (Some(_), None) => Err(UNKNOWN_UNIT@ + seq![t.last()] + SUPPORTED_UNITS@),
            (Some(n), Some(unit)) => if n * unit < MIN_INTERVAL_SECS {
                Err(INTERVAL_TOO_SHORT@)
            } else {
                Ok(n * unit)
            },
        }
    }
}

/// Whether the number of seconds that an interval denotes can be held.
pub open spec fn interval_fits(s: Seq<char>) -> bool {
    interval_of(s) matches Ok(n) ==> n <= u64::MAX
}

/// A number and a unit, read from the text of an interval.
fn split_interval(s: &str) -> (r: Result<(u64, u64), String>)
    ensures
        ({
            let t = text::trim_seq(s@);
            match r {
                Ok((n, unit)) => t.len() > 0 && text::decimal_up_to(
                    t.drop_last(),
                    u64::MAX as nat,
                ) == Some(n as nat) && unit_secs(t.last()) == Some(unit as nat),
                Err(e) => interval_of(s@) == Err::<nat, Seq<char>>(e@) && (t.len() == 0
                    || text::decimal_up_to(t.drop_last(), u64::MAX as nat) is None || unit_secs(
                    t.last(),
                ) is None),
            }
        }),
{
    let t = text::trim(s);
    let n: usize = t.unicode_len();
    if n == 0 {
        return Err(EMPTY_INTERVAL.to_string());
    }
    let last = t.get_char(n - 1);
    let digits = t.substring_char(0, n - 1);
    assert(digits@ == t@.drop_last());
    let value: u64 = match text::parse_decimal(digits, u64::MAX) {
        Some(v) => v,
        None => return Err(INVALID_NUMBER.to_string()),
    };
    let unit: u64 = match last {
        'h' => 3600,
        'd' => 86400,
        'w' => 604800,
        'm' => 2592000,
        _ => {
            let mut message = UNKNOWN_UNIT.to_string();
            message.push(last);
            assert(message@ == UNKNOWN_UNIT@ + seq![last]);
            return Err(text::concat_two(message.as_str(), SUPPORTED_UNITS));
        },
    };
    Ok((value, unit))
}

/// Whether the number of seconds that an interval denotes can be held.
pub fn check_interval(s: &str) -> (r: bool)
    ensures
        r == interval_fits(s@),
{
    match split_interval(s) {
        Ok((n, unit)) => {
            assert(n * unit <= 0xffff_ffff_ffff_ffff * 2592000) by (nonlinear_arith)
                requires
                    n <= 0xffff_ffff_ffff_ffff,
                    unit <= 2592000,
            ;
            let secs: u128 = n as u128 * unit as u128;
            secs <= u64::MAX as u128
        },
        Err(_) => true,
    }
}

/// Parses an interval such as `1h`, `3d`, `1w` or `1m`: hours, days, weeks and
/// months. At least one hour.
pub fn parse_interval(s: &str) -> (r: Result<Duration, String>)
    requires
        interval_fits(s@),
    ensures
        match interval_of(s@) {
            Ok(n) => r == Ok::<Duration, String>(time::seconds(n as u64)),
            Err(e) => r matches Err(m) && m@ == e,
        },
{
    let (n, unit) = split_interval(s)?;
    let secs: u128 = n as u128 * unit as u128;
    if secs < MIN_INTERVAL_SECS as u128 {
        return Err(INTERVAL_TOO_SHORT.to_string());
    }
    Ok(Duration::from_secs(secs as u64))
}

// ---------------------------------------------------------------------------
// The platform
// ---------------------------------------------------------------------------

/// The file that is built for a platform.
pub open spec fn artifact_of(os: Seq<char>, arch: Seq<char>, env: Seq<char>) -> Option<Seq<char>> {
    if os == "linux"@ && arch == "x86_64"@ && env == "gnu"@ {
        Some("auto-server-linux-x86_64-unknown-linux-gnu"@)
    } else if os == "linux"@ && arch == "x86_64"@ && env == "musl"@ {
        Some("auto-server-linux-x86_64-unknown-linux-musl"@)
    } else if os == "linux"@ && arch == "aarch64"@ && env == "gnu"@ {
        Some("auto-server-linux-aarch64-unknown-linux-gnu"@)
    } else if os == "linux"@ && arch == "aarch64"@ && env == "musl"@ {
        Some("auto-server-linux-aarch64-unknown-linux-musl"@)
    } else if os == "macos"@ && arch == "aarch64"@ {
        Some("auto-server-macos-aarch64-apple-darwin"@)
    } else if os == "windows"@ && arch == "x86_64"@ {
        Some("auto-server-windows-x86_64-pc-windows-msvc"@)
    } else {
        None
    }
}

/// Names the file that is built for a platform.
pub fn get_target_artifact_name(os: &str, arch: &str, env: &str) -> (r: Option<&'static str>)
    ensures
        match artifact_of(os@, arch@, env@) {
            Some(name) => r matches Some(n) && n@ == name,
            None => r is None,
        },
{
    let x86 = text::str_equal(arch, "x86_64");
    let arm = text::str_equal(arch, "aarch64");
    if text::str_equal(os, "linux") {
        proof {
            reveal_strlit("linux");
            reveal_strlit("macos");
            reveal_strlit("windows");
            reveal_strlit("x86_64");
            reveal_strlit("aarch64");
            assert("linux"@[0] == 'l');
            assert("macos"@[0] == 'm');
            assert("linux"@.len() != "windows"@.len());
        }
        if x86 && text::str_equal(env, "gnu") {
            return Some("auto-server-linux-x86_64-unknown-linux-gnu");
        }
        if x86 && text::str_equal(env, "musl") {
            return Some("auto-server-linux-x86_64-unknown-linux-musl");
        }
        if arm && text::str_equal(env, "gnu") {
            return Some("auto-server-linux-aarch64-unknown-linux-gnu");
        }
        if arm && text::str_equal(env, "musl") {
            return Some("auto-server-linux-aarch64-unknown-linux-musl");
        }
        None
    } else if text::str_equal(os, "macos") && arm {
        Some("auto-server-macos-aarch64-apple-darwin")
    } else if text::str_equal(os, "windows") && x86 {
        Some("auto-server-windows-x86_64-pc-windows-msvc")
    } else {
        None
    }
}

// ---------------------------------------------------------------------------
// Versions
// ---------------------------------------------------------------------------

/// A version without the `v`s in front.
pub open spec fn without_v(s: Seq<char>) -> Seq<char>
    decreases s.len(),
{
    if s.len() > 0 && s[0] == 'v' {
        without_v(s.drop_first())
    } else {
        s
    }
}

/// The main part of a version: up to the first hyphen.
pub open spec fn main_of(s: Seq<char>) -> Seq<char> {
    let v = without_v(s);
    v.take(text::find_first(v, '-'))
}

/// The pre-release part of a version: what follows the first hyphen.
pub open spec fn pre_of(s: Seq<char>) -> Option<Seq<char>> {
    let v = without_v(s);
    let f = text::find_first(v, '-');
    if f < v.len() {
        Some(v.skip(f + 1))
    } else {
        None
    }
}

/// The number that a part of a version denotes; zero where it is none.
pub open spec fn part_value(s: Seq<char>) -> nat {
    match text::decimal_up_to(s, u32::MAX as nat) {
        Some(n) => n,
        None => 0,
    }
}

/// The `i`th number of a version; zero behind the last.
pub open spec fn number_at(main: Seq<char>, i: int) -> nat {
    let parts = text::split_seq(main, '.');
    if 0 <= i < parts.len() {
        part_value(parts[i])
    } else {
        0
    }
}

/// Whether two versions first differ in number `i`, with `a` below `b` there.
pub open spec fn below_at(a: Seq<char>, b: Seq<char>, i: int) -> bool {
    &&& i >= 0
    &&& number_at(a, i) < number_at(b, i)
    &&& forall|j: int| 0 <= j < i ==> #[trigger] number_at(a, j) == number_at(b, j)
}

/// Whether the numbers of `a` are below those of `b`.
pub open spec fn main_below(a: Seq<char>, b: Seq<char>) -> bool {
    exists|i: int| below_at(a, b, i)
}

/// Whether the numbers of `a` and `b` are the same.
pub open spec fn main_same(a: Seq<char>, b: Seq<char>) -> bool {
    forall|i: int| i >= 0 ==> #[trigger] number_at(a, i) == number_at(b, i)
}

/// Whether a pre-release part is older than another: any is older than none,
/// and two of them are in the order of their characters.
pub open spec fn pre_below(a: Option<Seq<char>>, b: Option<Seq<char>>) -> bool {
    match (a, b) {
        (None, _) => false,
        (Some(_), None) => true,
        (Some(p), Some(q)) => text::text_before(p, q),
    }
}

/// Whether `latest` is newer than `current`.
pub open spec fn newer(current: Seq<char>, latest: Seq<char>) -> bool {
    main_below(main_of(current), main_of(latest)) || (main_same(main_of(current), main_of(latest))
        && pre_below(pre_of(current), pre_of(latest)))
}

/// Splits a version into its main part and its pre-release part.
pub fn split_version<'a>(v: &'a str) -> (r: (&'a str, Option<&'a str>))
    ensures
        r.0@ == main_of(v@),
        match pre_of(v@) {
            Some(p) => r.1 matches Some(q) && q@ == p,
            None => r.1 is None,
        },
{
    let cs = text::chars_of(v);
    let n: usize = cs.len();
    let mut i: usize = 0;
    assert(v@.skip(0) == v@);
    while i < n && cs[i] == 'v'
        invariant
            cs@ == v@,
            n == v@.len(),
            i <= n,
            without_v(v@.skip(i as int)) == without_v(v@),
        decreases n - i,
    {
        assert(v@.skip(i as int).drop_first() == v@.skip(i + 1));
        i = i + 1;
    }
    let plain = v.substring_char(i, n);
    assert(plain@ == v@.skip(i as int));
    assert(plain@ == without_v(v@));
    proof {
        text::lemma_find_first(plain@, '-');
    }
    match text::split_once(plain, '-') {
        Some((main, pre)) => (main, Some(pre)),
        None => {
            assert(plain@.take(text::find_first(plain@, '-')) == plain@);
            (plain, None)
        },
    }
}

/// Reads one part of a version.
fn read_part(s: &str) -> (r: u64)
    ensures
        r == part_value(s@),
{
    match text::parse_decimal(s, u32::MAX as u64) {
        Some(n) => n,
        None => 0,
    }
}

/// Reads the numbers of a version.
fn read_numbers(main: &str) -> (r: Vec<u64>)
    ensures
        r@.len() == text::split_seq(main@, '.').len(),
        forall|i: int| 0 <= i < r@.len() ==> #[trigger] r@[i] == number_at(main@, i),
{
    let parts = text::split(main, '.');
    let ghost p = text::split_seq(main@, '.');
    let ghost m = parts@.map_values(|t: &str| t@);
    assert(m == p);
    assert(m.len() == parts@.len());
    let mut out: Vec<u64> = Vec::new();
    let n: usize = parts.len();
    for i in 0..n
        invariant
            n == parts@.len(),
            m == parts@.map_values(|t: &str| t@),
            m == text::split_seq(main@, '.'),
            m.len() == n,
            out@.len() == i,
            forall|k: int| 0 <= k < i ==> #[trigger] out@[k] == number_at(main@, k),
    {
        assert(m[i as int] == parts@[i as int]@);
        out.push(read_part(parts[i]));
    }
    out
}

fn number_or_zero(v: &Vec<u64>, i: usize) -> (r: u64)
    ensures
        r == (if i < v@.len() {
            v@[i as int]
        } else {
            0
        }),
{
    if i < v.len() {
        v[i]
    } else {
        0
    }
}

/// Tells whether a release is newer than the current version. The numbers are
/// compared first; where they are the same, a release is newer than its
/// pre-releases, and those are in the order of their characters.
pub fn is_newer_version(current: &str, latest: &str) -> (r: bool)
    ensures
        r == newer(current@, latest@),
{
    let (cur_main, cur_pre) = split_version(current);
    let (lat_main, lat_pre) = split_version(latest);
    let cur = read_numbers(cur_main);
    let lat = read_numbers(lat_main);
    let n: usize = if cur.len() > lat.len() {
        cur.len()
    } else {
        lat.len()
    };
    let ghost a = cur_main@;
    let ghost b = lat_main@;
    for i in 0..n
        invariant
            a == main_of(current@),
            b == main_of(latest@),
            n >= cur@.len(),
            n >= lat@.len(),
            cur@.len() == text::split_seq(a, '.').len(),
            lat@.len() == text::split_seq(b, '.').len(),
            forall|k: int| 0 <= k < cur@.len() ==> #[trigger] cur@[k] == number_at(a, k),
            forall|k: int| 0 <= k < lat@.len() ==> #[trigger] lat@[k] == number_at(b, k),
            forall|k: int| 0 <= k < i ==> #[trigger] number_at(a, k) == number_at(b, k),
    {
        let x: u64 = number_or_zero(&cur, i);
        let y: u64 = number_or_zero(&lat, i);
        assert(x == number_at(a, i as int));
        assert(y == number_at(b, i as int));
        if y > x {
            assert(below_at(a, b, i as int));
            return true;
        }
        if y < x {
            proof {
                lemma_not_newer(current@, latest@, i as int);
            }
            return false;
        }
    }
    assert(main_same(a, b)) by {
        assert forall|k: int| k >= 0 implies #[trigger] number_at(a, k) == number_at(b, k) by {}
    }
    assert(!main_below(a, b)) by {
        assert forall|k: int| !below_at(a, b, k) by {}
    }
    match (cur_pre, lat_pre) {
        (None, _) => false,
        (Some(_), None) => true,
        (Some(p), Some(q)) => text::is_before(p, q),
    }
}

/// A version that is above in its first different number is not older.
proof fn lemma_not_newer(current: Seq<char>, latest: Seq<char>, i: int)
    requires
        below_at(main_of(latest), main_of(current), i),
    ensures
        !newer(current, latest),
{
    let a = main_of(current);
    let b = main_of(latest);
    assert(number_at(a, i) != number_at(b, i));
    assert forall|k: int| !below_at(a, b, k) by {
        if below_at(a, b, k) {
            if k < i {
                assert(number_at(b, k) == number_at(a, k));
            } else if k > i {
                assert(number_at(a, i) == number_at(b, i));
            }
        }
    }
}

/// No version is newer than itself.
pub proof fn lemma_newer_irreflexive(v: Seq<char>)
    ensures
        !newer(v, v),
{
    let m = main_of(v);
    assert forall|i: int| !below_at(m, m, i) by {}
    match pre_of(v) {
        Some(p) => text::lemma_before_irreflexive(p),
        None => {},
    }
}

/// If `b` is newer than `a` and `c` is newer than `b`, then `c` is newer than
/// `a`.
pub proof fn lemma_newer_transitive(a: Seq<char>, b: Seq<char>, c: Seq<char>)
    requires
        newer(a, b),
        newer(b, c),
    ensures
        newer(a, c),
{
    let x = main_of(a);
    let y = main_of(b);
    let z = main_of(c);
    if main_below(x, y) && main_below(y, z) {
        let i = choose|i: int| below_at(x, y, i);
        let j = choose|j: int| below_at(y, z, j);
        let k = if i < j {
            i
        } else {
            j
        };
        assert(below_at(x, z, k)) by {
            assert forall|m: int| 0 <= m < k implies #[trigger] number_at(x, m) == number_at(
                z,
                m,
            ) by {
                assert(number_at(x, m) == number_at(y, m));
                assert(number_at(y, m) == number_at(z, m));
            }
            if i < j {
                assert(number_at(y, k) == number_at(z, k));
            } else if j < i {
                assert(number_at(x, k) == number_at(y, k));
            }
        }
    } else if main_below(x, y) {
        let i = choose|i: int| below_at(x, y, i);
        assert(number_at(y, i) == number_at(z, i));
        assert(below_at(x, z, i)) by {
            assert forall|m: int| 0 <= m < i implies #[trigger] number_at(x, m) == number_at(
                z,
                m,
            ) by {
                assert(number_at(x, m) == number_at(y, m));
                assert(number_at(y, m) == number_at(z, m));
            }
        }
    } else if main_below(y, z) {
        let i = choose|i: int| below_at(y, z, i);
        assert(number_at(x, i) == number_at(y, i));
        assert(below_at(x, z, i)) by {
            assert forall|m: int| 0 <= m < i implies #[trigger] number_at(x, m) == number_at(
                z,
                m,
            ) by {
                assert(number_at(x, m) == number_at(y, m));
                assert(number_at(y, m) == number_at(z, m));
            }
        }
    } else {
        assert(main_same(x, z)) by {
            assert forall|m: int| m >= 0 implies #[trigger] number_at(x, m) == number_at(z, m) by {
                assert(number_at(x, m) == number_at(y, m));
                assert(number_at(y, m) == number_at(z, m));
            }
        }
        match (pre_of(a), pre_of(b), pre_of(c)) {
            (Some(p), Some(q), Some(s)) => text::lemma_before_transitive(p, q, s),
            _ => {},
        }
    }
}

/// Of two versions at most one is newer than the other: an upgrade is never
/// followed by a downgrade to where it came from.
pub proof fn lemma_newer_asymmetric(a: Seq<char>, b: Seq<char>)
    requires
        newer(a, b),
    ensures
        !newer(b, a),
{
    if newer(b, a) {
        lemma_newer_transitive(a, b, a);
        lemma_newer_irreflexive(a);
    }
}

// ---------------------------------------------------------------------------
// Releases
// ---------------------------------------------------------------------------

/// A file of a release.
#[derive(Debug)]
pub struct Asset {
    pub name: String,
    pub browser_download_url: String,
}

/// A release.
#[derive(Debug)]
pub struct Release {
    pub tag_name: String,
    pub assets: Vec<Asset>,
}

pub const RELEASES_URL: &'static str =
    "https://api.github.com/repos/Yifei0727/moon-toll-station/releases";

pub const LATEST_RELEASE_URL: &'static str =
    "https://api.github.com/repos/Yifei0727/moon-toll-station/releases/latest";

/// Where to look for releases: the list of all of them when pre-releases
/// count, else the latest.
pub open spec fn where_to_look(pre_release: bool) -> Seq<char> {
    if pre_release {
        RELEASES_URL@
    } else {
        LATEST_RELEASE_URL@
    }
}

/// Tells where to look for releases.
pub fn releases_url(pre_release: bool) -> (r: &'static str)
    ensures
        r@ == where_to_look(pre_release),
{
    if pre_release {
        RELEASES_URL
    } else {
        LATEST_RELEASE_URL
    }
}

/// The ending of a release file.
pub const ARCHIVE_SUFFIX: &'static str = ".tar.gz";

/// What to do about the releases that were found.
#[derive(Debug)]
pub enum UpgradePlan {
    /// There is no release.
    NoRelease,
    /// The release is not newer.
    UpToDate,
    /// Download the file at this address.
    Download(String),
    /// The release has no file of this name.
    MissingAsset(String),
}

/// What an [`UpgradePlan`] denotes.
#[verifier::ext_equal]
pub enum UpgradePlanView {
    NoRelease,
    UpToDate,
    Download(Seq<char>),
    MissingAsset(Seq<char>),
}

impl View for UpgradePlan {
    type V = UpgradePlanView;

    open spec fn view(&self) -> UpgradePlanView {
        match self {
            UpgradePlan::NoRelease => UpgradePlanView::NoRelease,
            UpgradePlan::UpToDate => UpgradePlanView::UpToDate,
            UpgradePlan::Download(url) => UpgradePlanView::Download(url@),
            UpgradePlan::MissingAsset(name) => UpgradePlanView::MissingAsset(name@),
        }
    }
}

/// The address of the first file of a release with this name.
pub open spec fn url_of(assets: Seq<Asset>, name: Seq<char>) -> Option<Seq<char>>
    decreases assets.len(),
{
    if assets.len() == 0 {
        None
    } else if assets[0].name@ == name {
        Some(assets[0].browser_download_url@)
    } else {
        url_of(assets.drop_first(), name)
    }
}

/// What is done about the releases that were found: the first of them counts.
/// Nothing is done unless it is newer; else the file for this platform is
/// downloaded.
pub open spec fn plan_of(
    current: Seq<char>,
    releases: Seq<Release>,
    artifact: Seq<char>,
) -> UpgradePlanView {
    if releases.len() == 0 {
        UpgradePlanView::NoRelease
    } else if !newer(current, releases[0].tag_name@) {
        UpgradePlanView::UpToDate
    } else {
        match url_of(releases[0].assets@, artifact + ARCHIVE_SUFFIX@) {
            Some(address) => UpgradePlanView::Download(address),
            None => UpgradePlanView::MissingAsset(artifact + ARCHIVE_SUFFIX@),
        }
    }
}

/// Decides what to do about the releases that were found.
pub fn check_and_perform_upgrade(
    current: &str,
    releases: &Vec<Release>,
    artifact: &str,
) -> (r: UpgradePlan)
    ensures
        r@ == plan_of(current@, releases@, artifact@),
{
    if releases.len() == 0 {
        return UpgradePlan::NoRelease;
    }
    let release = &releases[0];
    if !is_newer_version(current, release.tag_name.as_str()) {
        return UpgradePlan::UpToDate;
    }
    let expected = text::concat_two(artifact, ARCHIVE_SUFFIX);
    let assets = &release.assets;
    let n: usize = assets.len();
    assert(assets@.skip(0) == assets@);
    for i in 0..n
        invariant
            n == assets@.len(),
            releases@.len() > 0,
            newer(current@, releases@[0].tag_name@),
            assets@ == releases@[0].assets@,
            expected@ == artifact@ + ARCHIVE_SUFFIX@,
            url_of(assets@.skip(i as int), expected@) == url_of(assets@, expected@),
    {
        let asset = &assets[i];
        assert(assets@.skip(i as int).drop_first() == assets@.skip(i + 1));
        if text::str_equal(asset.name.as_str(), expected.as_str()) {
            return UpgradePlan::Download(asset.browser_download_url.as_str().to_string());
        }
    }
    UpgradePlan::MissingAsset(expected)
}

/// What follows a check for upgrades.
#[derive(Debug, Clone, Copy, PartialEq, Eq, Structural)]
pub enum AfterCheck {
    /// Wait for the next check.
    Wait,
    /// Leave the process after this many seconds, so that the new binary is
    /// started in its place.
    Exit(u64),
}

/// What follows a check: whether it upgraded, or `None` when it failed. A check
/// that fails ends nothing.
pub open spec fn after_check(upgraded: Option<bool>) -> AfterCheck {
    if upgraded == Some(true) {
        AfterCheck::Exit(2)
    } else {
        AfterCheck::Wait
    }
}

/// Decides what follows a check.
pub fn run_upgrade_loop(upgraded: Option<bool>) -> (r: AfterCheck)
    ensures
        r == after_check(upgraded),
{
    match upgraded {
        Some(true) => AfterCheck::Exit(2),
        _ => AfterCheck::Wait,
    }
}

// ---------------------------------------------------------------------------
// Archives
// ---------------------------------------------------------------------------

/// `std::io::Error`: why something could not be read.
#[verifier::external_type_specification]
#[verifier::external_body]
pub struct ExIoError(std::io::Error);

/// What a compressed file holds; `None` where it is damaged.
pub uninterp spec fn unzipped(file: Seq<u8>) -> Option<Seq<u8>>;

/// Wraps `flate2::read::GzDecoder`, read to its end: the bytes of the first
/// member of the file, which depend on the file alone. It fails where the file
/// is not in the format, ends too early, or does not match its checksum.
#[verifier::external_body]
pub(crate) fn unzip(file: &[u8]) -> (r: Result<Vec<u8>, std::io::Error>)
    ensures
        match r {
            Ok(v) => unzipped(file@) == Some(v@),
            Err(_) => unzipped(file@) is None,
        },
{
    let mut out = Vec::new();
    flate2::read::GzDecoder::new(file).read_to_end(&mut out)?;
    Ok(out)
}

/// What comes out of a compressed file up to its end or its damage, when it is
/// read byte by byte.
pub uninterp spec fn unzipped_front(file: Seq<u8>) -> Seq<u8>;

/// Wraps `flate2::read::GzDecoder`, read byte by byte up to its end or the first
/// error: the bytes that come out, which depend on the file alone. How far
/// before the damage they end is left unsaid.
#[verifier::external_body]
pub(crate) fn unzip_front(file: &[u8]) -> (r: Vec<u8>)
    ensures
        r@ == unzipped_front(file@),
{
    flate2::read::GzDecoder::new(file).bytes().map_while(|b| b.ok()).collect()
}

/// Block `k` of an archive.
pub open spec fn block_of(tar: Seq<u8>, k: int) -> Seq<u8> {
    tar.subrange(512 * k, 512 * k + 512)
}

/// The sum of some bytes.
pub open spec fn byte_sum(s: Seq<u8>) -> nat
    decreases s.len(),
{
    if s.len() == 0 {
        0
    } else {
        byte_sum(s.drop_last()) + s.last() as nat
    }
}

/// The number that the octal digits in a text make up, whatever else is in it.
pub open spec fn octal_value(s: Seq<u8>) -> nat
    decreases s.len(),
{
    if s.len() == 0 {
        0
    } else if 48 <= s.last() <= 55 {
        octal_value(s.drop_last()) * 8 + (s.last() - 48) as nat
    } else {
        octal_value(s.drop_last())
    }
}

/// Whether a block has the checksum of a header: the sum of its bytes, with
/// spaces in the place of the checksum, in octal digits before the first zero.
pub open spec fn is_summed(block: Seq<u8>) -> bool {
    octal_value(tun::before_zero(block.subrange(148, 156))) == byte_sum(block.take(148)) + byte_sum(
        block.skip(156),
    ) + 256
}

/// Whether a block is the header of a sparse entry, as its checksum, its mark
/// (`ustar`, two spaces and a zero) and its type have it.
pub open spec fn is_sparse(block: Seq<u8>) -> bool {
    &&& is_summed(block)
    &&& block.subrange(257, 265) == seq![117u8, 115, 116, 97, 114, 32, 32, 0]
    &&& block[156] == 83
}

/// Whether a block is the header of a sparse entry that has further headers.
pub open spec fn is_extended(block: Seq<u8>) -> bool {
    is_sparse(block) && block[482] == 1
}

/// Whether a block is the header of a sparse entry of 8 GiB or more, which octal
/// digits cannot hold and which is given in base 256; or of one that has further
/// headers and takes up 2^62 bytes or more in the archive.
pub open spec fn is_oversized(block: Seq<u8>) -> bool {
    ||| is_sparse(block) && block[483] >= 128
    ||| is_extended(block) && block[124] >= 128 && block[128] >= 64
}

/// Whether an extension that gives an entry a size of that order stands at `p`:
/// ` size=`, and nineteen characters of a number.
pub open spec fn size_record_at(tar: Seq<u8>, p: int) -> bool {
    &&& tar.subrange(p, p + 6) == seq![32u8, 115, 105, 122, 101, 61]
    &&& forall|i: int| p + 6 <= i < p + 25 ==> 48 <= #[trigger] tar[i] <= 57 || tar[i] == 43
}

/// Whether there is such an extension anywhere.
pub open spec fn has_size_record(tar: Seq<u8>) -> bool {
    exists|p: int| 0 <= p <= tar.len() - 25 && #[trigger] size_record_at(tar, p)
}

/// Whether an archive can be taken apart. For each further header of a sparse
/// entry the position behind the entry moves on, which overflows where the
/// entry has a size near the largest there is, in its header or in an
/// extension. And what a sparse entry leaves out is filled in when it is read,
/// which cannot be held where it is too much.
pub open spec fn sound_tar(tar: Seq<u8>) -> bool {
    forall|k: int|
        0 <= k < tar.len() / 512 ==> {
            let block = #[trigger] block_of(tar, k);
            !is_oversized(block) && (is_extended(block) ==> !has_size_record(tar))
        }
}

/// Adds some bytes up.
fn add_bytes(s: &[u8]) -> (r: u32)
    requires
        s@.len() <= 512,
    ensures
        r == byte_sum(s@),
        r <= 255 * 512,
{
    let n: usize = s.len();
    let mut sum: u32 = 0;
    assert(s@.take(0) == Seq::<u8>::empty());
    for i in 0..n
        invariant
            n == s@.len(),
            n <= 512,
            sum == byte_sum(s@.take(i as int)),
            sum <= 255 * i,
    {
        assert(s@.take(i + 1).drop_last() == s@.take(i as int));
        assert(s@.take(i + 1).last() == s@[i as int]);
        sum = sum + s[i] as u32;
    }
    assert(s@.take(n as int) == s@);
    sum
}

/// Reads the number that the octal digits in a short text make up.
fn read_octal(s: &[u8]) -> (r: u32)
    requires
        s@.len() <= 8,
    ensures
        r == octal_value(s@),
{
    let n: usize = s.len();
    let mut value: u32 = 0;
    assert(s@.take(0) == Seq::<u8>::empty());
    for i in 0..n
        invariant
            n == s@.len(),
            n <= 8,
            value == octal_value(s@.take(i as int)),
            i == 0 ==> value < 1,
            i == 1 ==> value < 0o10,
            i == 2 ==> value < 0o100,
            i == 3 ==> value < 0o1000,
            i == 4 ==> value < 0o10000,
            i == 5 ==> value < 0o100000,
            i == 6 ==> value < 0o1000000,
            i == 7 ==> value < 0o10000000,
    {
        assert(s@.take(i + 1).drop_last() == s@.take(i as int));
        assert(s@.take(i + 1).last() == s@[i as int]);
        let c: u8 = s[i];
        if 48 <= c && c <= 55 {
            value = value * 8 + (c - 48) as u32;
        }
    }
    assert(s@.take(n as int) == s@);
    value
}

/// Tells whether a block is the header of a sparse entry.
fn check_sparse(block: &[u8]) -> (r: bool)
    requires
        block@.len() == 512,
    ensures
        r == is_sparse(block@),
{
    let mark: [u8; 8] = [117, 115, 116, 97, 114, 32, 32, 0];
    assert(mark@ == seq![117u8, 115, 116, 97, 114, 32, 32, 0]);
    if block[156] != 83 || !text::bytes_equal(slice_subrange(block, 257, 265), mark.as_slice()) {
        return false;
    }
    let field = slice_subrange(block, 148, 156);
    let end: usize = tun::zero_position(field);
    let front = slice_subrange(block, 0, 148);
    let back = slice_subrange(block, 156, 512);
    assert(front@ == block@.take(148));
    assert(back@ == block@.skip(156));
    assert(field@.subrange(0, end as int) == field@.take(end as int));
    read_octal(slice_subrange(field, 0, end)) == add_bytes(front) + add_bytes(back) + 256
}

/// Tells whether an extension that gives a very large size stands anywhere.
fn check_size_record(tar: &[u8]) -> (r: bool)
    ensures
        r == has_size_record(tar@),
{
    let mark: [u8; 6] = [32, 115, 105, 122, 101, 61];
    assert(mark@ == seq![32u8, 115, 105, 122, 101, 61]);
    let size: usize = tar.len();
    if size < 25 {
        return false;
    }
    for p in 0..size - 24
        invariant
            size == tar@.len(),
            size >= 25,
            mark@ == seq![32u8, 115, 105, 122, 101, 61],
            forall|q: int| 0 <= q < p ==> !size_record_at(tar@, q),
    {
        if text::bytes_equal(slice_subrange(tar, p, p + 6), mark.as_slice()) {
            let mut i: usize = p + 6;
            while i < p + 25 && ((48 <= tar[i] && tar[i] <= 57) || tar[i] == 43)
                invariant
                    size == tar@.len(),
                    p + 25 <= size,
                    p + 6 <= i <= p + 25,
                    forall|j: int| p + 6 <= j < i ==> 48 <= #[trigger] tar@[j] <= 57 || tar@[j] == 43,
                decreases p + 25 - i,
            {
                i = i + 1;
            }
            if i == p + 25 {
                assert(size_record_at(tar@, p as int));
                return true;
            }
            assert(!size_record_at(tar@, p as int)) by {
                assert(!(48 <= tar@[i as int] <= 57 || tar@[i as int] == 43));
            }
        }
    }
    false
}

/// Tells whether an archive can be taken apart.
pub fn is_sound_tar(tar: &[u8]) -> (r: bool)
    ensures
        r == sound_tar(tar@),
{
    let size: usize = tar.len();
    let n: usize = size / 512;
    let record = check_size_record(tar);
    for k in 0..n
        invariant
            size == tar@.len(),
            n == size / 512,
            record == has_size_record(tar@),
            forall|i: int|
                0 <= i < k ==> {
                    let block = #[trigger] block_of(tar@, i);
                    !is_oversized(block) && (is_extended(block) ==> !has_size_record(tar@))
                },
    {
        assert(512 * k + 512 <= size);
        let block = slice_subrange(tar, k * 512, k * 512 + 512);
        assert(block@ == block_of(tar@, k as int));
        if check_sparse(block) {
            if block[483] >= 128 {
                return false;
            }
            if block[482] == 1 && (record || (block[124] >= 128 && block[128] >= 64)) {
                return false;
            }
        }
    }
    true
}

/// The path of entry `index` of an archive: `None` where the archive cannot be
/// read that far, `Some(None)` behind the last entry.
pub uninterp spec fn entry_path(tar: Seq<u8>, index: nat) -> Option<Option<Seq<u8>>>;

/// The contents of entry `index` of an archive: `None` where they cannot be
/// read, `Some(None)` behind the last entry.
pub uninterp spec fn entry_body(tar: Seq<u8>, index: nat) -> Option<Option<Seq<u8>>>;

/// The size that entry `index` of an archive is said to have: `None` where the
/// archive cannot be read that far, `Some(None)` behind the last entry.
pub uninterp spec fn entry_size(tar: Seq<u8>, index: nat) -> Option<Option<u64>>;

/// Wraps `tar::Archive::entries`: the path of the entry with this number, as its
/// bytes. It depends on the archive and the number alone.
#[verifier::external_body]
pub(crate) fn read_entry_path(tar: &[u8], index: usize) -> (r: Result<
    Option<Vec<u8>>,
    std::io::Error,
>)
    requires
        sound_tar(tar@),
    ensures
        match r {
            Ok(Some(p)) => entry_path(tar@, index as nat) == Some(Some(p@)),
            Ok(None) => entry_path(tar@, index as nat) == Some(None::<Seq<u8>>),
            Err(_) => entry_path(tar@, index as nat) is None,
        },
{
    match tar::Archive::new(tar).entries()?.nth(index) {
        Some(entry) => Ok(Some(entry?.path_bytes().into_owned())),
        None => Ok(None),
    }
}

/// Wraps reading an entry of a `tar::Archive` to its end: the contents of the
/// entry with this number. They depend on the archive and the number alone.
#[verifier::external_body]
pub(crate) fn read_entry_body(tar: &[u8], index: usize) -> (r: Result<
    Option<Vec<u8>>,
    std::io::Error,
>)
    requires
        sound_tar(tar@),
    ensures
        match r {
            Ok(Some(b)) => entry_body(tar@, index as nat) == Some(Some(b@)),
            Ok(None) => entry_body(tar@, index as nat) == Some(None::<Seq<u8>>),
            Err(_) => entry_body(tar@, index as nat) is None,
        },
{
    match tar::Archive::new(tar).entries()?.nth(index) {
        Some(entry) => {
            let mut body = Vec::new();
            std::io::copy(&mut entry?, &mut body)?;
            Ok(Some(body))
        },
        None => Ok(None),
    }
}

/// Wraps `tar::Entry::size`: the size that the entry with this number is said to
/// have. It depends on the archive and the number alone.
#[verifier::external_body]
pub(crate) fn read_entry_size(tar: &[u8], index: usize) -> (r: Result<Option<u64>, std::io::Error>)
    requires
        sound_tar(tar@),
    ensures
        match r {
            Ok(size) => entry_size(tar@, index as nat) == Some(size),
            Err(_) => entry_size(tar@, index as nat) is None,
        },
{
    match tar::Archive::new(tar).entries()?.nth(index) {
        Some(entry) => Ok(Some(entry?.size())),
        None => Ok(None),
    }
}

/// The last component of a path: the last segment between slashes that is
/// neither empty nor `.`; none when that is `..`.
pub open spec fn file_name(path: Seq<u8>) -> Option<Seq<u8>>
    decreases path.len(),
{
    proof {
        lemma_last_slash(path);
    }
    let start = last_slash(path) + 1;
    let segment = path.skip(start);
    if segment.len() == 0 || segment == seq![46u8] {
        if start == 0 {
            None
        } else {
            file_name(path.take(start - 1))
        }
    } else if segment == seq![46u8, 46u8] {
        None
    } else {
        Some(segment)
    }
}

/// Position of the last slash, or -1 when there is none.
pub open spec fn last_slash(path: Seq<u8>) -> int
    decreases path.len(),
{
    if path.len() == 0 {
        -1
    } else if path.last() == 47 {
        path.len() - 1
    } else {
        last_slash(path.drop_last())
    }
}

/// The last slash is in the path.
pub proof fn lemma_last_slash(path: Seq<u8>)
    ensures
        -1 <= last_slash(path) < path.len(),
    decreases path.len(),
{
    if path.len() > 0 {
        lemma_last_slash(path.drop_last());
    }
}

/// Position behind the last slash.
fn segment_start(path: &[u8]) -> (r: usize)
    ensures
        r == last_slash(path@) + 1,
        r <= path@.len(),
{
    let mut i: usize = path.len();
    assert(path@.take(i as int) == path@);
    while i > 0
        invariant
            i <= path@.len(),
            last_slash(path@.take(i as int)) == last_slash(path@),
        decreases i,
    {
        let ghost front = path@.take(i as int);
        assert(front.drop_last() == path@.take(i - 1));
        assert(front.last() == path@[i - 1]);
        if path[i - 1] == 47 {
            return i;
        }
        i = i - 1;
    }
    0
}

/// Tells whether the last component of a path is `name`.
pub fn entry_matches(path: &[u8], name: &str) -> (r: bool)
    ensures
        r == (file_name(path@) == Some(encode_utf8(name@))),
    decreases path@.len(),
{
    let start: usize = segment_start(path);
    let segment = slice_subrange(path, start, path.len());
    assert(segment@ == path@.skip(start as int));
    let dot: [u8; 1] = [46];
    let dots: [u8; 2] = [46, 46];
    assert(dot@ == seq![46u8]);
    assert(dots@ == seq![46u8, 46u8]);
    if segment.len() == 0 || text::bytes_equal(segment, dot.as_slice()) {
        if start == 0 {
            return false;
        }
        let before = slice_subrange(path, 0, start - 1);
        assert(before@ == path@.take(start - 1));
        entry_matches(before, name)
    } else if text::bytes_equal(segment, dots.as_slice()) {
        false
    } else {
        text::bytes_equal(segment, name.as_bytes())
    }
}

/// Whether entry `j` is there and is not the one that is looked for.
pub open spec fn passed_over(tar: Seq<u8>, name: Seq<char>, j: nat) -> bool {
    entry_path(tar, j) matches Some(Some(p)) && file_name(p) != Some(encode_utf8(name))
}

/// Whether the search for `name` ends at entry `k`: the first that is not
/// passed over.
pub open spec fn search_ends(tar: Seq<u8>, name: Seq<char>, k: nat) -> bool {
    &&& k <= usize::MAX
    &&& forall|j: nat| j < k ==> #[trigger] passed_over(tar, name, j)
    &&& k == usize::MAX || !passed_over(tar, name, k)
}

/// Why a file cannot be taken out of an archive.
#[derive(Debug, Clone, Copy, PartialEq, Eq, Structural)]
pub enum ExtractError {
    /// The archive is damaged, or cannot be read.
    Unreadable,
    /// The archive has an entry whose size is out of bounds.
    Oversized,
    /// No entry has the name.
    NotFound,
}

/// Where the file is when the search for it ends at entry `k`.
pub open spec fn place(tar: Seq<u8>, k: nat) -> Result<nat, ExtractError> {
    if k == usize::MAX {
        Err(ExtractError::NotFound)
    } else {
        match entry_path(tar, k) {
            None => Err(ExtractError::Unreadable),
            Some(None) => Err(ExtractError::NotFound),
            Some(Some(_)) => Ok(k),
        }
    }
}

/// What is found when the search ends at entry `k`.
pub open spec fn found(tar: Seq<u8>, k: nat) -> Result<Seq<u8>, ExtractError> {
    match place(tar, k) {
        Err(e) => Err(e),
        Ok(k) => match entry_body(tar, k) {
            Some(Some(body)) => Ok(body),
            Some(None) => Err(ExtractError::NotFound),
            None => Err(ExtractError::Unreadable),
        },
    }
}

/// What is found in the front of a damaged archive when the search ends at entry
/// `k`: the file counts only where all of it is there.
pub open spec fn recovered(front: Seq<u8>, k: nat) -> Result<Seq<u8>, ExtractError> {
    match found(front, k) {
        Ok(body) => if entry_size(front, k) == Some(Some(body.len() as u64)) {
            Ok(body)
        } else {
            Err(ExtractError::Unreadable)
        },
        Err(_) => Err(ExtractError::Unreadable),
    }
}

/// What the result of a search holds.
pub open spec fn body_view(r: Result<Vec<u8>, ExtractError>) -> Result<Seq<u8>, ExtractError> {
    match r {
        Ok(v) => Ok(v@),
        Err(e) => Err(e),
    }
}

/// What the place of a file denotes.
pub open spec fn place_view(r: Result<usize, ExtractError>) -> Result<nat, ExtractError> {
    match r {
        Ok(k) => Ok(k as nat),
        Err(e) => Err(e),
    }
}

/// Finds the first file with this name in an archive.
pub fn find_entry(tar: &[u8], name: &str) -> (r: Result<usize, ExtractError>)
    requires
        sound_tar(tar@),
    ensures
        exists|k: nat| #[trigger] search_ends(tar@, name@, k) && place_view(r) == place(tar@, k),
{
    let mut i: usize = 0;
    while i < usize::MAX
        invariant
            sound_tar(tar@),
            forall|j: nat| j < i ==> #[trigger] passed_over(tar@, name@, j),
        decreases usize::MAX - i,
    {
        let path = match read_entry_path(tar, i) {
            Ok(Some(p)) => p,
            Ok(None) => {
                assert(search_ends(tar@, name@, i as nat));
                return Err(ExtractError::NotFound);
            },
            Err(_) => {
                assert(search_ends(tar@, name@, i as nat));
                return Err(ExtractError::Unreadable);
            },
        };
        if entry_matches(path.as_slice(), name) {
            assert(search_ends(tar@, name@, i as nat));
            return Ok(i);
        }
        assert(passed_over(tar@, name@, i as nat));
        i = i + 1;
    }
    assert(search_ends(tar@, name@, usize::MAX as nat));
    Err(ExtractError::NotFound)
}

/// Takes the first file with this name out of an archive.
pub fn extract_entry(tar: &[u8], name: &str) -> (r: Result<Vec<u8>, ExtractError>)
    requires
        sound_tar(tar@),
    ensures
        exists|k: nat| #[trigger] search_ends(tar@, name@, k) && body_view(r) == found(tar@, k),
{
    let i: usize = match find_entry(tar, name) {
        Ok(i) => i,
        Err(e) => return Err(e),
    };
    match read_entry_body(tar, i) {
        Ok(Some(body)) => Ok(body),
        Ok(None) => Err(ExtractError::NotFound),
        Err(_) => Err(ExtractError::Unreadable),
    }
}

/// Takes the first file with this name out of the front of a damaged archive.
pub fn recover_entry(front: &[u8], name: &str) -> (r: Result<Vec<u8>, ExtractError>)
    requires
        sound_tar(front@),
    ensures
        exists|k: nat|
            #[trigger] search_ends(front@, name@, k) && body_view(r) == recovered(front@, k),
{
    let i: usize = match find_entry(front, name) {
        Ok(i) => i,
        Err(_) => return Err(ExtractError::Unreadable),
    };
    match (read_entry_body(front, i), read_entry_size(front, i)) {
        (Ok(Some(body)), Ok(Some(size))) => if body.len() as u64 == size {
            Ok(body)
        } else {
            Err(ExtractError::Unreadable)
        },
        _ => Err(ExtractError::Unreadable),
    }
}

/// Takes the first file with this name out of a compressed archive. One that is
/// damaged still yields a file that stands before the damage.
pub fn extract_binary(archive: &[u8], name: &str) -> (r: Result<Vec<u8>, ExtractError>)
    ensures
        match unzipped(archive@) {
            Some(tar) => if sound_tar(tar) {
                exists|k: nat|
                    #[trigger] search_ends(tar, name@, k) && body_view(r) == found(tar, k)
            } else {
                body_view(r) == Err::<Seq<u8>, ExtractError>(ExtractError::Oversized)
            },
            None => {
                let front = unzipped_front(archive@);
                if sound_tar(front) {
                    exists|k: nat|
                        #[trigger] search_ends(front, name@, k) && body_view(r) == recovered(
                            front,
                            k,
                        )
                } else {
                    body_view(r) == Err::<Seq<u8>, ExtractError>(ExtractError::Oversized)
                }
            },
        },
{
    match unzip(archive) {
        Ok(tar) => {
            if is_sound_tar(tar.as_slice()) {
                extract_entry(tar.as_slice(), name)
            } else {
                Err(ExtractError::Oversized)
            }
        },
        Err(_) => {
            let front = unzip_front(archive);
            if is_sound_tar(front.as_slice()) {
                recover_entry(front.as_slice(), name)
            } else {
                Err(ExtractError::Oversized)
            }
        },
    }
}

/// A search ends at one entry only, so an archive and a name settle what is
/// found.
pub proof fn lemma_search_settled(tar: Seq<u8>, name: Seq<char>, j: nat, k: nat)
    requires
        search_ends(tar, name, j),
        search_ends(tar, name, k),
    ensures
        j == k,
{
    if j < k {
        assert(passed_over(tar, name, j));
    } else if k < j {
        assert(passed_over(tar, name, k));
    }
}

// ---------------------------------------------------------------------------
// Restart
// ---------------------------------------------------------------------------

pub const SERVICE_SUFFIX: &'static str = ".service";

pub const USER_SLICE: &'static str = "/user.slice/";

/// The first line that mentions a service, if any.
pub open spec fn service_line(cgroup: Seq<char>) -> Option<Seq<char>>
    decreases cgroup.len(),
{
    proof {
        text::lemma_find_first(cgroup, '\n');
    }
    if cgroup.len() == 0 {
        None
    } else if text::contains_seq(text::first_line(cgroup), SERVICE_SUFFIX@) {
        Some(text::first_line(cgroup))
    } else {
        service_line(text::after_line(cgroup))
    }
}

/// The last segment of a line, between slashes, that names a service.
pub open spec fn last_service(segments: Seq<Seq<char>>) -> Option<Seq<char>>
    decreases segments.len(),
{
    if segments.len() == 0 {
        None
    } else if SERVICE_SUFFIX@.is_suffix_of(segments.last()) {
        Some(segments.last())
    } else {
        last_service(segments.drop_last())
    }
}

/// The service that a control group belongs to, and whether it is a user's.
pub open spec fn unit_of(cgroup: Seq<char>) -> Option<(Seq<char>, bool)> {
    match service_line(cgroup) {
        Some(line) => match last_service(text::split_seq(line, '/')) {
            Some(unit) => Some((unit, text::contains_seq(line, USER_SLICE@))),
            None => None,
        },
        None => None,
    }
}

/// The arguments for the service manager to restart a service.
pub open spec fn restart_args(unit: Seq<char>, user: bool) -> Seq<Seq<char>> {
    if user {
        seq!["--user"@, "restart"@, "--no-block"@, unit]
    } else {
        seq!["restart"@, "--no-block"@, unit]
    }
}

fn find_last_service<'a>(line: &'a str) -> (r: Option<&'a str>)
    ensures
        match last_service(text::split_seq(line@, '/')) {
            Some(unit) => r matches Some(u) && u@ == unit,
            None => r is None,
        },
{
    let segments = text::split(line, '/');
    let ghost all = segments@.map_values(|t: &str| t@);
    assert(all == text::split_seq(line@, '/'));
    assert(all.len() == segments@.len());
    let mut i: usize = segments.len();
    assert(all.take(i as int) == all);
    while i > 0
        invariant
            i <= segments@.len(),
            all == segments@.map_values(|t: &str| t@),
            all.len() == segments@.len(),
            all == text::split_seq(line@, '/'),
            last_service(all.take(i as int)) == last_service(all),
        decreases i,
    {
        let ghost front = all.take(i as int);
        assert(front.drop_last() == all.take(i - 1));
        assert(front.last() == segments@[i - 1]@);
        let segment = segments[i - 1];
        if text::strip_suffix(segment, SERVICE_SUFFIX).is_some() {
            return Some(segment);
        }
        i = i - 1;
    }
    None
}

/// The arguments for the service manager to restart the service that a control
/// group belongs to, if it belongs to one.
pub fn restart_via_systemd(cgroup: &str) -> (r: Option<Vec<String>>)
    ensures
        match unit_of(cgroup@) {
            Some((unit, user)) => r matches Some(args) && text::views(args@) == restart_args(
                unit,
                user,
            ),
            None => r is None,
        },
{
    let mut rest: &str = cgroup;
    while rest.unicode_len() > 0
        invariant
            service_line(rest@) == service_line(cgroup@),
        decreases rest@.len(),
    {
        proof {
            text::lemma_find_first(rest@, '\n');
        }
        let (line, after) = text::next_line(rest);
        if text::contains(line, SERVICE_SUFFIX) {
            let user = text::contains(line, USER_SLICE);
            let unit = find_last_service(line)?;
            let args = if user {
                let parts: [&str; 4] = ["--user", "restart", "--no-block", unit];
                assert(text::str_views(parts@) == restart_args(unit@, user));
                text::to_strings(parts.as_slice())
            } else {
                let parts: [&str; 3] = ["restart", "--no-block", unit];
                assert(text::str_views(parts@) == restart_args(unit@, user));
                text::to_strings(parts.as_slice())
            };
            return Some(args);
        }
        rest = after;
    }
    None
}

// ---------------------------------------------------------------------------
// Laws
// ---------------------------------------------------------------------------

/// The file for a Linux platform is named after it: its architecture and its C
/// library stand in the name as they are. It is built for the two architectures
/// and the two C libraries, and for no others.
pub proof fn lemma_linux_artifact(arch: Seq<char>, env: Seq<char>)
    ensures
        artifact_of("linux"@, arch, env) matches Some(name) ==> name == "auto-server-linux-"@ + arch
            + "-unknown-linux-"@ + env,
        artifact_of("linux"@, arch, env) is Some <==> (arch == "x86_64"@ || arch == "aarch64"@) && (
        env == "gnu"@ || env == "musl"@),
{
    reveal_strlit("linux");
    reveal_strlit("macos");
    reveal_strlit("windows");
    reveal_strlit("x86_64");
    reveal_strlit("aarch64");
    reveal_strlit("gnu");
    reveal_strlit("musl");
    reveal_strlit("auto-server-linux-");
    reveal_strlit("-unknown-linux-");
    reveal_strlit("auto-server-linux-x86_64-unknown-linux-gnu");
    reveal_strlit("auto-server-linux-x86_64-unknown-linux-musl");
    reveal_strlit("auto-server-linux-aarch64-unknown-linux-gnu");
    reveal_strlit("auto-server-linux-aarch64-unknown-linux-musl");
    assert("linux"@.len() != "windows"@.len());
    assert("linux"@[0] != "macos"@[0]);
    assert("x86_64"@.len() != "aarch64"@.len() && "gnu"@.len() != "musl"@.len());
    let x = "x86_64"@;
    let a = "aarch64"@;
    let g = "gnu"@;
    let m = "musl"@;
    assert("auto-server-linux-x86_64-unknown-linux-gnu"@ == "auto-server-linux-"@ + x
        + "-unknown-linux-"@ + g);
    assert("auto-server-linux-x86_64-unknown-linux-musl"@ == "auto-server-linux-"@ + x
        + "-unknown-linux-"@ + m);
    assert("auto-server-linux-aarch64-unknown-linux-gnu"@ == "auto-server-linux-"@ + a
        + "-unknown-linux-"@ + g);
    assert("auto-server-linux-aarch64-unknown-linux-musl"@ == "auto-server-linux-"@ + a
        + "-unknown-linux-"@ + m);
}

/// The file for any platform begins with the system and the architecture that it
/// is for. Beside Linux there is one for macOS on `aarch64` and one for Windows on
/// `x86_64`, whatever the C library is.
pub proof fn lemma_artifact_named(os: Seq<char>, arch: Seq<char>, env: Seq<char>)
    ensures
        artifact_of(os, arch, env) matches Some(name) ==> ("auto-server-"@ + os + "-"@ + arch
            + "-"@).is_prefix_of(name),
        os == "macos"@ ==> (artifact_of(os, arch, env) is Some <==> arch == "aarch64"@),
        os == "windows"@ ==> (artifact_of(os, arch, env) is Some <==> arch == "x86_64"@),
        os == "macos"@ ==> (artifact_of(os, arch, env) matches Some(name) ==> name
            == "auto-server-macos-"@ + arch + "-apple-darwin"@),
        os == "windows"@ ==> (artifact_of(os, arch, env) matches Some(name) ==> name
            == "auto-server-windows-"@ + arch + "-pc-windows-msvc"@),
        artifact_of(os, arch, env) is Some ==> os == "linux"@ || os == "macos"@ || os
            == "windows"@,
{
    reveal_strlit("linux");
    reveal_strlit("macos");
    reveal_strlit("windows");
    reveal_strlit("x86_64");
    reveal_strlit("aarch64");
    reveal_strlit("auto-server-");
    reveal_strlit("-");
    reveal_strlit("auto-server-linux-");
    reveal_strlit("-unknown-linux-");
    reveal_strlit("auto-server-macos-aarch64-apple-darwin");
    reveal_strlit("auto-server-windows-x86_64-pc-windows-msvc");
    assert("linux"@.len() != "windows"@.len() && "macos"@.len() != "windows"@.len());
    assert("linux"@[0] != "macos"@[0]);
    let front = "auto-server-"@ + os + "-"@ + arch + "-"@;
    if os == "linux"@ {
        lemma_linux_artifact(arch, env);
        let name = "auto-server-linux-"@ + arch + "-unknown-linux-"@ + env;
        assert("auto-server-linux-"@ == "auto-server-"@ + "linux"@ + "-"@);
        assert(name.take(front.len() as int) == front);
    } else if os == "macos"@ && arch == "aarch64"@ {
        let name = "auto-server-macos-aarch64-apple-darwin"@;
        reveal_strlit("auto-server-macos-");
        reveal_strlit("-apple-darwin");
        assert(name == "auto-server-macos-"@ + "aarch64"@ + "-apple-darwin"@);
        let want = "auto-server-"@ + "macos"@ + "-"@ + "aarch64"@ + "-"@;
        assert(name.take(want.len() as int) == want);
    } else if os == "windows"@ && arch == "x86_64"@ {
        let name = "auto-server-windows-x86_64-pc-windows-msvc"@;
        reveal_strlit("auto-server-windows-");
        reveal_strlit("-pc-windows-msvc");
        assert(name == "auto-server-windows-"@ + "x86_64"@ + "-pc-windows-msvc"@);
        let want = "auto-server-"@ + "windows"@ + "-"@ + "x86_64"@ + "-"@;
        assert(name.take(want.len() as int) == want);
    }
}

/// Different Linux platforms take different files, and no file serves two
/// systems.
pub proof fn lemma_artifacts_apart(
    os: Seq<char>,
    arch: Seq<char>,
    env: Seq<char>,
    other_os: Seq<char>,
    other_arch: Seq<char>,
    other_env: Seq<char>,
)
    requires
        artifact_of(os, arch, env) is Some,
        artifact_of(os, arch, env) == artifact_of(other_os, other_arch, other_env),
    ensures
        os == other_os,
        arch == other_arch,
        os == "linux"@ ==> env == other_env,
{
    reveal_strlit("linux");
    reveal_strlit("macos");
    reveal_strlit("windows");
    reveal_strlit("x86_64");
    reveal_strlit("aarch64");
    reveal_strlit("gnu");
    reveal_strlit("musl");
    reveal_strlit("auto-server-linux-x86_64-unknown-linux-gnu");
    reveal_strlit("auto-server-linux-x86_64-unknown-linux-musl");
    reveal_strlit("auto-server-linux-aarch64-unknown-linux-gnu");
    reveal_strlit("auto-server-linux-aarch64-unknown-linux-musl");
    reveal_strlit("auto-server-macos-aarch64-apple-darwin");
    reveal_strlit("auto-server-windows-x86_64-pc-windows-msvc");
    lemma_artifact_named(os, arch, env);
    lemma_artifact_named(other_os, other_arch, other_env);
    lemma_linux_artifact(arch, env);
    lemma_linux_artifact(other_arch, other_env);
    let xg = "auto-server-linux-x86_64-unknown-linux-gnu"@;
    let xm = "auto-server-linux-x86_64-unknown-linux-musl"@;
    let ag = "auto-server-linux-aarch64-unknown-linux-gnu"@;
    let am = "auto-server-linux-aarch64-unknown-linux-musl"@;
    let d = "auto-server-macos-aarch64-apple-darwin"@;
    let w = "auto-server-windows-x86_64-pc-windows-msvc"@;
    assert(xg[12] == 'l' && xm[12] == 'l' && ag[12] == 'l' && am[12] == 'l' && d[12] == 'm' && w[12]
        == 'w');
    assert(xg[18] == 'x' && xm[18] == 'x' && ag[18] == 'a' && am[18] == 'a');
    assert(xg[xg.len() - 1] == 'u' && xm[xm.len() - 1] == 'l' && ag[ag.len() - 1] == 'u'
        && am[am.len() - 1] == 'l');
}

/// What a number and a unit make together.
proof fn lemma_interval_value(l: Seq<char>, n: nat, unit: char, r: Seq<char>)
    requires
        text::all_space(l),
        text::all_space(r),
        !text::is_space(unit),
        n <= u64::MAX,
    ensures
        ({
            let got = interval_of(l + text::decimal_digits(n).push(unit) + r);
            match unit_secs(unit) {
                Some(secs) => if n * secs < MIN_INTERVAL_SECS {
                    got == Err::<nat, Seq<char>>(INTERVAL_TOO_SHORT@)
                } else {
                    got == Ok::<nat, Seq<char>>(n * secs)
                },
                None => got == Err::<nat, Seq<char>>(
                    UNKNOWN_UNIT@ + seq![unit] + SUPPORTED_UNITS@,
                ),
            }
        }),
{
    let digits = text::decimal_digits(n);
    text::lemma_decimal_round_trip(n);
    let t = digits.push(unit);
    assert(text::is_digit(digits[0]));
    assert(t[0] == digits[0]);
    assert(t.last() == unit);
    assert(t.drop_last() == digits);
    text::lemma_trim(l, t, r);
    assert(text::decimal_up_to(digits, u64::MAX as nat) == Some(n));
}

/// An interval is a whole number of hours, days of 24 hours, weeks of 7 days or
/// months of 30 days, with white space round it or not. Zero of them is too
/// short; another unit is refused, and so is anything but a number before it.
pub proof fn lemma_intervals(l: Seq<char>, n: nat, unit: char, r: Seq<char>)
    requires
        text::all_space(l),
        text::all_space(r),
        !text::is_space(unit),
        n <= u64::MAX,
    ensures
        ({
            let got = interval_of(l + text::decimal_digits(n).push(unit) + r);
            let known = unit == 'h' || unit == 'd' || unit == 'w' || unit == 'm';
            &&& unit == 'h' && n > 0 ==> got == Ok::<nat, Seq<char>>(n * 60 * 60)
            &&& unit == 'd' && n > 0 ==> got == Ok::<nat, Seq<char>>(n * 24 * 60 * 60)
            &&& unit == 'w' && n > 0 ==> got == Ok::<nat, Seq<char>>(n * 7 * 24 * 60 * 60)
            &&& unit == 'm' && n > 0 ==> got == Ok::<nat, Seq<char>>(n * 30 * 24 * 60 * 60)
            &&& known && n == 0 ==> got == Err::<nat, Seq<char>>(
                "minimum auto-upgrade interval is 1h"@,
            )
            &&& !known ==> got == Err::<nat, Seq<char>>(
                "unknown time unit '"@ + seq![unit]
                    + "'. Supported units are h (hours), d (days), w (weeks), m (months)."@,
            )
        }),
        interval_of(l + r) == Err::<nat, Seq<char>>("empty interval"@),
        interval_of(l + seq![unit] + r) == Err::<nat, Seq<char>>("invalid number"@),
{
    lemma_interval_value(l, n, unit, r);
    text::lemma_trim(l, seq![unit], r);
    assert(l + r == l + Seq::<char>::empty() + r);
    text::lemma_trim(l, Seq::empty(), r);
    assert(seq![unit].drop_last() == Seq::<char>::empty());
    if unit == 'h' {
        assert(unit_secs(unit) == Some(3600nat));
        assert(n * 3600nat == n * 60 * 60);
    } else if unit == 'd' {
        assert(unit_secs(unit) == Some(86400nat));
        assert(n * 86400nat == n * 24 * 60 * 60);
    } else if unit == 'w' {
        assert(unit_secs(unit) == Some(604800nat));
        assert(n * 604800nat == n * 7 * 24 * 60 * 60);
    } else if unit == 'm' {
        assert(unit_secs(unit) == Some(2592000nat));
        assert(n * 2592000nat == n * 30 * 24 * 60 * 60);
    } else {
        assert(unit_secs(unit) is None);
    }
}

/// Leading `v`s mean nothing.
pub proof fn lemma_v_ignored(a: Seq<char>, b: Seq<char>)
    ensures
        newer(seq!['v'] + a, b) == newer(a, b),
        newer(a, seq!['v'] + b) == newer(a, b),
{
    assert((seq!['v'] + a).drop_first() == a);
    assert((seq!['v'] + b).drop_first() == b);
}

/// What stands in a version of three numbers.
proof fn lemma_three_numbers(x: nat, y: nat, z: nat)
    requires
        x <= u32::MAX,
        y <= u32::MAX,
        z <= u32::MAX,
    ensures
        ({
            let v = text::decimal_digits(x) + seq!['.'] + (text::decimal_digits(y) + seq!['.']
                + text::decimal_digits(z));
            &&& number_at(v, 0) == x
            &&& number_at(v, 1) == y
            &&& number_at(v, 2) == z
            &&& forall|i: int| i >= 3 ==> #[trigger] number_at(v, i) == 0
            &&& !v.contains('-')
            &&& v.len() > 0
            &&& v[0] != 'v'
        }),
{
    let a = text::decimal_digits(x);
    let b = text::decimal_digits(y);
    let c = text::decimal_digits(z);
    text::lemma_decimal_round_trip(x);
    text::lemma_decimal_round_trip(y);
    text::lemma_decimal_round_trip(z);
    assert(text::is_digit(a[0]));
    assert(!a.contains('.') && !b.contains('.') && !c.contains('.')) by {
        assert forall|i: int| 0 <= i < a.len() implies a[i] != '.' by {
            assert(text::is_digit(a[i]));
        }
        assert forall|i: int| 0 <= i < b.len() implies b[i] != '.' by {
            assert(text::is_digit(b[i]));
        }
        assert forall|i: int| 0 <= i < c.len() implies c[i] != '.' by {
            assert(text::is_digit(c[i]));
        }
    }
    let w = b + seq!['.'] + c;
    let v = a + seq!['.'] + w;
    text::lemma_split(a, '.', w);
    text::lemma_split(b, '.', c);
    text::lemma_split(c, '.', c);
    assert(text::split_seq(v, '.') == seq![a, b, c]);
    assert forall|i: int| 0 <= i < v.len() implies v[i] != '-' by {
        if i < a.len() {
            assert(text::is_digit(a[i]));
        } else if a.len() < i < a.len() + 1 + b.len() {
            assert(text::is_digit(b[i - a.len() - 1]));
        } else if i > a.len() + 1 + b.len() {
            assert(text::is_digit(c[i - a.len() - b.len() - 2]));
        }
    }
}

/// Versions of three numbers are compared number by number, and as numbers: 10 is
/// above 9.
pub proof fn lemma_numbers_compared(x: nat, y: nat, z: nat, p: nat, q: nat, r: nat)
    requires
        x <= u32::MAX,
        y <= u32::MAX,
        z <= u32::MAX,
        p <= u32::MAX,
        q <= u32::MAX,
        r <= u32::MAX,
    ensures
        newer(
            text::decimal_digits(x) + seq!['.'] + (text::decimal_digits(y) + seq!['.']
                + text::decimal_digits(z)),
            text::decimal_digits(p) + seq!['.'] + (text::decimal_digits(q) + seq!['.']
                + text::decimal_digits(r)),
        ) <==> (x < p || (x == p && (y < q || (y == q && z < r)))),
{
    let a = text::decimal_digits(x) + seq!['.'] + (text::decimal_digits(y) + seq!['.']
        + text::decimal_digits(z));
    let b = text::decimal_digits(p) + seq!['.'] + (text::decimal_digits(q) + seq!['.']
        + text::decimal_digits(r));
    lemma_three_numbers(x, y, z);
    lemma_three_numbers(p, q, r);
    lemma_plain_version(a);
    lemma_plain_version(b);
    if x < p {
        assert(below_at(a, b, 0));
    } else if x > p {
        assert(below_at(b, a, 0));
        lemma_not_newer(a, b, 0);
    } else if y < q {
        assert(below_at(a, b, 1));
    } else if y > q {
        assert(below_at(b, a, 1));
        lemma_not_newer(a, b, 1);
    } else if z < r {
        assert(below_at(a, b, 2));
    } else if z > r {
        assert(below_at(b, a, 2));
        lemma_not_newer(a, b, 2);
    }
}

/// A version without a hyphen, and without a `v` in front, is its own main part
/// and has no pre-release part; what is put behind a hyphen is that part.
pub proof fn lemma_plain_version(v: Seq<char>)
    requires
        !v.contains('-'),
        v.len() > 0,
        v[0] != 'v',
    ensures
        main_of(v) == v,
        pre_of(v) is None,
        forall|pre: Seq<char>|
            main_of(#[trigger] (v + seq!['-'] + pre)) == v && pre_of(v + seq!['-'] + pre) == Some(
                pre,
            ),
{
    let n = v.len() as int;
    assert forall|i: int| 0 <= i < n implies v[i] != '-' by {
        assert(v.contains(v[i]));
    }
    text::lemma_find_first_unique(v, '-', n);
    assert(v.take(n) == v);
    assert forall|pre: Seq<char>|
        main_of(#[trigger] (v + seq!['-'] + pre)) == v && pre_of(v + seq!['-'] + pre) == Some(
            pre,
        ) by {
        let s = v + seq!['-'] + pre;
        assert(s[0] == v[0]);
        text::lemma_find_first_unique(s, '-', n);
        assert(s.take(n) == v);
        assert(s.skip(n + 1) == pre);
    }
}

/// A release is newer than each of its pre-releases, a pre-release is never newer
/// than its release, and pre-releases are in the order of their characters.
pub proof fn lemma_pre_releases(v: Seq<char>, pre: Seq<char>, other: Seq<char>)
    requires
        !v.contains('-'),
        v.len() > 0,
        v[0] != 'v',
    ensures
        newer(v + seq!['-'] + pre, v),
        !newer(v, v + seq!['-'] + pre),
        newer(v + seq!['-'] + pre, v + seq!['-'] + other) <==> text::text_before(pre, other),
{
    lemma_plain_version(v);
    assert(main_of(v + seq!['-'] + pre) == v);
    assert(main_of(v + seq!['-'] + other) == v);
    if main_below(v, v) {
        let i = choose|i: int| below_at(v, v, i);
        assert(below_at(v, v, i));
    }
}

/// A number that is left out counts as zero.
pub proof fn lemma_missing_numbers(v: Seq<char>, i: int)
    requires
        i >= text::split_seq(v, '.').len(),
    ensures
        number_at(v, i) == 0,
{
}

/// The releases are looked for at the project's address: all of them where
/// pre-releases count, the latest otherwise.
pub proof fn lemma_addresses()
    ensures
        where_to_look(false) == where_to_look(true) + "/latest"@,
        where_to_look(true)
            == "https://api.github.com/repos/Yifei0727/moon-toll-station/releases"@,
{
    reveal_strlit("https://api.github.com/repos/Yifei0727/moon-toll-station/releases");
    reveal_strlit("https://api.github.com/repos/Yifei0727/moon-toll-station/releases/latest");
    reveal_strlit("/latest");
    assert("https://api.github.com/repos/Yifei0727/moon-toll-station/releases/latest"@
        == "https://api.github.com/repos/Yifei0727/moon-toll-station/releases"@ + "/latest"@);
}

/// The file of a name is the first one that has it: one that is put in front
/// counts when it has the name, and does not matter when it has not.
pub proof fn lemma_first_asset(asset: Asset, assets: Seq<Asset>, name: Seq<char>)
    ensures
        asset.name@ == name ==> url_of(seq![asset] + assets, name) == Some(
            asset.browser_download_url@,
        ),
        asset.name@ != name ==> url_of(seq![asset] + assets, name) == url_of(assets, name),
        url_of(Seq::<Asset>::empty(), name) is None,
{
    assert((seq![asset] + assets).drop_first() == assets);
}

/// What is done about releases: nothing without one; nothing when the first is
/// not newer, whatever the others are; else the file that is named like the
/// artifact, with `.tar.gz` behind it, is downloaded.
pub proof fn lemma_plan(
    current: Seq<char>,
    release: Release,
    others: Seq<Release>,
    artifact: Seq<char>,
)
    ensures
        plan_of(current, Seq::<Release>::empty(), artifact) is NoRelease,
        !newer(current, release.tag_name@) ==> plan_of(
            current,
            seq![release] + others,
            artifact,
        ) is UpToDate,
        newer(current, release.tag_name@) ==> match url_of(
            release.assets@,
            artifact + ".tar.gz"@,
        ) {
            Some(address) => plan_of(current, seq![release] + others, artifact)
                == UpgradePlanView::Download(address),
            None => plan_of(current, seq![release] + others, artifact)
                == UpgradePlanView::MissingAsset(artifact + ".tar.gz"@),
        },
{
}

/// The process is left, after two seconds, exactly when it was upgraded.
pub proof fn lemma_after_check(upgraded: Option<bool>)
    ensures
        after_check(upgraded) == AfterCheck::Exit(2) <==> upgraded == Some(true),
        after_check(upgraded) == AfterCheck::Wait <==> upgraded != Some(true),
{
}

/// The last slash is the one with no other behind it.
proof fn lemma_last_slash_at(path: Seq<u8>, k: int)
    requires
        -1 <= k < path.len(),
        forall|i: int| k < i < path.len() ==> path[i] != 47,
        k >= 0 ==> path[k] == 47,
    ensures
        last_slash(path) == k,
    decreases path.len(),
{
    if path.len() > 0 && path.last() != 47 {
        lemma_last_slash_at(path.drop_last(), k);
    }
}

/// The last component of a path is what follows its last slash, whatever stands
/// before; a slash, or `/.`, at the end does not count; `..` is no component.
pub proof fn lemma_file_names(dir: Seq<u8>, name: Seq<u8>)
    requires
        name.len() > 0,
        !name.contains(47u8),
        name != seq![46u8],
        name != seq![46u8, 46u8],
    ensures
        file_name(name) == Some(name),
        file_name(dir + seq![47u8] + name) == Some(name),
        file_name(dir + seq![47u8]) == file_name(dir),
        file_name(dir + seq![47u8, 46u8]) == file_name(dir),
        file_name(dir + seq![47u8, 46u8, 46u8]) is None,
        file_name(Seq::<u8>::empty()) is None,
{
    assert forall|i: int| 0 <= i < name.len() implies name[i] != 47 by {
        assert(name.contains(name[i]));
    }
    let n = dir.len() as int;
    lemma_last_slash_at(name, -1);
    assert(name.skip(0) == name);
    let a = dir + seq![47u8] + name;
    lemma_last_slash_at(a, n);
    assert(a.skip(n + 1) == name);
    let b = dir + seq![47u8];
    lemma_last_slash_at(b, n);
    assert(b.skip(n + 1).len() == 0);
    assert(b.take(n) == dir);
    let c = dir + seq![47u8, 46u8];
    lemma_last_slash_at(c, n);
    assert(c.skip(n + 1) == seq![46u8]);
    assert(c.take(n) == dir);
    let d = dir + seq![47u8, 46u8, 46u8];
    lemma_last_slash_at(d, n);
    assert(d.skip(n + 1) == seq![46u8, 46u8]);
    assert(seq![46u8, 46u8].len() != seq![46u8].len());
}

/// What is taken out of an archive is the contents of the first entry with the
/// name, and of no other; an archive without one has nothing to take.
pub proof fn lemma_found(tar: Seq<u8>, name: Seq<char>, k: nat, body: Seq<u8>)
    requires
        search_ends(tar, name, k),
    ensures
        found(tar, k) == Ok::<Seq<u8>, ExtractError>(body) ==> {
            &&& entry_body(tar, k) == Some(Some(body))
            &&& entry_path(tar, k) matches Some(Some(p)) && file_name(p) == Some(encode_utf8(name))
            &&& forall|j: nat|
                j < k ==> !((#[trigger] entry_path(tar, j)) matches Some(Some(p)) && file_name(p)
                    == Some(encode_utf8(name)))
        },
        k < usize::MAX && entry_path(tar, k) == Some(None::<Seq<u8>>) ==> found(tar, k) == Err::<
            Seq<u8>,
            ExtractError,
        >(ExtractError::NotFound),
        k < usize::MAX && entry_path(tar, k) is None ==> found(tar, k) == Err::<
            Seq<u8>,
            ExtractError,
        >(ExtractError::Unreadable),
        k < usize::MAX && (entry_path(tar, k) matches Some(Some(_))) && entry_body(tar, k) == Some(
            Some(body),
        ) ==> found(tar, k) == Ok::<Seq<u8>, ExtractError>(body),
{
    assert forall|j: nat| j < k implies !((#[trigger] entry_path(tar, j)) matches Some(Some(p))
        && file_name(p) == Some(encode_utf8(name))) by {
        assert(passed_over(tar, name, j));
    }
}

/// What is recovered from a damaged archive is what is found in it, and all of
/// it: as many bytes as the entry is said to have. Everything else is unreadable.
pub proof fn lemma_recovered(front: Seq<u8>, k: nat, body: Seq<u8>)
    requires
        body.len() <= u64::MAX,
    ensures
        recovered(front, k) == Ok::<Seq<u8>, ExtractError>(body) <==> found(front, k) == Ok::<
            Seq<u8>,
            ExtractError,
        >(body) && (entry_size(front, k) matches Some(Some(n)) && n == body.len()),
        recovered(front, k) is Err ==> recovered(front, k) == Err::<Seq<u8>, ExtractError>(
            ExtractError::Unreadable,
        ),
{
}

/// An archive without a sparse entry can be taken apart: only the type `S` makes
/// an entry sparse.
pub proof fn lemma_sound_without_sparse(tar: Seq<u8>)
    requires
        forall|k: int| 0 <= k < tar.len() / 512 ==> #[trigger] tar[512 * k + 156] != 83,
    ensures
        sound_tar(tar),
{
    assert forall|k: int| 0 <= k < tar.len() / 512 implies {
        let block = #[trigger] block_of(tar, k);
        !is_oversized(block) && (is_extended(block) ==> !has_size_record(tar))
    } by {
        assert(tar[512 * k + 156] != 83);
        assert(block_of(tar, k)[156] == tar[512 * k + 156]);
    }
}

/// The line with the service is the first that mentions one: a line in front that
/// mentions none does not matter, and one that does is the one.
pub proof fn lemma_service_line(line: Seq<char>, rest: Seq<char>)
    requires
        !line.contains('\n'),
    ensures
        text::contains_seq(line, ".service"@) ==> service_line(line + seq!['\r', '\n'] + rest)
            == Some(line),
        !text::contains_seq(line, ".service"@) ==> service_line(line + seq!['\r', '\n'] + rest)
            == service_line(rest),
        service_line(Seq::<char>::empty()) is None,
{
    text::lemma_line(line, rest);
}

/// The unit is the last segment that ends in `.service`: a segment behind it that
/// does not is passed over, and one that does takes its place.
pub proof fn lemma_last_service(segments: Seq<Seq<char>>, segment: Seq<char>)
    ensures
        ".service"@.is_suffix_of(segment) ==> last_service(segments.push(segment)) == Some(segment),
        !".service"@.is_suffix_of(segment) ==> last_service(segments.push(segment)) == last_service(
            segments,
        ),
        last_service(Seq::<Seq<char>>::empty()) is None,
{
    assert(segments.push(segment).drop_last() == segments);
}

/// A control group that ends in a unit names it, for whatever path stands before,
/// and it is a user's exactly when the path leads through `/user.slice/`.
pub proof fn lemma_unit(dir: Seq<char>, name: Seq<char>)
    requires
        !dir.contains('\n'),
        !name.contains('\n'),
        !name.contains('/'),
    ensures
        ({
            let line = dir + seq!['/'] + (name + ".service"@);
            unit_of(line) == Some((name + ".service"@, text::contains_seq(line, "/user.slice/"@)))
        }),
{
    reveal_strlit(".service");
    let unit = name + ".service"@;
    let line = dir + seq!['/'] + unit;
    assert forall|i: int| 0 <= i < unit.len() implies unit[i] != '\n' && unit[i] != '/' by {
        if i < name.len() {
            assert(name.contains(name[i]));
        }
    }
    assert forall|i: int| 0 <= i < line.len() implies line[i] != '\n' by {
        if i < dir.len() {
            assert(dir.contains(dir[i]));
        }
    }
    assert(!line.contains('\n'));
    assert(!unit.contains('/'));
    text::lemma_line(line, Seq::empty());
    text::lemma_contains(dir + seq!['/'] + name, ".service"@, Seq::empty());
    assert(line == dir + seq!['/'] + name + ".service"@ + Seq::<char>::empty());
    lemma_split_last(dir, '/', unit);
    let segments = text::split_seq(line, '/');
    assert(segments.last() == unit);
    assert(unit.skip(unit.len() - 8) == ".service"@);
    assert(".service"@.is_suffix_of(unit));
}

/// What follows the last separator is the last piece.
proof fn lemma_split_last(dir: Seq<char>, c: char, name: Seq<char>)
    requires
        !name.contains(c),
    ensures
        text::split_seq(dir + seq![c] + name, c).len() > 0,
        text::split_seq(dir + seq![c] + name, c).last() == name,
    decreases dir.len(),
{
    let s = dir + seq![c] + name;
    let f = text::find_first(dir, c);
    text::lemma_find_first(dir, c);
    if f < dir.len() {
        assert forall|i: int| 0 <= i < f implies s[i] != c by {
            assert(s[i] == dir[i]);
        }
        text::lemma_find_first_unique(s, c, f);
        assert(s.skip(f + 1) == dir.skip(f + 1) + seq![c] + name);
        lemma_split_last(dir.skip(f + 1), c, name);
    } else {
        assert(!dir.contains(c));
        text::lemma_split(dir, c, name);
        text::lemma_split(name, c, name);
    }
}

/// The service manager is asked to restart the unit and not to wait for it: a
/// user's own with `--user` in front, the system's without.
pub proof fn lemma_restart_args(unit: Seq<char>)
    ensures
        restart_args(unit, false) == seq!["restart"@, "--no-block"@, unit],
        restart_args(unit, true) == seq!["--user"@] + restart_args(unit, false),
{
}

/// What stands before the unit of an interval must be a number that can be held.
pub proof fn lemma_interval_numbers(number: Seq<char>, unit: char, n: nat)
    requires
        !text::is_space(unit),
        number.len() > 0 ==> !text::is_space(number[0]),
    ensures
        text::decimal(number) is None ==> interval_of(number.push(unit)) == Err::<nat, Seq<char>>(
            "invalid number"@,
        ),
        text::decimal(number) == Some(n) && n > u64::MAX ==> interval_of(number.push(unit)) == Err::<
            nat,
            Seq<char>,
        >("invalid number"@),
{
    let t = number.push(unit);
    let nothing = Seq::<char>::empty();
    assert(t == nothing + t + nothing);
    assert(t.last() == unit);
    assert(t[0] == unit || t[0] == number[0]);
    text::lemma_trim(nothing, t, nothing);
    assert(t.drop_last() == number);
}

/// A part of a version that is not a number of at most 32 bits counts as zero.
pub proof fn lemma_parts(s: Seq<char>, n: nat)
    ensures
        text::decimal(s) is None ==> part_value(s) == 0,
        text::decimal(s) == Some(n) && n <= u32::MAX ==> part_value(s) == n,
        text::decimal(s) == Some(n) && n > u32::MAX ==> part_value(s) == 0,
{
}

/// What is split off at the end is one more piece.
proof fn lemma_split_push(v: Seq<char>, c: char, last: Seq<char>)
    requires
        !last.contains(c),
    ensures
        text::split_seq(v + seq![c] + last, c) == text::split_seq(v, c).push(last),
    decreases v.len(),
{
    let s = v + seq![c] + last;
    let f = text::find_first(v, c);
    text::lemma_find_first(v, c);
    if f < v.len() {
        assert forall|i: int| 0 <= i < f implies s[i] != c by {
            assert(s[i] == v[i]);
        }
        text::lemma_find_first_unique(s, c, f);
        let rest = v.skip(f + 1);
        assert(s.skip(f + 1) == rest + seq![c] + last);
        assert(s.take(f) == v.take(f));
        lemma_split_push(rest, c, last);
        assert(seq![v.take(f)] + text::split_seq(rest, c).push(last) == (seq![v.take(f)]
            + text::split_seq(rest, c)).push(last));
    } else {
        assert(!v.contains(c));
        text::lemma_split(v, c, last);
        text::lemma_split(v, c, v);
        text::lemma_split(last, c, last);
    }
}

/// One more number behind a version makes it newer, unless that number is zero:
/// then the two are the same.
pub proof fn lemma_one_more_number(v: Seq<char>, n: nat)
    requires
        !v.contains('-'),
        v.len() > 0,
        v[0] != 'v',
        n <= u32::MAX,
    ensures
        newer(v, v + seq!['.'] + text::decimal_digits(n)) <==> n > 0,
        !newer(v + seq!['.'] + text::decimal_digits(n), v),
{
    let digits = text::decimal_digits(n);
    let w = v + seq!['.'] + digits;
    text::lemma_decimal_round_trip(n);
    assert forall|i: int| 0 <= i < digits.len() implies digits[i] != '.' && digits[i] != '-' by {
        assert(text::is_digit(digits[i]));
    }
    assert(!digits.contains('.'));
    assert forall|i: int| 0 <= i < w.len() implies w[i] != '-' by {
        if i < v.len() {
            assert(v.contains(v[i]));
        }
    }
    assert(!w.contains('-'));
    assert(w[0] == v[0]);
    lemma_plain_version(v);
    lemma_plain_version(w);
    lemma_split_push(v, '.', digits);
    let k = text::split_seq(v, '.').len() as int;
    assert(number_at(v, k) == 0);
    assert(number_at(w, k) == n);
    assert forall|i: int| i >= 0 && i != k implies #[trigger] number_at(v, i) == number_at(w, i) by {
        if i < k {
            assert(text::split_seq(w, '.')[i] == text::split_seq(v, '.')[i]);
        }
    }
    if n > 0 {
        assert(below_at(v, w, k));
        lemma_newer_asymmetric(v, w);
    } else {
        assert(main_same(v, w));
        assert(main_same(w, v));
        if main_below(v, w) {
            let i = choose|i: int| below_at(v, w, i);
            assert(below_at(v, w, i));
        }
        if main_below(w, v) {
            let i = choose|i: int| below_at(w, v, i);
            assert(below_at(w, v, i));
        }
    }
}

/// The checksum of a header adds its bytes up and reads octal digits, byte by
/// byte; what is no octal digit is passed over.
pub proof fn lemma_sums(s: Seq<u8>, b: u8)
    ensures
        byte_sum(s.push(b)) == byte_sum(s) + b,
        byte_sum(Seq::<u8>::empty()) == 0,
        48 <= b <= 55 ==> octal_value(s.push(b)) == octal_value(s) * 8 + (b - 48),
        !(48 <= b <= 55) ==> octal_value(s.push(b)) == octal_value(s),
        octal_value(Seq::<u8>::empty()) == 0,
{
    assert(s.push(b).drop_last() == s);
}

/// Whether block `k` has the marks of a sparse entry: its checksum, `ustar` with
/// two spaces and a zero, and the type `S`.
pub open spec fn marked_sparse(tar: Seq<u8>, k: int) -> bool {
    let at = 512 * k;
    &&& is_summed(tar.subrange(at, at + 512))
    &&& tar[at + 257] == 117 && tar[at + 258] == 115 && tar[at + 259] == 116 && tar[at + 260] == 97
        && tar[at + 261] == 114 && tar[at + 262] == 32 && tar[at + 263] == 32 && tar[at + 264] == 0
    &&& tar[at + 156] == 83
}

/// An archive cannot be taken apart when a sparse entry has a size in base 256,
/// or has further headers and a size near the largest; it can when no sparse
/// entry has either.
pub proof fn lemma_sparse_sizes(tar: Seq<u8>, k: int)
    requires
        0 <= k < tar.len() / 512,
    ensures
        marked_sparse(tar, k) && tar[512 * k + 483] >= 128 ==> !sound_tar(tar),
        marked_sparse(tar, k) && tar[512 * k + 482] == 1 && tar[512 * k + 124] >= 128 && tar[512 * k
            + 128] >= 64 ==> !sound_tar(tar),
        marked_sparse(tar, k) && tar[512 * k + 482] == 1 && has_size_record(tar) ==> !sound_tar(tar),
        (forall|j: int|
            0 <= j < tar.len() / 512 && #[trigger] marked_sparse(tar, j) ==> tar[512 * j + 483] < 128
                && tar[512 * j + 482] != 1) ==> sound_tar(tar),
{
    assert forall|j: int| 0 <= j < tar.len() / 512 implies marked_sparse(tar, j) == is_sparse(
        #[trigger] block_of(tar, j),
    ) by {
        let block = block_of(tar, j);
        let at = 512 * j;
        let mark = seq![117u8, 115, 116, 97, 114, 32, 32, 0];
        assert(block[156] == tar[at + 156]);
        assert(forall|i: int| 257 <= i < 265 ==> block[i] == tar[at + i]);
        if marked_sparse(tar, j) {
            assert(block.subrange(257, 265) == mark);
        }
        if block.subrange(257, 265) == mark {
            assert forall|i: int| 0 <= i < 8 implies #[trigger] mark[i] == tar[at + 257 + i] by {
                assert(block.subrange(257, 265)[i] == block[257 + i]);
            }
            assert(mark[0] == 117 && mark[1] == 115 && mark[2] == 116 && mark[3] == 97 && mark[4]
                == 114 && mark[5] == 32 && mark[6] == 32 && mark[7] == 0);
        }
    }
    assert forall|j: int| 0 <= j < tar.len() / 512 implies ({
        let block = #[trigger] block_of(tar, j);
        block[483] == tar[512 * j + 483] && block[482] == tar[512 * j + 482] && block[124]
            == tar[512 * j + 124] && block[128] == tar[512 * j + 128]
    }) by {
    }
    let block = block_of(tar, k);
    assert(marked_sparse(tar, k) == is_sparse(block));
    if forall|j: int|
        0 <= j < tar.len() / 512 && #[trigger] marked_sparse(tar, j) ==> tar[512 * j + 483] < 128
            && tar[512 * j + 482] != 1 {
        assert forall|j: int| 0 <= j < tar.len() / 512 implies {
            let block = #[trigger] block_of(tar, j);
            !is_oversized(block) && (is_extended(block) ==> !has_size_record(tar))
        } by {
            assert(marked_sparse(tar, j) == is_sparse(block_of(tar, j)));
        }
    }
}

/// An extension with a very large size is told by ` size=` and nineteen digits or
/// plus signs behind it, wherever it stands.
pub proof fn lemma_size_records(front: Seq<u8>, number: Seq<u8>, rest: Seq<u8>)
    requires
        number.len() == 19,
        forall|i: int| 0 <= i < 19 ==> 48 <= #[trigger] number[i] <= 57 || number[i] == 43,
    ensures
        has_size_record(front + seq![32u8, 115, 105, 122, 101, 61] + number + rest),
        front.len() < 25 ==> !has_size_record(front),
{
    let label = seq![32u8, 115, 105, 122, 101, 61];
    let tar = front + label + number + rest;
    let p = front.len() as int;
    assert(tar.subrange(p, p + 6) == label);
    assert forall|i: int| p + 6 <= i < p + 25 implies 48 <= #[trigger] tar[i] <= 57 || tar[i]
        == 43 by {
        assert(tar[i] == number[i - p - 6]);
    }
    assert(size_record_at(tar, p));
}

} // verus!
