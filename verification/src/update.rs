//! Release checks against the published changelog.
use vstd::prelude::*;
use crate::text::{chars_of, split_chars, split_on, trim, trim_chars, string_from_chars};

verus! {

/// Where the changelog is published.
pub const CHANGELOG_URL: &'static str =
    "https://raw.githubusercontent.com/jehaverlack/boreal/main/changelog.json";

/// What the last update check found.
#[derive(Debug, Clone)]
pub enum UpdateState {
    Checking,
    Current { latest: Release },
    Available { release: Release },
    Error(String),
}

/// One release of the changelog.
#[derive(Debug, Clone)]
pub struct Release {
    pub version: String,
    pub date: String,
    pub maturity: String,
    pub summary: String,
    pub notes: String,
}

/// The value of a run of decimal digits.
pub open spec fn digits_value(s: Seq<char>) -> nat
    decreases s.len(),
{
    if s.len() == 0 {
        0
    } else {
        digits_value(s.drop_last()) * 10 + ((s.last() as u32) - ('0' as u32)) as nat
    }
}

pub open spec fn all_digits(s: Seq<char>) -> bool {
    forall|i: int| 0 <= i < s.len() ==> '0' <= #[trigger] s[i] && s[i] <= '9'
}

/// `u64::from_str`: an optional `+`, then one or more ASCII digits, of a value that fits.
pub open spec fn parse_u64_spec(s: Seq<char>) -> Option<u64> {
    let d = if s.len() > 0 && s[0] == '+' {
        s.drop_first()
    } else {
        s
    };
    if d.len() > 0 && all_digits(d) && digits_value(d) <= u64::MAX {
        Some(digits_value(d) as u64)
    } else {
        None
    }
}

proof fn lemma_digits_value_step(s: Seq<char>, i: int)
    requires
        0 <= i < s.len(),
    ensures
        digits_value(s.take(i + 1)) == digits_value(s.take(i)) * 10 + ((s[i] as u32) - ('0' as u32)) as nat,
{
    assert(s.take(i + 1).drop_last() == s.take(i));
}

proof fn lemma_digits_value_mono(s: Seq<char>, i: int)
    requires
        0 <= i <= s.len(),
        all_digits(s),
    ensures
        digits_value(s.take(i)) <= digits_value(s),
    decreases s.len() - i,
{
    if i < s.len() {
        lemma_digits_value_mono(s, i + 1);
        lemma_digits_value_step(s, i);
    } else {
        assert(s.take(i) == s);
    }
}

fn parse_digits(d: &Vec<char>) -> (r: Option<u64>)
    ensures
        r == (if d@.len() > 0 && all_digits(d@) && digits_value(d@) <= u64::MAX {
            Some(digits_value(d@) as u64)
        } else {
            None::<u64>
        }),
{
    if d.len() == 0 {
        return None;
    }
    let mut i: usize = 0;
    while i < d.len()
        invariant
            i <= d@.len(),
            forall|k: int| 0 <= k < i ==> '0' <= #[trigger] d@[k] && d@[k] <= '9',
        decreases d.len() - i,
    {
        if !('0' <= d[i] && d[i] <= '9') {
            return None;
        }
        i = i + 1;
    }
    let mut v: u64 = 0;
    let mut j: usize = 0;
    assert(d@.take(0) =~= Seq::<char>::empty());
    while j < d.len()
        invariant
            j <= d@.len(),
            all_digits(d@),
            v as nat == digits_value(d@.take(j as int)),
        decreases d.len() - j,
    {
        proof {
            lemma_digits_value_step(d@, j as int);
        }
        let digit: u64 = (d[j] as u32 - '0' as u32) as u64;
        if v > (u64::MAX - digit) / 10 {
            proof {
                lemma_digits_value_mono(d@, j + 1);
                assert(v * 10 + digit > u64::MAX) by (nonlinear_arith)
                    requires
                        v > (u64::MAX - digit) / 10,
                        digit <= 9,
                ;
            }
            return None;
        }
        assert(v * 10 + digit <= u64::MAX) by (nonlinear_arith)
            requires
                v <= (u64::MAX - digit) / 10,
                digit <= 9,
        ;
        v = v * 10 + digit;
        j = j + 1;
    }
    assert(d@.take(d@.len() as int) == d@);
    Some(v)
}

/// `str::parse::<u64>`.
pub fn parse_u64(s: &[char]) -> (r: Option<u64>)
    ensures
        r == parse_u64_spec(s@),
{
    if s.len() > 0 && s[0] == '+' {
        let d = crate::text::slice_chars(s, 1, s.len());
        assert(d@ == s@.drop_first());
        parse_digits(&d)
    } else {
        let d = crate::text::slice_chars(s, 0, s.len());
        assert(d@ == s@);
        parse_digits(&d)
    }
}

} // verus!

verus! {

/// `s` without its leading `v` characters.
pub open spec fn skip_vs(s: Seq<char>) -> Seq<char>
    decreases s.len(),
{
    if s.len() > 0 && s[0] == 'v' {
        skip_vs(s.drop_first())
    } else {
        s
    }
}

/// A release version `major.minor.patch` (surrounding blanks and leading `v`s allowed).
pub open spec fn version_of(s: Seq<char>) -> Option<(u64, u64, u64)> {
    let parts = split_on(skip_vs(trim(s)), '.');
    if parts.len() == 3 && parse_u64_spec(parts[0]) is Some && parse_u64_spec(parts[1]) is Some
        && parse_u64_spec(parts[2]) is Some {
        Some((parse_u64_spec(parts[0])->0, parse_u64_spec(parts[1])->0, parse_u64_spec(parts[2])->0))
    } else {
        None
    }
}

/// Lexicographic order of version triples.
pub open spec fn version_gt(a: (u64, u64, u64), b: (u64, u64, u64)) -> bool {
    a.0 > b.0 || (a.0 == b.0 && (a.1 > b.1 || (a.1 == b.1 && a.2 > b.2)))
}

/// Both versions are valid and `candidate` is the later one.
pub open spec fn newer(candidate: Seq<char>, current: Seq<char>) -> bool {
    version_of(candidate) is Some && version_of(current) is Some && version_gt(
        version_of(candidate)->0,
        version_of(current)->0,
    )
}

fn skip_leading_vs(v: &Vec<char>) -> (r: Vec<char>)
    ensures
        r@ == skip_vs(v@),
{
    let mut i: usize = 0;
    assert(v@.skip(0) == v@);
    while i < v.len() && v[i] == 'v'
        invariant
            i <= v@.len(),
            skip_vs(v@) == skip_vs(v@.skip(i as int)),
        decreases v.len() - i,
    {
        assert(v@.skip(i as int)[0] == v@[i as int]);
        assert(v@.skip(i as int).drop_first() == v@.skip(i + 1));
        i = i + 1;
    }
    proof {
        if i < v@.len() {
            assert(v@.skip(i as int)[0] == v@[i as int]);
        }
    }
    crate::text::slice_chars(v.as_slice(), i, v.len())
}

/// The version triple of a release, when it is well formed.
pub fn parse_version(version: &str) -> (r: Option<(u64, u64, u64)>)
    ensures
        r == version_of(version@),
{
    let chars = chars_of(version);
    let trimmed = trim_chars(&chars);
    let bare = skip_leading_vs(&trimmed);
    let parts = split_chars(&bare, '.');
    proof {
        if parts@.len() == 3 {
            assert(parts@[0]@ == parts.deep_view()[0]);
            assert(parts@[1]@ == parts.deep_view()[1]);
            assert(parts@[2]@ == parts.deep_view()[2]);
        }
    }
    if parts.len() != 3 {
        return None;
    }
    let a = parse_u64(parts[0].as_slice());
    let b = parse_u64(parts[1].as_slice());
    let c = parse_u64(parts[2].as_slice());
    match (a, b, c) {
        (Some(x), Some(y), Some(z)) => Some((x, y, z)),
        _ => None,
    }
}

fn version_greater(a: (u64, u64, u64), b: (u64, u64, u64)) -> (r: bool)
    ensures
        r == version_gt(a, b),
{
    a.0 > b.0 || (a.0 == b.0 && (a.1 > b.1 || (a.1 == b.1 && a.2 > b.2)))
}

/// Whether `candidate` is a later release than `current`; an invalid version is never
/// later, nor is anything later than an invalid one.
pub fn version_is_newer(candidate: &str, current: &str) -> (r: bool)
    ensures
        r == newer(candidate@, current@),
{
    match parse_version(candidate) {
        Some(c) => match parse_version(current) {
            Some(d) => version_greater(c, d),
            None => false,
        },
        None => false,
    }
}

/// The index of the latest valid release: the last of the highest versions.
pub open spec fn latest_index(versions: Seq<Option<(u64, u64, u64)>>) -> Option<int>
    decreases versions.len(),
{
    if versions.len() == 0 {
        None
    } else {
        let prev = latest_index(versions.drop_last());
        match versions.last() {
            None => prev,
            Some(v) => match prev {
                None => Some(versions.len() - 1),
                Some(p) => if version_gt(versions[p]->0, v) {
                    prev
                } else {
                    Some(versions.len() - 1)
                },
            },
        }
    }
}

pub open spec fn release_versions(releases: Seq<Release>) -> Seq<Option<(u64, u64, u64)>> {
    releases.map_values(|r: Release| version_of(r.version@))
}

proof fn lemma_latest_index_valid(vs: Seq<Option<(u64, u64, u64)>>)
    ensures
        latest_index(vs) matches Some(p) ==> 0 <= p < vs.len() && vs[p] is Some,
    decreases vs.len(),
{
    if vs.len() > 0 {
        lemma_latest_index_valid(vs.drop_last());
    }
}

impl Release {
    pub fn duplicate(&self) -> (r: Release)
        ensures
            r.version@ == self.version@ && r.date@ == self.date@ && r.maturity@ == self.maturity@
                && r.summary@ == self.summary@ && r.notes@ == self.notes@,
    {
        Release {
            version: self.version.clone(),
            date: self.date.clone(),
            maturity: self.maturity.clone(),
            summary: self.summary.clone(),
            notes: self.notes.clone(),
        }
    }
}

/// The latest valid release of the changelog (the last listed among equal versions).
pub fn latest_release(releases: &Vec<Release>) -> (r: Result<Release, String>)
    ensures
        match latest_index(release_versions(releases@)) {
            Some(p) => r is Ok && r->Ok_0.version@ == releases@[p].version@ && r->Ok_0.date@
                == releases@[p].date@ && r->Ok_0.maturity@ == releases@[p].maturity@
                && r->Ok_0.summary@ == releases@[p].summary@ && r->Ok_0.notes@ == releases@[p].notes@,
            None => r is Err && r->Err_0@ == "The BOREAL changelog contains no valid releases"@,
        },
{
    let ghost vs = release_versions(releases@);
    let mut best: Option<usize> = None;
    let mut best_version: (u64, u64, u64) = (0, 0, 0);
    let mut i: usize = 0;
    while i < releases.len()
        invariant
            i <= releases@.len(),
            vs == release_versions(releases@),
            match best {
                Some(p) => latest_index(vs.take(i as int)) == Some(p as int) && vs[p as int] == Some(best_version),
                None => latest_index(vs.take(i as int)) is None,
            },
            best matches Some(p) ==> p < i,
        decreases releases.len() - i,
    {
        let ghost t = vs.take(i + 1);
        assert(t.drop_last() == vs.take(i as int));
        assert(t.last() == vs[i as int]);
        match parse_version(releases[i].version.as_str()) {
            Some(v) => {
                match best {
                    None => {
                        best = Some(i);
                        best_version = v;
                    },
                    Some(p) => {
                        if !version_greater(best_version, v) {
                            best = Some(i);
                            best_version = v;
                        }
                    },
                }
            },
            None => {},
        }
        i = i + 1;
    }
    assert(vs.take(releases@.len() as int) == vs);
    match best {
        Some(p) => Ok(releases[p].duplicate()),
        None => Err("The BOREAL changelog contains no valid releases".to_owned()),
    }
}

} // verus!

verus! {

/// The state after a check: `fetched` is the latest release read from the changelog (or
/// why it could not be read), `current` the running version.
pub fn check(fetched: Result<Release, String>, current: &str) -> (r: UpdateState)
    ensures
        match fetched {
            Ok(latest) => if newer(latest.version@, current@) {
                r matches UpdateState::Available { release } && release == latest
            } else {
                r matches UpdateState::Current { latest: l } && l == latest
            },
            Err(e) => r == UpdateState::Error(e),
        },
{
    match fetched {
        Ok(latest) => {
            if version_is_newer(latest.version.as_str(), current) {
                UpdateState::Available { release: latest }
            } else {
                UpdateState::Current { latest }
            }
        },
        Err(e) => UpdateState::Error(e),
    }
}

/// The release page of a version.
pub fn release_url(version: &str) -> (r: String)
    ensures
        r@ == "https://github.com/jehaverlack/boreal/releases/tag/v"@ + version@,
{
    let mut r = "https://github.com/jehaverlack/boreal/releases/tag/v".to_owned();
    r.append(version);
    r
}

/// The published platform name of an operating system, if builds exist for it.
pub open spec fn platform_name(os: Seq<char>) -> Option<Seq<char>> {
    if os == "linux"@ || os == "windows"@ || os == "macos"@ {
        Some(os)
    } else {
        None
    }
}

/// The published architecture name, if builds exist for it (32-bit ARM only on Linux).
pub open spec fn architecture_name(os: Seq<char>, arch: Seq<char>) -> Option<Seq<char>> {
    if arch == "x86_64"@ || arch == "aarch64"@ {
        Some(arch)
    } else if arch == "arm"@ && os == "linux"@ {
        Some("armv7"@)
    } else {
        None
    }
}

/// The download of a version's build for the operating system `os` and architecture
/// `arch` (as `std::env::consts` names them), when one is published.
pub fn download_url(version: &str, os: &str, arch: &str) -> (r: Option<String>)
    ensures
        match (platform_name(os@), architecture_name(os@, arch@)) {
            (Some(p), Some(a)) => r matches Some(u) && u@ == "https://github.com/jehaverlack/boreal/raw/refs/tags/v"@
                + version@ + "/dist/boreal-v"@ + version@ + "-"@ + p + "-"@ + a + (if os@ == "windows"@ {
                ".exe"@
            } else {
                ""@
            }),
            _ => r is None,
        },
{
    let linux = crate::text::str_eq(os, "linux");
    let windows = crate::text::str_eq(os, "windows");
    let macos = crate::text::str_eq(os, "macos");
    if !(linux || windows || macos) {
        return None;
    }
    let architecture: &str = if crate::text::str_eq(arch, "x86_64") || crate::text::str_eq(
        arch,
        "aarch64",
    ) {
        arch
    } else if crate::text::str_eq(arch, "arm") && linux {
        "armv7"
    } else {
        return None;
    };
    let mut u = "https://github.com/jehaverlack/boreal/raw/refs/tags/v".to_owned();
    u.append(version);
    u.append("/dist/boreal-v");
    u.append(version);
    u.append("-");
    u.append(os);
    u.append("-");
    u.append(architecture);
    if windows {
        u.append(".exe");
    } else {
        u.append("");
    }
    Some(u)
}

} // verus!

verus! {

/// No version is newer than itself.
pub proof fn law_newer_irreflexive(v: Seq<char>)
    ensures
        !newer(v, v),
{
}

/// Of two versions, at most one is newer than the other.
pub proof fn law_newer_asymmetric(a: Seq<char>, b: Seq<char>)
    requires
        newer(a, b),
    ensures
        !newer(b, a),
{
}

/// Newer is transitive.
pub proof fn law_newer_transitive(a: Seq<char>, b: Seq<char>, c: Seq<char>)
    requires
        newer(a, b),
        newer(b, c),
    ensures
        newer(a, c),
{
}

/// The release chosen as latest is valid and no valid release of the feed is newer.
pub proof fn law_latest_is_maximal(versions: Seq<Option<(u64, u64, u64)>>, i: int)
    requires
        0 <= i < versions.len(),
        versions[i] is Some,
    ensures
        latest_index(versions) matches Some(p) && 0 <= p < versions.len() && versions[p] is Some
            && !version_gt(versions[i]->0, versions[p]->0),
    decreases versions.len(),
{
    lemma_latest_index_valid(versions);
    let d = versions.drop_last();
    lemma_latest_index_valid(d);
    if i < versions.len() - 1 {
        assert(d[i] == versions[i]);
        law_latest_is_maximal(d, i);
    } else if latest_index(d) is Some {
        let p = latest_index(d)->0;
        assert(d[p] == versions[p]);
    }
}

} // verus!
