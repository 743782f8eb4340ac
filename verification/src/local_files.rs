//! Local folder inventory: entries, exclusion rules and folder sizes.
use vstd::prelude::*;
use crate::text::{chars_of, starts_with, str_eq, string_from_chars};
use vstd::string::StringSliceAdditionalSpecFns;
use crate::paths::{absolute_path, components_of, is_absolute_path, path_within, same_path};

verus! {

/// One inventoried file, folder or symbolic link.
#[derive(Debug, Clone)]
pub struct Item {
    pub root_path: String,
    pub relative_path: String,
    pub name: String,
    pub extension: String,
    pub is_directory: bool,
    pub size_bytes: u64,
    pub modified_unix: i64,
    pub modified_nanos: Option<u32>,
    pub checksum_sha256: String,
    pub file_identity: String,
    pub is_symlink: bool,
    pub symlink_target: String,
    pub owner_username: String,
    pub owner_identifier: String,
    pub group_name: String,
    pub group_identifier: String,
}

/// An `Item` with its text as character sequences.
pub struct ItemView {
    pub root_path: Seq<char>,
    pub relative_path: Seq<char>,
    pub name: Seq<char>,
    pub extension: Seq<char>,
    pub is_directory: bool,
    pub size_bytes: u64,
    pub modified_unix: i64,
    pub modified_nanos: Option<u32>,
    pub checksum_sha256: Seq<char>,
    pub file_identity: Seq<char>,
    pub is_symlink: bool,
    pub symlink_target: Seq<char>,
    pub owner_username: Seq<char>,
    pub owner_identifier: Seq<char>,
    pub group_name: Seq<char>,
    pub group_identifier: Seq<char>,
}

impl View for Item {
    type V = ItemView;

    open spec fn view(&self) -> ItemView {
        ItemView {
            root_path: self.root_path@,
            relative_path: self.relative_path@,
            name: self.name@,
            extension: self.extension@,
            is_directory: self.is_directory,
            size_bytes: self.size_bytes,
            modified_unix: self.modified_unix,
            modified_nanos: self.modified_nanos,
            checksum_sha256: self.checksum_sha256@,
            file_identity: self.file_identity@,
            is_symlink: self.is_symlink,
            symlink_target: self.symlink_target@,
            owner_username: self.owner_username@,
            owner_identifier: self.owner_identifier@,
            group_name: self.group_name@,
            group_identifier: self.group_identifier@,
        }
    }
}

/// The views of a sequence of items.
pub open spec fn items_view(s: Seq<Item>) -> Seq<ItemView> {
    s.map_values(|i: Item| i@)
}

impl Default for Item {
    fn default() -> (r: Item)
        ensures
            r@.root_path.len() == 0 && r@.relative_path.len() == 0 && r@.name.len() == 0
                && r@.extension.len() == 0 && !r.is_directory && r.size_bytes == 0
                && r.modified_unix == 0 && r.modified_nanos is None
                && r@.checksum_sha256.len() == 0 && r@.file_identity.len() == 0 && !r.is_symlink
                && r@.symlink_target.len() == 0 && r@.owner_username.len() == 0
                && r@.owner_identifier.len() == 0 && r@.group_name.len() == 0
                && r@.group_identifier.len() == 0,
    {
        Item {
            root_path: String::new(),
            relative_path: String::new(),
            name: String::new(),
            extension: String::new(),
            is_directory: false,
            size_bytes: 0,
            modified_unix: 0,
            modified_nanos: None,
            checksum_sha256: String::new(),
            file_identity: String::new(),
            is_symlink: false,
            symlink_target: String::new(),
            owner_username: String::new(),
            owner_identifier: String::new(),
            group_name: String::new(),
            group_identifier: String::new(),
        }
    }
}

impl Item {
    /// A field-by-field copy.
    pub fn duplicate(&self) -> (r: Item)
        ensures
            r@ == self@,
    {
        Item {
            root_path: self.root_path.clone(),
            relative_path: self.relative_path.clone(),
            name: self.name.clone(),
            extension: self.extension.clone(),
            is_directory: self.is_directory,
            size_bytes: self.size_bytes,
            modified_unix: self.modified_unix,
            modified_nanos: self.modified_nanos,
            checksum_sha256: self.checksum_sha256.clone(),
            file_identity: self.file_identity.clone(),
            is_symlink: self.is_symlink,
            symlink_target: self.symlink_target.clone(),
            owner_username: self.owner_username.clone(),
            owner_identifier: self.owner_identifier.clone(),
            group_name: self.group_name.clone(),
            group_identifier: self.group_identifier.clone(),
        }
    }
}

} // verus!

verus! {

/// What a scan covers and skips.
#[derive(Debug, Clone)]
pub struct ScanOptions {
    pub roots: Vec<String>,
    pub exclude_hidden: bool,
    pub exclude_caches: bool,
    pub exclude_temporary: bool,
    pub exclude_patterns: Vec<String>,
    pub boreal_home: String,
}

/// What a scan found.
#[derive(Debug)]
pub struct ScanResult {
    pub items: Vec<Item>,
    pub skipped: u64,
    pub errors: Vec<String>,
    pub cancelled: bool,
}

/// Scanner threads for a machine: three quarters of the available cores (rounded
/// down), at least one.
pub open spec fn worker_count(available: nat) -> nat {
    let three_quarters = if available * 3 > usize::MAX {
        usize::MAX as nat / 4
    } else {
        available * 3 / 4
    };
    if three_quarters == 0 {
        1
    } else {
        three_quarters
    }
}

/// The number of scanner threads for `available` cores.
pub fn workers_for_available_cores(available: usize) -> (r: usize)
    ensures
        r == worker_count(available as nat),
        r >= 1,
{
    let n = if available > usize::MAX / 3 {
        usize::MAX / 4
    } else {
        available * 3 / 4
    };
    if n == 0 {
        1
    } else {
        n
    }
}

/// `char::to_ascii_lowercase`.
pub open spec fn ascii_lower(c: char) -> char {
    if 'A' <= c && c <= 'Z' {
        ((c as u32) + 32) as char
    } else {
        c
    }
}

/// `str::to_ascii_lowercase`.
pub open spec fn ascii_lowercase(s: Seq<char>) -> Seq<char> {
    s.map_values(|c: char| ascii_lower(c))
}

fn ascii_lower_char(c: char) -> (r: char)
    ensures
        r == ascii_lower(c),
{
    if 'A' <= c && c <= 'Z' {
        let b: u8 = (c as u32 - 'A' as u32) as u8 + 97;
        b as char
    } else {
        c
    }
}

pub fn to_ascii_lowercase(s: &str) -> (r: String)
    ensures
        r@ == ascii_lowercase(s@),
{
    let v = chars_of(s);
    let mut out: Vec<char> = Vec::new();
    let mut i: usize = 0;
    while i < v.len()
        invariant
            i <= v@.len(),
            v@ == s@,
            out@ == ascii_lowercase(s@).take(i as int),
        decreases v.len() - i,
    {
        out.push(ascii_lower_char(v[i]));
        assert(out@ =~= ascii_lowercase(s@).take(i + 1));
        i = i + 1;
    }
    assert(ascii_lowercase(s@).take(v@.len() as int) == ascii_lowercase(s@));
    string_from_chars(out.as_slice())
}

/// Names skipped as caches or build output.
pub open spec fn cache_name(lower: Seq<char>) -> bool {
    lower == "cache"@ || lower == "caches"@ || lower == ".cache"@ || lower == "node_modules"@ || lower
        == "target"@ || lower == "__pycache__"@
}

/// Names skipped as temporary or trash folders.
pub open spec fn temporary_name(lower: Seq<char>) -> bool {
    lower == "tmp"@ || lower == "temp"@ || lower == ".trash"@ || lower == ".trashes"@ || lower
        == "$recycle.bin"@
}

/// `s` with every `\` replaced by `/`.
pub open spec fn forward_slashes(s: Seq<char>) -> Seq<char> {
    s.map_values(|c: char| if c == '\\' { '/' } else { c })
}

fn forward_slashes_of(s: &str) -> (r: Vec<char>)
    ensures
        r@ == forward_slashes(s@),
{
    let v = chars_of(s);
    let mut out: Vec<char> = Vec::new();
    let mut i: usize = 0;
    while i < v.len()
        invariant
            i <= v@.len(),
            v@ == s@,
            out@ == forward_slashes(s@).take(i as int),
        decreases v.len() - i,
    {
        out.push(if v[i] == '\\' { '/' } else { v[i] });
        assert(out@ =~= forward_slashes(s@).take(i + 1));
        i = i + 1;
    }
    assert(forward_slashes(s@).take(v@.len() as int) == forward_slashes(s@));
    out
}

} // verus!

verus! {

/// The scan of `wildcard_match` from position `i` of the pattern and `j` of the text,
/// with the last `*` seen at `star` and the text position it was last tried at `mark`:
/// a `?` or an equal byte advances both; a `*` is remembered; on a mismatch the last
/// `*` absorbs one more byte; at the end only `*`s may remain in the pattern. A `*` in
/// the text is matched literally by a `*` of the pattern.
pub open spec fn scan_match(
    p: Seq<u8>,
    t: Seq<u8>,
    i: int,
    j: int,
    star: Option<int>,
    mark: int,
) -> bool
    decreases t.len() + 1 - mark, t.len() - j, p.len() - i,
    when 0 <= i <= p.len() && 0 <= mark <= j <= t.len() && (star matches Some(s) ==> 0 <= s < i)
{
    if j < t.len() {
        if i < p.len() && (p[i] == 63u8 || p[i] == t[j]) {
            scan_match(p, t, i + 1, j + 1, star, mark)
        } else if i < p.len() && p[i] == 42u8 {
            scan_match(p, t, i + 1, j, Some(i), j)
        } else {
            match star {
                Some(s) => scan_match(p, t, s + 1, mark + 1, star, mark + 1),
                None => false,
            }
        }
    } else {
        stars_only(p.skip(i))
    }
}

/// Every byte is `*`.
pub open spec fn stars_only(p: Seq<u8>) -> bool {
    forall|k: int| 0 <= k < p.len() ==> p[k] == 42u8
}

/// `*` matches any run of bytes, `?` any one byte, every other byte itself.
pub open spec fn glob(p: Seq<u8>, t: Seq<u8>) -> bool
    decreases p.len(), t.len(),
{
    if p.len() == 0 {
        t.len() == 0
    } else if p[0] == 42u8 {
        glob(p.drop_first(), t) || (t.len() > 0 && glob(p, t.drop_first()))
    } else {
        t.len() > 0 && (p[0] == 63u8 || p[0] == t[0]) && glob(p.drop_first(), t.drop_first())
    }
}

/// Wildcard matching of a path against an exclusion pattern, byte by byte.
pub fn wildcard_match(pattern: &str, text: &str) -> (r: bool)
    ensures
        r == scan_match(pattern.spec_bytes(), text.spec_bytes(), 0, 0, None, 0),
{
    let p = pattern.as_bytes();
    let t = text.as_bytes();
    let ghost pv = p@;
    let ghost tv = t@;
    let mut i: usize = 0;
    let mut j: usize = 0;
    let mut star: Option<usize> = None;
    let mut mark: usize = 0;
    while j < t.len()
        invariant
            pv == p@,
            tv == t@,
            pv == pattern.spec_bytes(),
            tv == text.spec_bytes(),
            0 <= i <= p@.len(),
            0 <= mark <= j <= t@.len(),
            star matches Some(s) ==> s < i,
            scan_match(pv, tv, 0, 0, None, 0) == scan_match(
                pv,
                tv,
                i as int,
                j as int,
                match star {
                    Some(s) => Some(s as int),
                    None => None,
                },
                mark as int,
            ),
        decreases t@.len() + 1 - mark, t@.len() - j, p@.len() - i,
    {
        if i < p.len() && (p[i] == 63u8 || p[i] == t[j]) {
            i = i + 1;
            j = j + 1;
        } else if i < p.len() && p[i] == 42u8 {
            star = Some(i);
            i = i + 1;
            mark = j;
        } else {
            match star {
                Some(s) => {
                    mark = mark + 1;
                    j = mark;
                    i = s + 1;
                },
                None => {
                    return false;
                },
            }
        }
    }
    let ghost start = i;
    while i < p.len() && p[i] == 42u8
        invariant
            pv == p@,
            start <= i <= p@.len(),
            forall|k: int| start <= k < i ==> pv[k] == 42u8,
        decreases p@.len() - i,
    {
        i = i + 1;
    }
    proof {
        let rest = pv.skip(start as int);
        if i == p@.len() {
            assert forall|k: int| 0 <= k < rest.len() implies rest[k] == 42u8 by {
                assert(rest[k] == pv[start + k]);
            }
        } else {
            assert(rest[i - start] == pv[i as int]);
        }
    }
    i == p.len()
}

} // verus!

verus! {

/// The pattern from `i` on against the text from `j` on.
spec fn rest_matches(p: Seq<u8>, t: Seq<u8>, i: int, j: int) -> bool {
    glob(p.skip(i), t.skip(j))
}

/// `p[a..i]` matches `t[k..]` byte for byte (`?` matching any byte).
spec fn bytes_match(p: Seq<u8>, t: Seq<u8>, a: int, i: int, k: int) -> bool {
    forall|m: int| a <= m < i ==> (#[trigger] p[m] == 63u8 || p[m] == t[k + (m - a)])
}

spec fn no_star(p: Seq<u8>, a: int, i: int) -> bool {
    forall|m: int| a <= m < i ==> #[trigger] p[m] != 42u8
}

/// `p[s+1..i]` holds no `*` and matches `t[mark..]` byte for byte.
spec fn literal_run(p: Seq<u8>, t: Seq<u8>, s: int, i: int, mark: int) -> bool {
    no_star(p, s + 1, i) && bytes_match(p, t, s + 1, i, mark)
}

proof fn lemma_glob_step(p: Seq<u8>, t: Seq<u8>, i: int, j: int)
    requires
        0 <= i <= p.len(),
        0 <= j <= t.len(),
    ensures
        i == p.len() ==> (rest_matches(p, t, i, j) == (j == t.len())),
        i < p.len() && p[i] == 42u8 ==> (rest_matches(p, t, i, j) == (rest_matches(p, t, i + 1, j)
            || (j < t.len() && rest_matches(p, t, i, j + 1)))),
        i < p.len() && p[i] != 42u8 ==> (rest_matches(p, t, i, j) == (j < t.len() && (p[i] == 63u8
            || p[i] == t[j]) && rest_matches(p, t, i + 1, j + 1))),
{
    let q = p.skip(i);
    let u = t.skip(j);
    if i < p.len() {
        assert(q[0] == p[i]);
        assert(q.drop_first() == p.skip(i + 1));
    }
    if j < t.len() {
        assert(u[0] == t[j]);
        assert(u.drop_first() == t.skip(j + 1));
    }
}

proof fn lemma_glob_empty_text(q: Seq<u8>)
    ensures
        glob(q, Seq::<u8>::empty()) == stars_only(q),
    decreases q.len(),
{
    if q.len() > 0 {
        lemma_glob_empty_text(q.drop_first());
        if q[0] == 42u8 {
            if stars_only(q.drop_first()) {
                assert forall|k: int| 0 <= k < q.len() implies q[k] == 42u8 by {
                    if k > 0 {
                        assert(q[k] == q.drop_first()[k - 1]);
                    }
                }
            }
            if stars_only(q) {
                assert forall|k: int| 0 <= k < q.drop_first().len() implies q.drop_first()[k] == 42u8 by {
                    assert(q.drop_first()[k] == q[k + 1]);
                }
            }
        }
    }
}

/// A run of pattern bytes without `*` consumes exactly as many text bytes.
proof fn lemma_literal(p: Seq<u8>, t: Seq<u8>, a: int, i: int, k: int)
    requires
        0 <= a <= i <= p.len(),
        0 <= k <= t.len(),
        no_star(p, a, i),
    ensures
        rest_matches(p, t, a, k) == (k + (i - a) <= t.len() && bytes_match(p, t, a, i, k)
            && rest_matches(p, t, i, k + (i - a))),
    decreases i - a,
{
    if a < i {
        lemma_glob_step(p, t, a, k);
        assert(p[a] != 42u8);
        if k < t.len() {
            lemma_literal(p, t, a + 1, i, k + 1);
            if bytes_match(p, t, a, i, k) {
                assert(p[a] == 63u8 || p[a] == t[k + (a - a)]);
                assert forall|m: int| a + 1 <= m < i implies (#[trigger] p[m] == 63u8 || p[m] == t[(k + 1) + (m - (
                    a + 1))]) by {
                    assert(p[m] == 63u8 || p[m] == t[k + (m - a)]);
                }
            }
            if (p[a] == 63u8 || p[a] == t[k]) && bytes_match(p, t, a + 1, i, k + 1) {
                assert forall|m: int| a <= m < i implies (#[trigger] p[m] == 63u8 || p[m] == t[k + (m
                    - a)]) by {
                    if m > a {
                        assert(p[m] == 63u8 || p[m] == t[(k + 1) + (m - (a + 1))]);
                    }
                }
            }
        } else {
            if bytes_match(p, t, a, i, k) {
                assert(p[a] == 63u8 || p[a] == t[k + (a - a)]);
            }
        }
    }
}

/// A `*` that matches from a text position also matches from any earlier one.
proof fn lemma_star_earlier(p: Seq<u8>, t: Seq<u8>, i: int, y: int, x: int)
    requires
        0 <= i < p.len(),
        p[i] == 42u8,
        0 <= y <= x <= t.len(),
        rest_matches(p, t, i, x),
    ensures
        rest_matches(p, t, i, y),
    decreases x - y,
{
    if y < x {
        lemma_star_earlier(p, t, i, y + 1, x);
        lemma_glob_step(p, t, i, y);
    }
}

/// A `*` that matches from `m` leaves the rest of the pattern matching from some later
/// text position.
proof fn lemma_star_reach(p: Seq<u8>, t: Seq<u8>, s: int, m: int) -> (k: int)
    requires
        0 <= s < p.len(),
        p[s] == 42u8,
        0 <= m <= t.len(),
        rest_matches(p, t, s, m),
    ensures
        m <= k <= t.len(),
        rest_matches(p, t, s + 1, k),
    decreases t.len() - m,
{
    lemma_glob_step(p, t, s, m);
    if rest_matches(p, t, s + 1, m) {
        m
    } else {
        lemma_star_reach(p, t, s, m + 1)
    }
}

/// With a literal run between two `*`s matched, the first `*` may be forgotten.
proof fn lemma_next_star(p: Seq<u8>, t: Seq<u8>, s: int, i: int, mark: int, j: int)
    requires
        0 <= s < i < p.len(),
        p[s] == 42u8,
        p[i] == 42u8,
        0 <= mark <= j <= t.len(),
        j - mark == i - s - 1,
        literal_run(p, t, s, i, mark),
    ensures
        rest_matches(p, t, s, mark) == rest_matches(p, t, i, j),
{
    lemma_literal(p, t, s + 1, i, mark);
    lemma_glob_step(p, t, s, mark);
    if rest_matches(p, t, s, mark) {
        let k = lemma_star_reach(p, t, s, mark);
        lemma_literal(p, t, s + 1, i, k);
        lemma_star_earlier(p, t, i, j, k + (i - s - 1));
    }
}

/// When the text is exhausted inside a literal run, a later start for the `*` fails too.
proof fn lemma_no_later_start(p: Seq<u8>, t: Seq<u8>, s: int, i: int, mark: int, m: int)
    requires
        0 <= s < i <= p.len(),
        p[s] == 42u8,
        no_star(p, s + 1, i),
        0 <= mark < m <= t.len(),
        t.len() - mark == i - s - 1,
    ensures
        !rest_matches(p, t, s, m),
    decreases t.len() - m,
{
    lemma_literal(p, t, s + 1, i, m);
    lemma_glob_step(p, t, s, m);
    if m < t.len() {
        lemma_no_later_start(p, t, s, i, mark, m + 1);
    }
}

/// What the scan computes from a state: whether the pattern matches from the
/// remembered `*` (or, before any `*`, from the current positions).
spec fn scan_goal(p: Seq<u8>, t: Seq<u8>, i: int, j: int, star: Option<int>, mark: int) -> bool {
    match star {
        Some(s) => rest_matches(p, t, s, mark),
        None => rest_matches(p, t, i, j),
    }
}

proof fn lemma_scan_is_glob(p: Seq<u8>, t: Seq<u8>, i: int, j: int, star: Option<int>, mark: int)
    requires
        forall|k: int| 0 <= k < t.len() ==> #[trigger] t[k] != 42u8,
        0 <= i <= p.len(),
        0 <= mark <= j <= t.len(),
        star matches Some(s) ==> 0 <= s < i && p[s] == 42u8 && j - mark == i - s - 1 && literal_run(
            p,
            t,
            s,
            i,
            mark,
        ),
    ensures
        scan_match(p, t, i, j, star, mark) == scan_goal(p, t, i, j, star, mark),
    decreases t.len() + 1 - mark, t.len() - j, p.len() - i,
{
    lemma_glob_step(p, t, i, j);
    if j < t.len() {
        assert(t[j] != 42u8);
        if i < p.len() && (p[i] == 63u8 || p[i] == t[j]) {
            assert(p[i] != 42u8);
            match star {
                Some(s) => {
                    assert(literal_run(p, t, s, i + 1, mark)) by {
                        assert forall|m: int| s + 1 <= m < i + 1 implies #[trigger] p[m] != 42u8 by {}
                        assert forall|m: int| s + 1 <= m < i + 1 implies (#[trigger] p[m] == 63u8 || p[m]
                            == t[mark + (m - (s + 1))]) by {}
                    }
                },
                None => {},
            }
            lemma_scan_is_glob(p, t, i + 1, j + 1, star, mark);
        } else if i < p.len() && p[i] == 42u8 {
            lemma_scan_is_glob(p, t, i + 1, j, Some(i), j);
            match star {
                Some(s) => {
                    lemma_next_star(p, t, s, i, mark, j);
                },
                None => {},
            }
        } else {
            match star {
                Some(s) => {
                    lemma_literal(p, t, s + 1, i, mark);
                    lemma_glob_step(p, t, s, mark);
                    assert(!rest_matches(p, t, i, j));
                    assert(!rest_matches(p, t, s + 1, mark));
                    lemma_scan_is_glob(p, t, s + 1, mark + 1, star, mark + 1);
                },
                None => {},
            }
        }
    } else {
        lemma_glob_empty_text(p.skip(i));
        assert(t.skip(j) =~= Seq::<u8>::empty());
        match star {
            Some(s) => {
                lemma_literal(p, t, s + 1, i, mark);
                lemma_glob_step(p, t, s, mark);
                if mark < t.len() {
                    lemma_no_later_start(p, t, s, i, mark, mark + 1);
                }
            },
            None => {},
        }
    }
}

/// For a text without `*`, `wildcard_match` is glob matching: `*` matches any run of
/// bytes (separators included), `?` any one byte, every other byte itself.
pub proof fn law_wildcard_is_glob(p: Seq<u8>, t: Seq<u8>)
    requires
        forall|k: int| 0 <= k < t.len() ==> #[trigger] t[k] != 42u8,
    ensures
        scan_match(p, t, 0, 0, None, 0) == glob(p, t),
{
    lemma_scan_is_glob(p, t, 0, 0, None, 0);
    assert(p.skip(0) == p);
    assert(t.skip(0) == t);
}

} // verus!

verus! {

/// The exclusion rules, for an entry `name` at `relative` (with `/` separators):
/// BOREAL's own home, hidden entries, caches and temporary folders when asked, and
/// the configured wildcard patterns (with `\` read as `/`).
pub open spec fn excluded_by(
    within_home: bool,
    platform_hidden: bool,
    relative: Seq<char>,
    name: Seq<char>,
    exclude_hidden: bool,
    exclude_caches: bool,
    exclude_temporary: bool,
    patterns: Seq<Seq<char>>,
) -> bool {
    ||| within_home
    ||| exclude_hidden && (starts_with(name, "."@) || platform_hidden)
    ||| exclude_caches && cache_name(ascii_lowercase(name))
    ||| exclude_temporary && temporary_name(ascii_lowercase(name))
    ||| exists|k: int|
        0 <= k < patterns.len() && scan_match(
            vstd::utf8::encode_utf8(forward_slashes(#[trigger] patterns[k])),
            vstd::utf8::encode_utf8(relative),
            0,
            0,
            None,
            0,
        )
}

fn cache_name_of(lower: &str) -> (r: bool)
    ensures
        r == cache_name(lower@),
{
    str_eq(lower, "cache") || str_eq(lower, "caches") || str_eq(lower, ".cache") || str_eq(
        lower,
        "node_modules",
    ) || str_eq(lower, "target") || str_eq(lower, "__pycache__")
}

fn temporary_name_of(lower: &str) -> (r: bool)
    ensures
        r == temporary_name(lower@),
{
    str_eq(lower, "tmp") || str_eq(lower, "temp") || str_eq(lower, ".trash") || str_eq(
        lower,
        ".trashes",
    ) || str_eq(lower, "$recycle.bin")
}

/// With caches excluded, an entry named `cache`, `caches`, `.cache`, `node_modules`,
/// `target` or `__pycache__`, in any ASCII case, is skipped, whatever else is set.
pub proof fn law_cache_folders_are_skipped(
    within_home: bool,
    platform_hidden: bool,
    relative: Seq<char>,
    name: Seq<char>,
    exclude_hidden: bool,
    exclude_temporary: bool,
    patterns: Seq<Seq<char>>,
)
    requires
        ascii_lowercase(name) == "cache"@ || ascii_lowercase(name) == "caches"@ || ascii_lowercase(name) == ".cache"@
            || ascii_lowercase(name) == "node_modules"@ || ascii_lowercase(name) == "target"@ || ascii_lowercase(name)
            == "__pycache__"@,
    ensures
        excluded_by(within_home, platform_hidden, relative, name, exclude_hidden, true, exclude_temporary, patterns),
{
}

/// With temporary folders excluded, an entry named `tmp`, `temp`, `.trash`, `.trashes`
/// or `$recycle.bin`, in any ASCII case, is skipped, whatever else is set.
pub proof fn law_temporary_folders_are_skipped(
    within_home: bool,
    platform_hidden: bool,
    relative: Seq<char>,
    name: Seq<char>,
    exclude_hidden: bool,
    exclude_caches: bool,
    patterns: Seq<Seq<char>>,
)
    requires
        ascii_lowercase(name) == "tmp"@ || ascii_lowercase(name) == "temp"@ || ascii_lowercase(name) == ".trash"@
            || ascii_lowercase(name) == ".trashes"@ || ascii_lowercase(name) == "$recycle.bin"@,
    ensures
        excluded_by(within_home, platform_hidden, relative, name, exclude_hidden, exclude_caches, true, patterns),
{
}

/// With hidden entries excluded, an entry whose name starts with `.`, or that the
/// platform marks hidden, is skipped; anything inside BOREAL's home is always skipped.
pub proof fn law_hidden_and_home_entries_are_skipped(
    within_home: bool,
    platform_hidden: bool,
    relative: Seq<char>,
    name: Seq<char>,
    exclude_hidden: bool,
    exclude_caches: bool,
    exclude_temporary: bool,
    patterns: Seq<Seq<char>>,
)
    ensures
        within_home ==> excluded_by(
            within_home,
            platform_hidden,
            relative,
            name,
            exclude_hidden,
            exclude_caches,
            exclude_temporary,
            patterns,
        ),
        exclude_hidden && (platform_hidden || (name.len() > 0 && name[0] == '.')) ==> excluded_by(
            within_home,
            platform_hidden,
            relative,
            name,
            true,
            exclude_caches,
            exclude_temporary,
            patterns,
        ),
{
    reveal_strlit(".");
    if name.len() > 0 && name[0] == '.' {
        assert(name.subrange(0, 1) =~= "."@);
    }
}

/// An entry outside BOREAL's home is scanned when no rule is switched on and no
/// pattern is configured.
pub proof fn law_nothing_else_is_skipped(platform_hidden: bool, relative: Seq<char>, name: Seq<char>)
    ensures
        !excluded_by(false, platform_hidden, relative, name, false, false, false, seq![]),
{
}

/// Whether the scan skips the entry at `path`: inside BOREAL's home (component by
/// component), or by the rules of `excluded_entry`. `platform_hidden` is the
/// platform's hidden flag (Windows attributes).
pub fn excluded(path: &str, relative: &str, name: &str, platform_hidden: bool, o: &ScanOptions) -> (r:
    bool)
    ensures
        r == excluded_by(
            components_of(o.boreal_home@).is_prefix_of(components_of(path@)),
            platform_hidden,
            relative@,
            name@,
            o.exclude_hidden,
            o.exclude_caches,
            o.exclude_temporary,
            crate::text::strings_view(o.exclude_patterns@),
        ),
{
    let within_home = path_within(path, o.boreal_home.as_str());
    excluded_entry(within_home, platform_hidden, relative, name, o)
}

/// The exclusion decision for an entry, given whether it lies in BOREAL's home.
pub fn excluded_entry(
    within_home: bool,
    platform_hidden: bool,
    relative: &str,
    name: &str,
    o: &ScanOptions,
) -> (r: bool)
    ensures
        r == excluded_by(
            within_home,
            platform_hidden,
            relative@,
            name@,
            o.exclude_hidden,
            o.exclude_caches,
            o.exclude_temporary,
            crate::text::strings_view(o.exclude_patterns@),
        ),
{
    if within_home {
        return true;
    }
    excluded_below_home(relative, name, platform_hidden, o)
}

/// The exclusion rules for an entry outside BOREAL's home.
fn excluded_below_home(relative: &str, name: &str, platform_hidden: bool, o: &ScanOptions) -> (r: bool)
    ensures
        r == excluded_by(
            false,
            platform_hidden,
            relative@,
            name@,
            o.exclude_hidden,
            o.exclude_caches,
            o.exclude_temporary,
            crate::text::strings_view(o.exclude_patterns@),
        ),
{
    proof {
        reveal_strlit(".");
    }
    if o.exclude_hidden && (crate::text::strip_prefix_str(name, ".").is_some() || platform_hidden) {
        return true;
    }
    let lower = to_ascii_lowercase(name);
    if o.exclude_caches && cache_name_of(lower.as_str()) {
        return true;
    }
    if o.exclude_temporary && temporary_name_of(lower.as_str()) {
        return true;
    }
    let ghost pv = crate::text::strings_view(o.exclude_patterns@);
    let mut k: usize = 0;
    while k < o.exclude_patterns.len()
        invariant
            k <= o.exclude_patterns@.len(),
            pv == crate::text::strings_view(o.exclude_patterns@),
            forall|m: int|
                0 <= m < k ==> !scan_match(
                    vstd::utf8::encode_utf8(forward_slashes(#[trigger] pv[m])),
                    vstd::utf8::encode_utf8(relative@),
                    0,
                    0,
                    None,
                    0,
                ),
        decreases o.exclude_patterns.len() - k,
    {
        let replaced = forward_slashes_of(o.exclude_patterns[k].as_str());
        let pattern = string_from_chars(replaced.as_slice());
        assert(pv[k as int] == o.exclude_patterns@[k as int]@);
        if wildcard_match(pattern.as_str(), relative) {
            return true;
        }
        k = k + 1;
    }
    false
}

} // verus!

verus! {

/// `path` lies strictly below the folder `dir` (same root): it starts with `dir/`.
pub open spec fn is_below(dir: Seq<char>, path: Seq<char>) -> bool {
    starts_with(path, dir.push('/'))
}

/// The total size of the files below the folder `dir` of `root`.
pub open spec fn folder_total(items: Seq<ItemView>, root: Seq<char>, dir: Seq<char>) -> nat
    decreases items.len(),
{
    if items.len() == 0 {
        0
    } else {
        let i = items.last();
        folder_total(items.drop_last(), root, dir) + if !i.is_directory && i.root_path == root
            && is_below(dir, i.relative_path) {
            i.size_bytes as nat
        } else {
            0nat
        }
    }
}

/// A folder's indexed size: the total of the files below it, capped at `u64::MAX`.
pub open spec fn folder_size(items: Seq<ItemView>, root: Seq<char>, dir: Seq<char>) -> u64 {
    if folder_total(items, root, dir) > u64::MAX {
        u64::MAX
    } else {
        folder_total(items, root, dir) as u64
    }
}

/// `starts_with(path, dir + "/")`, computed.
fn below(dir: &str, path: &str) -> (r: bool)
    ensures
        r == is_below(dir@, path@),
{
    let mut prefix = dir.to_owned();
    prefix.append("/");
    proof {
        reveal_strlit("/");
        assert(prefix@ =~= dir@.push('/'));
    }
    crate::text::strip_prefix_str(path, prefix.as_str()).is_some()
}

fn total_below(items: &Vec<Item>, root: &str, dir: &str) -> (r: u64)
    ensures
        r == folder_size(items_view(items@), root@, dir@),
{
    let ghost iv = items_view(items@);
    let mut total: u64 = 0;
    let mut i: usize = 0;
    while i < items.len()
        invariant
            i <= items@.len(),
            iv == items_view(items@),
            total == folder_size(iv.take(i as int), root@, dir@),
        decreases items.len() - i,
    {
        let ghost t = iv.take(i + 1);
        assert(t.drop_last() == iv.take(i as int));
        assert(t.last() == items@[i as int]@);
        let it = &items[i];
        if !it.is_directory && str_eq(it.root_path.as_str(), root) && below(dir, it.relative_path.as_str()) {
            total = total.saturating_add(it.size_bytes);
        }
        i = i + 1;
    }
    assert(iv.take(items@.len() as int) == iv);
    total
}

/// Gives every folder the total size of the files below it (capped at `u64::MAX`);
/// files are left as they are.
pub fn accumulate_folder_sizes(items: &mut Vec<Item>)
    ensures
        final(items)@.len() == old(items)@.len(),
        forall|k: int|
            0 <= k < old(items)@.len() ==> (#[trigger] final(items)@[k])@ == (if old(items)@[k].is_directory {
                (ItemView {
                    size_bytes: folder_size(
                        items_view(old(items)@),
                        old(items)@[k].root_path@,
                        old(items)@[k].relative_path@,
                    ),
                    ..old(items)@[k]@
                })
            } else {
                old(items)@[k]@
            }),
{
    let ghost before = items_view(items@);
    let ghost original = items@;
    let mut k: usize = 0;
    while k < items.len()
        invariant
            k <= items@.len(),
            items@.len() == original.len(),
            before == items_view(original),
            items_view(items@).len() == before.len(),
            forall|m: int|
                0 <= m < items@.len() ==> (#[trigger] items@[m])@.is_directory == original[m]@.is_directory
                    && items@[m]@.root_path == original[m]@.root_path && items@[m]@.relative_path
                    == original[m]@.relative_path,
            forall|m: int| 0 <= m < items@.len() && !original[m].is_directory ==> (#[trigger] items@[m])@ == original[m]@,
            forall|m: int|
                k <= m < items@.len() ==> (#[trigger] items@[m])@ == original[m]@,
            forall|m: int|
                0 <= m < k && original[m].is_directory ==> (#[trigger] items@[m])@ == (ItemView {
                    size_bytes: folder_size(before, original[m].root_path@, original[m].relative_path@),
                    ..original[m]@
                }),
        decreases items.len() - k,
    {
        if items[k].is_directory {
            proof {
                assert forall|m: int| 0 <= m < items@.len() implies #[trigger] items_view(items@)[m].is_directory
                    == before[m].is_directory && (!before[m].is_directory ==> items_view(items@)[m] == before[m])
                    && items_view(items@)[m].root_path == before[m].root_path
                    && items_view(items@)[m].relative_path == before[m].relative_path by {}
                lemma_folder_total_files(items_view(items@), before, items@[k as int].root_path@, items@[k as int].relative_path@);
            }
            let size = total_below(items, items[k].root_path.as_str(), items[k].relative_path.as_str());
            let mut updated = items[k].duplicate();
            updated.size_bytes = size;
            items.set(k, updated);
        }
        k = k + 1;
    }
}

/// Folder totals depend only on the files, which keep their place.
proof fn lemma_folder_total_files(a: Seq<ItemView>, b: Seq<ItemView>, root: Seq<char>, dir: Seq<char>)
    requires
        a.len() == b.len(),
        forall|m: int|
            0 <= m < a.len() ==> #[trigger] a[m].is_directory == b[m].is_directory && (!b[m].is_directory
                ==> a[m] == b[m]) && a[m].root_path == b[m].root_path && a[m].relative_path
                == b[m].relative_path,
    ensures
        folder_total(a, root, dir) == folder_total(b, root, dir),
    decreases a.len(),
{
    if a.len() > 0 {
        let a2 = a.drop_last();
        let b2 = b.drop_last();
        assert forall|m: int| 0 <= m < a2.len() implies #[trigger] a2[m].is_directory == b2[m].is_directory
            && (!b2[m].is_directory ==> a2[m] == b2[m]) && a2[m].root_path == b2[m].root_path
            && a2[m].relative_path == b2[m].relative_path by {
            assert(a2[m] == a[m] && b2[m] == b[m]);
        }
        lemma_folder_total_files(a2, b2, root, dir);
        assert(a.last() == a[a.len() - 1]);
        assert(b.last() == b[b.len() - 1]);
    }
}

} // verus!

verus! {

/// A configured local folder as the settings give it: the home folder, a path below
/// it, or a path as written.
#[derive(Debug, Clone, PartialEq, Eq)]
pub enum RootEntry {
    Home,
    BelowHome(String),
    Given(String),
}

pub open spec fn root_entry_of(line: Seq<char>) -> RootEntryView {
    if line == "~"@ {
        RootEntryView::Home
    } else if starts_with(line, "~/"@) {
        RootEntryView::BelowHome(line.skip(2))
    } else {
        RootEntryView::Given(line)
    }
}

pub enum RootEntryView {
    Home,
    BelowHome(Seq<char>),
    Given(Seq<char>),
}

impl View for RootEntry {
    type V = RootEntryView;

    open spec fn view(&self) -> RootEntryView {
        match self {
            RootEntry::Home => RootEntryView::Home,
            RootEntry::BelowHome(s) => RootEntryView::BelowHome(s@),
            RootEntry::Given(s) => RootEntryView::Given(s@),
        }
    }
}

/// The configured folders: one per non-blank line, trimmed.
pub open spec fn roots_of(value: Seq<char>) -> Seq<RootEntryView> {
    crate::text::split_on(value, '\n').filter_map(
        |line: Seq<char>|
            if crate::text::trim(line).len() > 0 {
                Some(root_entry_of(crate::text::trim(line)))
            } else {
                None
            },
    )
}

/// Reads the local folder setting, one folder per line.
pub fn parse_roots(value: &str) -> (r: Vec<RootEntry>)
    ensures
        r@.map_values(|e: RootEntry| e@) == roots_of(value@),
{
    let chars = chars_of(value);
    let lines = crate::text::split_chars(&chars, '\n');
    let ghost lv = crate::text::split_on(value@, '\n');
    let mut r: Vec<RootEntry> = Vec::new();
    let mut i: usize = 0;
    while i < lines.len()
        invariant
            i <= lines@.len(),
            lines.deep_view() == lv,
            lv == crate::text::split_on(value@, '\n'),
            r@.map_values(|e: RootEntry| e@) == roots_of_lines(lv.take(i as int)),
        decreases lines.len() - i,
    {
        let ghost t = lv.take(i + 1);
        assert(t.drop_last() == lv.take(i as int));
        assert(lines@[i as int]@ == lines.deep_view()[i as int]);
        assert(t.last() == lines@[i as int]@);
        let line = crate::text::trim_chars(lines[i].as_slice());
        if line.len() > 0 {
            let text = string_from_chars(line.as_slice());
            let entry = if str_eq(text.as_str(), "~") {
                RootEntry::Home
            } else {
                match crate::text::strip_prefix_str(text.as_str(), "~/") {
                    Some(rest) => RootEntry::BelowHome(rest),
                    None => RootEntry::Given(text),
                }
            };
            proof {
                reveal_strlit("~/");
            }
            let ghost before = r@.map_values(|e: RootEntry| e@);
            r.push(entry);
            assert(r@.map_values(|e: RootEntry| e@) =~= before.push(entry@));
        }
        i = i + 1;
    }
    assert(lv.take(lines@.len() as int) == lv);
    r
}

pub open spec fn roots_of_lines(lines: Seq<Seq<char>>) -> Seq<RootEntryView> {
    lines.filter_map(
        |line: Seq<char>|
            if crate::text::trim(line).len() > 0 {
                Some(root_entry_of(crate::text::trim(line)))
            } else {
                None
            },
    )
}

} // verus!

verus! {

/// The first problem with the configured folders, checked folder by folder: not
/// absolute, not an existing directory, or the same as an earlier one.
pub open spec fn roots_problem(
    roots: Seq<Seq<char>>,
    absolute: Seq<bool>,
    directory: Seq<bool>,
    repeated: Seq<bool>,
    n: int,
) -> Option<Seq<char>>
    decreases n,
{
    if n <= 0 {
        None
    } else {
        match roots_problem(roots, absolute, directory, repeated, n - 1) {
            Some(m) => Some(m),
            None => {
                let k = n - 1;
                if !absolute[k] {
                    Some("Local folder must be an absolute path: "@ + roots[k])
                } else if !directory[k] {
                    Some("Local folder does not exist or is not a directory: "@ + roots[k])
                } else if repeated[k] {
                    Some("Local folder is listed more than once: "@ + roots[k])
                } else {
                    None
                }
            },
        }
    }
}

/// The checks of the configured folders, given for each whether it is absolute, an
/// existing directory, and the same as an earlier one.
pub fn check_roots(roots: &Vec<String>, absolute: &Vec<bool>, directory: &Vec<bool>, repeated: &Vec<bool>) -> (r:
    Result<(), String>)
    requires
        absolute@.len() == roots@.len(),
        directory@.len() == roots@.len(),
        repeated@.len() == roots@.len(),
    ensures
        roots@.len() == 0 ==> r is Err && r->Err_0@ == "Add at least one local folder"@,
        roots@.len() > 0 ==> match roots_problem(
            crate::text::strings_view(roots@),
            absolute@,
            directory@,
            repeated@,
            roots@.len() as int,
        ) {
            Some(m) => r is Err && r->Err_0@ == m,
            None => r is Ok,
        },
{
    if roots.len() == 0 {
        return Err("Add at least one local folder".to_owned());
    }
    let ghost rv = crate::text::strings_view(roots@);
    let mut k: usize = 0;
    while k < roots.len()
        invariant
            k <= roots@.len(),
            absolute@.len() == roots@.len(),
            directory@.len() == roots@.len(),
            repeated@.len() == roots@.len(),
            rv == crate::text::strings_view(roots@),
            roots_problem(rv, absolute@, directory@, repeated@, k as int) is None,
        decreases roots.len() - k,
    {
        assert(rv[k as int] == roots@[k as int]@);
        let message = if !absolute[k] {
            Some("Local folder must be an absolute path: ")
        } else if !directory[k] {
            Some("Local folder does not exist or is not a directory: ")
        } else if repeated[k] {
            Some("Local folder is listed more than once: ")
        } else {
            None
        };
        match message {
            Some(prefix) => {
                let mut m = prefix.to_owned();
                m.append(roots[k].as_str());
                proof {
                    lemma_roots_problem_stops(rv, absolute@, directory@, repeated@, k as int, roots@.len() as int);
                }
                return Err(m);
            },
            None => {},
        }
        k = k + 1;
    }
    Ok(())
}

proof fn lemma_roots_problem_stops(
    roots: Seq<Seq<char>>,
    absolute: Seq<bool>,
    directory: Seq<bool>,
    repeated: Seq<bool>,
    k: int,
    n: int,
)
    requires
        0 <= k < n,
        roots_problem(roots, absolute, directory, repeated, k) is None,
        roots_problem(roots, absolute, directory, repeated, k + 1) is Some,
    ensures
        roots_problem(roots, absolute, directory, repeated, n) == roots_problem(
            roots,
            absolute,
            directory,
            repeated,
            k + 1,
        ),
    decreases n - k,
{
    if n > k + 1 {
        lemma_roots_problem_stops(roots, absolute, directory, repeated, k, n - 1);
    }
}

/// For each configured folder, whether the platform reads it as absolute.
pub open spec fn absolute_roots(roots: Seq<Seq<char>>) -> Seq<bool> {
    roots.map_values(|r: Seq<char>| absolute_path(r))
}

/// For each configured folder, whether an earlier one is the same path.
pub open spec fn repeated_roots(roots: Seq<Seq<char>>) -> Seq<bool> {
    Seq::new(
        roots.len(),
        |k: int| exists|m: int| 0 <= m < k && components_of(#[trigger] roots[m]) == components_of(roots[k]),
    )
}

/// Checks the configured folders; `directories` tells for each whether it is an
/// existing directory.
pub fn validate_roots(roots: &Vec<String>, directories: &Vec<bool>) -> (r: Result<(), String>)
    requires
        directories@.len() == roots@.len(),
    ensures
        roots@.len() == 0 ==> r is Err && r->Err_0@ == "Add at least one local folder"@,
        roots@.len() > 0 ==> match roots_problem(
            crate::text::strings_view(roots@),
            absolute_roots(crate::text::strings_view(roots@)),
            directories@,
            repeated_roots(crate::text::strings_view(roots@)),
            roots@.len() as int,
        ) {
            Some(m) => r is Err && r->Err_0@ == m,
            None => r is Ok,
        },
{
    let ghost rv = crate::text::strings_view(roots@);
    let mut absolute: Vec<bool> = Vec::new();
    let mut repeated: Vec<bool> = Vec::new();
    let mut k: usize = 0;
    while k < roots.len()
        invariant
            k <= roots@.len(),
            rv == crate::text::strings_view(roots@),
            absolute@ == absolute_roots(rv).take(k as int),
            repeated@ == repeated_roots(rv).take(k as int),
        decreases roots.len() - k,
    {
        assert(rv[k as int] == roots@[k as int]@);
        absolute.push(is_absolute_path(roots[k].as_str()));
        let mut seen = false;
        let mut m: usize = 0;
        while m < k
            invariant
                m <= k < roots@.len(),
                rv == crate::text::strings_view(roots@),
                seen == exists|j: int| 0 <= j < m && components_of(#[trigger] rv[j]) == components_of(rv[k as int]),
            decreases k - m,
        {
            assert(rv[m as int] == roots@[m as int]@);
            if same_path(roots[m].as_str(), roots[k].as_str()) {
                seen = true;
            }
            m = m + 1;
        }
        repeated.push(seen);
        assert(absolute@ =~= absolute_roots(rv).take(k + 1));
        assert(repeated@ =~= repeated_roots(rv).take(k + 1));
        k = k + 1;
    }
    assert(absolute@ =~= absolute_roots(rv));
    assert(repeated@ =~= repeated_roots(rv));
    check_roots(roots, &absolute, directories, &repeated)
}

} // verus!

verus! {

/// What the scan does for the checksum of an entry.
#[derive(Debug, Clone, PartialEq, Eq)]
pub enum HashStep {
    /// No checksum: a folder, an empty file, or a size no other file has.
    Skip,
    /// The cached checksum still applies (same size and modification time).
    Reuse(String),
    /// The file is read and hashed.
    Compute,
}

/// A cached checksum: root, relative path, size, modification time, checksum.
#[derive(Debug, Clone)]
pub struct CachedHash {
    pub root_path: String,
    pub relative_path: String,
    pub size_bytes: u64,
    pub modified_unix: i64,
    pub checksum_sha256: String,
}

/// How many files have this (non-zero) size.
pub open spec fn files_of_size(items: Seq<ItemView>, size: u64) -> nat
    decreases items.len(),
{
    if items.len() == 0 {
        0
    } else {
        files_of_size(items.drop_last(), size) + if !items.last().is_directory
            && items.last().size_bytes > 0 && items.last().size_bytes == size {
            1nat
        } else {
            0nat
        }
    }
}

/// The cache entry for a path: the first one listed for it.
pub open spec fn cached_for(cache: Seq<CachedHash>, root: Seq<char>, rel: Seq<char>) -> Option<CachedHash>
    decreases cache.len(),
{
    if cache.len() == 0 {
        None
    } else if cache[0].root_path@ == root && cache[0].relative_path@ == rel {
        Some(cache[0])
    } else {
        cached_for(cache.drop_first(), root, rel)
    }
}

pub enum HashStepView {
    Skip,
    Reuse(Seq<char>),
    Compute,
}

impl View for HashStep {
    type V = HashStepView;

    open spec fn view(&self) -> HashStepView {
        match self {
            HashStep::Skip => HashStepView::Skip,
            HashStep::Reuse(h) => HashStepView::Reuse(h@),
            HashStep::Compute => HashStepView::Compute,
        }
    }
}

/// Checksums are only worth having for files that share their size with another
/// file (possible copies or moves); an unchanged cached one is reused.
pub open spec fn hash_step(items: Seq<ItemView>, cache: Seq<CachedHash>, i: ItemView) -> HashStepView {
    if i.is_directory || i.size_bytes == 0 || files_of_size(items, i.size_bytes) < 2 {
        HashStepView::Skip
    } else {
        match cached_for(cache, i.root_path, i.relative_path) {
            Some(c) => if c.size_bytes == i.size_bytes && c.modified_unix == i.modified_unix
                && c.checksum_sha256@.len() > 0 {
                HashStepView::Reuse(c.checksum_sha256@)
            } else {
                HashStepView::Compute
            },
            None => HashStepView::Compute,
        }
    }
}

fn count_size(items: &Vec<Item>, size: u64) -> (r: usize)
    ensures
        r == files_of_size(items_view(items@), size),
{
    let ghost iv = items_view(items@);
    let mut n: usize = 0;
    let mut i: usize = 0;
    while i < items.len()
        invariant
            i <= items@.len(),
            n <= i,
            iv == items_view(items@),
            n == files_of_size(iv.take(i as int), size),
        decreases items.len() - i,
    {
        let ghost t = iv.take(i + 1);
        assert(t.drop_last() == iv.take(i as int));
        assert(t.last() == items@[i as int]@);
        if !items[i].is_directory && items[i].size_bytes > 0 && items[i].size_bytes == size {
            n = n + 1;
        }
        i = i + 1;
    }
    assert(iv.take(items@.len() as int) == iv);
    n
}

proof fn lemma_cached_for_skip(cache: Seq<CachedHash>, root: Seq<char>, rel: Seq<char>, i: int)
    requires
        0 <= i <= cache.len(),
        forall|k: int| 0 <= k < i ==> !(#[trigger] cache[k].root_path@ == root && cache[k].relative_path@ == rel),
    ensures
        cached_for(cache, root, rel) == cached_for(cache.skip(i), root, rel),
    decreases i,
{
    if i == 0 {
        assert(cache.skip(0) == cache);
    } else {
        lemma_cached_for_skip(cache.drop_first(), root, rel, i - 1);
        assert(cache.drop_first().skip(i - 1) == cache.skip(i));
        assert forall|k: int| 0 <= k < i - 1 implies !(#[trigger] cache.drop_first()[k].root_path@ == root
            && cache.drop_first()[k].relative_path@ == rel) by {
            assert(cache.drop_first()[k] == cache[k + 1]);
        }
    }
}

fn step_for(items: &Vec<Item>, cache: &Vec<CachedHash>, item: &Item) -> (r: HashStep)
    ensures
        r@ == hash_step(items_view(items@), cache@, item@),
{
    if item.is_directory || item.size_bytes == 0 || count_size(items, item.size_bytes) < 2 {
        return HashStep::Skip;
    }
    let mut k: usize = 0;
    while k < cache.len()
        invariant
            k <= cache@.len(),
            !item.is_directory && item.size_bytes > 0,
            files_of_size(items_view(items@), item.size_bytes) >= 2,
            forall|m: int|
                0 <= m < k ==> !(#[trigger] cache@[m].root_path@ == item.root_path@ && cache@[m].relative_path@
                    == item.relative_path@),
        decreases cache.len() - k,
    {
        if cache[k].root_path == item.root_path && cache[k].relative_path == item.relative_path {
            proof {
                lemma_cached_for_skip(cache@, item.root_path@, item.relative_path@, k as int);
                assert(cache@.skip(k as int)[0] == cache@[k as int]);
            }
            let c = &cache[k];
            if c.size_bytes == item.size_bytes && c.modified_unix == item.modified_unix
                && !c.checksum_sha256.as_str().is_empty() {
                return HashStep::Reuse(c.checksum_sha256.clone());
            } else {
                return HashStep::Compute;
            }
        }
        k = k + 1;
    }
    proof {
        lemma_cached_for_skip(cache@, item.root_path@, item.relative_path@, k as int);
    }
    HashStep::Compute
}

/// The checksum step of each entry of a finished walk, in order.
pub fn hash_plan(items: &Vec<Item>, cache: &Vec<CachedHash>) -> (r: Vec<HashStep>)
    ensures
        r@.len() == items@.len(),
        forall|k: int|
            0 <= k < items@.len() ==> (#[trigger] r@[k])@ == hash_step(items_view(items@), cache@, items@[k]@),
{
    let mut r: Vec<HashStep> = Vec::new();
    let mut i: usize = 0;
    while i < items.len()
        invariant
            i <= items@.len(),
            r@.len() == i,
            forall|k: int|
                0 <= k < i ==> (#[trigger] r@[k])@ == hash_step(items_view(items@), cache@, items@[k]@),
        decreases items.len() - i,
    {
        r.push(step_for(items, cache, &items[i]));
        i = i + 1;
    }
    r
}

} // verus!

verus! {

/// The entries of a walk with each folder's size set to the total of the files below it.
pub open spec fn sized_items(items: Seq<ItemView>) -> Seq<ItemView> {
    Seq::new(
        items.len(),
        |k: int|
            if items[k].is_directory {
                ItemView { size_bytes: folder_size(items, items[k].root_path, items[k].relative_path), ..items[k] }
            } else {
                items[k]
            },
    )
}

/// The end of a scan once the walk is done: folder sizes are filled in, and each entry
/// gets its checksum step (the caller reuses or computes each checksum and records it
/// with `record_checksum`). A cancelled walk is returned as it is, with no steps.
pub fn scan(walked: ScanResult, cached: &Vec<CachedHash>) -> (r: (ScanResult, Vec<HashStep>))
    ensures
        r.0.skipped == walked.skipped,
        crate::text::strings_view(r.0.errors@) == crate::text::strings_view(walked.errors@),
        r.0.cancelled == walked.cancelled,
        walked.cancelled ==> items_view(r.0.items@) == items_view(walked.items@) && r.1@.len() == 0,
        !walked.cancelled ==> items_view(r.0.items@) == sized_items(items_view(walked.items@)) && r.1@.len()
            == walked.items@.len() && forall|k: int|
            0 <= k < r.1@.len() ==> (#[trigger] r.1@[k])@ == hash_step(
                sized_items(items_view(walked.items@)),
                cached@,
                sized_items(items_view(walked.items@))[k],
            ),
{
    if walked.cancelled {
        return (walked, Vec::new());
    }
    let ScanResult { items, skipped, errors, cancelled } = walked;
    let ghost before = items_view(items@);
    let mut items = items;
    accumulate_folder_sizes(&mut items);
    assert(items_view(items@) =~= sized_items(before));
    let plan = hash_plan(&items, cached);
    proof {
        assert forall|k: int| 0 <= k < plan@.len() implies (#[trigger] plan@[k])@ == hash_step(
            sized_items(before),
            cached@,
            sized_items(before)[k],
        ) by {
            assert(items@[k]@ == items_view(items@)[k]);
        }
    }
    (ScanResult { items, skipped, errors, cancelled }, plan)
}

/// Records the checksum outcome of entry `index`: a reused or computed checksum is
/// stored in it; a file that could not be read is counted as skipped, with its full
/// path and the error.
pub fn record_checksum(result: &mut ScanResult, index: usize, outcome: Result<String, String>)
    requires
        index < old(result).items@.len(),
        old(result).skipped < u64::MAX,
    ensures
        final(result).cancelled == old(result).cancelled,
        match outcome {
            Ok(hash) => {
                &&& items_view(final(result).items@) == items_view(old(result).items@).update(
                    index as int,
                    ItemView { checksum_sha256: hash@, ..old(result).items@[index as int]@ },
                )
                &&& final(result).skipped == old(result).skipped
                &&& crate::text::strings_view(final(result).errors@) == crate::text::strings_view(old(result).errors@)
            },
            Err(error) => {
                &&& items_view(final(result).items@) == items_view(old(result).items@)
                &&& final(result).skipped == old(result).skipped + 1
                &&& crate::text::strings_view(final(result).errors@) == crate::text::strings_view(
                    old(result).errors@,
                ).push(
                    crate::paths::joined_path(
                        old(result).items@[index as int].root_path@,
                        old(result).items@[index as int].relative_path@,
                    ) + ": "@ + error@,
                )
            },
        },
{
    match outcome {
        Ok(hash) => {
            let mut item = result.items[index].duplicate();
            item.checksum_sha256 = hash;
            let ghost before = items_view(result.items@);
            result.items.set(index, item);
            assert(items_view(result.items@) =~= before.update(
                index as int,
                ItemView { checksum_sha256: hash@, ..old(result).items@[index as int]@ },
            ));
        },
        Err(error) => {
            let mut message = crate::paths::join_path(
                result.items[index].root_path.as_str(),
                result.items[index].relative_path.as_str(),
            );
            message.append(": ");
            message.append(error.as_str());
            let ghost before = crate::text::strings_view(result.errors@);
            result.skipped = result.skipped + 1;
            result.errors.push(message);
            assert(crate::text::strings_view(result.errors@) =~= before.push(message@));
        },
    }
}

} // verus!

verus! {

/// Nothing inside BOREAL's own home is ever inventoried, whatever the other rules say.
pub proof fn law_boreal_home_is_never_scanned(
    platform_hidden: bool,
    relative: Seq<char>,
    name: Seq<char>,
    exclude_hidden: bool,
    exclude_caches: bool,
    exclude_temporary: bool,
    patterns: Seq<Seq<char>>,
)
    ensures
        excluded_by(true, platform_hidden, relative, name, exclude_hidden, exclude_caches, exclude_temporary, patterns),
{
}

} // verus!

verus! {

/// What the filesystem reports of one directory entry, from its own metadata (a link is
/// not followed).
#[derive(Debug, Clone)]
pub struct EntryFacts {
    pub is_symlink: bool,
    pub is_dir: bool,
    pub len: u64,
    pub modified_unix: i64,
    pub modified_nanos: Option<u32>,
    /// Where a link points, resolved against its folder (empty for other entries).
    pub symlink_target: String,
    pub owner_username: String,
    pub owner_identifier: String,
    pub group_name: String,
    pub group_identifier: String,
}

/// The inventory entry for a directory entry. A link is kept as itself: it is never a
/// folder and has no size, so its target is neither read nor walked.
pub fn entry_item(root: String, relative: String, name: String, extension: String, facts: EntryFacts) -> (r: Item)
    ensures
        r.root_path == root && r.relative_path == relative && r.name == name && r.extension == extension,
        r.is_symlink == facts.is_symlink,
        r.is_directory == (!facts.is_symlink && facts.is_dir),
        r.size_bytes == (if r.is_directory || facts.is_symlink {
            0
        } else {
            facts.len
        }),
        r.modified_unix == facts.modified_unix && r.modified_nanos == facts.modified_nanos,
        r.symlink_target@ == (if facts.is_symlink {
            facts.symlink_target@
        } else {
            Seq::<char>::empty()
        }),
        r.owner_username == facts.owner_username && r.owner_identifier == facts.owner_identifier,
        r.group_name == facts.group_name && r.group_identifier == facts.group_identifier,
        r.checksum_sha256@.len() == 0 && r.file_identity@.len() == 0,
{
    let is_directory = !facts.is_symlink && facts.is_dir;
    let size_bytes = if is_directory || facts.is_symlink {
        0
    } else {
        facts.len
    };
    let symlink_target = if facts.is_symlink {
        facts.symlink_target
    } else {
        String::new()
    };
    Item {
        root_path: root,
        relative_path: relative,
        name,
        extension,
        is_directory,
        size_bytes,
        modified_unix: facts.modified_unix,
        modified_nanos: facts.modified_nanos,
        checksum_sha256: String::new(),
        file_identity: String::new(),
        is_symlink: facts.is_symlink,
        symlink_target,
        owner_username: facts.owner_username,
        owner_identifier: facts.owner_identifier,
        group_name: facts.group_name,
        group_identifier: facts.group_identifier,
    }
}

} // verus!

verus! {

/// The checksum stored for a file: the SHA-256 of its content in lowercase hexadecimal,
/// two digits per byte.
pub fn checksum(content: &[u8]) -> (r: String)
    ensures
        r@ == crate::google::my_groups::hex_of(crate::google::auth::sha256_of(content@)),
{
    let digest = crate::google::auth::sha256(content);
    crate::google::my_groups::hex_string(&digest)
}

} // verus!

verus! {

/// Where an entry lies below its root, with `/` between names: its components after
/// the root's; a path outside the root is kept whole. Every `\` reads as `/`.
pub open spec fn relative_of(path: Seq<char>, root: Seq<char>) -> Seq<char> {
    let p = components_of(path);
    let b = components_of(root);
    if b.is_prefix_of(p) {
        crate::rclone::local_upload::forward_slashes(
            crate::rclone::local_upload::names_text(p.skip(b.len() as int)),
        )
    } else {
        crate::rclone::local_upload::forward_slashes(path)
    }
}

/// The relative path an entry is inventoried under.
pub fn relative_path(path: &str, root: &str) -> (r: String)
    ensures
        r@ == relative_of(path@, root@),
{
    if path_within(path, root) {
        let p = crate::paths::path_components(path);
        let b = crate::paths::path_components(root);
        proof {
            assert(crate::paths::components_view(b@).len() == b@.len());
            assert(crate::paths::components_view(p@).len() == p@.len());
        }
        let tail = crate::rclone::local_upload::tail_components(&p, b.len());
        let names = crate::rclone::local_upload::names_text_of(&tail);
        crate::rclone::local_upload::forward_slashes_of(names.as_str())
    } else {
        crate::rclone::local_upload::forward_slashes_of(path)
    }
}

} // verus!
