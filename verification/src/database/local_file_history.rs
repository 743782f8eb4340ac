//! Comparison of two Local Files snapshots.
use vstd::prelude::*;
use crate::local_files::{Item, ItemView, items_view};
use crate::text::{has_infix, seq_lt, str_eq, string_lt};

verus! {

/// The index key of an entry: its root and its path below the root.
pub open spec fn key_of(i: ItemView) -> (Seq<char>, Seq<char>) {
    (i.root_path, i.relative_path)
}

/// The order of index keys (root first, then relative path).
pub open spec fn key_lt(a: (Seq<char>, Seq<char>), b: (Seq<char>, Seq<char>)) -> bool {
    seq_lt(a.0, b.0) || (a.0 == b.0 && seq_lt(a.1, b.1))
}

/// Adds `x` to a key-ordered index: it replaces the entry with its key, or is placed
/// before the first entry whose key is greater.
pub open spec fn insert_keyed(s: Seq<ItemView>, x: ItemView) -> Seq<ItemView>
    decreases s.len(),
{
    if s.len() == 0 {
        seq![x]
    } else if key_of(s[0]) == key_of(x) {
        seq![x] + s.drop_first()
    } else if key_lt(key_of(x), key_of(s[0])) {
        seq![x] + s
    } else {
        seq![s[0]] + insert_keyed(s.drop_first(), x)
    }
}

/// A snapshot indexed by key, in key order; a later entry with the same key wins.
pub open spec fn keyed(items: Seq<ItemView>) -> Seq<ItemView>
    decreases items.len(),
{
    if items.len() == 0 {
        seq![]
    } else {
        insert_keyed(keyed(items.drop_last()), items.last())
    }
}

/// The identity used to pair a removed path with an added one: the filesystem
/// identity, or (for regular files) the content checksum.
pub open spec fn match_key(i: ItemView, checksum: bool) -> Seq<char> {
    if checksum {
        if i.is_directory || i.is_symlink {
            seq![]
        } else {
            i.checksum_sha256
        }
    } else {
        i.file_identity
    }
}

/// How many entries of a full snapshot carry the identity `id`.
pub open spec fn count_of(items: Seq<ItemView>, id: Seq<char>, checksum: bool) -> nat
    decreases items.len(),
{
    if items.len() == 0 {
        0
    } else {
        count_of(items.drop_last(), id, checksum) + if match_key(items.last(), checksum) == id {
            1nat
        } else {
            0nat
        }
    }
}

/// An identity that is present and occurs exactly once in each full snapshot.
pub open spec fn unique_in_both(
    before: Seq<ItemView>,
    after: Seq<ItemView>,
    id: Seq<char>,
    checksum: bool,
) -> bool {
    id.len() > 0 && count_of(before, id, checksum) == 1 && count_of(after, id, checksum) == 1
}

/// The first entry of `ys` with the identity `id`.
pub open spec fn first_with(ys: Seq<ItemView>, id: Seq<char>, checksum: bool) -> Option<ItemView>
    decreases ys.len(),
{
    if ys.len() == 0 {
        None
    } else if match_key(ys[0], checksum) == id {
        Some(ys[0])
    } else {
        first_with(ys.drop_first(), id, checksum)
    }
}

/// The entry of `ys` to which `x` moved: the one sharing its identity, when that identity
/// is unique in both snapshots, the key differs and the entry kind is the same.
pub open spec fn partner(
    x: ItemView,
    ys: Seq<ItemView>,
    before: Seq<ItemView>,
    after: Seq<ItemView>,
    checksum: bool,
) -> Option<ItemView> {
    let id = match_key(x, checksum);
    if unique_in_both(before, after, id, checksum) {
        match first_with(ys, id, checksum) {
            Some(y) => if key_of(y) != key_of(x) && y.is_directory == x.is_directory
                && y.is_symlink == x.is_symlink {
                Some(y)
            } else {
                None
            },
            None => None,
        }
    } else {
        None
    }
}

/// `[name]` when `present`, else nothing.
pub open spec fn named_if(present: bool, name: Seq<char>) -> Seq<Seq<char>> {
    if present {
        seq![name]
    } else {
        seq![]
    }
}

pub open spec fn type_differs(a: ItemView, b: ItemView) -> bool {
    a.is_directory != b.is_directory || a.is_symlink != b.is_symlink || a.extension != b.extension
}

/// The modification time differs; the sub-second part counts only where both have one.
pub open spec fn time_differs(a: ItemView, b: ItemView) -> bool {
    a.modified_unix != b.modified_unix || (a.modified_nanos is Some && b.modified_nanos is Some
        && a.modified_nanos != b.modified_nanos)
}

/// Both values are known (non-empty) and they differ.
pub open spec fn known_and_differ(x: Seq<char>, y: Seq<char>) -> bool {
    x.len() > 0 && y.len() > 0 && x != y
}

/// The names of the fields that differ between two versions of an entry.
pub open spec fn field_list(a: ItemView, b: ItemView) -> Seq<Seq<char>> {
    named_if(type_differs(a, b), "Type"@) + named_if(a.size_bytes != b.size_bytes, "Indexed size"@)
        + named_if(time_differs(a, b), "Modified time"@) + named_if(
        known_and_differ(a.checksum_sha256, b.checksum_sha256),
        "Content checksum"@,
    ) + named_if(known_and_differ(a.file_identity, b.file_identity), "File identity (replaced)"@)
        + named_if(
        a.owner_username != b.owner_username || a.owner_identifier != b.owner_identifier,
        "Owner"@,
    ) + named_if(a.group_name != b.group_name || a.group_identifier != b.group_identifier, "Group"@)
        + named_if(a.symlink_target != b.symlink_target, "Link target"@)
}

/// `parts` joined by `sep`.
pub open spec fn join(parts: Seq<Seq<char>>, sep: Seq<char>) -> Seq<char>
    decreases parts.len(),
{
    if parts.len() == 0 {
        seq![]
    } else if parts.len() == 1 {
        parts[0]
    } else {
        join(parts.drop_last(), sep) + sep + parts.last()
    }
}

/// The changed fields of an entry, as the comparison reports them.
pub open spec fn changed_fields(a: ItemView, b: ItemView) -> Seq<char> {
    join(field_list(a, b), ", "@)
}

pub open spec fn evidence(checksum: bool) -> Seq<char> {
    if checksum {
        "Matching unique checksum; move inferred"@
    } else {
        "Matching unique filesystem identity; move inferred"@
    }
}

pub open spec fn moved_detail(a: ItemView, b: ItemView, checksum: bool) -> Seq<char> {
    if field_list(a, b).len() == 0 {
        evidence(checksum)
    } else {
        evidence(checksum) + "; "@ + changed_fields(a, b)
    }
}

/// A reported difference between two snapshots.
pub struct ChangeView {
    pub kind: Seq<char>,
    pub before: Option<ItemView>,
    pub after: Option<ItemView>,
    pub detail: Seq<char>,
}

pub open spec fn opt_view(o: Option<Item>) -> Option<ItemView> {
    match o {
        Some(i) => Some(i@),
        None => None,
    }
}

/// A difference between two snapshots: `Changed`, `Moved`, `Deleted`,
/// `Removed from index` or `Added`.
#[derive(Debug)]
pub struct Change {
    pub kind: &'static str,
    pub before: Option<Item>,
    pub after: Option<Item>,
    pub detail: String,
}

impl View for Change {
    type V = ChangeView;

    open spec fn view(&self) -> ChangeView {
        ChangeView {
            kind: self.kind@,
            before: opt_view(self.before),
            after: opt_view(self.after),
            detail: self.detail@,
        }
    }
}

pub open spec fn changes_view(s: Seq<Change>) -> Seq<ChangeView> {
    s.map_values(|c: Change| c@)
}

/// The moves inferred from `xs` (remaining earlier entries) to `ys` (remaining later ones).
pub open spec fn moves(
    xs: Seq<ItemView>,
    ys: Seq<ItemView>,
    before: Seq<ItemView>,
    after: Seq<ItemView>,
    checksum: bool,
) -> Seq<ChangeView> {
    xs.filter_map(
        |x: ItemView|
            match partner(x, ys, before, after, checksum) {
                Some(y) => Some(
                    ChangeView {
                        kind: "Moved"@,
                        before: Some(x),
                        after: Some(y),
                        detail: moved_detail(x, y, checksum),
                    },
                ),
                None => None,
            },
    )
}

/// The entries of `xs` that did not move.
pub open spec fn unpaired(
    xs: Seq<ItemView>,
    ys: Seq<ItemView>,
    before: Seq<ItemView>,
    after: Seq<ItemView>,
    checksum: bool,
) -> Seq<ItemView> {
    xs.filter_map(
        |x: ItemView|
            if partner(x, ys, before, after, checksum) is None {
                Some(x)
            } else {
                None
            },
    )
}

/// Whether a move ends at the key `k`.
pub open spec fn is_destination(moved: Seq<ChangeView>, k: (Seq<char>, Seq<char>)) -> bool {
    exists|j: int| 0 <= j < moved.len() && #[trigger] moved[j].after is Some
        && key_of(moved[j].after->0) == k
}

/// The entries of `ys` that no move ends at.
pub open spec fn undestined(ys: Seq<ItemView>, moved: Seq<ChangeView>) -> Seq<ItemView> {
    ys.filter_map(
        |y: ItemView|
            if is_destination(moved, key_of(y)) {
                None
            } else {
                Some(y)
            },
    )
}

/// The first entry of `ys` with the key `k`.
pub open spec fn first_key(ys: Seq<ItemView>, k: (Seq<char>, Seq<char>)) -> Option<ItemView>
    decreases ys.len(),
{
    if ys.len() == 0 {
        None
    } else if key_of(ys[0]) == k {
        Some(ys[0])
    } else {
        first_key(ys.drop_first(), k)
    }
}

/// Entries present at the same key in both snapshots whose fields differ.
pub open spec fn modified(xs: Seq<ItemView>, ys: Seq<ItemView>) -> Seq<ChangeView> {
    xs.filter_map(
        |x: ItemView|
            match first_key(ys, key_of(x)) {
                Some(y) => if field_list(x, y).len() > 0 {
                    Some(
                        ChangeView {
                            kind: "Changed"@,
                            before: Some(x),
                            after: Some(y),
                            detail: changed_fields(x, y),
                        },
                    )
                } else {
                    None
                },
                None => None,
            },
    )
}

/// The entries of `xs` whose key is absent from `ys`.
pub open spec fn without_keys_of(xs: Seq<ItemView>, ys: Seq<ItemView>) -> Seq<ItemView> {
    xs.filter_map(
        |x: ItemView|
            if first_key(ys, key_of(x)) is None {
                Some(x)
            } else {
                None
            },
    )
}

pub open spec fn removal_kind(same_scope: bool) -> Seq<char> {
    if same_scope {
        "Deleted"@
    } else {
        "Removed from index"@
    }
}

pub open spec fn removals(xs: Seq<ItemView>, same_scope: bool) -> Seq<ChangeView> {
    xs.map_values(
        |x: ItemView|
            ChangeView { kind: removal_kind(same_scope), before: Some(x), after: None, detail: seq![] },
    )
}

pub open spec fn additions(ys: Seq<ItemView>) -> Seq<ChangeView> {
    ys.map_values(
        |y: ItemView| ChangeView { kind: "Added"@, before: None, after: Some(y), detail: seq![] },
    )
}

/// The key a change is listed under: its later entry's, or else its earlier entry's.
pub open spec fn change_key(c: ChangeView) -> (Seq<char>, Seq<char>) {
    match c.after {
        Some(a) => key_of(a),
        None => match c.before {
            Some(b) => key_of(b),
            None => (seq![], seq![]),
        },
    }
}

/// Adds `c` to a key-ordered list after every change whose key is not greater.
pub open spec fn insert_sorted(s: Seq<ChangeView>, c: ChangeView) -> Seq<ChangeView>
    decreases s.len(),
{
    if s.len() == 0 || !key_lt(change_key(c), change_key(s.last())) {
        s.push(c)
    } else {
        insert_sorted(s.drop_last(), c).push(s.last())
    }
}

/// The stable sort of changes by key.
pub open spec fn sort_changes(s: Seq<ChangeView>) -> Seq<ChangeView>
    decreases s.len(),
{
    if s.len() == 0 {
        seq![]
    } else {
        insert_sorted(sort_changes(s.drop_last()), s.last())
    }
}

/// The differences between two full snapshots, in key order. Moves are inferred
/// first from filesystem identities and then, after entries present at the same key
/// are compared, from content checksums; an identity pairs entries only when it occurs
/// once in each snapshot. What remains is deleted (or, between snapshots of different
/// scopes, removed from the index) or added.
pub open spec fn diff_spec(
    before: Seq<ItemView>,
    after: Seq<ItemView>,
    same_scope: bool,
) -> Seq<ChangeView> {
    let o = keyed(before);
    let n = keyed(after);
    let m1 = moves(o, n, before, after, false);
    let o1 = unpaired(o, n, before, after, false);
    let n1 = undestined(n, m1);
    let c = modified(o1, n1);
    let o2 = without_keys_of(o1, n1);
    let n2 = without_keys_of(n1, o1);
    let m2 = moves(o2, n2, before, after, true);
    let o3 = unpaired(o2, n2, before, after, true);
    let n3 = undestined(n2, m2);
    sort_changes(m1 + c + m2 + removals(o3, same_scope) + additions(n3))
}

} // verus!

verus! {

fn same_key(a: &Item, b: &Item) -> (r: bool)
    ensures
        r == (key_of(a@) == key_of(b@)),
{
    a.root_path == b.root_path && a.relative_path == b.relative_path
}

fn less_key(a: &Item, b: &Item) -> (r: bool)
    ensures
        r == key_lt(key_of(a@), key_of(b@)),
{
    string_lt(a.root_path.as_str(), b.root_path.as_str()) || (a.root_path == b.root_path
        && string_lt(a.relative_path.as_str(), b.relative_path.as_str()))
}

proof fn lemma_insert_keyed_skip(s: Seq<ItemView>, x: ItemView, i: int)
    requires
        0 <= i <= s.len(),
        forall|k: int| 0 <= k < i ==> key_of(#[trigger] s[k]) != key_of(x) && !key_lt(key_of(x), key_of(s[k])),
    ensures
        insert_keyed(s, x) == s.take(i) + insert_keyed(s.skip(i), x),
    decreases i,
{
    if i == 0 {
        assert(s.take(0) + s.skip(0) =~= s);
        assert(s.skip(0) == s);
    } else {
        lemma_insert_keyed_skip(s.drop_first(), x, i - 1);
        assert(s.drop_first().skip(i - 1) == s.skip(i));
        assert(seq![s[0]] + s.drop_first().take(i - 1) =~= s.take(i));
    }
}

fn insert_keyed_item(s: &mut Vec<Item>, x: Item)
    ensures
        items_view(final(s)@) == insert_keyed(items_view(old(s)@), x@),
{
    let ghost sv = items_view(s@);
    let mut i: usize = 0;
    while i < s.len() && !same_key(&s[i], &x) && !less_key(&x, &s[i])
        invariant
            i <= s@.len(),
            sv == items_view(s@),
            forall|k: int| 0 <= k < i ==> key_of(#[trigger] sv[k]) != key_of(x@) && !key_lt(
                key_of(x@),
                key_of(sv[k]),
            ),
        decreases s.len() - i,
    {
        i = i + 1;
    }
    proof {
        lemma_insert_keyed_skip(sv, x@, i as int);
    }
    let ghost xv = x@;
    if i < s.len() && same_key(&s[i], &x) {
        proof {
            assert(sv.skip(i as int)[0] == sv[i as int]);
            assert(sv.skip(i as int).drop_first() == sv.skip(i + 1));
        }
        s.set(i, x);
        assert(items_view(s@) =~= sv.take(i as int) + (seq![xv] + sv.skip(i + 1)));
    } else {
        proof {
            if i < sv.len() {
                assert(sv.skip(i as int)[0] == sv[i as int]);
            }
        }
        s.insert(i, x);
        assert(items_view(s@) =~= sv.take(i as int) + (seq![xv] + sv.skip(i as int)));
    }
}

fn keyed_items(items: &Vec<Item>) -> (r: Vec<Item>)
    ensures
        items_view(r@) == keyed(items_view(items@)),
{
    let mut r: Vec<Item> = Vec::new();
    let mut i: usize = 0;
    while i < items.len()
        invariant
            i <= items@.len(),
            items_view(r@) == keyed(items_view(items@).take(i as int)),
        decreases items.len() - i,
    {
        proof {
            let t = items_view(items@).take(i + 1);
            assert(t.drop_last() == items_view(items@).take(i as int));
            assert(t.last() == items@[i as int]@);
        }
        insert_keyed_item(&mut r, items[i].duplicate());
        i = i + 1;
    }
    assert(items_view(items@).take(items@.len() as int) == items_view(items@));
    r
}

} // verus!

verus! {

fn match_key_of(i: &Item, checksum: bool) -> (r: String)
    ensures
        r@ == match_key(i@, checksum),
{
    if checksum {
        if i.is_directory || i.is_symlink {
            String::new()
        } else {
            i.checksum_sha256.clone()
        }
    } else {
        i.file_identity.clone()
    }
}

fn count_matches(items: &Vec<Item>, id: &String, checksum: bool) -> (n: usize)
    ensures
        n == count_of(items_view(items@), id@, checksum),
{
    let mut n: usize = 0;
    let mut i: usize = 0;
    while i < items.len()
        invariant
            i <= items@.len(),
            n <= i,
            n == count_of(items_view(items@).take(i as int), id@, checksum),
        decreases items.len() - i,
    {
        proof {
            let t = items_view(items@).take(i + 1);
            assert(t.drop_last() == items_view(items@).take(i as int));
            assert(t.last() == items@[i as int]@);
        }
        let k = match_key_of(&items[i], checksum);
        if k == *id {
            n = n + 1;
        }
        i = i + 1;
    }
    assert(items_view(items@).take(items@.len() as int) == items_view(items@));
    n
}

proof fn lemma_first_with_skip(s: Seq<ItemView>, id: Seq<char>, checksum: bool, i: int)
    requires
        0 <= i <= s.len(),
        forall|k: int| 0 <= k < i ==> match_key(#[trigger] s[k], checksum) != id,
    ensures
        first_with(s, id, checksum) == first_with(s.skip(i), id, checksum),
    decreases i,
{
    if i == 0 {
        assert(s.skip(0) == s);
    } else {
        lemma_first_with_skip(s.drop_first(), id, checksum, i - 1);
        assert(s.drop_first().skip(i - 1) == s.skip(i));
    }
}

fn first_with_index(ys: &Vec<Item>, id: &String, checksum: bool) -> (r: Option<usize>)
    ensures
        match r {
            Some(j) => j < ys@.len() && first_with(items_view(ys@), id@, checksum) == Some(ys@[j as int]@),
            None => first_with(items_view(ys@), id@, checksum) is None,
        },
{
    let ghost yv = items_view(ys@);
    let mut i: usize = 0;
    while i < ys.len()
        invariant
            i <= ys@.len(),
            yv == items_view(ys@),
            forall|k: int| 0 <= k < i ==> match_key(#[trigger] yv[k], checksum) != id@,
        decreases ys.len() - i,
    {
        let k = match_key_of(&ys[i], checksum);
        if k == *id {
            proof {
                lemma_first_with_skip(yv, id@, checksum, i as int);
                assert(yv.skip(i as int)[0] == ys@[i as int]@);
            }
            return Some(i);
        }
        i = i + 1;
    }
    proof {
        lemma_first_with_skip(yv, id@, checksum, i as int);
    }
    None
}

fn partner_index(
    x: &Item,
    ys: &Vec<Item>,
    before: &Vec<Item>,
    after: &Vec<Item>,
    checksum: bool,
) -> (r: Option<usize>)
    ensures
        match r {
            Some(j) => j < ys@.len() && partner(
                x@,
                items_view(ys@),
                items_view(before@),
                items_view(after@),
                checksum,
            ) == Some(ys@[j as int]@),
            None => partner(x@, items_view(ys@), items_view(before@), items_view(after@), checksum) is None,
        },
{
    let id = match_key_of(x, checksum);
    if id.as_str().is_empty() {
        return None;
    }
    if count_matches(before, &id, checksum) != 1 || count_matches(after, &id, checksum) != 1 {
        return None;
    }
    match first_with_index(ys, &id, checksum) {
        Some(j) => {
            let y = &ys[j];
            if !same_key(y, x) && y.is_directory == x.is_directory && y.is_symlink == x.is_symlink {
                Some(j)
            } else {
                None
            }
        },
        None => None,
    }
}

} // verus!

verus! {

/// The character sequences of a list of names.
pub open spec fn names_view(s: Seq<&'static str>) -> Seq<Seq<char>> {
    s.map_values(|x: &'static str| x@)
}

fn push_name_if(f: &mut Vec<&'static str>, present: bool, name: &'static str)
    ensures
        names_view(final(f)@) == names_view(old(f)@) + named_if(present, name@),
{
    if present {
        f.push(name);
    }
    assert(names_view(f@) =~= names_view(old(f)@) + named_if(present, name@));
}

fn field_names(a: &Item, b: &Item) -> (r: Vec<&'static str>)
    ensures
        names_view(r@) == field_list(a@, b@),
{
    let mut f: Vec<&'static str> = Vec::new();
    assert(names_view(f@) =~= seq![]);
    push_name_if(
        &mut f,
        a.is_directory != b.is_directory || a.is_symlink != b.is_symlink || a.extension
            != b.extension,
        "Type",
    );
    push_name_if(&mut f, a.size_bytes != b.size_bytes, "Indexed size");
    let nanos_differ = match (a.modified_nanos, b.modified_nanos) {
        (Some(x), Some(y)) => x != y,
        _ => false,
    };
    push_name_if(&mut f, a.modified_unix != b.modified_unix || nanos_differ, "Modified time");
    push_name_if(
        &mut f,
        !a.checksum_sha256.as_str().is_empty() && !b.checksum_sha256.as_str().is_empty()
            && a.checksum_sha256 != b.checksum_sha256,
        "Content checksum",
    );
    push_name_if(
        &mut f,
        !a.file_identity.as_str().is_empty() && !b.file_identity.as_str().is_empty()
            && a.file_identity != b.file_identity,
        "File identity (replaced)",
    );
    push_name_if(
        &mut f,
        a.owner_username != b.owner_username || a.owner_identifier != b.owner_identifier,
        "Owner",
    );
    push_name_if(
        &mut f,
        a.group_name != b.group_name || a.group_identifier != b.group_identifier,
        "Group",
    );
    push_name_if(&mut f, a.symlink_target != b.symlink_target, "Link target");
    assert(seq![] + named_if(type_differs(a@, b@), "Type"@) == named_if(type_differs(a@, b@), "Type"@));
    f
}

fn join_names(parts: &Vec<&'static str>, sep: &str) -> (r: String)
    ensures
        r@ == join(names_view(parts@), sep@),
{
    let mut r = String::new();
    let mut i: usize = 0;
    while i < parts.len()
        invariant
            i <= parts@.len(),
            r@ == join(names_view(parts@).take(i as int), sep@),
        decreases parts.len() - i,
    {
        proof {
            let t = names_view(parts@).take(i + 1);
            assert(t.drop_last() == names_view(parts@).take(i as int));
            assert(t.last() == parts@[i as int]@);
            if i == 0 {
                assert(t[0] == parts@[0]@);
            }
        }
        if i > 0 {
            r.append(sep);
        }
        r.append(parts[i]);
        i = i + 1;
    }
    assert(names_view(parts@).take(parts@.len() as int) == names_view(parts@));
    r
}

proof fn lemma_join_empty(parts: Seq<Seq<char>>, sep: Seq<char>)
    requires
        forall|k: int| 0 <= k < parts.len() ==> (#[trigger] parts[k]).len() > 0,
    ensures
        (join(parts, sep).len() == 0) == (parts.len() == 0),
    decreases parts.len(),
{
    if parts.len() > 1 {
        lemma_join_empty(parts.drop_last(), sep);
    }
}

} // verus!

verus! {

fn changed_fields_of(a: &Item, b: &Item) -> (r: (bool, String))
    ensures
        r.0 == (field_list(a@, b@).len() > 0),
        r.1@ == changed_fields(a@, b@),
{
    let names = field_names(a, b);
    (names.len() > 0, join_names(&names, ", "))
}

fn moved_detail_of(a: &Item, b: &Item, checksum: bool) -> (r: String)
    ensures
        r@ == moved_detail(a@, b@, checksum),
{
    let mut r = if checksum {
        "Matching unique checksum; move inferred".to_owned()
    } else {
        "Matching unique filesystem identity; move inferred".to_owned()
    };
    let (any, fields) = changed_fields_of(a, b);
    if any {
        r.append("; ");
        r.append(fields.as_str());
    }
    r
}

/// Splits the remaining earlier entries into inferred moves and entries that stay.
fn split_moves(
    xs: &Vec<Item>,
    ys: &Vec<Item>,
    before: &Vec<Item>,
    after: &Vec<Item>,
    checksum: bool,
) -> (r: (Vec<Change>, Vec<Item>))
    ensures
        changes_view(r.0@) == moves(
            items_view(xs@),
            items_view(ys@),
            items_view(before@),
            items_view(after@),
            checksum,
        ),
        items_view(r.1@) == unpaired(
            items_view(xs@),
            items_view(ys@),
            items_view(before@),
            items_view(after@),
            checksum,
        ),
{
    let ghost yv = items_view(ys@);
    let ghost bv = items_view(before@);
    let ghost av = items_view(after@);
    let mut moved: Vec<Change> = Vec::new();
    let mut rest: Vec<Item> = Vec::new();
    let mut i: usize = 0;
    while i < xs.len()
        invariant
            i <= xs@.len(),
            yv == items_view(ys@),
            bv == items_view(before@),
            av == items_view(after@),
            changes_view(moved@) == moves(items_view(xs@).take(i as int), yv, bv, av, checksum),
            items_view(rest@) == unpaired(items_view(xs@).take(i as int), yv, bv, av, checksum),
        decreases xs.len() - i,
    {
        let ghost t = items_view(xs@).take(i + 1);
        proof {
            assert(t.drop_last() == items_view(xs@).take(i as int));
            assert(t.last() == xs@[i as int]@);
        }
        let x = &xs[i];
        match partner_index(x, ys, before, after, checksum) {
            Some(j) => {
                let c = Change {
                    kind: "Moved",
                    before: Some(x.duplicate()),
                    after: Some(ys[j].duplicate()),
                    detail: moved_detail_of(x, &ys[j], checksum),
                };
                moved.push(c);
                assert(changes_view(moved@).drop_last() =~= changes_view(moved@.drop_last()));
            },
            None => {
                rest.push(x.duplicate());
                assert(items_view(rest@).drop_last() =~= items_view(rest@.drop_last()));
            },
        }
        i = i + 1;
    }
    assert(items_view(xs@).take(xs@.len() as int) == items_view(xs@));
    (moved, rest)
}

} // verus!

verus! {

fn ends_a_move(moved: &Vec<Change>, y: &Item) -> (r: bool)
    ensures
        r == is_destination(changes_view(moved@), key_of(y@)),
{
    let ghost mv = changes_view(moved@);
    let mut j: usize = 0;
    while j < moved.len()
        invariant
            j <= moved@.len(),
            mv == changes_view(moved@),
            forall|k: int|
                0 <= k < j ==> !(#[trigger] mv[k].after is Some && key_of(mv[k].after->0) == key_of(
                    y@,
                )),
        decreases moved.len() - j,
    {
        assert(mv[j as int] == moved@[j as int]@);
        match &moved[j].after {
            Some(a) => {
                if same_key(a, y) {
                    assert(mv[j as int].after == Some(a@));
                    return true;
                }
            },
            None => {},
        }
        j = j + 1;
    }
    false
}

/// The later entries at which no move ends.
fn drop_destinations(ys: &Vec<Item>, moved: &Vec<Change>) -> (r: Vec<Item>)
    ensures
        items_view(r@) == undestined(items_view(ys@), changes_view(moved@)),
{
    let ghost mv = changes_view(moved@);
    let mut r: Vec<Item> = Vec::new();
    let mut i: usize = 0;
    while i < ys.len()
        invariant
            i <= ys@.len(),
            mv == changes_view(moved@),
            items_view(r@) == undestined(items_view(ys@).take(i as int), mv),
        decreases ys.len() - i,
    {
        let ghost t = items_view(ys@).take(i + 1);
        proof {
            assert(t.drop_last() == items_view(ys@).take(i as int));
            assert(t.last() == ys@[i as int]@);
        }
        if !ends_a_move(moved, &ys[i]) {
            r.push(ys[i].duplicate());
            assert(items_view(r@).drop_last() =~= items_view(r@.drop_last()));
        }
        i = i + 1;
    }
    assert(items_view(ys@).take(ys@.len() as int) == items_view(ys@));
    r
}

proof fn lemma_first_key_skip(s: Seq<ItemView>, k: (Seq<char>, Seq<char>), i: int)
    requires
        0 <= i <= s.len(),
        forall|m: int| 0 <= m < i ==> key_of(#[trigger] s[m]) != k,
    ensures
        first_key(s, k) == first_key(s.skip(i), k),
    decreases i,
{
    if i == 0 {
        assert(s.skip(0) == s);
    } else {
        lemma_first_key_skip(s.drop_first(), k, i - 1);
        assert(s.drop_first().skip(i - 1) == s.skip(i));
    }
}

fn key_index(ys: &Vec<Item>, x: &Item) -> (r: Option<usize>)
    ensures
        match r {
            Some(j) => j < ys@.len() && first_key(items_view(ys@), key_of(x@)) == Some(ys@[j as int]@),
            None => first_key(items_view(ys@), key_of(x@)) is None,
        },
{
    let ghost yv = items_view(ys@);
    let mut i: usize = 0;
    while i < ys.len()
        invariant
            i <= ys@.len(),
            yv == items_view(ys@),
            forall|m: int| 0 <= m < i ==> key_of(#[trigger] yv[m]) != key_of(x@),
        decreases ys.len() - i,
    {
        if same_key(&ys[i], x) {
            proof {
                lemma_first_key_skip(yv, key_of(x@), i as int);
                assert(yv.skip(i as int)[0] == ys@[i as int]@);
            }
            return Some(i);
        }
        i = i + 1;
    }
    proof {
        lemma_first_key_skip(yv, key_of(x@), i as int);
    }
    None
}

/// Entries kept at the same key whose recorded fields differ.
fn compare_in_place(xs: &Vec<Item>, ys: &Vec<Item>) -> (r: Vec<Change>)
    ensures
        changes_view(r@) == modified(items_view(xs@), items_view(ys@)),
{
    let ghost yv = items_view(ys@);
    let mut r: Vec<Change> = Vec::new();
    let mut i: usize = 0;
    while i < xs.len()
        invariant
            i <= xs@.len(),
            yv == items_view(ys@),
            changes_view(r@) == modified(items_view(xs@).take(i as int), yv),
        decreases xs.len() - i,
    {
        let ghost t = items_view(xs@).take(i + 1);
        proof {
            assert(t.drop_last() == items_view(xs@).take(i as int));
            assert(t.last() == xs@[i as int]@);
        }
        let x = &xs[i];
        match key_index(ys, x) {
            Some(j) => {
                let (any, detail) = changed_fields_of(x, &ys[j]);
                if any {
                    r.push(
                        Change {
                            kind: "Changed",
                            before: Some(x.duplicate()),
                            after: Some(ys[j].duplicate()),
                            detail,
                        },
                    );
                    assert(changes_view(r@).drop_last() =~= changes_view(r@.drop_last()));
                }
            },
            None => {},
        }
        i = i + 1;
    }
    assert(items_view(xs@).take(xs@.len() as int) == items_view(xs@));
    r
}

fn keys_absent_from(xs: &Vec<Item>, ys: &Vec<Item>) -> (r: Vec<Item>)
    ensures
        items_view(r@) == without_keys_of(items_view(xs@), items_view(ys@)),
{
    let ghost yv = items_view(ys@);
    let mut r: Vec<Item> = Vec::new();
    let mut i: usize = 0;
    while i < xs.len()
        invariant
            i <= xs@.len(),
            yv == items_view(ys@),
            items_view(r@) == without_keys_of(items_view(xs@).take(i as int), yv),
        decreases xs.len() - i,
    {
        let ghost t = items_view(xs@).take(i + 1);
        proof {
            assert(t.drop_last() == items_view(xs@).take(i as int));
            assert(t.last() == xs@[i as int]@);
        }
        if key_index(ys, &xs[i]).is_none() {
            r.push(xs[i].duplicate());
            assert(items_view(r@).drop_last() =~= items_view(r@.drop_last()));
        }
        i = i + 1;
    }
    assert(items_view(xs@).take(xs@.len() as int) == items_view(xs@));
    r
}

fn append_removals(r: &mut Vec<Change>, xs: &Vec<Item>, same_scope: bool)
    ensures
        changes_view(final(r)@) == changes_view(old(r)@) + removals(items_view(xs@), same_scope),
{
    let ghost start = changes_view(r@);
    let mut i: usize = 0;
    while i < xs.len()
        invariant
            i <= xs@.len(),
            changes_view(r@) == start + removals(items_view(xs@).take(i as int), same_scope),
        decreases xs.len() - i,
    {
        let c = Change {
            kind: if same_scope {
                "Deleted"
            } else {
                "Removed from index"
            },
            before: Some(xs[i].duplicate()),
            after: None,
            detail: String::new(),
        };
        r.push(c);
        proof {
            assert(removals(items_view(xs@).take(i + 1), same_scope) =~= removals(
                items_view(xs@).take(i as int),
                same_scope,
            ).push(c@));
            assert(changes_view(r@).drop_last() =~= changes_view(r@.drop_last()));
            assert(changes_view(r@) =~= (start + removals(items_view(xs@).take(i as int), same_scope)).push(c@));
        }
        i = i + 1;
    }
    assert(items_view(xs@).take(xs@.len() as int) == items_view(xs@));
}

fn append_additions(r: &mut Vec<Change>, ys: &Vec<Item>)
    ensures
        changes_view(final(r)@) == changes_view(old(r)@) + additions(items_view(ys@)),
{
    let ghost start = changes_view(r@);
    let mut i: usize = 0;
    while i < ys.len()
        invariant
            i <= ys@.len(),
            changes_view(r@) == start + additions(items_view(ys@).take(i as int)),
        decreases ys.len() - i,
    {
        let c = Change { kind: "Added", before: None, after: Some(ys[i].duplicate()), detail: String::new() };
        r.push(c);
        proof {
            assert(additions(items_view(ys@).take(i + 1)) =~= additions(items_view(ys@).take(i as int)).push(c@));
            assert(changes_view(r@).drop_last() =~= changes_view(r@.drop_last()));
            assert(changes_view(r@) =~= (start + additions(items_view(ys@).take(i as int))).push(c@));
        }
        i = i + 1;
    }
    assert(items_view(ys@).take(ys@.len() as int) == items_view(ys@));
}

} // verus!

verus! {

fn opt_duplicate(o: &Option<Item>) -> (r: Option<Item>)
    ensures
        opt_view(r) == opt_view(*o),
{
    match o {
        Some(i) => Some(i.duplicate()),
        None => None,
    }
}

impl Change {
    /// A field-by-field copy.
    pub fn duplicate(&self) -> (r: Change)
        ensures
            r@ == self@,
    {
        Change {
            kind: self.kind,
            before: opt_duplicate(&self.before),
            after: opt_duplicate(&self.after),
            detail: self.detail.clone(),
        }
    }
}

fn key_strs(c: &Change) -> (r: (&str, &str))
    ensures
        (r.0@, r.1@) == change_key(c@),
{
    match &c.after {
        Some(a) => (a.root_path.as_str(), a.relative_path.as_str()),
        None => match &c.before {
            Some(b) => (b.root_path.as_str(), b.relative_path.as_str()),
            None => {
                proof {
                    reveal_strlit("");
                }
                ("", "")
            },
        },
    }
}

fn listed_before(c: &Change, d: &Change) -> (r: bool)
    ensures
        r == key_lt(change_key(c@), change_key(d@)),
{
    let (cr, cp) = key_strs(c);
    let (dr, dp) = key_strs(d);
    string_lt(cr, dr) || (str_eq(cr, dr) && string_lt(cp, dp))
}

proof fn lemma_insert_sorted_at(s: Seq<ChangeView>, c: ChangeView, j: int)
    requires
        0 <= j <= s.len(),
        j == 0 || !key_lt(change_key(c), change_key(s[j - 1])),
        forall|k: int| j <= k < s.len() ==> key_lt(change_key(c), change_key(#[trigger] s[k])),
    ensures
        insert_sorted(s, c) == s.take(j) + seq![c] + s.skip(j),
    decreases s.len() - j,
{
    if j == s.len() {
        assert(s.take(j) == s);
        assert(s.skip(j) =~= Seq::<ChangeView>::empty());
        assert(s.take(j) + seq![c] + s.skip(j) =~= s.push(c));
    } else {
        let d = s.drop_last();
        assert(key_lt(change_key(c), change_key(s[s.len() - 1])));
        assert forall|k: int| j <= k < d.len() implies key_lt(change_key(c), change_key(#[trigger] d[k])) by {
            assert(d[k] == s[k]);
        }
        if j > 0 {
            assert(d[j - 1] == s[j - 1]);
        }
        lemma_insert_sorted_at(d, c, j);
        assert(d.take(j) == s.take(j));
        assert((d.take(j) + seq![c] + d.skip(j)).push(s.last()) =~= s.take(j) + seq![c] + s.skip(j));
    }
}

fn insert_change(s: &mut Vec<Change>, c: Change)
    ensures
        changes_view(final(s)@) == insert_sorted(changes_view(old(s)@), c@),
{
    let ghost sv = changes_view(s@);
    let mut j: usize = s.len();
    while j > 0 && listed_before(&c, &s[j - 1])
        invariant
            j <= s@.len(),
            sv == changes_view(s@),
            forall|k: int| j <= k < sv.len() ==> key_lt(change_key(c@), change_key(#[trigger] sv[k])),
        decreases j,
    {
        j = j - 1;
    }
    proof {
        if j > 0 {
            assert(sv[j - 1] == s@[j - 1]@);
        }
        lemma_insert_sorted_at(sv, c@, j as int);
    }
    let ghost cv = c@;
    s.insert(j, c);
    assert(changes_view(s@) =~= sv.take(j as int) + seq![cv] + sv.skip(j as int));
}

/// The changes, stably sorted by the key they are listed under.
fn sort_changes_by_key(v: &Vec<Change>) -> (r: Vec<Change>)
    ensures
        changes_view(r@) == sort_changes(changes_view(v@)),
{
    let mut r: Vec<Change> = Vec::new();
    let mut i: usize = 0;
    while i < v.len()
        invariant
            i <= v@.len(),
            changes_view(r@) == sort_changes(changes_view(v@).take(i as int)),
        decreases v.len() - i,
    {
        proof {
            let t = changes_view(v@).take(i + 1);
            assert(t.drop_last() == changes_view(v@).take(i as int));
            assert(t.last() == v@[i as int]@);
        }
        insert_change(&mut r, v[i].duplicate());
        i = i + 1;
    }
    assert(changes_view(v@).take(v@.len() as int) == changes_view(v@));
    r
}

/// The differences between two Local Files snapshots (`before`, then `after`), in
/// path order. `same_scope` says whether both were taken over the same set of roots:
/// only then is an entry that disappeared reported as deleted.
pub fn diff(before: Vec<Item>, after: Vec<Item>, same_scope: bool) -> (r: Vec<Change>)
    ensures
        changes_view(r@) == diff_spec(items_view(before@), items_view(after@), same_scope),
{
    let o = keyed_items(&before);
    let n = keyed_items(&after);
    let (m1, o1) = split_moves(&o, &n, &before, &after, false);
    let n1 = drop_destinations(&n, &m1);
    let c = compare_in_place(&o1, &n1);
    let o2 = keys_absent_from(&o1, &n1);
    let n2 = keys_absent_from(&n1, &o1);
    let (m2, o3) = split_moves(&o2, &n2, &before, &after, true);
    let n3 = drop_destinations(&n2, &m2);
    let mut all: Vec<Change> = m1;
    let ghost a0 = changes_view(all@);
    let mut c = c;
    let ghost cv = changes_view(c@);
    all.append(&mut c);
    assert(changes_view(all@) =~= a0 + cv);
    let ghost a1 = changes_view(all@);
    let mut m2 = m2;
    let ghost m2v = changes_view(m2@);
    all.append(&mut m2);
    assert(changes_view(all@) =~= a1 + m2v);
    append_removals(&mut all, &o3, same_scope);
    append_additions(&mut all, &n3);
    sort_changes_by_key(&all)
}

} // verus!

verus! {

proof fn lemma_insert_sorted_contains(s: Seq<ChangeView>, c: ChangeView, e: ChangeView)
    requires
        insert_sorted(s, c).contains(e),
    ensures
        s.contains(e) || e == c,
    decreases s.len(),
{
    if s.len() == 0 || !key_lt(change_key(c), change_key(s.last())) {
        let k = choose|k: int| 0 <= k < s.push(c).len() && s.push(c)[k] == e;
        if k < s.len() {
            assert(s[k] == e);
        }
    } else {
        let r = insert_sorted(s.drop_last(), c);
        let k = choose|k: int| 0 <= k < r.push(s.last()).len() && r.push(s.last())[k] == e;
        if k < r.len() {
            assert(r[k] == e);
            assert(r.contains(e));
            lemma_insert_sorted_contains(s.drop_last(), c, e);
            if s.drop_last().contains(e) {
                let j = choose|j: int| 0 <= j < s.drop_last().len() && s.drop_last()[j] == e;
                assert(s[j] == e);
            }
        } else {
            assert(s[s.len() - 1] == e);
        }
    }
}

/// Every change the sort lists was in its input.
proof fn lemma_sort_changes_contains(s: Seq<ChangeView>, e: ChangeView)
    requires
        sort_changes(s).contains(e),
    ensures
        s.contains(e),
    decreases s.len(),
{
    if s.len() > 0 {
        lemma_insert_sorted_contains(sort_changes(s.drop_last()), s.last(), e);
        if sort_changes(s.drop_last()).contains(e) {
            lemma_sort_changes_contains(s.drop_last(), e);
            let j = choose|j: int| 0 <= j < s.drop_last().len() && s.drop_last()[j] == e;
            assert(s[j] == e);
        } else {
            assert(s[s.len() - 1] == e);
        }
    }
}

proof fn lemma_concat_contains(a: Seq<ChangeView>, b: Seq<ChangeView>, e: ChangeView)
    requires
        (a + b).contains(e),
    ensures
        a.contains(e) || b.contains(e),
{
    let k = choose|k: int| 0 <= k < (a + b).len() && (a + b)[k] == e;
    if k < a.len() {
        assert(a[k] == e);
    } else {
        assert(b[k - a.len()] == e);
    }
}

proof fn lemma_moves_kind(
    xs: Seq<ItemView>,
    ys: Seq<ItemView>,
    before: Seq<ItemView>,
    after: Seq<ItemView>,
    checksum: bool,
    e: ChangeView,
)
    requires
        moves(xs, ys, before, after, checksum).contains(e),
    ensures
        e.kind == "Moved"@,
    decreases xs.len(),
{
    if xs.len() > 0 {
        let rest = moves(xs.drop_last(), ys, before, after, checksum);
        let all = moves(xs, ys, before, after, checksum);
        let k = choose|k: int| 0 <= k < all.len() && all[k] == e;
        if k < rest.len() {
            assert(rest[k] == e);
            lemma_moves_kind(xs.drop_last(), ys, before, after, checksum, e);
        }
    }
}

proof fn lemma_modified_kind(xs: Seq<ItemView>, ys: Seq<ItemView>, e: ChangeView)
    requires
        modified(xs, ys).contains(e),
    ensures
        e.kind == "Changed"@,
    decreases xs.len(),
{
    if xs.len() > 0 {
        let rest = modified(xs.drop_last(), ys);
        let all = modified(xs, ys);
        let k = choose|k: int| 0 <= k < all.len() && all[k] == e;
        if k < rest.len() {
            assert(rest[k] == e);
            lemma_modified_kind(xs.drop_last(), ys, e);
        }
    }
}

/// Between snapshots of different scopes, an entry missing from the later one is
/// reported as removed from the index, never as deleted.
pub proof fn law_scope_removal_is_not_deletion(before: Seq<ItemView>, after: Seq<ItemView>)
    ensures
        forall|k: int|
            0 <= k < diff_spec(before, after, false).len() ==> (#[trigger] diff_spec(before, after, false)[k]).kind
                != "Deleted"@,
{
    reveal_strlit("Deleted");
    reveal_strlit("Moved");
    reveal_strlit("Changed");
    reveal_strlit("Removed from index");
    reveal_strlit("Added");
    let o = keyed(before);
    let n = keyed(after);
    let m1 = moves(o, n, before, after, false);
    let o1 = unpaired(o, n, before, after, false);
    let n1 = undestined(n, m1);
    let c = modified(o1, n1);
    let o2 = without_keys_of(o1, n1);
    let n2 = without_keys_of(n1, o1);
    let m2 = moves(o2, n2, before, after, true);
    let o3 = unpaired(o2, n2, before, after, true);
    let n3 = undestined(n2, m2);
    let all = m1 + c + m2 + removals(o3, false) + additions(n3);
    let r = diff_spec(before, after, false);
    assert(r == sort_changes(all));
    assert("Moved"@[0] != "Deleted"@[0]);
    assert("Added"@[0] != "Deleted"@[0]);
    assert("Changed"@ != "Deleted"@);
    assert("Removed from index"@ != "Deleted"@);
    assert forall|k: int| 0 <= k < r.len() implies (#[trigger] r[k]).kind != "Deleted"@ by {
        let e = r[k];
        assert(r.contains(e));
        lemma_sort_changes_contains(all, e);
        lemma_concat_contains(m1 + c + m2 + removals(o3, false), additions(n3), e);
        if additions(n3).contains(e) {
            let j = choose|j: int| 0 <= j < additions(n3).len() && additions(n3)[j] == e;
            assert(e.kind == "Added"@);
        } else {
            lemma_concat_contains(m1 + c + m2, removals(o3, false), e);
            if removals(o3, false).contains(e) {
                let j = choose|j: int| 0 <= j < removals(o3, false).len() && removals(o3, false)[j] == e;
                assert(e.kind == "Removed from index"@);
            } else {
                lemma_concat_contains(m1 + c, m2, e);
                if m2.contains(e) {
                    lemma_moves_kind(o2, n2, before, after, true, e);
                    assert(e.kind == "Moved"@);
                } else {
                    lemma_concat_contains(m1, c, e);
                    if c.contains(e) {
                        lemma_modified_kind(o1, n1, e);
                        assert(e.kind == "Changed"@);
                    } else {
                        lemma_moves_kind(o, n, before, after, false, e);
                        assert(e.kind == "Moved"@);
                    }
                }
            }
        }
    }
}

} // verus!

verus! {

pub open spec fn keys_sorted(s: Seq<ItemView>) -> bool {
    forall|i: int, j: int| 0 <= i < j < s.len() ==> key_lt(key_of(#[trigger] s[i]), key_of(#[trigger] s[j]))
}

proof fn lemma_key_lt_irreflexive(a: (Seq<char>, Seq<char>))
    ensures
        !key_lt(a, a),
{
    crate::text::lemma_seq_lt_irreflexive(a.0);
    crate::text::lemma_seq_lt_irreflexive(a.1);
}

proof fn lemma_key_lt_total(a: (Seq<char>, Seq<char>), b: (Seq<char>, Seq<char>))
    ensures
        a == b || key_lt(a, b) || key_lt(b, a),
{
    crate::text::lemma_seq_lt_total(a.0, b.0);
    crate::text::lemma_seq_lt_total(a.1, b.1);
}

proof fn lemma_key_lt_transitive(a: (Seq<char>, Seq<char>), b: (Seq<char>, Seq<char>), c: (Seq<char>, Seq<char>))
    requires
        key_lt(a, b),
        key_lt(b, c),
    ensures
        key_lt(a, c),
{
    if seq_lt(a.0, b.0) && seq_lt(b.0, c.0) {
        crate::text::lemma_seq_lt_transitive(a.0, b.0, c.0);
    } else if seq_lt(a.0, b.0) {
    } else if seq_lt(b.0, c.0) {
    } else {
        crate::text::lemma_seq_lt_transitive(a.1, b.1, c.1);
    }
}

proof fn lemma_insert_keyed(s: Seq<ItemView>, x: ItemView)
    requires
        keys_sorted(s),
    ensures
        keys_sorted(insert_keyed(s, x)),
        forall|e: ItemView| #[trigger] insert_keyed(s, x).contains(e) ==> s.contains(e) || e == x,
    decreases s.len(),
{
    let r = insert_keyed(s, x);
    if s.len() == 0 {
        assert(r =~= seq![x]);
        assert forall|e: ItemView| #[trigger] r.contains(e) implies s.contains(e) || e == x by {
            assert(r[0] == x);
        }
    } else if key_of(s[0]) == key_of(x) {
        let rest = s.drop_first();
        assert(r =~= seq![x] + rest);
        assert forall|i: int, j: int| 0 <= i < j < r.len() implies key_lt(key_of(#[trigger] r[i]), key_of(#[trigger] r[j])) by {
            assert(r[j] == s[j]);
            if i > 0 {
                assert(r[i] == s[i]);
            } else {
                assert(key_lt(key_of(s[0]), key_of(s[j])));
            }
        }
        assert forall|e: ItemView| #[trigger] r.contains(e) implies s.contains(e) || e == x by {
            let k = choose|k: int| 0 <= k < r.len() && r[k] == e;
            if k > 0 {
                assert(s[k] == e);
            }
        }
    } else if key_lt(key_of(x), key_of(s[0])) {
        assert(r =~= seq![x] + s);
        assert forall|i: int, j: int| 0 <= i < j < r.len() implies key_lt(key_of(#[trigger] r[i]), key_of(#[trigger] r[j])) by {
            assert(r[j] == s[j - 1]);
            if i > 0 {
                assert(r[i] == s[i - 1]);
            } else if j > 1 {
                lemma_key_lt_transitive(key_of(x), key_of(s[0]), key_of(s[j - 1]));
            }
        }
        assert forall|e: ItemView| #[trigger] r.contains(e) implies s.contains(e) || e == x by {
            let k = choose|k: int| 0 <= k < r.len() && r[k] == e;
            if k > 0 {
                assert(s[k - 1] == e);
            }
        }
    } else {
        let rest = s.drop_first();
        lemma_key_lt_total(key_of(s[0]), key_of(x));
        assert forall|i: int, j: int| 0 <= i < j < rest.len() implies key_lt(key_of(#[trigger] rest[i]), key_of(#[trigger] rest[j])) by {
            assert(rest[i] == s[i + 1] && rest[j] == s[j + 1]);
        }
        lemma_insert_keyed(rest, x);
        let t = insert_keyed(rest, x);
        assert(r =~= seq![s[0]] + t);
        assert forall|i: int, j: int| 0 <= i < j < r.len() implies key_lt(key_of(#[trigger] r[i]), key_of(#[trigger] r[j])) by {
            assert(r[j] == t[j - 1]);
            if i > 0 {
                assert(r[i] == t[i - 1]);
            } else {
                assert(t.contains(t[j - 1]));
                if t[j - 1] != x {
                    let m = choose|m: int| 0 <= m < rest.len() && rest[m] == t[j - 1];
                    assert(rest[m] == s[m + 1]);
                }
            }
        }
        assert forall|e: ItemView| #[trigger] r.contains(e) implies s.contains(e) || e == x by {
            let k = choose|k: int| 0 <= k < r.len() && r[k] == e;
            if k > 0 {
                assert(t[k - 1] == e);
                assert(t.contains(e));
                if e != x {
                    let m = choose|m: int| 0 <= m < rest.len() && rest[m] == e;
                    assert(s[m + 1] == e);
                }
            }
        }
    }
}

proof fn lemma_keyed(items: Seq<ItemView>)
    ensures
        keys_sorted(keyed(items)),
        forall|e: ItemView| #[trigger] keyed(items).contains(e) ==> items.contains(e),
    decreases items.len(),
{
    if items.len() > 0 {
        lemma_keyed(items.drop_last());
        lemma_insert_keyed(keyed(items.drop_last()), items.last());
        assert forall|e: ItemView| #[trigger] keyed(items).contains(e) implies items.contains(e) by {
            if e != items.last() {
                assert(keyed(items.drop_last()).contains(e));
                let m = choose|m: int| 0 <= m < items.drop_last().len() && items.drop_last()[m] == e;
                assert(items[m] == e);
            } else {
                assert(items[items.len() - 1] == e);
            }
        }
    }
}

proof fn lemma_first_key_sorted(s: Seq<ItemView>, i: int)
    requires
        keys_sorted(s),
        0 <= i < s.len(),
    ensures
        first_key(s, key_of(s[i])) == Some(s[i]),
    decreases i,
{
    if i > 0 {
        lemma_key_lt_irreflexive(key_of(s[i]));
        assert(key_lt(key_of(s[0]), key_of(s[i])));
        let rest = s.drop_first();
        assert forall|a: int, b: int| 0 <= a < b < rest.len() implies key_lt(key_of(#[trigger] rest[a]), key_of(#[trigger] rest[b])) by {
            assert(rest[a] == s[a + 1] && rest[b] == s[b + 1]);
        }
        lemma_first_key_sorted(rest, i - 1);
        assert(rest[i - 1] == s[i]);
    }
}

proof fn lemma_first_with(ys: Seq<ItemView>, id: Seq<char>, checksum: bool)
    ensures
        first_with(ys, id, checksum) matches Some(y) ==> ys.contains(y) && match_key(y, checksum) == id,
    decreases ys.len(),
{
    if ys.len() > 0 && match_key(ys[0], checksum) != id {
        lemma_first_with(ys.drop_first(), id, checksum);
        match first_with(ys.drop_first(), id, checksum) {
            Some(y) => {
                let m = choose|m: int| 0 <= m < ys.drop_first().len() && ys.drop_first()[m] == y;
                assert(ys[m + 1] == y);
            },
            None => {},
        }
    } else if ys.len() > 0 {
        assert(ys[0] == ys[0]);
        assert(ys.contains(ys[0]));
    }
}

proof fn lemma_count_at_least(s: Seq<ItemView>, x: ItemView, y: ItemView, id: Seq<char>, checksum: bool)
    requires
        s.contains(x),
        match_key(x, checksum) == id,
        match_key(y, checksum) == id,
    ensures
        count_of(s, id, checksum) >= 1,
        s.contains(y) && x != y ==> count_of(s, id, checksum) >= 2,
    decreases s.len(),
{
    if s.len() > 0 {
        let d = s.drop_last();
        if s.last() == x {
            if s.contains(y) && x != y {
                let m = choose|m: int| 0 <= m < s.len() && s[m] == y;
                assert(m < s.len() - 1);
                assert(d[m] == y);
                lemma_count_at_least(d, y, y, id, checksum);
            }
        } else {
            let m = choose|m: int| 0 <= m < s.len() && s[m] == x;
            assert(m < s.len() - 1);
            assert(d[m] == x);
            if s.contains(y) && x != y {
                if s.last() == y {
                    lemma_count_at_least(d, x, x, id, checksum);
                } else {
                    let k = choose|k: int| 0 <= k < s.len() && s[k] == y;
                    assert(k < s.len() - 1);
                    assert(d[k] == y);
                    lemma_count_at_least(d, x, y, id, checksum);
                }
            } else {
                lemma_count_at_least(d, x, x, id, checksum);
            }
        }
    }
}

proof fn lemma_moves_none(xs: Seq<ItemView>, ys: Seq<ItemView>, before: Seq<ItemView>, after: Seq<ItemView>, checksum: bool)
    requires
        forall|k: int| 0 <= k < xs.len() ==> partner(#[trigger] xs[k], ys, before, after, checksum) is None,
    ensures
        moves(xs, ys, before, after, checksum) == Seq::<ChangeView>::empty(),
        unpaired(xs, ys, before, after, checksum) == xs,
    decreases xs.len(),
{
    if xs.len() > 0 {
        let d = xs.drop_last();
        assert forall|k: int| 0 <= k < d.len() implies partner(#[trigger] d[k], ys, before, after, checksum) is None by {
            assert(d[k] == xs[k]);
        }
        lemma_moves_none(d, ys, before, after, checksum);
        assert(partner(xs[xs.len() - 1], ys, before, after, checksum) is None);
        assert(unpaired(xs, ys, before, after, checksum) =~= d.push(xs.last()));
        assert(d.push(xs.last()) =~= xs);
    }
}

proof fn lemma_undestined_none(ys: Seq<ItemView>)
    ensures
        undestined(ys, Seq::<ChangeView>::empty()) == ys,
    decreases ys.len(),
{
    if ys.len() > 0 {
        lemma_undestined_none(ys.drop_last());
        assert(!is_destination(Seq::<ChangeView>::empty(), key_of(ys.last())));
        assert(ys.drop_last().push(ys.last()) =~= ys);
    }
}

proof fn lemma_same_keys(xs: Seq<ItemView>, ys: Seq<ItemView>)
    requires
        keys_sorted(ys),
        forall|k: int| 0 <= k < xs.len() ==> ys.contains(#[trigger] xs[k]),
    ensures
        modified(xs, ys) == Seq::<ChangeView>::empty(),
        without_keys_of(xs, ys) == Seq::<ItemView>::empty(),
    decreases xs.len(),
{
    if xs.len() > 0 {
        let d = xs.drop_last();
        assert forall|k: int| 0 <= k < d.len() implies ys.contains(#[trigger] d[k]) by {
            assert(d[k] == xs[k]);
        }
        lemma_same_keys(d, ys);
        let x = xs.last();
        assert(ys.contains(xs[xs.len() - 1]));
        let m = choose|m: int| 0 <= m < ys.len() && ys[m] == x;
        lemma_first_key_sorted(ys, m);
        assert(first_key(ys, key_of(x)) == Some(x));
        assert(field_list(x, x) =~= Seq::<Seq<char>>::empty());
    }
}

/// Comparing a snapshot with itself reports no change.
pub proof fn law_same_snapshot_has_no_changes(s: Seq<ItemView>, same_scope: bool)
    ensures
        diff_spec(s, s, same_scope) == Seq::<ChangeView>::empty(),
{
    let o = keyed(s);
    lemma_keyed(s);
    assert forall|k: int| 0 <= k < o.len() implies partner(#[trigger] o[k], o, s, s, false) is None by {
        let x = o[k];
        let id = match_key(x, false);
        assert(o.contains(x));
        lemma_first_with(o, id, false);
        match first_with(o, id, false) {
            Some(y) => {
                if key_of(y) != key_of(x) && unique_in_both(s, s, id, false) {
                    assert(s.contains(x));
                    assert(s.contains(y));
                    lemma_count_at_least(s, x, y, id, false);
                }
            },
            None => {},
        }
    }
    lemma_moves_none(o, o, s, s, false);
    lemma_undestined_none(o);
    assert forall|k: int| 0 <= k < o.len() implies o.contains(#[trigger] o[k]) by {}
    lemma_same_keys(o, o);
    let e = Seq::<ItemView>::empty();
    lemma_moves_none(e, e, s, s, true);
    lemma_undestined_none(e);
    assert(removals(e, same_scope) =~= Seq::<ChangeView>::empty());
    assert(additions(e) =~= Seq::<ChangeView>::empty());
    let all = Seq::<ChangeView>::empty() + Seq::<ChangeView>::empty() + Seq::<ChangeView>::empty() + removals(e, same_scope)
        + additions(e);
    assert(all =~= Seq::<ChangeView>::empty());
}

} // verus!

verus! {

proof fn lemma_join_has_each(parts: Seq<Seq<char>>, sep: Seq<char>, k: int)
    requires
        0 <= k < parts.len(),
    ensures
        has_infix(join(parts, sep), parts[k]),
    decreases parts.len(),
{
    let j = join(parts, sep);
    if parts.len() == 1 {
        let i = 0int;
        assert(j == parts[0]);
        assert(j.subrange(i, i + parts[k].len()) =~= parts[k]);
    } else {
        let d = parts.drop_last();
        let jd = join(d, sep);
        assert(j == jd + sep + parts.last());
        if k == parts.len() - 1 {
            let p = (jd + sep).len() as int;
            assert(parts[k] == parts.last());
            assert(j.subrange(p, p + parts[k].len()) =~= parts[k]);
        } else {
            lemma_join_has_each(d, sep, k);
            assert(d[k] == parts[k]);
            let p = choose|p: int|
                0 <= p && p + parts[k].len() <= jd.len() && #[trigger] jd.subrange(p, p + parts[k].len()) == parts[k];
            assert(j.subrange(p, p + parts[k].len()) =~= jd.subrange(p, p + parts[k].len()));
        }
    }
}

proof fn lemma_detail_names(a: ItemView, b: ItemView, k: int)
    requires
        0 <= k < field_list(a, b).len(),
    ensures
        has_infix(changed_fields(a, b), field_list(a, b)[k]),
{
    lemma_join_has_each(field_list(a, b), ", "@, k);
}

proof fn lemma_single_entry_diff(a: ItemView, b: ItemView, same_scope: bool)
    requires
        a.root_path == b.root_path,
        a.relative_path == b.relative_path,
    ensures
        diff_spec(seq![a], seq![b], same_scope) == if field_list(a, b).len() > 0 {
            seq![ChangeView { kind: "Changed"@, before: Some(a), after: Some(b), detail: changed_fields(a, b) }]
        } else {
            Seq::<ChangeView>::empty()
        },
{
    let before = seq![a];
    let after = seq![b];
    let e = Seq::<ItemView>::empty();
    let ec = Seq::<ChangeView>::empty();
    assert(before.drop_last() =~= e);
    assert(after.drop_last() =~= e);
    assert(before.drop_first() =~= e);
    assert(after.drop_first() =~= e);
    assert(keyed(e) == e);
    assert(keyed(before) =~= before);
    assert(keyed(after) =~= after);
    assert(first_with(e, match_key(a, false), false) is None);
    assert(partner(a, after, before, after, false) is None);
    let m1 = moves(before, after, before, after, false);
    assert(moves(e, after, before, after, false) =~= ec);
    assert(m1 =~= ec);
    let o1 = unpaired(before, after, before, after, false);
    assert(unpaired(e, after, before, after, false) =~= e);
    assert(o1 =~= before);
    let n1 = undestined(after, m1);
    assert(!is_destination(m1, key_of(b)));
    assert(undestined(e, m1) =~= e);
    assert(n1 =~= after);
    assert(first_key(e, key_of(a)) is None);
    assert(first_key(after, key_of(a)) == Some(b));
    assert(first_key(before, key_of(b)) == Some(a));
    let c = modified(o1, n1);
    assert(modified(e, n1) =~= ec);
    let o2 = without_keys_of(o1, n1);
    let n2 = without_keys_of(n1, o1);
    assert(without_keys_of(e, n1) =~= e);
    assert(without_keys_of(e, o1) =~= e);
    assert(o2 =~= e);
    assert(n2 =~= e);
    let m2 = moves(o2, n2, before, after, true);
    assert(m2 =~= ec);
    let o3 = unpaired(o2, n2, before, after, true);
    assert(o3 =~= e);
    let n3 = undestined(n2, m2);
    assert(n3 =~= e);
    assert(removals(o3, same_scope) =~= ec);
    assert(additions(n3) =~= ec);
    let all = m1 + c + m2 + removals(o3, same_scope) + additions(n3);
    assert(all =~= c);
    if field_list(a, b).len() > 0 {
        assert(c.len() == 1);
        assert(c.drop_last() =~= ec);
        assert(sort_changes(ec) == ec);
        assert(sort_changes(c) == insert_sorted(sort_changes(c.drop_last()), c.last()));
        assert(sort_changes(c) =~= c);
    } else {
        assert(c =~= ec);
    }
}

/// An entry that is gone from the later snapshot (and nothing took its place) is
/// reported as deleted, or, between snapshots of different scopes, as removed from the
/// index; an entry new in the later snapshot is reported as added.
pub proof fn law_lone_entries_are_deleted_or_added(a: ItemView, same_scope: bool)
    ensures
        diff_spec(seq![a], seq![], same_scope) == seq![
            ChangeView {
                kind: if same_scope {
                    "Deleted"@
                } else {
                    "Removed from index"@
                },
                before: Some(a),
                after: None,
                detail: seq![],
            },
        ],
        diff_spec(seq![], seq![a], same_scope) == seq![
            ChangeView { kind: "Added"@, before: None, after: Some(a), detail: seq![] },
        ],
{
    let one = seq![a];
    let e = Seq::<ItemView>::empty();
    let ec = Seq::<ChangeView>::empty();
    assert(one.drop_last() =~= e);
    assert(keyed(e) == e);
    assert(keyed(one) =~= one);
    assert(count_of(e, match_key(a, false), false) == 0);
    assert(count_of(e, match_key(a, true), true) == 0);
    // Gone: nothing to pair with, nothing at its key.
    assert(moves(e, e, one, e, false) =~= ec);
    assert(moves(one, e, one, e, false) =~= ec);
    assert(unpaired(e, e, one, e, false) =~= e);
    assert(unpaired(one, e, one, e, false) =~= one);
    assert(undestined(e, ec) =~= e);
    assert(modified(e, e) =~= ec);
    assert(first_key(e, key_of(a)) is None);
    assert(modified(one, e) =~= ec);
    assert(without_keys_of(e, e) =~= e);
    assert(without_keys_of(one, e) =~= one);
    assert(moves(e, e, one, e, true) =~= ec);
    assert(moves(one, e, one, e, true) =~= ec);
    assert(unpaired(e, e, one, e, true) =~= e);
    assert(unpaired(one, e, one, e, true) =~= one);
    let gone = removals(one, same_scope);
    assert(ec + ec + ec + gone + additions(e) =~= gone);
    assert(gone.drop_last() =~= ec);
    assert(sort_changes(ec) == ec);
    assert(sort_changes(gone) =~= gone);
    // New: likewise, from the other side.
    assert(moves(e, one, e, one, false) =~= ec);
    assert(unpaired(e, one, e, one, false) =~= e);
    assert(!is_destination(ec, key_of(a)));
    assert(undestined(e, ec) =~= e);
    assert(undestined(one, ec) =~= one);
    assert(modified(e, one) =~= ec);
    assert(without_keys_of(one, e) =~= one);
    assert(moves(e, one, e, one, true) =~= ec);
    assert(unpaired(e, one, e, one, true) =~= e);
    let new = additions(one);
    assert(ec + ec + ec + removals(e, same_scope) + new =~= new);
    assert(new.drop_last() =~= ec);
    assert(sort_changes(new) =~= new);
}

/// An entry found at another path in the later snapshot, carrying the same filesystem
/// identity (and being the same kind of entry), is reported as one move from the old
/// path to the new, its detail starting with the evidence for it.
pub proof fn law_same_identity_elsewhere_is_a_move(a: ItemView, b: ItemView, same_scope: bool)
    requires
        a.root_path != b.root_path || a.relative_path != b.relative_path,
        a.file_identity.len() > 0,
        a.file_identity == b.file_identity,
        a.is_directory == b.is_directory,
        a.is_symlink == b.is_symlink,
    ensures
        ({
            let r = diff_spec(seq![a], seq![b], same_scope);
            &&& r.len() == 1
            &&& r[0].kind == "Moved"@
            &&& r[0].before == Some(a)
            &&& r[0].after == Some(b)
            &&& crate::text::starts_with(r[0].detail, "Matching unique filesystem identity; move inferred"@)
        }),
{
    let before = seq![a];
    let after = seq![b];
    let e = Seq::<ItemView>::empty();
    let ec = Seq::<ChangeView>::empty();
    let id = a.file_identity;
    assert(before.drop_last() =~= e);
    assert(after.drop_last() =~= e);
    assert(after.drop_first() =~= e);
    assert(keyed(e) == e);
    assert(keyed(before) =~= before);
    assert(keyed(after) =~= after);
    assert(count_of(e, id, false) == 0);
    assert(count_of(before, id, false) == 1);
    assert(count_of(after, id, false) == 1);
    assert(first_with(after, id, false) == Some(b));
    assert(partner(a, after, before, after, false) == Some(b));
    let mv = ChangeView { kind: "Moved"@, before: Some(a), after: Some(b), detail: moved_detail(a, b, false) };
    let m1 = moves(before, after, before, after, false);
    assert(moves(e, after, before, after, false) =~= ec);
    assert(m1 =~= seq![mv]);
    let o1 = unpaired(before, after, before, after, false);
    assert(unpaired(e, after, before, after, false) =~= e);
    assert(o1 =~= e);
    assert(m1[0].after == Some(b));
    assert(is_destination(m1, key_of(b)));
    assert(undestined(e, m1) =~= e);
    let n1 = undestined(after, m1);
    assert(n1 =~= e);
    assert(modified(e, e) =~= ec);
    assert(without_keys_of(e, e) =~= e);
    assert(moves(e, e, before, after, true) =~= ec);
    assert(unpaired(e, e, before, after, true) =~= e);
    assert(undestined(e, ec) =~= e);
    assert(removals(e, same_scope) =~= ec);
    assert(additions(e) =~= ec);
    assert(m1 + ec + ec + removals(e, same_scope) + additions(e) =~= m1);
    assert(m1.drop_last() =~= ec);
    assert(sort_changes(ec) == ec);
    assert(sort_changes(m1) =~= m1);
    let ev = evidence(false);
    if field_list(a, b).len() > 0 {
        assert((ev + "; "@ + changed_fields(a, b)).take(ev.len() as int) =~= ev);
    } else {
        assert(ev.take(ev.len() as int) =~= ev);
    }
}

/// Comparing two versions of one entry (the same root and path), with nothing else in
/// either snapshot, reports nothing when no compared field differs, and otherwise
/// exactly one change: `Changed`, from the old version to the new, whose detail names
/// each field that differs (type, indexed size, modification time, a known checksum or
/// identity, owner, group, link target).
pub proof fn law_changed_entry_names_its_fields(a: ItemView, b: ItemView, same_scope: bool)
    requires
        a.root_path == b.root_path,
        a.relative_path == b.relative_path,
    ensures
        ({
            let r = diff_spec(seq![a], seq![b], same_scope);
            let type_changed = a.is_directory != b.is_directory || a.is_symlink != b.is_symlink || a.extension
                != b.extension;
            let size_changed = a.size_bytes != b.size_bytes;
            let time_changed = a.modified_unix != b.modified_unix || (a.modified_nanos is Some
                && b.modified_nanos is Some && a.modified_nanos != b.modified_nanos);
            let checksum_changed = a.checksum_sha256.len() > 0 && b.checksum_sha256.len() > 0 && a.checksum_sha256
                != b.checksum_sha256;
            let identity_changed = a.file_identity.len() > 0 && b.file_identity.len() > 0 && a.file_identity
                != b.file_identity;
            let owner_changed = a.owner_username != b.owner_username || a.owner_identifier != b.owner_identifier;
            let group_changed = a.group_name != b.group_name || a.group_identifier != b.group_identifier;
            let target_changed = a.symlink_target != b.symlink_target;
            let any = type_changed || size_changed || time_changed || checksum_changed || identity_changed
                || owner_changed || group_changed || target_changed;
            &&& !any ==> r.len() == 0
            &&& any ==> r.len() == 1 && r[0].kind == "Changed"@ && r[0].before == Some(a) && r[0].after == Some(b)
            &&& any && type_changed ==> has_infix(r[0].detail, "Type"@)
            &&& any && size_changed ==> has_infix(r[0].detail, "Indexed size"@)
            &&& any && time_changed ==> has_infix(r[0].detail, "Modified time"@)
            &&& any && checksum_changed ==> has_infix(r[0].detail, "Content checksum"@)
            &&& any && identity_changed ==> has_infix(r[0].detail, "File identity (replaced)"@)
            &&& any && owner_changed ==> has_infix(r[0].detail, "Owner"@)
            &&& any && group_changed ==> has_infix(r[0].detail, "Group"@)
            &&& any && target_changed ==> has_infix(r[0].detail, "Link target"@)
        }),
{
    lemma_single_entry_diff(a, b, same_scope);
    lemma_fields_named(a, b);
}

proof fn lemma_contains_left(x: Seq<Seq<char>>, y: Seq<Seq<char>>, v: Seq<char>)
    requires
        x.contains(v),
    ensures
        (x + y).contains(v),
{
    let k = choose|k: int| 0 <= k < x.len() && x[k] == v;
    assert((x + y)[k] == v);
}

proof fn lemma_named_contains(x: Seq<Seq<char>>, present: bool, v: Seq<char>)
    requires
        present,
    ensures
        (x + named_if(present, v)).contains(v),
{
    assert((x + named_if(present, v))[x.len() as int] == v);
}

/// The parts of `field_list`, each step adding one name.
spec fn field_prefix(a: ItemView, b: ItemView, n: int) -> Seq<Seq<char>>
    decreases n,
{
    if n <= 0 {
        seq![]
    } else {
        field_prefix(a, b, n - 1) + named_if(field_condition(a, b, n - 1), field_name(n - 1))
    }
}

spec fn field_condition(a: ItemView, b: ItemView, k: int) -> bool {
    if k == 0 {
        type_differs(a, b)
    } else if k == 1 {
        a.size_bytes != b.size_bytes
    } else if k == 2 {
        time_differs(a, b)
    } else if k == 3 {
        known_and_differ(a.checksum_sha256, b.checksum_sha256)
    } else if k == 4 {
        known_and_differ(a.file_identity, b.file_identity)
    } else if k == 5 {
        a.owner_username != b.owner_username || a.owner_identifier != b.owner_identifier
    } else if k == 6 {
        a.group_name != b.group_name || a.group_identifier != b.group_identifier
    } else {
        a.symlink_target != b.symlink_target
    }
}

spec fn field_name(k: int) -> Seq<char> {
    if k == 0 {
        "Type"@
    } else if k == 1 {
        "Indexed size"@
    } else if k == 2 {
        "Modified time"@
    } else if k == 3 {
        "Content checksum"@
    } else if k == 4 {
        "File identity (replaced)"@
    } else if k == 5 {
        "Owner"@
    } else if k == 6 {
        "Group"@
    } else {
        "Link target"@
    }
}

proof fn lemma_field_prefix_contains(a: ItemView, b: ItemView, k: int, n: int)
    requires
        0 <= k < n,
        field_condition(a, b, k),
    ensures
        field_prefix(a, b, n).contains(field_name(k)),
    decreases n,
{
    if n == k + 1 {
        lemma_named_contains(field_prefix(a, b, k), field_condition(a, b, k), field_name(k));
    } else {
        lemma_field_prefix_contains(a, b, k, n - 1);
        lemma_contains_left(field_prefix(a, b, n - 1), named_if(field_condition(a, b, n - 1), field_name(n - 1)), field_name(k));
    }
}

proof fn lemma_field_prefix_len(a: ItemView, b: ItemView, n: int)
    requires
        0 <= n,
    ensures
        field_prefix(a, b, n).len() > 0 <==> exists|k: int| 0 <= k < n && #[trigger] field_condition(a, b, k),
    decreases n,
{
    if n > 0 {
        lemma_field_prefix_len(a, b, n - 1);
        if field_condition(a, b, n - 1) {
            assert(field_condition(a, b, n - 1));
        }
    }
}

proof fn lemma_field_list_contains(a: ItemView, b: ItemView)
    ensures
        field_list(a, b).len() > 0 <==> (type_differs(a, b) || a.size_bytes != b.size_bytes || time_differs(a, b)
            || known_and_differ(a.checksum_sha256, b.checksum_sha256) || known_and_differ(
            a.file_identity,
            b.file_identity,
        ) || a.owner_username != b.owner_username || a.owner_identifier != b.owner_identifier || a.group_name
            != b.group_name || a.group_identifier != b.group_identifier || a.symlink_target != b.symlink_target),
        forall|k: int| 0 <= k < 8 && field_condition(a, b, k) ==> field_list(a, b).contains(#[trigger] field_name(k)),
{
    reveal_with_fuel(field_prefix, 9);
    assert(field_list(a, b) =~= field_prefix(a, b, 8));
    lemma_field_prefix_len(a, b, 8);
    assert forall|k: int| 0 <= k < 8 && field_condition(a, b, k) implies field_list(a, b).contains(
        #[trigger] field_name(k),
    ) by {
        lemma_field_prefix_contains(a, b, k, 8);
    }
    if exists|k: int| 0 <= k < 8 && #[trigger] field_condition(a, b, k) {
        let k = choose|k: int| 0 <= k < 8 && #[trigger] field_condition(a, b, k);
        assert(k == 0 || k == 1 || k == 2 || k == 3 || k == 4 || k == 5 || k == 6 || k == 7);
    }
    assert(field_condition(a, b, 0) == type_differs(a, b));
    assert(field_condition(a, b, 7) == (a.symlink_target != b.symlink_target));
}

proof fn lemma_fields_named(a: ItemView, b: ItemView)
    ensures
        field_list(a, b).len() > 0 <==> (type_differs(a, b) || a.size_bytes != b.size_bytes || time_differs(a, b)
            || known_and_differ(a.checksum_sha256, b.checksum_sha256) || known_and_differ(
            a.file_identity,
            b.file_identity,
        ) || a.owner_username != b.owner_username || a.owner_identifier != b.owner_identifier || a.group_name
            != b.group_name || a.group_identifier != b.group_identifier || a.symlink_target != b.symlink_target),
        type_differs(a, b) ==> has_infix(changed_fields(a, b), "Type"@),
        a.size_bytes != b.size_bytes ==> has_infix(changed_fields(a, b), "Indexed size"@),
        time_differs(a, b) ==> has_infix(changed_fields(a, b), "Modified time"@),
        known_and_differ(a.checksum_sha256, b.checksum_sha256) ==> has_infix(changed_fields(a, b), "Content checksum"@),
        known_and_differ(a.file_identity, b.file_identity) ==> has_infix(
            changed_fields(a, b),
            "File identity (replaced)"@,
        ),
        a.owner_username != b.owner_username || a.owner_identifier != b.owner_identifier ==> has_infix(
            changed_fields(a, b),
            "Owner"@,
        ),
        a.group_name != b.group_name || a.group_identifier != b.group_identifier ==> has_infix(
            changed_fields(a, b),
            "Group"@,
        ),
        a.symlink_target != b.symlink_target ==> has_infix(changed_fields(a, b), "Link target"@),
{
    lemma_field_list_contains(a, b);
    let f = field_list(a, b);
    assert(field_name(0) == "Type"@ && field_name(1) == "Indexed size"@ && field_name(2) == "Modified time"@);
    assert(field_name(3) == "Content checksum"@ && field_name(4) == "File identity (replaced)"@);
    assert(field_name(5) == "Owner"@ && field_name(6) == "Group"@ && field_name(7) == "Link target"@);
    assert(field_condition(a, b, 0) == type_differs(a, b));
    assert(field_condition(a, b, 1) == (a.size_bytes != b.size_bytes));
    assert(field_condition(a, b, 2) == time_differs(a, b));
    assert(field_condition(a, b, 3) == known_and_differ(a.checksum_sha256, b.checksum_sha256));
    assert(field_condition(a, b, 4) == known_and_differ(a.file_identity, b.file_identity));
    assert(field_condition(a, b, 5) == (a.owner_username != b.owner_username || a.owner_identifier != b.owner_identifier));
    assert(field_condition(a, b, 6) == (a.group_name != b.group_name || a.group_identifier != b.group_identifier));
    assert(field_condition(a, b, 7) == (a.symlink_target != b.symlink_target));
    assert forall|name: Seq<char>| f.contains(name) implies has_infix(changed_fields(a, b), name) by {
        let k = choose|k: int| 0 <= k < f.len() && f[k] == name;
        lemma_detail_names(a, b, k);
    }
}

/// A change as it reads between snapshots of different scopes: a deletion becomes a
/// removal from the index; everything else stays.
pub open spec fn across_scopes(c: ChangeView) -> ChangeView {
    if c.kind == "Deleted"@ {
        ChangeView { kind: "Removed from index"@, ..c }
    } else {
        c
    }
}

pub open spec fn relabeled(s: Seq<ChangeView>) -> Seq<ChangeView> {
    s.map_values(|c: ChangeView| across_scopes(c))
}

proof fn lemma_relabeled_concat(a: Seq<ChangeView>, b: Seq<ChangeView>)
    ensures
        relabeled(a + b) == relabeled(a) + relabeled(b),
{
    assert(relabeled(a + b) =~= relabeled(a) + relabeled(b));
}

proof fn lemma_insert_sorted_relabeled(s: Seq<ChangeView>, c: ChangeView)
    ensures
        insert_sorted(relabeled(s), across_scopes(c)) == relabeled(insert_sorted(s, c)),
    decreases s.len(),
{
    let rs = relabeled(s);
    if s.len() == 0 || !key_lt(change_key(c), change_key(s.last())) {
        assert(rs.len() == 0 || rs.last() == across_scopes(s.last()));
        assert(relabeled(s.push(c)) =~= rs.push(across_scopes(c)));
    } else {
        assert(rs.last() == across_scopes(s.last()));
        assert(rs.drop_last() =~= relabeled(s.drop_last()));
        lemma_insert_sorted_relabeled(s.drop_last(), c);
        let t = insert_sorted(s.drop_last(), c);
        assert(relabeled(t.push(s.last())) =~= relabeled(t).push(across_scopes(s.last())));
    }
}

proof fn lemma_sort_changes_relabeled(s: Seq<ChangeView>)
    ensures
        sort_changes(relabeled(s)) == relabeled(sort_changes(s)),
    decreases s.len(),
{
    if s.len() == 0 {
        assert(relabeled(s) =~= Seq::<ChangeView>::empty());
        assert(relabeled(Seq::<ChangeView>::empty()) =~= Seq::<ChangeView>::empty());
    } else {
        let rs = relabeled(s);
        assert(rs.drop_last() =~= relabeled(s.drop_last()));
        assert(rs.last() == across_scopes(s.last()));
        lemma_sort_changes_relabeled(s.drop_last());
        lemma_insert_sorted_relabeled(sort_changes(s.drop_last()), s.last());
    }
}

proof fn lemma_relabeled_unchanged(s: Seq<ChangeView>)
    requires
        forall|k: int| 0 <= k < s.len() ==> (#[trigger] s[k]).kind != "Deleted"@,
    ensures
        relabeled(s) == s,
{
    assert(relabeled(s) =~= s);
}

proof fn lemma_kinds_not_deleted(s: Seq<ChangeView>, kinds: Seq<Seq<char>>)
    requires
        forall|e: ChangeView| #[trigger] s.contains(e) ==> kinds.contains(e.kind),
        !kinds.contains("Deleted"@),
    ensures
        forall|k: int| 0 <= k < s.len() ==> (#[trigger] s[k]).kind != "Deleted"@,
{
    assert forall|k: int| 0 <= k < s.len() implies (#[trigger] s[k]).kind != "Deleted"@ by {
        assert(s.contains(s[k]));
    }
}

/// Comparing the same two snapshots as different scopes gives the same changes, in the
/// same order, as comparing them within one scope, except that each deletion is reported
/// as a removal from the index.
pub proof fn law_scopes_differ_only_in_removals(before: Seq<ItemView>, after: Seq<ItemView>)
    ensures
        diff_spec(before, after, false) == relabeled(diff_spec(before, after, true)),
{
    reveal_strlit("Deleted");
    reveal_strlit("Moved");
    reveal_strlit("Changed");
    reveal_strlit("Removed from index");
    reveal_strlit("Added");
    assert("Moved"@[0] != "Deleted"@[0]);
    assert("Added"@[0] != "Deleted"@[0]);
    assert("Changed"@ != "Deleted"@);
    let o = keyed(before);
    let n = keyed(after);
    let m1 = moves(o, n, before, after, false);
    let o1 = unpaired(o, n, before, after, false);
    let n1 = undestined(n, m1);
    let c = modified(o1, n1);
    let o2 = without_keys_of(o1, n1);
    let n2 = without_keys_of(n1, o1);
    let m2 = moves(o2, n2, before, after, true);
    let o3 = unpaired(o2, n2, before, after, true);
    let n3 = undestined(n2, m2);
    assert forall|e: ChangeView| #[trigger] m1.contains(e) implies seq!["Moved"@].contains(e.kind) by {
        lemma_moves_kind(o, n, before, after, false, e);
        assert(seq!["Moved"@][0] == e.kind);
    }
    assert forall|e: ChangeView| #[trigger] m2.contains(e) implies seq!["Moved"@].contains(e.kind) by {
        lemma_moves_kind(o2, n2, before, after, true, e);
        assert(seq!["Moved"@][0] == e.kind);
    }
    assert forall|e: ChangeView| #[trigger] c.contains(e) implies seq!["Changed"@].contains(e.kind) by {
        lemma_modified_kind(o1, n1, e);
        assert(seq!["Changed"@][0] == e.kind);
    }
    lemma_kinds_not_deleted(m1, seq!["Moved"@]);
    lemma_kinds_not_deleted(m2, seq!["Moved"@]);
    lemma_kinds_not_deleted(c, seq!["Changed"@]);
    lemma_relabeled_unchanged(m1);
    lemma_relabeled_unchanged(m2);
    lemma_relabeled_unchanged(c);
    let adds = additions(n3);
    assert forall|k: int| 0 <= k < adds.len() implies (#[trigger] adds[k]).kind != "Deleted"@ by {}
    lemma_relabeled_unchanged(adds);
    assert(relabeled(removals(o3, true)) =~= removals(o3, false));
    let same = m1 + c + m2 + removals(o3, true) + adds;
    lemma_relabeled_concat(m1, c);
    lemma_relabeled_concat(m1 + c, m2);
    lemma_relabeled_concat(m1 + c + m2, removals(o3, true));
    lemma_relabeled_concat(m1 + c + m2 + removals(o3, true), adds);
    assert(relabeled(same) == m1 + c + m2 + removals(o3, false) + adds);
    lemma_sort_changes_relabeled(same);
}

} // verus!
