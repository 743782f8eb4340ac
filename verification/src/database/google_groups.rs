//! The stored Google Groups inventory: the checks made before a snapshot replaces an
//! account's groups, and the counts shown for an account.
use vstd::prelude::*;
use crate::google::groups::{Group, GroupView, Snapshot, groups_view};
use crate::order::{dedup_by, insert_by, lemma_insert_by_at, sort_by};
use crate::text::{seq_lt, str_eq, string_lt, strings_view};

verus! {

/// The counts shown for an account's groups.
#[derive(Debug, Clone, Default)]
pub struct Summary {
    pub groups: u64,
    pub members: u64,
    pub restricted: u64,
    pub completed_at: String,
}

/// How many stored rows belong to `account`, among those whose flag is set (all when
/// `flagged_only` is false).
pub open spec fn rows_of(rows: Seq<(Seq<char>, bool)>, account: Seq<char>, flagged_only: bool) -> nat
    decreases rows.len(),
{
    if rows.len() == 0 {
        0
    } else {
        rows_of(rows.drop_last(), account, flagged_only) + if rows.last().0 == account && (!flagged_only
            || rows.last().1) {
            1nat
        } else {
            0nat
        }
    }
}

pub open spec fn rows_view(rows: Seq<(String, bool)>) -> Seq<(Seq<char>, bool)> {
    rows.map_values(|r: (String, bool)| (r.0@, r.1))
}

/// The completion time stored for an account (the first), empty when it never
/// completed.
pub open spec fn completion_of(done: Seq<(Seq<char>, Seq<char>)>, account: Seq<char>) -> Seq<char>
    decreases done.len(),
{
    if done.len() == 0 {
        seq![]
    } else if done[0].0 == account {
        done[0].1
    } else {
        completion_of(done.drop_first(), account)
    }
}

fn count_rows(rows: &Vec<(String, bool)>, account: &str, flagged_only: bool) -> (r: u64)
    ensures
        r == rows_of(rows_view(rows@), account@, flagged_only),
{
    let ghost rv = rows_view(rows@);
    let mut n: u64 = 0;
    let mut k: usize = 0;
    while k < rows.len()
        invariant
            k <= rows@.len(),
            rv == rows_view(rows@),
            n == rows_of(rv.take(k as int), account@, flagged_only),
            n <= k,
        decreases rows.len() - k,
    {
        assert(rv.take(k + 1).drop_last() =~= rv.take(k as int));
        assert(rv.take(k + 1).last() == (rows@[k as int].0@, rows@[k as int].1));
        if str_eq(rows[k].0.as_str(), account) && (!flagged_only || rows[k].1) {
            n = n + 1;
        }
        k = k + 1;
    }
    assert(rv.take(rv.len() as int) =~= rv);
    n
}

fn completion(completed: &Vec<(String, String)>, account: &str) -> (r: String)
    ensures
        r@ == completion_of(completed@.map_values(|d: (String, String)| (d.0@, d.1@)), account@),
{
    let ghost dv = completed@.map_values(|d: (String, String)| (d.0@, d.1@));
    let mut k: usize = 0;
    assert(dv.skip(0) =~= dv);
    while k < completed.len()
        invariant
            k <= completed@.len(),
            dv == completed@.map_values(|d: (String, String)| (d.0@, d.1@)),
            completion_of(dv, account@) == completion_of(dv.skip(k as int), account@),
        decreases completed.len() - k,
    {
        assert(dv.skip(k as int)[0] == dv[k as int]);
        assert(dv.skip(k as int).drop_first() =~= dv.skip(k + 1));
        if str_eq(completed[k].0.as_str(), account) {
            return completed[k].1.clone();
        }
        k = k + 1;
    }
    assert(dv.skip(k as int) =~= seq![]);
    String::new()
}

/// The counts for `account`: its stored groups (each with whether its members were
/// unavailable), its stored members (the account of each member row), the groups whose
/// members were unavailable, and when its last snapshot completed (`completed`: each
/// account's completion time).
pub fn summary(
    account: &str,
    groups: &Vec<(String, bool)>,
    members: &Vec<(String, bool)>,
    completed: &Vec<(String, String)>,
) -> (r: Summary)
    ensures
        r.groups == rows_of(rows_view(groups@), account@, false),
        r.members == rows_of(rows_view(members@), account@, false),
        r.restricted == rows_of(rows_view(groups@), account@, true),
        r.completed_at@ == completion_of(completed@.map_values(|d: (String, String)| (d.0@, d.1@)), account@),
{
    let at = completion(completed, account);
    Summary {
        groups: count_rows(groups, account, false),
        members: count_rows(members, account, false),
        restricted: count_rows(groups, account, true),
        completed_at: at,
    }
}

pub open spec fn string_order() -> spec_fn(Seq<char>, Seq<char>) -> bool {
    |a: Seq<char>, b: Seq<char>| seq_lt(a, b)
}

pub open spec fn same_text() -> spec_fn(Seq<char>, Seq<char>) -> bool {
    |a: Seq<char>, b: Seq<char>| a == b
}

/// A group's stored aliases: its editable and other aliases, sorted, each once.
pub open spec fn stored_aliases(g: GroupView) -> Seq<Seq<char>> {
    dedup_by(sort_by(g.aliases + g.non_editable_aliases, string_order()), same_text())
}

/// Why a snapshot cannot be stored: no account, a group without id or email or with
/// members although they were unavailable, or a member without id; checked group by
/// group, each group's members after it.
pub open spec fn snapshot_problem(account: Seq<char>, groups: Seq<GroupView>) -> Option<Seq<char>> {
    if account.len() == 0 {
        Some("Google Groups account is missing"@)
    } else {
        groups_problem(groups)
    }
}

pub open spec fn groups_problem(groups: Seq<GroupView>) -> Option<Seq<char>>
    decreases groups.len(),
{
    if groups.len() == 0 {
        None
    } else {
        match groups_problem(groups.drop_last()) {
            Some(m) => Some(m),
            None => {
                let g = groups.last();
                if g.id.len() == 0 || g.email.len() == 0 || (g.members_unavailable && g.members.len() > 0) {
                    Some("Invalid Google Groups report"@)
                } else if exists|k: int| 0 <= k < g.members.len() && (#[trigger] g.members[k]).id.len() == 0 {
                    Some("Google Groups member ID is missing"@)
                } else {
                    None
                }
            },
        }
    }
}

fn insert_alias(s: &mut Vec<String>, x: String)
    ensures
        strings_view(final(s)@) == insert_by(strings_view(old(s)@), x@, string_order()),
{
    let ghost sv = strings_view(s@);
    let ghost xv = x@;
    let mut j: usize = s.len();
    while j > 0 && string_lt(x.as_str(), s[j - 1].as_str())
        invariant
            j <= s@.len(),
            sv == strings_view(s@),
            xv == x@,
            forall|k: int| j <= k < sv.len() ==> (string_order())(xv, #[trigger] sv[k]),
        decreases j,
    {
        assert(sv[j - 1] == s@[j - 1]@);
        j = j - 1;
    }
    proof {
        if j > 0 {
            assert(sv[j - 1] == s@[j - 1]@);
        }
        lemma_insert_by_at(sv, xv, string_order(), j as int);
    }
    s.insert(j, x);
    assert(strings_view(s@) =~= sv.take(j as int) + seq![xv] + sv.skip(j as int));
}

/// The aliases a group is stored with.
pub fn aliases_of(g: &Group) -> (r: Vec<String>)
    ensures
        strings_view(r@) == stored_aliases(g@),
{
    let ghost all = strings_view(g.aliases@) + strings_view(g.non_editable_aliases@);
    let mut sorted: Vec<String> = Vec::new();
    let n = g.aliases.len();
    let mut k: usize = 0;
    while k < n
        invariant
            k <= n,
            n == g.aliases@.len(),
            all == strings_view(g.aliases@) + strings_view(g.non_editable_aliases@),
            strings_view(sorted@) == sort_by(all.take(k as int), string_order()),
        decreases n - k,
    {
        let x = g.aliases[k].clone();
        proof {
            assert(all.take(k + 1).drop_last() =~= all.take(k as int));
            assert(all.take(k + 1).last() == all[k as int]);
            assert(x@ == all[k as int]);
        }
        insert_alias(&mut sorted, x);
        k = k + 1;
    }
    let mut j: usize = 0;
    while j < g.non_editable_aliases.len()
        invariant
            j <= g.non_editable_aliases@.len(),
            n == g.aliases@.len(),
            all == strings_view(g.aliases@) + strings_view(g.non_editable_aliases@),
            strings_view(sorted@) == sort_by(all.take(n + j), string_order()),
        decreases g.non_editable_aliases.len() - j,
    {
        let x = g.non_editable_aliases[j].clone();
        proof {
            assert(all.take(n + j + 1).drop_last() =~= all.take(n + j));
            assert(all.take(n + j + 1).last() == all[n + j]);
            assert(x@ == all[n + j]);
        }
        insert_alias(&mut sorted, x);
        j = j + 1;
    }
    assert(all.take(all.len() as int) =~= all);
    let ghost sv = strings_view(sorted@);
    let mut out: Vec<String> = Vec::new();
    let mut i: usize = 0;
    while i < sorted.len()
        invariant
            i <= sorted@.len(),
            sv == strings_view(sorted@),
            strings_view(out@) == dedup_by(sv.take(i as int), same_text()),
        decreases sorted.len() - i,
    {
        proof {
            assert(sv.take(i + 1).drop_last() =~= sv.take(i as int));
            assert(sv.take(i + 1).last() == sorted@[i as int]@);
        }
        let keep = out.len() == 0 || !str_eq(sorted[i].as_str(), out[out.len() - 1].as_str());
        proof {
            if out@.len() > 0 {
                assert(strings_view(out@).last() == out@[out@.len() - 1]@);
            }
        }
        if keep {
            let ghost before = strings_view(out@);
            out.push(sorted[i].clone());
            assert(strings_view(out@) =~= before.push(sorted@[i as int]@));
        }
        i = i + 1;
    }
    assert(sv.take(sv.len() as int) =~= sv);
    out
}

/// Checks a snapshot before it replaces the account's stored groups; on success, the
/// aliases each group is stored with.
pub fn check_snapshot(snapshot: &Snapshot) -> (r: Result<Vec<Vec<String>>, String>)
    ensures
        match snapshot_problem(snapshot.account@, groups_view(snapshot.groups@)) {
            Some(m) => r matches Err(e) && e@ == m,
            None => r matches Ok(a) && a@.len() == snapshot.groups@.len() && forall|k: int|
                0 <= k < a@.len() ==> strings_view((#[trigger] a@[k])@) == stored_aliases(snapshot.groups@[k]@),
        },
{
    if snapshot.account.as_str().is_empty() {
        return Err("Google Groups account is missing".to_owned());
    }
    let ghost gv = groups_view(snapshot.groups@);
    let mut out: Vec<Vec<String>> = Vec::new();
    let mut k: usize = 0;
    while k < snapshot.groups.len()
        invariant
            k <= snapshot.groups@.len(),
            gv == groups_view(snapshot.groups@),
            snapshot.account@.len() > 0,
            groups_problem(gv.take(k as int)) is None,
            out@.len() == k,
            forall|m: int| 0 <= m < k ==> strings_view((#[trigger] out@[m])@) == stored_aliases(snapshot.groups@[m]@),
        decreases snapshot.groups.len() - k,
    {
        proof {
            assert(gv.take(k + 1).drop_last() =~= gv.take(k as int));
            assert(gv.take(k + 1).last() == snapshot.groups@[k as int]@);
        }
        let g = &snapshot.groups[k];
        if g.id.as_str().is_empty() || g.email.as_str().is_empty() || (g.members_unavailable && g.members.len() > 0) {
            proof {
                lemma_groups_problem_stops(gv, k as int + 1, gv.len() as int);
                assert(gv.take(gv.len() as int) =~= gv);
            }
            return Err("Invalid Google Groups report".to_owned());
        }
        let aliases = aliases_of(g);
        let mut j: usize = 0;
        while j < g.members.len()
            invariant
                j <= g.members@.len(),
                forall|m: int| 0 <= m < j ==> (#[trigger] g.members@[m]).id@.len() > 0,
                k < snapshot.groups@.len(),
                snapshot.account@.len() > 0,
                gv == groups_view(snapshot.groups@),
                groups_problem(gv.take(k as int)) is None,
                gv.take(k + 1).drop_last() == gv.take(k as int),
                gv.take(k + 1).last() == g@,
                !(g@.id.len() == 0 || g@.email.len() == 0 || (g@.members_unavailable && g@.members.len() > 0)),
            decreases g.members.len() - j,
        {
            if g.members[j].id.as_str().is_empty() {
                proof {
                    assert(g@.members[j as int].id.len() == 0);
                    lemma_groups_problem_stops(gv, k as int + 1, gv.len() as int);
                    assert(gv.take(gv.len() as int) =~= gv);
                }
                return Err("Google Groups member ID is missing".to_owned());
            }
            j = j + 1;
        }
        proof {
            assert forall|m: int| 0 <= m < g@.members.len() implies (#[trigger] g@.members[m]).id.len() > 0 by {
                assert(g@.members[m] == g.members@[m]@);
            }
        }
        out.push(aliases);
        k = k + 1;
    }
    assert(gv.take(gv.len() as int) =~= gv);
    Ok(out)
}

proof fn lemma_groups_problem_stops(g: Seq<GroupView>, k: int, n: int)
    requires
        0 < k <= n <= g.len(),
        groups_problem(g.take(k)) is Some,
    ensures
        groups_problem(g.take(n)) == groups_problem(g.take(k)),
    decreases n - k,
{
    if n > k {
        lemma_groups_problem_stops(g, k, n - 1);
        assert(g.take(n).drop_last() =~= g.take(n - 1));
    }
}

} // verus!

verus! {

proof fn lemma_string_order()
    ensures
        crate::order::strict_weak(string_order()),
        forall|x: Seq<char>, y: Seq<char>| x != y ==> #[trigger] string_order()(x, y) || string_order()(y, x),
        forall|x: Seq<char>, y: Seq<char>| #[trigger] same_text()(x, y) <==> x == y,
{
    let lt = string_order();
    assert forall|a: Seq<char>| !#[trigger] lt(a, a) by {
        crate::text::lemma_seq_lt_irreflexive(a);
    }
    assert forall|a: Seq<char>, b: Seq<char>, c: Seq<char>| #[trigger] lt(a, b) && #[trigger] lt(b, c) implies lt(
        a,
        c,
    ) by {
        crate::text::lemma_seq_lt_transitive(a, b, c);
    }
    assert forall|a: Seq<char>, b: Seq<char>, c: Seq<char>| lt(a, c) implies #[trigger] lt(a, b) || #[trigger] lt(
        b,
        c,
    ) by {
        crate::text::lemma_seq_lt_total(a, b);
        crate::text::lemma_seq_lt_total(b, c);
        crate::text::lemma_seq_lt_irreflexive(a);
        if seq_lt(b, a) && seq_lt(c, b) {
            crate::text::lemma_seq_lt_transitive(c, b, a);
            crate::text::lemma_seq_lt_transitive(a, c, a);
        } else if seq_lt(b, a) && b == c {
            crate::text::lemma_seq_lt_transitive(a, c, a);
        }
    }
    assert forall|x: Seq<char>, y: Seq<char>| x != y implies #[trigger] lt(x, y) || lt(y, x) by {
        crate::text::lemma_seq_lt_total(x, y);
    }
}

/// A group's stored aliases are its aliases, editable or not: each exactly once, in
/// increasing order.
pub proof fn law_stored_aliases_are_sorted_and_distinct(g: GroupView)
    ensures
        forall|i: int, j: int|
            0 <= i < j < stored_aliases(g).len() ==> seq_lt(
                #[trigger] stored_aliases(g)[i],
                #[trigger] stored_aliases(g)[j],
            ),
        forall|a: Seq<char>| #[trigger] stored_aliases(g).contains(a) <==> (g.aliases + g.non_editable_aliases).contains(a),
{
    broadcast use vstd::seq_lib::group_to_multiset_ensures;

    let all = g.aliases + g.non_editable_aliases;
    let sorted = crate::order::sort_by(all, string_order());
    lemma_string_order();
    crate::order::lemma_sort_by_sorted(all, string_order());
    crate::order::lemma_sort_by_multiset(all, string_order());
    crate::order::lemma_dedup_sorted_strict(sorted, string_order(), same_text());
    assert forall|a: Seq<char>| #[trigger] stored_aliases(g).contains(a) <==> all.contains(a) by {
        assert(sorted.contains(a) <==> sorted.to_multiset().count(a) > 0);
        assert(all.contains(a) <==> all.to_multiset().count(a) > 0);
    }
}

} // verus!
