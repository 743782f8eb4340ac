//! Comma-separated tag predicates. Every predicate must match (AND).
use vstd::prelude::*;
use crate::text::{chars_of, split_chars, split_on, string_from_chars, trim, trim_chars, chars_eq};

verus! {

/// One predicate: `(excluded, slug)`, read from a trimmed comma-separated piece.
pub open spec fn term_of(piece: Seq<char>) -> (bool, Seq<char>) {
    let t = trim(piece);
    if t.len() > 0 && t[0] == '!' {
        (true, trim(t.drop_first()))
    } else {
        (false, t)
    }
}

/// The predicates of the pieces, skipping those whose slug is empty.
pub open spec fn kept_terms(pieces: Seq<Seq<char>>) -> Seq<(bool, Seq<char>)>
    decreases pieces.len(),
{
    if pieces.len() == 0 {
        seq![]
    } else {
        let rest = kept_terms(pieces.drop_last());
        let t = term_of(pieces.last());
        if t.1.len() > 0 {
            rest.push(t)
        } else {
            rest
        }
    }
}

/// The predicates written in a filter, in order.
pub open spec fn filter_terms(filter: Seq<char>) -> Seq<(bool, Seq<char>)> {
    kept_terms(split_on(filter, ','))
}

/// Whether a tag set (given by its slugs) satisfies one predicate.
pub open spec fn has_slug(tags: Seq<Seq<char>>, slug: Seq<char>) -> bool {
    exists|j: int| 0 <= j < tags.len() && tags[j] == slug
}

fn term_chars(piece: &[char]) -> (r: (bool, Vec<char>))
    ensures
        r.0 == term_of(piece@).0,
        r.1@ == term_of(piece@).1,
{
    let t = trim_chars(piece);
    if t.len() > 0 && t[0] == '!' {
        let rest = crate::text::slice_chars(&t, 1, t.len());
        assert(rest@ == t@.drop_first());
        (true, trim_chars(&rest))
    } else {
        (false, t)
    }
}

fn terms_chars(filter: &str) -> (r: Vec<(bool, Vec<char>)>)
    ensures
        r@.len() == filter_terms(filter@).len(),
        forall|i: int| 0 <= i < r@.len() ==> (#[trigger] r@[i]).0 == filter_terms(filter@)[i].0
            && r@[i].1@ == filter_terms(filter@)[i].1,
{
    let v = chars_of(filter);
    let pieces = split_chars(&v, ',');
    let ghost ps = split_on(filter@, ',');
    let mut r: Vec<(bool, Vec<char>)> = Vec::new();
    let mut i: usize = 0;
    while i < pieces.len()
        invariant
            pieces.deep_view() == ps,
            ps == split_on(filter@, ','),
            i <= ps.len(),
            r@.len() == kept_terms(ps.take(i as int)).len(),
            forall|k: int| 0 <= k < r@.len() ==> (#[trigger] r@[k]).0 == kept_terms(ps.take(i as int))[k].0
                && r@[k].1@ == kept_terms(ps.take(i as int))[k].1,
        decreases pieces.len() - i,
    {
        proof {
            assert(ps.take(i + 1).drop_last() == ps.take(i as int));
            assert(ps.take(i + 1).last() == ps[i as int]);
            assert(pieces.deep_view()[i as int] == pieces@[i as int]@);
        }
        let t = term_chars(&pieces[i]);
        if t.1.len() > 0 {
            r.push(t);
        }
        i = i + 1;
    }
    assert(ps.take(ps.len() as int) == ps);
    r
}

/// The predicates of `filter`: `(excluded, slug)` for each comma-separated piece whose
/// slug is not empty, after trimming and an optional leading `!`.
pub fn terms(filter: &str) -> (r: Vec<(bool, String)>)
    ensures
        r@.len() == filter_terms(filter@).len(),
        forall|i: int| 0 <= i < r@.len() ==> (#[trigger] r@[i]).0 == filter_terms(filter@)[i].0
            && r@[i].1@ == filter_terms(filter@)[i].1,
{
    let t = terms_chars(filter);
    let mut r: Vec<(bool, String)> = Vec::new();
    let mut i: usize = 0;
    while i < t.len()
        invariant
            i <= t@.len(),
            r@.len() == i,
            forall|k: int| 0 <= k < i ==> (#[trigger] r@[k]).0 == t@[k].0 && r@[k].1@ == t@[k].1@,
        decreases t.len() - i,
    {
        r.push((t[i].0, string_from_chars(&t[i].1)));
        i = i + 1;
    }
    r
}

/// Whether `filter` holds the predicate `(excluded, slug)`.
pub fn selected(filter: &str, slug: &str, excluded: bool) -> (r: bool)
    ensures
        r == exists|i: int| 0 <= i < filter_terms(filter@).len()
            && #[trigger] filter_terms(filter@)[i] == (excluded, slug@),
{
    let t = terms_chars(filter);
    let s = chars_of(slug);
    let mut i: usize = 0;
    while i < t.len()
        invariant
            i <= t@.len(),
            t@.len() == filter_terms(filter@).len(),
            forall|k: int| 0 <= k < t@.len() ==> (#[trigger] t@[k]).0 == filter_terms(filter@)[k].0
                && t@[k].1@ == filter_terms(filter@)[k].1,
            s@ == slug@,
            forall|k: int| 0 <= k < i ==> filter_terms(filter@)[k] != (excluded, slug@),
        decreases t.len() - i,
    {
        let ghost ti = t@[i as int];
        assert(ti.0 == filter_terms(filter@)[i as int].0 && ti.1@ == filter_terms(filter@)[i as int].1);
        let same = chars_eq(t[i].1.as_slice(), s.as_slice());
        assert(same == (ti.1@ == slug@));
        if t[i].0 == excluded && same {
            let ghost ft = filter_terms(filter@)[i as int];
            assert(ft.0 == excluded);
            assert(ft.1 == slug@);
            assert(ft == (excluded, slug@));
            return true;
        }
        i = i + 1;
    }
    false
}

/// Every predicate holds of the slugs present: each slug without `!` is present and
/// each slug with `!` is absent.
pub open spec fn filter_matches(filter: Seq<char>, present: Seq<Seq<char>>) -> bool {
    forall|i: int| 0 <= i < filter_terms(filter).len() ==>
        has_slug(present, (#[trigger] filter_terms(filter)[i]).1) != filter_terms(filter)[i].0
}

/// Whether the tags present on an item (their slugs) satisfy every predicate of `filter`:
/// each slug without `!` is present and each slug with `!` is absent.
pub fn matches(filter: &str, tags: &[&str]) -> (r: bool)
    ensures
        r == filter_matches(filter@, tags@.map_values(|t: &str| t@)),
{
    let t = terms_chars(filter);
    let ghost present = tags@.map_values(|t: &str| t@);
    let mut names: Vec<Vec<char>> = Vec::new();
    let mut j: usize = 0;
    while j < tags.len()
        invariant
            j <= tags@.len(),
            names@.len() == j,
            forall|k: int| 0 <= k < j ==> (#[trigger] names@[k])@ == tags@[k]@,
        decreases tags.len() - j,
    {
        names.push(chars_of(tags[j]));
        j = j + 1;
    }
    let mut i: usize = 0;
    while i < t.len()
        invariant
            i <= t@.len(),
            present == tags@.map_values(|t: &str| t@),
            names@.len() == tags@.len(),
            forall|k: int| 0 <= k < names@.len() ==> (#[trigger] names@[k])@ == tags@[k]@,
            t@.len() == filter_terms(filter@).len(),
            forall|k: int| 0 <= k < t@.len() ==> (#[trigger] t@[k]).0 == filter_terms(filter@)[k].0
                && t@[k].1@ == filter_terms(filter@)[k].1,
            forall|k: int| 0 <= k < i ==> has_slug(present, (#[trigger] filter_terms(filter@)[k]).1)
                != filter_terms(filter@)[k].0,
        decreases t.len() - i,
    {
        let mut found = false;
        let mut j: usize = 0;
        while j < names.len()
            invariant
                j <= names@.len(),
                present == tags@.map_values(|t: &str| t@),
                names@.len() == tags@.len(),
                forall|k: int| 0 <= k < names@.len() ==> (#[trigger] names@[k])@ == tags@[k]@,
                i < t@.len(),
                found == exists|k: int| 0 <= k < j && present[k] == t@[i as int].1@,
            decreases names.len() - j,
        {
            assert(present[j as int] == tags@[j as int]@);
            assert(names@[j as int]@ == tags@[j as int]@);
            if chars_eq(&names[j], &t[i].1) {
                found = true;
            }
            j = j + 1;
        }
        let ghost ti = t@[i as int];
        assert(ti.0 == filter_terms(filter@)[i as int].0 && ti.1@ == filter_terms(filter@)[i as int].1);
        assert(found == has_slug(present, filter_terms(filter@)[i as int].1));
        if found == t[i].0 {
            return false;
        }
        i = i + 1;
    }
    true
}

} // verus!

verus! {

proof fn lemma_split_concat(a: Seq<char>, b: Seq<char>)
    ensures
        split_on(a + seq![','] + b, ',') == split_on(a, ',') + split_on(b, ','),
    decreases b.len(),
{
    let s = a + seq![','] + b;
    if b.len() == 0 {
        assert(s == a.push(','));
        assert(s.drop_last() =~= a);
        assert(split_on(b, ',') =~= seq![Seq::<char>::empty()]);
        assert(split_on(s, ',') =~= split_on(a, ',') + split_on(b, ','));
    } else {
        let b1 = b.drop_last();
        assert(s.drop_last() =~= a + seq![','] + b1);
        assert(s.last() == b.last());
        lemma_split_concat(a, b1);
        crate::text::lemma_split_on_nonempty(b1, ',');
        let p = split_on(a, ',');
        let q = split_on(b1, ',');
        if b.last() == ',' {
            assert(split_on(s, ',') =~= (p + q).push(Seq::<char>::empty()));
            assert(split_on(b, ',') =~= q.push(Seq::<char>::empty()));
            assert((p + q).push(Seq::<char>::empty()) =~= p + q.push(Seq::<char>::empty()));
        } else {
            assert(split_on(b, ',') == q.update(q.len() - 1, q.last().push(b.last())));
            assert((p + q).last() == q.last());
            assert((p + q).update((p + q).len() - 1, q.last().push(b.last())) =~= p + q.update(
                q.len() - 1,
                q.last().push(b.last()),
            ));
        }
    }
}

proof fn lemma_kept_concat(x: Seq<Seq<char>>, y: Seq<Seq<char>>)
    ensures
        kept_terms(x + y) == kept_terms(x) + kept_terms(y),
    decreases y.len(),
{
    if y.len() == 0 {
        assert(x + y =~= x);
        assert(kept_terms(x) + kept_terms(y) =~= kept_terms(x));
    } else {
        lemma_kept_concat(x, y.drop_last());
        assert((x + y).drop_last() =~= x + y.drop_last());
        assert((x + y).last() == y.last());
        let t = term_of(y.last());
        if t.1.len() > 0 {
            assert((kept_terms(x) + kept_terms(y.drop_last())).push(t) =~= kept_terms(x) + kept_terms(
                y.drop_last(),
            ).push(t));
        }
    }
}

/// The predicates of a filter are conjoined: a filter written as two filters joined by
/// a comma holds exactly when both hold.
pub proof fn law_predicates_are_conjoined(a: Seq<char>, b: Seq<char>, present: Seq<Seq<char>>)
    ensures
        filter_matches(a + ","@ + b, present) == (filter_matches(a, present) && filter_matches(b, present)),
{
    reveal_strlit(",");
    assert(","@ =~= seq![',']);
    lemma_split_concat(a, b);
    lemma_kept_concat(split_on(a, ','), split_on(b, ','));
    let ta = filter_terms(a);
    let tb = filter_terms(b);
    let t = filter_terms(a + ","@ + b);
    assert(t == ta + tb);
    if filter_matches(a, present) && filter_matches(b, present) {
        assert forall|i: int| 0 <= i < t.len() implies has_slug(present, (#[trigger] t[i]).1) != t[i].0 by {
            if i < ta.len() {
                assert(t[i] == ta[i]);
            } else {
                assert(t[i] == tb[i - ta.len()]);
            }
        }
    }
    if filter_matches(a + ","@ + b, present) {
        assert forall|i: int| 0 <= i < ta.len() implies has_slug(present, (#[trigger] ta[i]).1) != ta[i].0 by {
            assert(t[i] == ta[i]);
        }
        assert forall|i: int| 0 <= i < tb.len() implies has_slug(present, (#[trigger] tb[i]).1) != tb[i].0 by {
            assert(t[i + ta.len()] == tb[i]);
        }
    }
}

} // verus!

verus! {

pub open spec fn terms_view(t: Seq<(bool, String)>) -> Seq<(bool, Seq<char>)> {
    t.map_values(|p: (bool, String)| (p.0, p.1@))
}

/// The JSON text `serde_json::to_string` writes for a list of `(excluded, slug)` pairs.
pub uninterp spec fn predicates_json_of(terms: Seq<(bool, Seq<char>)>) -> Seq<char>;

/// `serde_json::to_string` of the pairs; it cannot fail on booleans and strings.
#[verifier::external_body]
fn predicates_json(terms: &Vec<(bool, String)>) -> (r: String)
    ensures
        r@ == predicates_json_of(terms_view(terms@)),
{
    serde_json::to_string(terms).unwrap_or_default()
}

/// The predicates of a tag filter as JSON, for the WebUI.
pub fn json(filter: &str) -> (r: String)
    ensures
        r@ == predicates_json_of(filter_terms(filter@)),
{
    let t = terms(filter);
    assert(terms_view(t@) =~= filter_terms(filter@));
    predicates_json(&t)
}

} // verus!
