//! Browser tag operations: the frozen selection of an operation is reused only by the
//! same change, and only while the operation is fresh.
use vstd::prelude::*;
use crate::text::{chars_of, first_index, str_eq};
use crate::update::{parse_u64, parse_u64_spec};

verus! {

/// How far in the future an operation's timestamp may lie, in seconds.
pub const CLOCK_SKEW: u64 = 300;

/// How long an operation stays valid, in seconds.
pub const LIFETIME: u64 = 86400;

/// How long saved selections are kept, in seconds.
pub const RETENTION: u64 = 90000;

/// The timestamp an operation ID starts with (the digits before its first `:`).
pub open spec fn operation_timestamp(id: Seq<char>) -> Option<u64> {
    match first_index(id, seq![':']) {
        Some(i) => parse_u64_spec(id.take(i)),
        None => None,
    }
}

/// Why an operation ID cannot be used at `now`: unreadable, or too long, from the
/// future or expired.
pub open spec fn operation_problem(id: Seq<char>, byte_len: nat, now: u64) -> Option<Seq<char>> {
    match operation_timestamp(id) {
        None => Some("Invalid tag operation ID"@),
        Some(t) => if byte_len > 128 || t > now + CLOCK_SKEW || (if now >= t { now - t } else { 0 }) > LIFETIME {
            Some("Tag operation expired; refresh and select items again"@)
        } else {
            None
        },
    }
}

/// Checks an operation ID at `now` (Unix seconds); returns its timestamp.
pub fn check_operation(operation_id: &str, now: u64) -> (r: Result<u64, String>)
    ensures
        match operation_problem(operation_id@, crate::google::my_groups::byte_len(operation_id@), now) {
            Some(m) => r matches Err(e) && e@ == m,
            None => r matches Ok(t) && operation_timestamp(operation_id@) == Some(t),
        },
{
    let v = chars_of(operation_id);
    let colon: Vec<char> = vec![':'];
    assert(colon@ =~= seq![':']);
    let timestamp = match crate::text::chars_find(v.as_slice(), colon.as_slice()) {
        None => None,
        Some(i) => {
            proof {
                crate::text::lemma_first_index_from(v@, colon@, 0);
            }
            let head = crate::text::slice_chars(v.as_slice(), 0, i);
            assert(head@ =~= v@.take(i as int));
            parse_u64(head.as_slice())
        },
    };
    match timestamp {
        None => Err("Invalid tag operation ID".to_owned()),
        Some(t) => {
            if operation_id.len() > 128 || t as u128 > now as u128 + CLOCK_SKEW as u128 || now.saturating_sub(t)
                > LIFETIME {
                Err("Tag operation expired; refresh and select items again".to_owned())
            } else {
                Ok(t)
            }
        },
    }
}

/// Saved selections older than this are removed (Unix seconds).
pub fn retention_start(now: u64) -> (r: u64)
    ensures
        r == if now >= RETENTION {
            now - RETENTION
        } else {
            0
        },
{
    now.saturating_sub(RETENTION)
}

/// A saved selection is reused only by the change it was made for.
pub fn reuse(saved_fingerprint: &str, fingerprint: &str) -> (r: Result<(), String>)
    ensures
        r is Ok <==> saved_fingerprint@ == fingerprint@,
        r matches Err(m) ==> m@ == "Tag operation ID reused for another change"@,
{
    if str_eq(saved_fingerprint, fingerprint) {
        Ok(())
    } else {
        Err("Tag operation ID reused for another change".to_owned())
    }
}

} // verus!
