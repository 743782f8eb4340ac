//! Reading what the managed Rclone executable reports.
use vstd::prelude::*;
use crate::text::{chars_of, split_chars, split_on, string_from_chars, trim, trim_chars, trim_str};

verus! {

/// The version line: the first line of the output, trimmed, when it is not blank.
pub open spec fn version_line(stdout: Seq<char>) -> Option<Seq<char>> {
    let first = trim(split_on(stdout, '\n')[0]);
    if stdout.len() > 0 && first.len() > 0 {
        Some(first)
    } else {
        None
    }
}

/// What `rclone version` reports: the first line of its output (`rclone v1.75.0`), or
/// the reason there is none. `executable` is the path as displayed in messages.
pub fn version(success: bool, stdout: &str, stderr: &str, executable: &str) -> (r: Result<String, String>)
    ensures
        !success ==> (r matches Err(m) && m@ == "Rclone version check failed for "@ + executable@ + ": "@
            + trim(stderr@)),
        success ==> match version_line(stdout@) {
            Some(v) => r matches Ok(s) && s@ == v,
            None => r matches Err(m) && m@ == "Rclone returned no version information: "@ + executable@,
        },
{
    if !success {
        let mut m = "Rclone version check failed for ".to_owned();
        m.append(executable);
        m.append(": ");
        let t = trim_str(stderr);
        m.append(t.as_str());
        return Err(m);
    }
    let chars = chars_of(stdout);
    let pieces = split_chars(&chars, '\n');
    proof {
        crate::text::lemma_split_on_nonempty(stdout@, '\n');
        assert(pieces@[0]@ == pieces.deep_view()[0]);
    }
    let first = trim_chars(pieces[0].as_slice());
    if chars.len() == 0 || first.len() == 0 {
        let mut m = "Rclone returned no version information: ".to_owned();
        m.append(executable);
        return Err(m);
    }
    Ok(string_from_chars(first.as_slice()))
}

} // verus!
