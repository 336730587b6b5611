//! The periodic removal of empty directories inside buckets.

use vstd::prelude::*;

verus! {

/// A directory inside a bucket is removed when it is empty and is not a
/// multipart staging area; a bucket itself is never removed.
pub open spec fn removable_spec(name: Seq<char>, is_bucket: bool, is_empty: bool) -> bool {
    !is_bucket && is_empty && name != ".multipart"@
}

pub fn removable(name: &str, is_bucket: bool, is_empty: bool) -> (r: bool)
    ensures
        r == removable_spec(name@, is_bucket, is_empty),
{
    let n = crate::text::chars_of(name);
    let staging = crate::text::chars_of(".multipart");
    !is_bucket && is_empty && !crate::text::chars_equal(n.as_slice(), staging.as_slice())
}

/// How often the sweep runs, in milliseconds, from the interval in minutes;
/// `None` where sweeping is switched off.
pub fn sweep_interval_ms(enabled: bool, every_minutes: u64) -> (r: Option<u64>)
    ensures
        !enabled ==> r is None,
        enabled ==> r == Some(if every_minutes * 60000 > u64::MAX { u64::MAX } else { (every_minutes * 60000) as u64 }),
{
    if !enabled {
        None
    } else if every_minutes > u64::MAX / 60000 {
        Some(u64::MAX)
    } else {
        Some(every_minutes * 60000)
    }
}

} // verus!
