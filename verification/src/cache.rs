//! The cache policy: when a load may trust the persisted registry and when
//! it must rebuild. Staleness is presence-based only — a cache that exists
//! and reads back cleanly is returned as-is; a forced load, a missing cache
//! or a corrupt one all take the full rebuild path.

use vstd::prelude::*;
use vstd::string::StringExecFns;

verus! {

/// The workspace marker directory that holds the persisted registry.
pub fn cache_dir() -> (r: String)
    ensures
        r@ == ".dzp"@,
{
    String::from_str(".dzp")
}

/// The fixed location of the persisted registry, inside the marker
/// directory.
pub fn cache_file() -> (r: String)
    ensures
        r@ == ".dzp/scripts"@,
{
    String::from_str(".dzp/scripts")
}

/// Whether a load must rebuild from the workspace: always when forced, and
/// otherwise exactly when no usable cache record exists. A cache record is
/// usable when it is present and deserializes cleanly.
pub fn should_rebuild(force: bool, cache_usable: bool) -> (r: bool)
    ensures
        r == (force || !cache_usable),
{
    force || !cache_usable
}

} // verus!
