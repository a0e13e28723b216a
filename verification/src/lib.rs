//! Build-time manifest registry for a workspace of declarative script
//! definition files: discovery filtering, per-entry validation, a registry
//! with unique names, a presence-based cache policy, and a deduplicating
//! compiler for a single bundled artifact.

pub mod cache;
pub mod compile;
pub mod load;
pub mod project;
pub mod registry;
pub mod script;
pub mod text;
pub mod yaml;

use vstd::prelude::*;
use vstd::string::StringExecFns;

verus! {

/// The extension that marks a definition file; all other files are ignored
/// by discovery.
pub fn definition_extension() -> (r: String)
    ensures
        r@ == "dsc"@,
{
    String::from_str("dsc")
}

} // verus!
