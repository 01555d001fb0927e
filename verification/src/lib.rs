pub mod archive;
pub mod assets;
pub mod backoff;
pub mod cache;
pub mod chacha;
pub mod data;
pub mod fsb5;
pub mod manager;
pub mod paths;
pub mod remote;
pub mod store;
pub mod strings;
pub mod ws;

use vstd::prelude::*;

verus! {

/// Builds the id under which a mod fetched from the remote service is
/// installed: the fixed prefix `fyi.` followed by the mod's slug.
pub fn id_for_remote(slug: &str) -> (r: String)
    ensures
        r@ == "fyi."@ + slug@,
{
    let mut id = String::new();
    id.append("fyi.");
    id.append(slug);
    id
}

} // verus!
