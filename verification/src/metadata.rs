//! Profile metadata tools: the argument shape, its conversion to the stored
//! profile, and the result shape of a publish.
use vstd::prelude::*;

use crate::settings::{view_opt_string, ProfileMetadata};

verus! {

/// Arguments of the set-metadata tool.
pub struct SetMetadataArgs {
    pub name: Option<String>,
    pub display_name: Option<String>,
    pub about: Option<String>,
    pub picture: Option<String>,
    pub banner: Option<String>,
    pub nip05: Option<String>,
    pub lud06: Option<String>,
    pub lud16: Option<String>,
    pub website: Option<String>,
    pub publish: Option<bool>,
}

/// Arguments of the fetch-metadata tool.
pub struct FetchMetadataArgs {
    pub label: Option<String>,
}

/// What publishing metadata returned.
pub struct MetadataResult {
    pub saved: bool,
    pub published: bool,
    pub event_id: Option<String>,
    pub pubkey: Option<String>,
    pub success_relays: Vec<String>,
    pub failed_relays: Vec<crate::relays::FailedRelay>,
}

fn dup_opt(o: &Option<String>) -> (r: Option<String>)
    ensures
        view_opt_string(r) == view_opt_string(*o),
{
    match o {
        Option::Some(s) => Some(s.clone()),
        Option::None => None,
    }
}

/// The stored profile of a set-metadata call: the same nine fields.
pub fn args_to_profile(args: &SetMetadataArgs) -> (r: ProfileMetadata)
    ensures
        r@.name == view_opt_string(args.name),
        r@.display_name == view_opt_string(args.display_name),
        r@.about == view_opt_string(args.about),
        r@.picture == view_opt_string(args.picture),
        r@.banner == view_opt_string(args.banner),
        r@.nip05 == view_opt_string(args.nip05),
        r@.lud06 == view_opt_string(args.lud06),
        r@.lud16 == view_opt_string(args.lud16),
        r@.website == view_opt_string(args.website),
{
    ProfileMetadata {
        name: dup_opt(&args.name),
        display_name: dup_opt(&args.display_name),
        about: dup_opt(&args.about),
        picture: dup_opt(&args.picture),
        banner: dup_opt(&args.banner),
        nip05: dup_opt(&args.nip05),
        lud06: dup_opt(&args.lud06),
        lud16: dup_opt(&args.lud16),
        website: dup_opt(&args.website),
    }
}

} // verus!
