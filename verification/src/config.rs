//! The settings of the object store, and the choice of its region.

use s3::Region;
use std::str::FromStr;
use vstd::prelude::*;
use vstd::string::*;

verus! {

/// How to reach the bucket that holds the compilers.
#[derive(Clone, Debug, PartialEq, Eq)]
pub struct S3FetcherConfig {
    pub access_key: Option<String>,
    pub secret_key: Option<String>,
    pub region: Option<String>,
    pub endpoint: Option<String>,
    pub bucket: String,
}

impl Default for S3FetcherConfig {
    fn default() -> (config: S3FetcherConfig)
        ensures
            config.access_key is None,
            config.secret_key is None,
            config.region is None,
            config.endpoint is None,
            config.bucket@ == Seq::<char>::empty(),
    {
        S3FetcherConfig {
            access_key: None,
            secret_key: None,
            region: None,
            endpoint: None,
            bucket: String::new(),
        }
    }
}

/// The region of a bucket: one that the store's provider names, or one of
/// the caller's own with the address to reach it.
#[derive(Clone, Debug, PartialEq, Eq)]
pub enum RegionChoice {
    Named(String),
    Custom { region: String, endpoint: String },
}

/// Whether `name` is one of the regions that `s3::Region` knows by name.
pub uninterp spec fn is_named_region(name: Seq<char>) -> bool;

/// `<s3::Region as FromStr>::from_str`: it reads the name of a region and
/// answers with the variant `Custom` for every name that it does not know.
/// The contract says that the result tells the two cases apart, and gives the
/// known names the name `is_named_region`.
#[verifier::external_body]
fn region_is_named(name: &str) -> (known: bool)
    ensures
        known == is_named_region(name@),
{
    match Region::from_str(name) {
        Ok(Region::Custom { .. }) => false,
        Ok(_) => true,
        Err(_) => false,
    }
}

/// The region that the settings choose, given whether the provider knows
/// the region's name.
pub open spec fn chosen_region(
    region: Seq<char>,
    endpoint: Option<String>,
    named: bool,
    r: Option<RegionChoice>,
) -> bool {
    match endpoint {
        Some(address) => r matches Some(RegionChoice::Custom { region: name, endpoint: e })
            && name@ == region && e@ == address@,
        None => if named {
            r matches Some(RegionChoice::Named(name)) && name@ == region
        } else {
            r is None
        },
    }
}

/// Chooses the region of the bucket. With an address of its own the region
/// is the caller's, under whatever name. Without one the name must be one
/// that the provider knows, which `named` says.
pub fn choose_region(region: String, endpoint: Option<String>, named: bool) -> (r: Option<
    RegionChoice,
>)
    ensures
        chosen_region(region@, endpoint, named, r),
{
    match endpoint {
        Some(endpoint) => Some(RegionChoice::Custom { region, endpoint }),
        None => if named {
            Some(RegionChoice::Named(region))
        } else {
            None
        },
    }
}

/// The name of the region in the settings: empty where none is set.
pub open spec fn region_name(region: Option<String>) -> Seq<char> {
    match region {
        Some(name) => name@,
        None => Seq::empty(),
    }
}

/// The region that the settings choose: the caller's own where an address
/// is set, else the provider's region of the name that is set, if it knows
/// that name.
pub fn new_region(region: Option<String>, endpoint: Option<String>) -> (r: Option<RegionChoice>)
    ensures
        chosen_region(region_name(region), endpoint, is_named_region(region_name(region)), r),
{
    let region = match region {
        Some(name) => name,
        None => String::new(),
    };
    let named = region_is_named(region.as_str());
    choose_region(region, endpoint, named)
}

} // verus!
