//! What of a response is left out of a comparison.

use vstd::prelude::*;
use vstd::std_specs::cmp::PartialEqSpec;

verus! {

#[derive(Debug, PartialEq, Eq)]
pub struct ResponseProfile {
    pub skip_headers: Vec<String>,
    pub skip_body: Vec<String>,
}

impl ResponseProfile {
    pub fn new(skip_headers: Vec<String>, skip_body: Vec<String>) -> (profile: Self)
        ensures
            profile.skip_headers == skip_headers,
            profile.skip_body == skip_body,
    {
        Self { skip_headers, skip_body }
    }
}

impl Default for ResponseProfile {
    /// A profile that leaves nothing out.
    fn default() -> (profile: Self)
        ensures
            profile.skip_headers@.len() == 0,
            profile.skip_body@.len() == 0,
    {
        Self { skip_headers: Vec::new(), skip_body: Vec::new() }
    }
}

/// Why a configuration is not valid.
#[derive(Debug, PartialEq, Eq)]
pub struct ValidationError {
    pub reason: String,
}

pub trait ValidateConfig {
    fn validate(&self) -> Result<(), ValidationError>;
}

/// Whether the value equals the default of its type.
pub fn is_default<T>(v: &T) -> (same: bool) where T: Default + PartialEq
    ensures
        T::obeys_eq_spec() ==> exists|d: T|
            call_ensures(T::default, (), d) && same == #[trigger] v.eq_spec(&d),
{
    let d = T::default();
    *v == d
}

} // verus!
