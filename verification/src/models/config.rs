//! Where a model runs.

use vstd::prelude::*;
use vstd::string::*;

verus! {

/// In the process, or behind an HTTP endpoint.
#[derive(Clone, Debug, PartialEq, Eq)]
pub enum ProviderKind {
    Local,
    Remote { endpoint: String },
}

impl Default for ProviderKind {
    fn default() -> (r: Self)
        ensures
            r is Local,
    {
        ProviderKind::Local
    }
}

impl ProviderKind {
    /// Behind an endpoint?
    pub fn is_remote(&self) -> (r: bool)
        ensures
            r == self is Remote,
    {
        match self {
            ProviderKind::Remote { .. } => true,
            _ => false,
        }
    }

    /// The endpoint, where there is one.
    pub fn endpoint(&self) -> (r: Option<&str>)
        ensures
            r is Some == self is Remote,
            *self matches ProviderKind::Remote { endpoint } ==> (r->0)@ == endpoint@,
    {
        match self {
            ProviderKind::Remote { endpoint } => Some(endpoint.as_str()),
            _ => None,
        }
    }
}

} // verus!
