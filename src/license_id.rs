//! The identifier of a license from the SPDX license list.
use vstd::prelude::*;

verus! {

/// An SPDX license identifier such as `MIT` or `Apache-2.0`.
#[derive(Clone, Debug, PartialEq, Eq, Hash)]
pub struct LicenseId(pub String);

impl LicenseId {
    /// The identifier's text.
    pub open spec fn view(&self) -> Seq<char> {
        self.0@
    }

    /// The identifier as text.
    pub fn to_string(&self) -> (r: String)
        ensures
            r@ == self@,
    {
        self.0.clone()
    }
}

impl AsRef<String> for LicenseId {
    fn as_ref(&self) -> (r: &String)
        ensures
            r@ == self.0@,
    {
        &self.0
    }
}

impl AsMut<String> for LicenseId {
    fn as_mut(&mut self) -> (r: &mut String)
        ensures
            *r == old(self).0,
            *final(r) == final(self).0,
    {
        &mut self.0
    }
}

impl From<String> for LicenseId {
    fn from(s: String) -> (r: LicenseId)
        ensures
            r.0 == s,
    {
        LicenseId(s)
    }
}

impl vstd::std_specs::convert::FromSpecImpl<String> for LicenseId {
    open spec fn obeys_from_spec() -> bool {
        true
    }

    open spec fn from_spec(s: String) -> LicenseId {
        LicenseId(s)
    }
}

} // verus!
