//! Output features: the validated issuer of a chained output.

use vstd::prelude::*;
use crate::ids::Address;

verus! {

/// Identifies the validated issuer of the UTXO state machine.
#[derive(Clone, Copy, PartialEq, Eq, Structural, Debug, Hash)]
pub struct IssuerFeature(pub Address);

impl IssuerFeature {
    /// The feature kind under which an issuer feature travels.
    pub const KIND: u8 = 1;

    /// Creates a new issuer feature for this address.
    pub fn new(address: Address) -> (r: IssuerFeature)
        ensures
            r.0 == address,
    {
        IssuerFeature(address)
    }

    /// Returns the issuer address.
    pub fn address(&self) -> (r: &Address)
        ensures
            r == self.0,
    {
        &self.0
    }
}

/// The wire form of an issuer feature: the kind tag and the address.
#[derive(Clone, Copy, PartialEq, Eq, Structural, Debug)]
pub struct IssuerFeatureDto {
    pub kind: u8,
    pub address: Address,
}

impl IssuerFeatureDto {
    /// The wire form of this feature.
    pub fn from_feature(feature: &IssuerFeature) -> (r: IssuerFeatureDto)
        ensures
            r.kind == IssuerFeature::KIND,
            r.address == feature.0,
    {
        IssuerFeatureDto { kind: IssuerFeature::KIND, address: feature.0 }
    }
}

} // verus!
