//! The parameters of a draft-16 SETUP.

use vstd::prelude::*;

verus! {

#[derive(Copy, Clone, Debug, PartialEq, Eq, Structural)]
pub enum ParameterType {
    Path,
    MaxRequestId,
    AuthorizationToken,
    MaxAuthTokenCacheSize,
    Authority,
    MOQTImplementation,
}

impl ParameterType {
    /// The number of the parameter on the wire.
    pub open spec fn spec_code(self) -> u64 {
        match self {
            ParameterType::Path => 0x1,
            ParameterType::MaxRequestId => 0x2,
            ParameterType::AuthorizationToken => 0x3,
            ParameterType::MaxAuthTokenCacheSize => 0x4,
            ParameterType::Authority => 0x5,
            ParameterType::MOQTImplementation => 0x7,
        }
    }

    pub fn code(self) -> (r: u64)
        ensures
            r == self.spec_code(),
    {
        match self {
            ParameterType::Path => 0x1,
            ParameterType::MaxRequestId => 0x2,
            ParameterType::AuthorizationToken => 0x3,
            ParameterType::MaxAuthTokenCacheSize => 0x4,
            ParameterType::Authority => 0x5,
            ParameterType::MOQTImplementation => 0x7,
        }
    }
}

impl From<ParameterType> for u64 {
    fn from(value: ParameterType) -> (r: u64) {
        value.code()
    }
}

impl vstd::std_specs::convert::FromSpecImpl<ParameterType> for u64 {
    open spec fn obeys_from_spec() -> bool {
        true
    }

    open spec fn from_spec(value: ParameterType) -> u64 {
        value.spec_code()
    }
}

/// How a publisher's catalog track is delivered. The key is odd, so that the
/// value is counted bytes.
pub const CATALOG_SUBSCRIPTION_CAPABILITIES: u64 = 0x4243;

/// The version of the declaration.
pub const CATALOG_CONTRACT_VERSION: u8 = 1;

/// The catalog is written once and retained at its origin.
pub const CATALOG_RETAINED_AT_ORIGIN: u8 = 1;

/// Subscribing from the largest object on.
pub const FILTER_LARGEST_OBJECT: u8 = 0x02;

/// Subscribing from a given place on.
pub const FILTER_ABSOLUTE_START: u8 = 0x03;

/// The declaration of a publisher that writes its catalog once and retains it:
/// the version, the delivery, the number of filters, and the filters in
/// ascending order. Every field is below 64, and takes one byte.
pub fn retained_catalog_capabilities() -> (r: [u8; 5])
    ensures
        r@ == seq![
            CATALOG_CONTRACT_VERSION,
            CATALOG_RETAINED_AT_ORIGIN,
            2u8,
            FILTER_LARGEST_OBJECT,
            FILTER_ABSOLUTE_START,
        ],
        forall|i: int| 0 <= i < r@.len() ==> r@[i] < 64,
        r@[3] < r@[4],
{
    let r: [u8; 5] = [
        CATALOG_CONTRACT_VERSION,
        CATALOG_RETAINED_AT_ORIGIN,
        2,
        FILTER_LARGEST_OBJECT,
        FILTER_ABSOLUTE_START,
    ];
    assert(r@ =~= seq![
        CATALOG_CONTRACT_VERSION,
        CATALOG_RETAINED_AT_ORIGIN,
        2u8,
        FILTER_LARGEST_OBJECT,
        FILTER_ABSOLUTE_START,
    ]);
    r
}

/// Every parameter has its own number on the wire. A parameter whose value is
/// counted bytes has an odd number, one whose value is a number an even one.
pub proof fn law_parameters_have_their_numbers(a: ParameterType, b: ParameterType)
    ensures
        a.spec_code() == b.spec_code() ==> a == b,
        (a.spec_code() % 2 == 0) == (a == ParameterType::MaxRequestId || a
            == ParameterType::MaxAuthTokenCacheSize),
        ParameterType::Path.spec_code() == 1,
        ParameterType::MaxRequestId.spec_code() == 2,
        ParameterType::AuthorizationToken.spec_code() == 3,
        ParameterType::MaxAuthTokenCacheSize.spec_code() == 4,
        ParameterType::Authority.spec_code() == 5,
        ParameterType::MOQTImplementation.spec_code() == 7,
        CATALOG_SUBSCRIPTION_CAPABILITIES % 2 == 1,
        FILTER_LARGEST_OBJECT < FILTER_ABSOLUTE_START < 64,
{
}

} // verus!
