use vstd::prelude::*;

use vstd::std_specs::convert::{FromSpecImpl, TryFromSpecImpl};

verus! {

/// ETSI EN 300 392-7 clause A.8.6, Table A.40 "Authentication sub-type".
/// Bits: 2
///
/// Identifies the specific PDU when the MM PDU type is 0000 (uplink, U-AUTHENTICATION) or
/// 0001 (downlink, D-AUTHENTICATION). Both directions use the same encoding.
///
/// NOTE ON ORDERING: the encoding is DEMAND / RESPONSE / RESULT / REJECT — REJECT is 11, not 01.
#[derive(Debug, Clone, Copy, PartialEq, Eq, Structural)]
pub enum AuthenticationSubtype {
    Demand,
    Response,
    Result,
    Reject,
}

/// The sub-type that a code stands for.
pub open spec fn subtype_of(x: u64) -> Option<AuthenticationSubtype> {
    if x == 0 {
        Some(AuthenticationSubtype::Demand)
    } else if x == 1 {
        Some(AuthenticationSubtype::Response)
    } else if x == 2 {
        Some(AuthenticationSubtype::Result)
    } else if x == 3 {
        Some(AuthenticationSubtype::Reject)
    } else {
        None
    }
}

impl AuthenticationSubtype {
    /// The code of a sub-type on the air interface.
    pub open spec fn code(self) -> u64 {
        match self {
            AuthenticationSubtype::Demand => 0,
            AuthenticationSubtype::Response => 1,
            AuthenticationSubtype::Result => 2,
            AuthenticationSubtype::Reject => 3,
        }
    }

    /// The name of a sub-type.
    pub open spec fn name(self) -> Seq<char> {
        match self {
            AuthenticationSubtype::Demand => "Demand"@,
            AuthenticationSubtype::Response => "Response"@,
            AuthenticationSubtype::Result => "Result"@,
            AuthenticationSubtype::Reject => "Reject"@,
        }
    }

    pub fn into_raw(self) -> (raw: u64)
        ensures
            raw == self.code(),
    {
        match self {
            AuthenticationSubtype::Demand => 0,
            AuthenticationSubtype::Response => 1,
            AuthenticationSubtype::Result => 2,
            AuthenticationSubtype::Reject => 3,
        }
    }

    /// The sub-type's name, for logs.
    pub fn to_string(&self) -> (text: String)
        ensures
            text@ == self.name(),
    {
        match self {
            AuthenticationSubtype::Demand => String::from_str("Demand"),
            AuthenticationSubtype::Response => String::from_str("Response"),
            AuthenticationSubtype::Result => String::from_str("Result"),
            AuthenticationSubtype::Reject => String::from_str("Reject"),
        }
    }
}

impl std::convert::TryFrom<u64> for AuthenticationSubtype {
    type Error = ();

    fn try_from(x: u64) -> (subtype: Result<Self, ()>) {
        match x {
            0 => Ok(AuthenticationSubtype::Demand),
            1 => Ok(AuthenticationSubtype::Response),
            2 => Ok(AuthenticationSubtype::Result),
            3 => Ok(AuthenticationSubtype::Reject),
            _ => Err(()),
        }
    }
}

impl TryFromSpecImpl<u64> for AuthenticationSubtype {
    open spec fn obeys_try_from_spec() -> bool {
        true
    }

    open spec fn try_from_spec(x: u64) -> Result<Self, ()> {
        match subtype_of(x) {
            Some(subtype) => Ok(subtype),
            None => Err(()),
        }
    }
}

impl From<AuthenticationSubtype> for u64 {
    fn from(e: AuthenticationSubtype) -> (raw: u64) {
        e.into_raw()
    }
}

impl FromSpecImpl<AuthenticationSubtype> for u64 {
    open spec fn obeys_from_spec() -> bool {
        true
    }

    open spec fn from_spec(e: AuthenticationSubtype) -> u64 {
        e.code()
    }
}

/// A sub-type's code stands for it, and a code that stands for a sub-type is that sub-type's.
pub proof fn law_subtype_codes_are_exact(subtype: AuthenticationSubtype, x: u64)
    ensures
        subtype_of(subtype.code()) == Some(subtype),
        subtype.code() < 4,
        x < 4 ==> subtype_of(x) is Some,
        subtype_of(x) matches Some(found) ==> found.code() == x,
{
}

/// ETSI EN 300 392-7 clause A.8.4, Table A.38 "Authentication reject reason". Bits: 3.
/// Only 000 is defined; all other values are reserved.
pub const AUTH_REJECT_NOT_SUPPORTED: u8 = 0b000;

/// The codes of Table A.40: DEMAND is 00, RESPONSE 01, RESULT 10 and REJECT 11, read and written
/// alike, and there is no other code.
pub proof fn law_subtypes_have_the_codes_of_the_standard(subtype: AuthenticationSubtype, x: u64)
    ensures
        subtype is Demand <==> subtype.code() == 0,
        subtype is Response <==> subtype.code() == 1,
        subtype is Result <==> subtype.code() == 2,
        subtype is Reject <==> subtype.code() == 3,
        subtype_of(0) == Some(AuthenticationSubtype::Demand),
        subtype_of(1) == Some(AuthenticationSubtype::Response),
        subtype_of(2) == Some(AuthenticationSubtype::Result),
        subtype_of(3) == Some(AuthenticationSubtype::Reject),
        x > 3 ==> subtype_of(x) is None,
        forall|raw: u64| #[trigger]
            call_ensures(<u64 as From<AuthenticationSubtype>>::from, (subtype,), raw) ==> raw
                == subtype.code(),
        forall|raw: u64| #[trigger]
            call_ensures(AuthenticationSubtype::into_raw, (subtype,), raw) ==> raw
                == subtype.code(),
        forall|raw: u64, r: Result<AuthenticationSubtype, ()>| #[trigger]
            call_ensures(
                <AuthenticationSubtype as std::convert::TryFrom<u64>>::try_from,
                (raw,),
                r,
            ) ==> match subtype_of(raw) {
                Some(found) => r == Ok::<_, ()>(found),
                None => r is Err,
            },
{
}

/// The one reject reason that is defined is 000.
pub proof fn law_the_reject_reason_of_the_standard()
    ensures
        AUTH_REJECT_NOT_SUPPORTED == 0,
{
}

/// A sub-type is shown by its name.
pub proof fn law_subtypes_are_shown_by_name(subtype: AuthenticationSubtype, text: String)
    requires
        call_ensures(AuthenticationSubtype::to_string, (&subtype,), text),
    ensures
        subtype is Demand ==> text@ == "Demand"@,
        subtype is Response ==> text@ == "Response"@,
        subtype is Result ==> text@ == "Result"@,
        subtype is Reject ==> text@ == "Reject"@,
{
}

} // verus!
