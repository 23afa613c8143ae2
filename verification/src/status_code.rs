//! HTTP status codes as they appear in CDX index results.

use crate::text::{digit_of, digit_value, is_digit, str_to_chars};
use vstd::prelude::*;

verus! {

/// Errors of status code parsing.
#[derive(Clone, Copy, Debug, PartialEq, Eq, Structural)]
pub enum Error {
    /// A value outside the closed enumeration.
    Unsupported,
}

/// An HTTP status code.
///
/// This is a simplified representation that only provides coverage for values
/// relevant to the CDX index results handled here. The text encoding is the
/// one seen in those results.
#[derive(Clone, Copy, Debug, PartialEq, Eq, PartialOrd, Ord, Hash, Structural)]
pub enum StatusCode {
    /// A hyphen in the CDX result, which typically indicates a `200` response.
    Empty,
    Okay,
    MovedPermanently,
    Found,
    SeeOther,
    TemporaryRedirest,
    BadRequest,
    Unauthorized,
    Forbidden,
    NotFound,
    UpgradeRequired,
    TooManyRequests,
    RequestHeaderFieldsTooLarge,
    InternalServerError,
    BadGateway,
    ServiceUnavailable,
    GatewayTimeout,
    CloudflareUnknownError,
    CloudflareWebServerDown,
    CloudflareTimeout,
}

impl StatusCode {
    /// The integer value of the code, with zero for [`StatusCode::Empty`].
    pub open spec fn value_spec(&self) -> u16 {
        match self {
            StatusCode::Empty => 0,
            StatusCode::Okay => 200,
            StatusCode::MovedPermanently => 301,
            StatusCode::Found => 302,
            StatusCode::SeeOther => 303,
            StatusCode::TemporaryRedirest => 307,
            StatusCode::BadRequest => 400,
            StatusCode::Unauthorized => 401,
            StatusCode::Forbidden => 403,
            StatusCode::NotFound => 404,
            StatusCode::UpgradeRequired => 426,
            StatusCode::TooManyRequests => 429,
            StatusCode::RequestHeaderFieldsTooLarge => 431,
            StatusCode::InternalServerError => 500,
            StatusCode::BadGateway => 502,
            StatusCode::ServiceUnavailable => 503,
            StatusCode::GatewayTimeout => 504,
            StatusCode::CloudflareUnknownError => 520,
            StatusCode::CloudflareWebServerDown => 521,
            StatusCode::CloudflareTimeout => 524,
        }
    }

    /// The code of an integer value, when the value is in the enumeration.
    pub open spec fn from_value_spec(value: u16) -> Option<StatusCode> {
        match value {
            0u16 => Some(StatusCode::Empty),
            200u16 => Some(StatusCode::Okay),
            301u16 => Some(StatusCode::MovedPermanently),
            302u16 => Some(StatusCode::Found),
            303u16 => Some(StatusCode::SeeOther),
            307u16 => Some(StatusCode::TemporaryRedirest),
            400u16 => Some(StatusCode::BadRequest),
            401u16 => Some(StatusCode::Unauthorized),
            403u16 => Some(StatusCode::Forbidden),
            404u16 => Some(StatusCode::NotFound),
            426u16 => Some(StatusCode::UpgradeRequired),
            429u16 => Some(StatusCode::TooManyRequests),
            431u16 => Some(StatusCode::RequestHeaderFieldsTooLarge),
            500u16 => Some(StatusCode::InternalServerError),
            502u16 => Some(StatusCode::BadGateway),
            503u16 => Some(StatusCode::ServiceUnavailable),
            504u16 => Some(StatusCode::GatewayTimeout),
            520u16 => Some(StatusCode::CloudflareUnknownError),
            521u16 => Some(StatusCode::CloudflareWebServerDown),
            524u16 => Some(StatusCode::CloudflareTimeout),
            _ => None,
        }
    }

    /// Integer value of the status code.
    ///
    /// Note that this returns zero for an empty value, even though these
    /// typically indicate a `200` response; [`StatusCode::logical_value`]
    /// gives a logical status code instead.
    pub fn value(&self) -> (r: u16)
        ensures
            r == self.value_spec(),
    {
        match self {
            StatusCode::Empty => 0,
            StatusCode::Okay => 200,
            StatusCode::MovedPermanently => 301,
            StatusCode::Found => 302,
            StatusCode::SeeOther => 303,
            StatusCode::TemporaryRedirest => 307,
            StatusCode::BadRequest => 400,
            StatusCode::Unauthorized => 401,
            StatusCode::Forbidden => 403,
            StatusCode::NotFound => 404,
            StatusCode::UpgradeRequired => 426,
            StatusCode::TooManyRequests => 429,
            StatusCode::RequestHeaderFieldsTooLarge => 431,
            StatusCode::InternalServerError => 500,
            StatusCode::BadGateway => 502,
            StatusCode::ServiceUnavailable => 503,
            StatusCode::GatewayTimeout => 504,
            StatusCode::CloudflareUnknownError => 520,
            StatusCode::CloudflareWebServerDown => 521,
            StatusCode::CloudflareTimeout => 524,
        }
    }

    /// The code of an integer value, or [`Error::Unsupported`] outside the
    /// enumeration.
    pub fn from_value(value: u16) -> (r: Result<StatusCode, Error>)
        ensures
            match r {
                Ok(code) => Self::from_value_spec(value) == Some(code),
                Err(Error::Unsupported) => Self::from_value_spec(value) is None,
            },
    {
        match value {
            0u16 => Ok(StatusCode::Empty),
            200u16 => Ok(StatusCode::Okay),
            301u16 => Ok(StatusCode::MovedPermanently),
            302u16 => Ok(StatusCode::Found),
            303u16 => Ok(StatusCode::SeeOther),
            307u16 => Ok(StatusCode::TemporaryRedirest),
            400u16 => Ok(StatusCode::BadRequest),
            401u16 => Ok(StatusCode::Unauthorized),
            403u16 => Ok(StatusCode::Forbidden),
            404u16 => Ok(StatusCode::NotFound),
            426u16 => Ok(StatusCode::UpgradeRequired),
            429u16 => Ok(StatusCode::TooManyRequests),
            431u16 => Ok(StatusCode::RequestHeaderFieldsTooLarge),
            500u16 => Ok(StatusCode::InternalServerError),
            502u16 => Ok(StatusCode::BadGateway),
            503u16 => Ok(StatusCode::ServiceUnavailable),
            504u16 => Ok(StatusCode::GatewayTimeout),
            520u16 => Ok(StatusCode::CloudflareUnknownError),
            521u16 => Ok(StatusCode::CloudflareWebServerDown),
            524u16 => Ok(StatusCode::CloudflareTimeout),
            _ => Err(Error::Unsupported),
        }
    }

    /// The text form: a hyphen for the empty value, the decimal value
    /// otherwise.
    pub open spec fn str_spec(&self) -> Seq<char> {
        match self {
            StatusCode::Empty => "-"@,
            StatusCode::Okay => "200"@,
            StatusCode::MovedPermanently => "301"@,
            StatusCode::Found => "302"@,
            StatusCode::SeeOther => "303"@,
            StatusCode::TemporaryRedirest => "307"@,
            StatusCode::BadRequest => "400"@,
            StatusCode::Unauthorized => "401"@,
            StatusCode::Forbidden => "403"@,
            StatusCode::NotFound => "404"@,
            StatusCode::UpgradeRequired => "426"@,
            StatusCode::TooManyRequests => "429"@,
            StatusCode::RequestHeaderFieldsTooLarge => "431"@,
            StatusCode::InternalServerError => "500"@,
            StatusCode::BadGateway => "502"@,
            StatusCode::ServiceUnavailable => "503"@,
            StatusCode::GatewayTimeout => "504"@,
            StatusCode::CloudflareUnknownError => "520"@,
            StatusCode::CloudflareWebServerDown => "521"@,
            StatusCode::CloudflareTimeout => "524"@,
        }
    }

    /// The text form of the code as it appears in CDX results.
    pub fn as_str(&self) -> (r: &'static str)
        ensures
            r@ == self.str_spec(),
    {
        match self {
            StatusCode::Empty => "-",
            StatusCode::Okay => "200",
            StatusCode::MovedPermanently => "301",
            StatusCode::Found => "302",
            StatusCode::SeeOther => "303",
            StatusCode::TemporaryRedirest => "307",
            StatusCode::BadRequest => "400",
            StatusCode::Unauthorized => "401",
            StatusCode::Forbidden => "403",
            StatusCode::NotFound => "404",
            StatusCode::UpgradeRequired => "426",
            StatusCode::TooManyRequests => "429",
            StatusCode::RequestHeaderFieldsTooLarge => "431",
            StatusCode::InternalServerError => "500",
            StatusCode::BadGateway => "502",
            StatusCode::ServiceUnavailable => "503",
            StatusCode::GatewayTimeout => "504",
            StatusCode::CloudflareUnknownError => "520",
            StatusCode::CloudflareWebServerDown => "521",
            StatusCode::CloudflareTimeout => "524",
        }
    }

    /// The status code denoted by column text: a hyphen, or the three-digit
    /// decimal value of a code in the enumeration; anything else is refused.
    pub open spec fn of_chars(s: Seq<char>) -> Option<StatusCode> {
        if s == "-"@ {
            Some(StatusCode::Empty)
        } else if s.len() == 3 && is_digit(s[0]) && is_digit(s[1]) && is_digit(s[2])
            && digit_value(s[0]) > 0 {
            let v = digit_value(s[0]) * 100 + digit_value(s[1]) * 10 + digit_value(s[2]);
            if Self::from_value_spec(v as u16) is Some && v != 0 {
                Self::from_value_spec(v as u16)
            } else {
                None
            }
        } else {
            None
        }
    }

    /// Parses the text form of a code.
    pub fn parse_str(input: &str) -> (r: Result<StatusCode, Error>)
        ensures
            match r {
                Ok(code) => Self::of_chars(input@) == Some(code),
                Err(Error::Unsupported) => Self::of_chars(input@) is None,
            },
    {
        let chars = str_to_chars(input);
        if chars.len() == 1 && chars[0] == '-' {
            assert(input@ =~= "-"@) by {
                reveal_strlit("-");
            }
            return Ok(StatusCode::Empty);
        }
        proof {
            reveal_strlit("-");
            if input@ == "-"@ {
                assert(chars@.len() == 1 && chars@[0] == '-');
            }
        }
        if chars.len() != 3 {
            return Err(Error::Unsupported);
        }
        let d0 = match digit_of(chars[0]) {
            Some(d) => d,
            None => {
                return Err(Error::Unsupported);
            },
        };
        let d1 = match digit_of(chars[1]) {
            Some(d) => d,
            None => {
                return Err(Error::Unsupported);
            },
        };
        let d2 = match digit_of(chars[2]) {
            Some(d) => d,
            None => {
                return Err(Error::Unsupported);
            },
        };
        if d0 == 0 {
            return Err(Error::Unsupported);
        }
        let v: u16 = (d0 as u16) * 100 + (d1 as u16) * 10 + (d2 as u16);
        StatusCode::from_value(v)
    }

    /// The logical integer value: `200` for the empty value, `500` for the
    /// Cloudflare-specific errors, and the plain value otherwise.
    pub fn logical_value(&self) -> (r: u16)
        ensures
            r == match self {
                StatusCode::Empty => 200u16,
                StatusCode::CloudflareUnknownError => 500u16,
                StatusCode::CloudflareWebServerDown => 500u16,
                StatusCode::CloudflareTimeout => 500u16,
                _ => self.value_spec(),
            },
    {
        match self {
            StatusCode::Empty => 200,
            StatusCode::CloudflareUnknownError => 500,
            StatusCode::CloudflareWebServerDown => 500,
            StatusCode::CloudflareTimeout => 500,
            _ => self.value(),
        }
    }
}

/// All values of the enumeration, in ascending order.
pub fn status_code_values() -> (r: Vec<StatusCode>)
    ensures
        r@ =~= seq![
            StatusCode::Empty,
            StatusCode::Okay,
            StatusCode::MovedPermanently,
            StatusCode::Found,
            StatusCode::SeeOther,
            StatusCode::TemporaryRedirest,
            StatusCode::BadRequest,
            StatusCode::Unauthorized,
            StatusCode::Forbidden,
            StatusCode::NotFound,
            StatusCode::UpgradeRequired,
            StatusCode::TooManyRequests,
            StatusCode::RequestHeaderFieldsTooLarge,
            StatusCode::InternalServerError,
            StatusCode::BadGateway,
            StatusCode::ServiceUnavailable,
            StatusCode::GatewayTimeout,
            StatusCode::CloudflareUnknownError,
            StatusCode::CloudflareWebServerDown,
            StatusCode::CloudflareTimeout,
        ],
{
    let mut r: Vec<StatusCode> = Vec::new();
    r.push(StatusCode::Empty);
    r.push(StatusCode::Okay);
    r.push(StatusCode::MovedPermanently);
    r.push(StatusCode::Found);
    r.push(StatusCode::SeeOther);
    r.push(StatusCode::TemporaryRedirest);
    r.push(StatusCode::BadRequest);
    r.push(StatusCode::Unauthorized);
    r.push(StatusCode::Forbidden);
    r.push(StatusCode::NotFound);
    r.push(StatusCode::UpgradeRequired);
    r.push(StatusCode::TooManyRequests);
    r.push(StatusCode::RequestHeaderFieldsTooLarge);
    r.push(StatusCode::InternalServerError);
    r.push(StatusCode::BadGateway);
    r.push(StatusCode::ServiceUnavailable);
    r.push(StatusCode::GatewayTimeout);
    r.push(StatusCode::CloudflareUnknownError);
    r.push(StatusCode::CloudflareWebServerDown);
    r.push(StatusCode::CloudflareTimeout);
    r
}

/// Status-code round trip: for every value in the closed enumeration, parsing
/// the text form gives the code back, and the code of the integer value is the
/// code itself.
pub proof fn lemma_status_code_round_trip(code: StatusCode)
    ensures
        StatusCode::of_chars(code.str_spec()) == Some(code),
        StatusCode::from_value_spec(code.value_spec()) == Some(code),
{
    reveal_strlit("-");
    reveal_strlit("200");
    reveal_strlit("301");
    reveal_strlit("302");
    reveal_strlit("303");
    reveal_strlit("307");
    reveal_strlit("400");
    reveal_strlit("401");
    reveal_strlit("403");
    reveal_strlit("404");
    reveal_strlit("426");
    reveal_strlit("429");
    reveal_strlit("431");
    reveal_strlit("500");
    reveal_strlit("502");
    reveal_strlit("503");
    reveal_strlit("504");
    reveal_strlit("520");
    reveal_strlit("521");
    reveal_strlit("524");
    assert("-"@.len() == 1);
    match code {
        StatusCode::Empty => {
        },
        _ => {
            assert(code.str_spec().len() == 3);
            assert(code.str_spec() != "-"@);
        },
    }
}

} // verus!
