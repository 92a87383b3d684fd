//! The proxy's configuration.
//!
//! The values arrive as plain strings (the process environment is read
//! outside the library); assembling them, applying the defaults and
//! parsing the port happen here.

use vstd::prelude::*;
use vstd::string::StrSliceExecFns;
use crate::error::Error;
use crate::session::opt_str_view;

verus! {

/// Everything the proxy is configured with.
pub struct Config {
    pub base_url: String,
    pub entity_id: String,
    pub idp_cert_path: String,
    pub idp_key_path: String,
    pub mdq_signing_cert_path: String,
    pub host: String,
    pub port: u16,
}

/// A decimal digit.
pub open spec fn is_digit(c: char) -> bool {
    '0' <= c && c <= '9'
}

/// The value of a digit string, most significant first.
pub open spec fn dec_value(s: Seq<char>) -> int
    decreases s.len(),
{
    if s.len() == 0 {
        0
    } else {
        dec_value(s.drop_last()) * 10 + (s.last() as int - 48)
    }
}

/// A digit string's value is never negative.
proof fn lemma_dec_value_nonneg(s: Seq<char>)
    requires
        forall|k: int| 0 <= k < s.len() ==> is_digit(#[trigger] s[k]),
    ensures
        dec_value(s) >= 0,
    decreases s.len(),
{
    if s.len() > 0 {
        assert(forall|k: int| 0 <= k < s.drop_last().len() ==> is_digit(
            #[trigger] s.drop_last()[k],
        ));
        lemma_dec_value_nonneg(s.drop_last());
    }
}

/// A digit string's value only grows with more digits.
proof fn lemma_dec_value_prefix(s: Seq<char>, i: int)
    requires
        forall|k: int| 0 <= k < s.len() ==> is_digit(#[trigger] s[k]),
        0 <= i <= s.len(),
    ensures
        dec_value(s) >= dec_value(s.take(i)),
    decreases s.len() - i,
{
    if i < s.len() {
        lemma_dec_value_prefix(s, i + 1);
        assert(s.take(i + 1).drop_last() =~= s.take(i));
        assert(s.take(i + 1).last() == s[i]);
        lemma_dec_value_nonneg(s.take(i));
    } else {
        assert(s.take(i) =~= s);
    }
}

/// Parses a decimal port number: some non-empty all-digit string whose
/// value fits a `u16`, and nothing else.
pub fn parse_port(s: &str) -> (r: Option<u16>)
    ensures
        match r {
            Some(v) => s@.len() >= 1 && (forall|k: int| 0 <= k < s@.len() ==> is_digit(
                #[trigger] s@[k],
            )) && dec_value(s@) == v as int,
            None => s@.len() == 0 || (exists|k: int|
                0 <= k < s@.len() && !is_digit(#[trigger] s@[k])) || dec_value(s@) > u16::MAX
                as int,
        },
{
    let n: usize = s.unicode_len();
    if n == 0 {
        return None;
    }
    let mut value: u32 = 0;
    let mut i: usize = 0;
    proof {
        assert(s@.take(0) =~= Seq::<char>::empty());
    }
    while i < n
        invariant
            0 <= i <= n,
            n == s@.len(),
            value <= 0xffff,
            forall|k: int| 0 <= k < i ==> is_digit(#[trigger] s@[k]),
            dec_value(s@.take(i as int)) == value as int,
        decreases n - i,
    {
        let c = s.get_char(i);
        if !('0' <= c && c <= '9') {
            return None;
        }
        let d: u32 = c as u32 - 48;
        proof {
            assert(s@.take(i + 1).drop_last() =~= s@.take(i as int));
            assert(s@.take(i + 1).last() == s@[i as int]);
        }
        let next: u32 = value * 10 + d;
        if next > 0xffff {
            proof {
                assert(dec_value(s@.take(i + 1)) == next as int);
                if forall|k: int| 0 <= k < s@.len() ==> is_digit(#[trigger] s@[k]) {
                    lemma_dec_value_prefix(s@, i + 1);
                }
            }
            return None;
        }
        value = next;
        i = i + 1;
    }
    proof {
        assert(s@.take(n as int) =~= s@);
    }
    Some(value as u16)
}

impl Config {
    /// Assembles a configuration from the required values and the
    /// optional ones, applying the defaults: the bundled MDQ signing
    /// certificate path, every interface, and port 8443.  A present
    /// but unparsable port is rejected.
    pub fn from_parts(
        base_url: String,
        entity_id: String,
        idp_cert_path: String,
        idp_key_path: String,
        mdq_signing_cert_path: Option<String>,
        host: Option<String>,
        port_text: Option<String>,
    ) -> (r: Result<Config, Error>)
        ensures
            r is Ok <==> match opt_str_view(port_text) {
                None => true,
                Some(t) => t.len() >= 1 && (forall|k: int| 0 <= k < t.len() ==> is_digit(
                    #[trigger] t[k],
                )) && dec_value(t) <= u16::MAX as int,
            },
            match r {
                Ok(c) => {
                    &&& c.base_url@ == base_url@
                    &&& c.entity_id@ == entity_id@
                    &&& c.idp_cert_path@ == idp_cert_path@
                    &&& c.idp_key_path@ == idp_key_path@
                    &&& c.mdq_signing_cert_path@ == match opt_str_view(mdq_signing_cert_path) {
                        Some(p) => p,
                        None => "certs/incommon-mdq.pem"@,
                    }
                    &&& c.host@ == match opt_str_view(host) {
                        Some(h) => h,
                        None => "0.0.0.0"@,
                    }
                    &&& match opt_str_view(port_text) {
                        Some(t) => t.len() >= 1 && dec_value(t) == c.port as int,
                        None => c.port == 8443,
                    }
                },
                Err(e) => e is Internal && (match opt_str_view(port_text) {
                    None => false,
                    Some(t) => t.len() == 0 || (exists|k: int|
                        0 <= k < t.len() && !is_digit(#[trigger] t[k])) || dec_value(t)
                        > u16::MAX as int,
                }),
            },
    {
        let port: u16 = match &port_text {
            Some(t) => match parse_port(t.as_str()) {
                Some(p) => p,
                None => {
                    return Err(Error::Internal("the configured port is not a valid port number".to_owned()));
                },
            },
            None => 8443,
        };
        Ok(
            Config {
                base_url,
                entity_id,
                idp_cert_path,
                idp_key_path,
                mdq_signing_cert_path: match mdq_signing_cert_path {
                    Some(p) => p,
                    None => "certs/incommon-mdq.pem".to_owned(),
                },
                host: match host {
                    Some(h) => h,
                    None => "0.0.0.0".to_owned(),
                },
                port,
            },
        )
    }
}

} // verus!
