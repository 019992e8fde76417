use vstd::prelude::*;

use whois_rust::{WhoIsError, WhoIsLookupOptions};

use crate::cache::entry::{CacheEntry, Outcome};

verus! {

#[verifier::external_type_specification]
#[verifier::external_body]
pub struct ExWhoIsLookupOptions(WhoIsLookupOptions);

#[verifier::external_type_specification]
#[verifier::external_body]
pub struct ExWhoIsError(WhoIsError);

/// Whether a text names a host that can be looked up: an IP address or a
/// domain name, without a port.
pub uninterp spec fn is_lookup_target(s: Seq<char>) -> bool;

/// Relies on `WhoIsLookupOptions::from_string`, which accepts the text
/// exactly when it validates as a host without a port; the outcome depends
/// on the text alone.
#[verifier::external_body]
fn parse_options(key: String) -> (r: Result<WhoIsLookupOptions, WhoIsError>)
    ensures
        r is Ok <==> is_lookup_target(key@),
{
    WhoIsLookupOptions::from_string(key)
}

pub open spec fn options_failed_prefix() -> Seq<char> {
    "Lookup options failed. Reason: "@
}

pub open spec fn lookup_failed_prefix() -> Seq<char> {
    "WHOIS lookup failed. Reason: "@
}

/// The failure entry for a key that could not be turned into lookup options.
pub fn options_failure(reason: &str, expires: u64) -> (r: CacheEntry)
    ensures
        r.value@ == options_failed_prefix() + reason@,
        r.expires == expires,
        r.status == Outcome::Failure,
{
    let mut msg = String::from_str("Lookup options failed. Reason: ");
    msg.append(reason);
    CacheEntry::bad_request(msg, expires)
}

/// The failure entry for a lookup that the directory service did not answer.
pub fn lookup_failure(reason: &str, expires: u64) -> (r: CacheEntry)
    ensures
        r.value@ == lookup_failed_prefix() + reason@,
        r.expires == expires,
        r.status == Outcome::Failure,
{
    let mut msg = String::from_str("WHOIS lookup failed. Reason: ");
    msg.append(reason);
    CacheEntry::bad_request(msg, expires)
}

/// The first half of a lookup: the options for `key`, or, where `key`
/// names no host, the failure entry to cache in place of an answer (no
/// lookup is made then).
pub fn prepare_lookup(key: String, expires: u64) -> (r: Result<WhoIsLookupOptions, CacheEntry>)
    ensures
        r is Ok <==> is_lookup_target(key@),
        r matches Err(e) ==> e.status == Outcome::Failure && e.expires == expires
            && options_failed_prefix().is_prefix_of(e.value@),
{
    match parse_options(key) {
        Ok(options) => Ok(options),
        Err(err) => {
            let reason = err.to_string();
            let e = options_failure(reason.as_str(), expires);
            proof {
                assert(options_failed_prefix().is_prefix_of(options_failed_prefix() + reason@)) by {
                    let p = options_failed_prefix();
                    assert((p + reason@).subrange(0, p.len() as int) =~= p);
                }
            }
            Err(e)
        },
    }
}

/// The second half of a lookup: the entry to cache for what the directory
/// service answered. An answer is cached as a success carrying its text,
/// an error as a failure carrying its description.
pub fn finish_lookup(answer: Result<String, WhoIsError>, expires: u64) -> (r: CacheEntry)
    ensures
        r.expires == expires,
        answer is Ok <==> r.status == Outcome::Success,
        answer matches Ok(text) ==> r.value@ == text@,
        answer is Err ==> lookup_failed_prefix().is_prefix_of(r.value@),
{
    match answer {
        Ok(text) => CacheEntry::ok(text, expires),
        Err(err) => {
            let reason = err.to_string();
            let e = lookup_failure(reason.as_str(), expires);
            proof {
                let p = lookup_failed_prefix();
                assert((p + reason@).subrange(0, p.len() as int) =~= p);
            }
            e
        },
    }
}

} // verus!
