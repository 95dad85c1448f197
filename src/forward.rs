//! Building upstream requests and relaying responses: header filtering,
//! URL composition and the classification of upstream statuses.

use vstd::prelude::*;
use vstd::string::*;
use crate::types::{AppError, NfProfile};

verus! {

/// What `str::to_lowercase` makes of a sequence of characters.
pub uninterp spec fn lower_of(s: Seq<char>) -> Seq<char>;

/// Relies on `str::to_lowercase`: the result depends on the characters
/// alone, and an empty string stays empty.
#[verifier::external_body]
fn to_lower(s: &str) -> (r: String)
    ensures
        r@ == lower_of(s@),
        s@.len() == 0 ==> r@.len() == 0,
{
    s.to_lowercase()
}

/// The hop-by-hop header names, in lower case.
pub open spec fn is_hop_by_hop_name(s: Seq<char>) -> bool {
    ||| s == "connection"@
    ||| s == "keep-alive"@
    ||| s == "proxy-authenticate"@
    ||| s == "proxy-authorization"@
    ||| s == "te"@
    ||| s == "trailer"@
    ||| s == "transfer-encoding"@
    ||| s == "upgrade"@
}

/// Whether two strings hold the same characters.
fn same_chars(a: &str, b: &str) -> (r: bool)
    ensures
        r == (a@ == b@),
{
    let n = a.unicode_len();
    if n != b.unicode_len() {
        return false;
    }
    let mut i: usize = 0;
    while i < n
        invariant
            n == a@.len(),
            n == b@.len(),
            i <= n,
            a@.subrange(0, i as int) == b@.subrange(0, i as int),
        decreases n - i,
    {
        if a.get_char(i) != b.get_char(i) {
            return false;
        }
        proof {
            assert(a@.subrange(0, i + 1) =~= a@.subrange(0, i as int).push(a@[i as int]));
            assert(b@.subrange(0, i + 1) =~= b@.subrange(0, i as int).push(b@[i as int]));
        }
        i = i + 1;
    }
    proof {
        assert(a@ =~= a@.subrange(0, n as int));
        assert(b@ =~= b@.subrange(0, n as int));
    }
    true
}

/// Whether a header name, already in lower case, is hop-by-hop.
pub fn is_hop_by_hop_lowercase(name: &str) -> (r: bool)
    ensures
        r == is_hop_by_hop_name(name@),
{
    same_chars(name, "connection") || same_chars(name, "keep-alive") || same_chars(name, "proxy-authenticate")
        || same_chars(name, "proxy-authorization") || same_chars(name, "te") || same_chars(name, "trailer")
        || same_chars(name, "transfer-encoding") || same_chars(name, "upgrade")
}

/// Whether a header is hop-by-hop, whatever its case.
pub fn is_hop_by_hop_header(name: &str) -> (r: bool)
    ensures
        r == is_hop_by_hop_name(lower_of(name@)),
{
    let lowered = to_lower(name);
    is_hop_by_hop_lowercase(lowered.as_str())
}

/// Positions, in order, of the headers among the first `n` that are not
/// hop-by-hop.
pub open spec fn kept_positions(hs: Seq<(String, Vec<u8>)>, n: int) -> Seq<int>
    decreases n,
{
    if n <= 0 {
        Seq::empty()
    } else {
        let p = kept_positions(hs, n - 1);
        if is_hop_by_hop_name(lower_of(hs[n - 1].0@)) {
            p
        } else {
            p.push(n - 1)
        }
    }
}

/// A copy of a byte string.
fn copy_bytes(v: &Vec<u8>) -> (r: Vec<u8>)
    ensures
        r@ == v@,
{
    let mut r: Vec<u8> = Vec::new();
    let mut i: usize = 0;
    while i < v.len()
        invariant
            i <= v@.len(),
            r@ == v@.subrange(0, i as int),
        decreases v@.len() - i,
    {
        r.push(v[i]);
        i = i + 1;
        proof {
            assert(r@ =~= v@.subrange(0, i as int));
        }
    }
    proof {
        assert(v@.subrange(0, v@.len() as int) =~= v@);
    }
    r
}

/// The headers to pass on: all but the hop-by-hop ones, in order, names and
/// values unchanged.
pub fn filter_headers(headers: &Vec<(String, Vec<u8>)>) -> (r: Vec<(String, Vec<u8>)>)
    ensures
        r@.len() == kept_positions(headers@, headers@.len() as int).len(),
        forall|j: int| 0 <= j < r@.len() ==> {
            let k = #[trigger] kept_positions(headers@, headers@.len() as int)[j];
            r@[j].0@ == headers@[k].0@ && r@[j].1@ == headers@[k].1@
        },
        forall|j: int| 0 <= j < r@.len() ==> !is_hop_by_hop_name(lower_of(#[trigger] r@[j].0@)),
{
    let mut r: Vec<(String, Vec<u8>)> = Vec::new();
    let mut i: usize = 0;
    while i < headers.len()
        invariant
            i <= headers@.len(),
            r@.len() == kept_positions(headers@, i as int).len(),
            forall|j: int| 0 <= j < r@.len() ==> {
                let k = #[trigger] kept_positions(headers@, i as int)[j];
                &&& 0 <= k < i
                &&& r@[j].0@ == headers@[k].0@
                &&& r@[j].1@ == headers@[k].1@
                &&& !is_hop_by_hop_name(lower_of(headers@[k].0@))
            },
        decreases headers@.len() - i,
    {
        let name = &headers[i].0;
        if !is_hop_by_hop_header(name.as_str()) {
            let value = copy_bytes(&headers[i].1);
            r.push((name.clone(), value));
        }
        i = i + 1;
    }
    proof {
        assert forall|j: int| 0 <= j < r@.len() implies !is_hop_by_hop_name(lower_of(#[trigger] r@[j].0@)) by {
            let k = kept_positions(headers@, headers@.len() as int)[j];
            assert(r@[j].0@ == headers@[k].0@);
        }
    }
    r
}

/// The base URI of a producer: `http://` and its FQDN, or else its first
/// IPv4 address.
pub open spec fn producer_host(p: NfProfile) -> Option<Seq<char>> {
    match p.fqdn {
        Some(f) => Some(f@),
        None => if p.ipv4_addresses@.len() > 0 {
            Some(p.ipv4_addresses@[0]@)
        } else {
            None
        },
    }
}

/// The base URI to reach a producer; an internal error when its profile
/// gives no address.
pub fn build_producer_uri(profile: &NfProfile) -> (r: Result<String, AppError>)
    ensures
        producer_host(*profile) matches Some(h) ==> (r matches Ok(u) && u@ == "http://"@ + h),
        producer_host(*profile) is None ==> (r matches Err(AppError::InternalError(m)) && m@
            == "No valid address found for NF instance "@ + profile.nf_instance_id@),
{
    let mut uri = String::from_str("http://");
    match &profile.fqdn {
        Some(f) => {
            uri.append(f.as_str());
            Ok(uri)
        },
        None => {
            if profile.ipv4_addresses.len() > 0 {
                uri.append(profile.ipv4_addresses[0].as_str());
                Ok(uri)
            } else {
                let mut m = String::from_str("No valid address found for NF instance ");
                m.append(profile.nf_instance_id.as_str());
                Err(AppError::InternalError(m))
            }
        },
    }
}

/// The upstream URL: the producer's base URI, the request path, and the
/// query after a `?` when there is one.
pub fn target_url(producer_uri: &str, path: &str, query: Option<&str>) -> (r: String)
    ensures
        query matches Some(q) ==> r@ == producer_uri@ + path@ + "?"@ + q@,
        query is None ==> r@ == producer_uri@ + path@,
{
    let mut url = String::from_str(producer_uri);
    url.append(path);
    match query {
        Some(q) => {
            url.append("?");
            url.append(q);
        },
        None => {},
    }
    url
}

/// Whether an upstream status calls for another attempt: any server error.
pub fn is_retryable_status(status: u16) -> (r: bool)
    ensures
        r == (500 <= status <= 599),
{
    500 <= status && status <= 599
}

} // verus!
