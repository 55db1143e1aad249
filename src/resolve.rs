//! Interpreting the resolver's answer and classifying the PTR hostname.
use vstd::prelude::*;
use vstd::string::*;
use crate::address::{dotted, lemma_dotted_injective, parse_address, reverse_name};
use crate::outcome::{body_of, reason_of, status_of, tag_of, LookupError, Outcome};

verus! {

#[verifier::external_type_specification]
#[verifier::external_body]
pub struct ExJsonValue(serde_json::Value);

#[verifier::external_type_specification]
#[verifier::external_body]
pub struct ExJsonError(serde_json::Error);

/// The DNS-over-HTTPS endpoint that PTR queries go to.
pub const RESOLVE_ENDPOINT: &'static str = "https://dns.google.com/resolve";

/// `h` ends with the characters of `suffix`.
pub open spec fn ends_with(h: Seq<char>, suffix: Seq<char>) -> bool {
    suffix.len() <= h.len() && h.subrange(h.len() - suffix.len(), h.len() as int) == suffix
}

/// Hosts under the authorized crawler domains, spelled with the trailing dot.
pub open spec fn is_crawler_host(h: Seq<char>) -> bool {
    ends_with(h, ".google.com."@) || ends_with(h, ".googlebot.com."@)
}

/// The outcome for the hostname of the first PTR answer, if there is one.
pub open spec fn ptr_outcome(ptr: Option<String>) -> Outcome {
    match ptr {
        None => Outcome::NoPtrRecord,
        Some(h) => if is_crawler_host(h@) {
            Outcome::VerifiedBot { hostname: h }
        } else {
            Outcome::UnverifiedBot { hostname: h }
        },
    }
}

/// `o` is the outcome for the first answer's hostname `ptr`, if there is one.
pub open spec fn outcome_for(o: Outcome, ptr: Option<Seq<char>>) -> bool {
    match ptr {
        None => o is NoPtrRecord,
        Some(h) => if is_crawler_host(h) {
            o matches Outcome::VerifiedBot { hostname } && hostname@ == h
        } else {
            o matches Outcome::UnverifiedBot { hostname } && hostname@ == h
        },
    }
}

/// A successful HTTP status (2xx).
pub open spec fn is_success_status(status: u16) -> bool {
    200 <= status <= 299
}

/// Whether serde_json reads the text as one JSON value (nested at most 128
/// levels deep).
pub uninterp spec fn json_accepts(text: Seq<char>) -> bool;

/// The string at `[list][0][field]` of the JSON value that the text holds;
/// `None` where that place is missing or holds no string.
pub uninterp spec fn json_first_entry_field(
    text: Seq<char>,
    list: Seq<char>,
    field: Seq<char>,
) -> Option<Seq<char>>;

/// Relies on serde_json::from_str, on indexing a serde_json::Value (a missing
/// key or index, or the wrong kind of value, gives `Null`) and on
/// Value::as_str: the string `field` of the first entry of the array `list`.
/// Both results depend on the text alone.
#[verifier::external_body]
fn first_entry_field(text: &str, list: &str, field: &str) -> (r: Result<
    Option<String>,
    serde_json::Error,
>)
    ensures
        r is Ok == json_accepts(text@),
        r matches Ok(p) ==> hostname_view(p) == json_first_entry_field(text@, list@, field@),
{
    match serde_json::from_str::<serde_json::Value>(text) {
        Err(e) => Err(e),
        Ok(v) => Ok(v[list][0][field].as_str().map(String::from)),
    }
}

/// Whether `h` ends with `suffix`.
pub fn has_suffix(h: &str, suffix: &str) -> (r: bool)
    ensures
        r == ends_with(h@, suffix@),
{
    let n = h.unicode_len();
    let m = suffix.unicode_len();
    if m > n {
        return false;
    }
    let start = n - m;
    let mut i: usize = 0;
    while i < m
        invariant
            n == h@.len(),
            m == suffix@.len(),
            start == n - m,
            i <= m,
            forall|k: int| 0 <= k < i ==> h@[start + k] == suffix@[k],
        decreases m - i,
    {
        if h.get_char(start + i) != suffix.get_char(i) {
            assert(h@.subrange(start as int, n as int)[i as int] != suffix@[i as int]);
            return false;
        }
        i = i + 1;
    }
    assert(h@.subrange(start as int, n as int) =~= suffix@);
    true
}

/// Whether `h` names a host under `.google.com.` or `.googlebot.com.`: an
/// exact, case-sensitive suffix match, so `evilgoogle.com.` is not one.
pub fn is_crawler_hostname(h: &str) -> (r: bool)
    ensures
        r == is_crawler_host(h@),
{
    has_suffix(h, ".google.com.") || has_suffix(h, ".googlebot.com.")
}

/// Classifies the hostname of the first PTR answer, if there is one.
pub fn classify_ptr(ptr: Option<String>) -> (r: Outcome)
    ensures
        r == ptr_outcome(ptr),
{
    match ptr {
        None => Outcome::NoPtrRecord,
        Some(h) => if is_crawler_hostname(h.as_str()) {
            Outcome::VerifiedBot { hostname: h }
        } else {
            Outcome::UnverifiedBot { hostname: h }
        },
    }
}

/// Whether an HTTP status is a success (2xx).
pub fn is_success(status: u16) -> (r: bool)
    ensures
        r == is_success_status(status),
{
    200 <= status && status <= 299
}

/// The hostname of the first answer of a resolver reply body: the string
/// `data` of the first entry of the `Answer` array; `None` where there is no
/// `Answer` array, it is empty, or its first entry has no string `data`; an
/// error where the body is not JSON.
pub fn first_answer_hostname(body: &str) -> (r: Result<Option<String>, LookupError>)
    ensures
        r is Ok == json_accepts(body@),
        r matches Ok(p) ==> hostname_view(p) == json_first_entry_field(
            body@,
            "Answer"@,
            "data"@,
        ),
{
    match first_entry_field(body, "Answer", "data") {
        Err(_) => Err(LookupError::MalformedAnswer),
        Ok(p) => Ok(p),
    }
}

/// Classifies one lookup: `None` where the resolver could not be reached,
/// else its status and body.
pub fn classify_reply(reply: Option<(u16, &str)>) -> (r: Result<Outcome, LookupError>)
    ensures
        match reply {
            None => r == Ok::<Outcome, LookupError>(Outcome::UpstreamResolutionFailed),
            Some((status, body)) => if !is_success_status(status) {
                r == Ok::<Outcome, LookupError>(Outcome::UpstreamResolutionFailed)
            } else if !json_accepts(body@) {
                r == Err::<Outcome, LookupError>(LookupError::MalformedAnswer)
            } else {
                r matches Ok(o) && outcome_for(
                    o,
                    json_first_entry_field(body@, "Answer"@, "data"@),
                )
            },
        },
{
    match reply {
        None => Ok(Outcome::UpstreamResolutionFailed),
        Some((status, body)) => {
            if !is_success(status) {
                return Ok(Outcome::UpstreamResolutionFailed);
            }
            match first_answer_hostname(body) {
                Err(e) => Err(e),
                Ok(ptr) => Ok(classify_ptr(ptr)),
            }
        },
    }
}

/// The outcome decided from the `ip` parameter alone, before any lookup:
/// missing, or not a dotted-quad address.
pub open spec fn early_outcome(ip: Option<Seq<char>>) -> Option<Outcome> {
    match ip {
        None => Some(Outcome::MissingQueryString),
        Some(s) => if exists|a: u8, b: u8, c: u8, d: u8| #[trigger] dotted(a, b, c, d) == s {
            None
        } else {
            Some(Outcome::InvalidQueryString)
        },
    }
}

pub open spec fn param_view(ip: Option<&str>) -> Option<Seq<char>> {
    match ip {
        Some(s) => Some(s@),
        None => None,
    }
}

/// What to do with a request: answer at once, or query the given URL.
#[derive(Debug, Clone)]
pub enum Plan {
    Respond(Outcome),
    Resolve(String),
}

/// Checks the `ip` query parameter and, for a valid address, builds the PTR
/// query URL on `endpoint`.
pub fn plan_lookup(ip: Option<&str>, endpoint: &str) -> (r: Plan)
    ensures
        early_outcome(param_view(ip)) matches Some(o) ==> r == Plan::Respond(o),
        forall|a: u8, b: u8, c: u8, d: u8|
            ip matches Some(s) && #[trigger] dotted(a, b, c, d) == s@ ==> (r matches Plan::Resolve(
                url,
            ) && url@ == endpoint@ + "?name="@ + reverse_name(a, b, c, d) + "&type=PTR"@),
{
    match ip {
        None => Plan::Respond(Outcome::MissingQueryString),
        Some(s) => match parse_address(s) {
            None => {
                proof {
                    assert(!exists|a: u8, b: u8, c: u8, d: u8| #[trigger] dotted(a, b, c, d) == s@);
                }
                Plan::Respond(Outcome::InvalidQueryString)
            },
            Some(addr) => {
                let url = addr.lookup_url(endpoint);
                proof {
                    assert forall|a: u8, b: u8, c: u8, d: u8|
                        #[trigger] dotted(a, b, c, d) == s@ implies url@ == endpoint@ + "?name="@
                        + reverse_name(a, b, c, d) + "&type=PTR"@ by {
                        lemma_dotted_injective(
                            a,
                            b,
                            c,
                            d,
                            addr.octets@[0],
                            addr.octets@[1],
                            addr.octets@[2],
                            addr.octets@[3],
                        );
                    }
                }
                Plan::Resolve(url)
            },
        },
    }
}

/// Every `ip` value that is not a dotted-quad address is answered with
/// `InvalidQueryString`: status 400, result `error`.
pub proof fn lemma_unparsable_ip_is_invalid(s: Seq<char>)
    requires
        forall|a: u8, b: u8, c: u8, d: u8| #[trigger] dotted(a, b, c, d) != s,
    ensures
        early_outcome(Some(s)) == Some(Outcome::InvalidQueryString),
        status_of(Outcome::InvalidQueryString) == 400,
        tag_of(Outcome::InvalidQueryString) == "error"@,
{
}

/// A request without an `ip` parameter is answered with
/// `MissingQueryString`: status 400, result `error`; nothing else of the
/// request is read.
pub proof fn lemma_absent_ip_is_missing()
    ensures
        early_outcome(None) == Some(Outcome::MissingQueryString),
        status_of(Outcome::MissingQueryString) == 400,
        tag_of(Outcome::MissingQueryString) == "error"@,
{
}

/// Every valid address leads to a lookup, never to an early answer.
pub proof fn lemma_dotted_ip_is_looked_up(a: u8, b: u8, c: u8, d: u8)
    ensures
        early_outcome(Some(dotted(a, b, c, d))) is None,
{
}

/// A hostname is verified exactly when it ends with `.google.com.` or with
/// `.googlebot.com.`; otherwise it is unverified.
pub proof fn lemma_verified_iff_suffix(h: String)
    ensures
        ptr_outcome(Some(h)) is VerifiedBot <==> (ends_with(h@, ".google.com."@) || ends_with(
            h@,
            ".googlebot.com."@,
        )),
        ptr_outcome(Some(h)) is VerifiedBot || ptr_outcome(Some(h)) is UnverifiedBot,
{
}

/// Two outcomes that follow from the same first answer have the same status,
/// tag, reason and JSON body: identical replies get identical responses, as no
/// state is kept between lookups.
pub proof fn lemma_same_answer_same_response(o1: Outcome, o2: Outcome, ptr: Option<Seq<char>>)
    requires
        outcome_for(o1, ptr),
        outcome_for(o2, ptr),
    ensures
        status_of(o1) == status_of(o2),
        tag_of(o1) == tag_of(o2),
        reason_of(o1) == reason_of(o2),
        body_of(tag_of(o1), reason_of(o1)) == body_of(tag_of(o2), reason_of(o2)),
{
}

/// Classifying a hostname gives the outcome that follows from it.
pub proof fn lemma_ptr_outcome_follows(ptr: Option<String>)
    ensures
        outcome_for(ptr_outcome(ptr), hostname_view(ptr)),
{
}

pub open spec fn hostname_view(p: Option<String>) -> Option<Seq<char>> {
    match p {
        Some(s) => Some(s@),
        None => None,
    }
}

} // verus!
