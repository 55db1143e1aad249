//! The closed set of verification outcomes and how each is answered.
use vstd::prelude::*;
use vstd::string::*;

verus! {

/// The single result of one verification attempt.
#[derive(Debug, Clone)]
pub enum Outcome {
    /// The request carried no `ip` query parameter.
    MissingQueryString,
    /// The `ip` query parameter is not a dotted-quad IPv4 address.
    InvalidQueryString,
    /// The resolver could not be reached or answered with a failure status.
    UpstreamResolutionFailed,
    /// The PTR record names a host under an authorized crawler domain.
    VerifiedBot { hostname: String },
    /// The PTR record names some other host.
    UnverifiedBot { hostname: String },
    /// The resolver found no PTR record.
    NoPtrRecord,
}

/// The resolver answered with a body that is not JSON.
#[derive(Debug, Clone, Copy, PartialEq, Eq)]
pub enum LookupError {
    MalformedAnswer,
}

/// An outcome as an HTTP answer: status, result tag and reason.
#[derive(Debug, Clone)]
pub struct Rendered {
    pub status: u16,
    pub result: String,
    pub reason: String,
}

pub open spec fn status_of(o: Outcome) -> u16 {
    match o {
        Outcome::MissingQueryString => 400,
        Outcome::InvalidQueryString => 400,
        Outcome::UpstreamResolutionFailed => 502,
        _ => 200,
    }
}

pub open spec fn tag_of(o: Outcome) -> Seq<char> {
    match o {
        Outcome::VerifiedBot { .. } => "yes"@,
        Outcome::UnverifiedBot { .. } => "no"@,
        Outcome::NoPtrRecord => "no"@,
        _ => "error"@,
    }
}

pub open spec fn reason_of(o: Outcome) -> Seq<char> {
    match o {
        Outcome::MissingQueryString => "Missing query string ?ip=a.b.c.d"@,
        Outcome::InvalidQueryString => "Invalid query string ?ip=a.b.c.d"@,
        Outcome::UpstreamResolutionFailed => "Google DNS failed"@,
        Outcome::VerifiedBot { hostname } => "Reverse lookup is "@ + hostname@,
        Outcome::UnverifiedBot { hostname } => "Reverse lookup is "@ + hostname@
            + ", not an *.google.com or *.googlebot.com domain."@,
        Outcome::NoPtrRecord => "No PTR Answer for this reverse lookup."@,
    }
}

/// What `Rendered` holds for the outcome `o`.
pub open spec fn renders_as(r: Rendered, o: Outcome) -> bool {
    &&& r.status == status_of(o)
    &&& r.result@ == tag_of(o)
    &&& r.reason@ == reason_of(o)
}

/// A lowercase hexadecimal digit.
pub open spec fn hex_digit(n: nat) -> char {
    seq!['0', '1', '2', '3', '4', '5', '6', '7', '8', '9', 'a', 'b', 'c', 'd', 'e', 'f'][n as int]
}

/// How one character is written inside a JSON string.
pub open spec fn json_escape(c: char) -> Seq<char> {
    if c == '"' {
        seq!['\\', '"']
    } else if c == '\\' {
        seq!['\\', '\\']
    } else if c == '\u{8}' {
        seq!['\\', 'b']
    } else if c == '\t' {
        seq!['\\', 't']
    } else if c == '\n' {
        seq!['\\', 'n']
    } else if c == '\u{c}' {
        seq!['\\', 'f']
    } else if c == '\r' {
        seq!['\\', 'r']
    } else if (c as u32) < 0x20 {
        seq!['\\', 'u', '0', '0', hex_digit((c as u32 / 16) as nat), hex_digit((c as u32 % 16) as nat)]
    } else {
        seq![c]
    }
}

/// The characters of `s`, each written as inside a JSON string.
pub open spec fn json_escaped(s: Seq<char>) -> Seq<char>
    decreases s.len(),
{
    if s.len() == 0 {
        Seq::empty()
    } else {
        json_escaped(s.drop_last()) + json_escape(s.last())
    }
}

/// The JSON text of a string value: quoted, with `"`, `\` and control
/// characters escaped.
pub open spec fn json_quoted(s: Seq<char>) -> Seq<char> {
    seq!['"'] + json_escaped(s) + seq!['"']
}

/// Relies on serde_json's `Display` for `Value::String`: the compact JSON
/// spelling of the string, escaped as serde_json's serializer does.
#[verifier::external_body]
fn json_string(s: &str) -> (r: String)
    ensures
        r@ == json_quoted(s@),
{
    serde_json::Value::String(s.to_string()).to_string()
}

/// The JSON body `{"result":...,"reason":...}` for a rendered outcome.
pub open spec fn body_of(result: Seq<char>, reason: Seq<char>) -> Seq<char> {
    "{\"result\":"@ + json_quoted(result) + ",\"reason\":"@ + json_quoted(reason) + "}"@
}

impl Outcome {
    /// The status, result tag and reason that answer this outcome.
    pub fn render(self) -> (r: Rendered)
        ensures
            renders_as(r, self),
    {
        match self {
            Outcome::MissingQueryString => Rendered {
                status: 400,
                result: String::from_str("error"),
                reason: String::from_str("Missing query string ?ip=a.b.c.d"),
            },
            Outcome::InvalidQueryString => Rendered {
                status: 400,
                result: String::from_str("error"),
                reason: String::from_str("Invalid query string ?ip=a.b.c.d"),
            },
            Outcome::UpstreamResolutionFailed => Rendered {
                status: 502,
                result: String::from_str("error"),
                reason: String::from_str("Google DNS failed"),
            },
            Outcome::VerifiedBot { hostname } => {
                let mut reason = String::from_str("Reverse lookup is ");
                reason.append(hostname.as_str());
                Rendered { status: 200, result: String::from_str("yes"), reason }
            },
            Outcome::UnverifiedBot { hostname } => {
                let mut reason = String::from_str("Reverse lookup is ");
                reason.append(hostname.as_str());
                reason.append(", not an *.google.com or *.googlebot.com domain.");
                Rendered { status: 200, result: String::from_str("no"), reason }
            },
            Outcome::NoPtrRecord => Rendered {
                status: 200,
                result: String::from_str("no"),
                reason: String::from_str("No PTR Answer for this reverse lookup."),
            },
        }
    }
}

impl Rendered {
    /// The JSON body of the answer: `{"result":<tag>,"reason":<reason>}`.
    pub fn body(&self) -> (r: String)
        ensures
            r@ == body_of(self.result@, self.reason@),
    {
        let mut s = String::from_str("{\"result\":");
        let tag = json_string(self.result.as_str());
        s.append(tag.as_str());
        s.append(",\"reason\":");
        let reason = json_string(self.reason.as_str());
        s.append(reason.as_str());
        s.append("}");
        s
    }
}

impl LookupError {
    /// The plain-text body answered with status 400 for this failure.
    pub fn message(&self) -> (r: String)
        ensures
            r@ == "ERROR: resolver answer is not valid JSON"@,
    {
        String::from_str("ERROR: resolver answer is not valid JSON")
    }
}

} // verus!
