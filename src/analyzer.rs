//! The response analyzer: classifies the bytes that an open port sent into a
//! service name and a banner. It is a pure function of the bytes and the port.
use vstd::prelude::*;
use vstd::utf8::{decode_utf8, valid_utf8};
use crate::services::{get_service_name_from_port, service_for_port};
use crate::text::{
    decimal, first_line, first_line_of, hex_dump, push_decimal, to_hex_string, trim, trim_text,
};

verus! {

/// The verdict on an open port: which service listens there, and a
/// human-readable banner.
#[derive(Debug, Clone)]
pub struct Fingerprint {
    pub service_name: String,
    pub banner: String,
}

impl View for Fingerprint {
    /// Service name, then banner.
    type V = (Seq<char>, Seq<char>);

    open spec fn view(&self) -> (Seq<char>, Seq<char>) {
        (self.service_name@, self.banner@)
    }
}

/// What the `regex` crate reports of a pattern on a text: `None` when the
/// pattern is not a valid expression or does not match; otherwise the text of
/// the first capture group of the leftmost match, empty where the group took
/// no part in it.
pub uninterp spec fn regex_group(pattern: Seq<char>, text: Seq<char>) -> Option<Seq<char>>;

/// Relies on `regex::Regex::new` to compile the pattern and on
/// `regex::Regex::captures` for the leftmost match and its first group.
#[verifier::external_body]
fn first_capture(pattern: &str, text: &str) -> (r: Option<String>)
    ensures
        match r {
            Some(g) => regex_group(pattern@, text@) == Some(g@),
            None => regex_group(pattern@, text@) is None,
        },
{
    match regex::Regex::new(pattern) {
        Ok(re) => re.captures(text).map(
            |c| c.get(1).map_or(String::new(), |m| m.as_str().to_string()),
        ),
        Err(_) => None,
    }
}

/// Relies on `std::str::from_utf8`: it accepts exactly the well-formed UTF-8
/// byte strings, and the text is what they encode.
#[verifier::external_body]
fn utf8_text(bytes: &[u8]) -> (r: Option<&str>)
    ensures
        r is Some <==> valid_utf8(bytes@),
        r is Some ==> r->0@ == decode_utf8(bytes@),
{
    std::str::from_utf8(bytes).ok()
}

/// Number of entries of the matcher table.
pub const MATCHER_COUNT: usize = 5;

/// The patterns of the matcher table, in priority order.
pub open spec fn matcher_pattern(i: int) -> Seq<char> {
    if i == 0 {
        "(?i)^SSH-2.0-([^\\s]+)"@
    } else if i == 1 {
        "Server: ([^\\r\\n]+)"@
    } else if i == 2 {
        "HTTP/\\d\\.\\d"@
    } else if i == 3 {
        "(?i)^220 .*FTP"@
    } else {
        "(?i)^220 .*SMTP"@
    }
}

/// The service that each entry of the matcher table stands for.
pub open spec fn matcher_service(i: int) -> Seq<char> {
    if i == 0 {
        "ssh"@
    } else if i <= 2 {
        "http"@
    } else if i == 3 {
        "ftp"@
    } else {
        "smtp"@
    }
}

/// Entry `i` of the matcher table: its pattern and its service.
fn matcher(i: usize) -> (r: (&'static str, &'static str))
    requires
        i < MATCHER_COUNT,
    ensures
        r.0@ == matcher_pattern(i as int),
        r.1@ == matcher_service(i as int),
{
    if i == 0 {
        ("(?i)^SSH-2.0-([^\\s]+)", "ssh")
    } else if i == 1 {
        ("Server: ([^\\r\\n]+)", "http")
    } else if i == 2 {
        ("HTTP/\\d\\.\\d", "http")
    } else if i == 3 {
        ("(?i)^220 .*FTP", "ftp")
    } else {
        ("(?i)^220 .*SMTP", "smtp")
    }
}

/// The first entry at index `i` or later whose pattern matches the text.
pub open spec fn first_match_from(text: Seq<char>, i: int) -> Option<int>
    decreases MATCHER_COUNT - i,
{
    if i < 0 || i >= MATCHER_COUNT {
        None
    } else if regex_group(matcher_pattern(i), text) is Some {
        Some(i)
    } else {
        first_match_from(text, i + 1)
    }
}

/// The fingerprint of a text given which entry of the matcher table matched
/// first and what it captured: that entry names the service, and the trimmed
/// capture is the banner, or the first line of the text where the capture is
/// empty; with no match, the port's default service and the first line of
/// the trimmed text.
pub open spec fn fingerprint_for_match(
    text: Seq<char>,
    port: u16,
    matched: Option<(int, Seq<char>)>,
) -> (Seq<char>, Seq<char>) {
    match matched {
        Some((i, group)) => {
            let info = trim(group);
            (matcher_service(i), if info.len() == 0 {
                first_line(text)
            } else {
                info
            })
        },
        None => (service_for_port(port), first_line(trim(text))),
    }
}

/// The first entry of the matcher table that matches the text, with its
/// capture.
pub open spec fn first_match(text: Seq<char>) -> Option<(int, Seq<char>)> {
    match first_match_from(text, 0) {
        Some(i) => Some((i, regex_group(matcher_pattern(i), text)->0)),
        None => None,
    }
}

/// The fingerprint of a decoded text.
pub open spec fn text_fingerprint(text: Seq<char>, port: u16) -> (Seq<char>, Seq<char>) {
    fingerprint_for_match(text, port, first_match(text))
}

/// Builds the fingerprint of a text from the outcome of the matcher table:
/// `matched` holds the index of the first entry that matched and its
/// capture, or `None` where no entry matched.
pub fn fingerprint_from_match(banner: &str, port: u16, matched: Option<(usize, &str)>) -> (r:
    Fingerprint)
    requires
        matched is Some ==> (matched->0).0 < MATCHER_COUNT,
    ensures
        r@ == fingerprint_for_match(
            banner@,
            port,
            match matched {
                Some((i, g)) => Some((i as int, g@)),
                None => None,
            },
        ),
{
    match matched {
        Some((i, group)) => {
            let (_, service) = matcher(i);
            let info = trim_text(group);
            let shown = if info.is_empty() {
                first_line_of(banner)
            } else {
                info
            };
            Fingerprint { service_name: String::from_str(service), banner: String::from_str(shown) }
        },
        None => Fingerprint {
            service_name: String::from_str(get_service_name_from_port(port)),
            banner: String::from_str(first_line_of(trim_text(banner))),
        },
    }
}

/// Classifies a decoded text response.
pub fn analyze_text_banner(banner: &str, port: u16) -> (r: Fingerprint)
    ensures
        r@ == text_fingerprint(banner@, port),
{
    let mut i: usize = 0;
    while i < MATCHER_COUNT
        invariant
            i <= MATCHER_COUNT,
            first_match_from(banner@, 0) == first_match_from(banner@, i as int),
        decreases MATCHER_COUNT - i,
    {
        let (pattern, _) = matcher(i);
        if let Some(group) = first_capture(pattern, banner) {
            return fingerprint_from_match(banner, port, Some((i, group.as_str())));
        }
        i = i + 1;
    }
    fingerprint_from_match(banner, port, None)
}

/// Whether the bytes hold the SMB marker `0xFF 'S' 'M' 'B'` somewhere.
pub open spec fn has_smb_marker(b: Seq<u8>) -> bool {
    exists|i: int|
        0 <= i && i + 4 <= b.len() && #[trigger] b[i] == 0xFF && b[i + 1] == 0x53 && b[i + 2]
            == 0x4D && b[i + 3] == 0x42
}

/// An SMB reply on an SMB port: it starts with two zero bytes and holds the
/// SMB marker.
pub open spec fn is_smb_response(b: Seq<u8>, port: u16) -> bool {
    (port == 139 || port == 445) && b.len() >= 2 && b[0] == 0 && b[1] == 0 && has_smb_marker(b)
}

/// A banner that gives the byte count after a label, then a hex dump.
pub open spec fn sized_banner(label: Seq<char>, b: Seq<u8>) -> Seq<char> {
    label + decimal(b.len()) + " bytes] "@ + hex_dump(b)
}

/// The fingerprint of raw response bytes received on a port.
pub open spec fn response_fingerprint(b: Seq<u8>, port: u16) -> (Seq<char>, Seq<char>) {
    if is_smb_response(b, port) {
        ("smb"@, sized_banner("[SMB Response: "@, b))
    } else if !valid_utf8(b) {
        (service_for_port(port), sized_banner("[Binary data: "@, b))
    } else {
        text_fingerprint(decode_utf8(b), port)
    }
}

fn smb_marker_present(b: &[u8]) -> (r: bool)
    ensures
        r == has_smb_marker(b@),
{
    let n = b.len();
    if n < 4 {
        return false;
    }
    let mut i: usize = 0;
    while i <= n - 4
        invariant
            n == b@.len(),
            n >= 4,
            i <= n - 3,
            forall|j: int|
                0 <= j < i ==> !(#[trigger] b@[j] == 0xFF && b@[j + 1] == 0x53 && b@[j + 2]
                    == 0x4D && b@[j + 3] == 0x42),
        decreases n - i,
    {
        if b[i] == 0xFF && b[i + 1] == 0x53 && b[i + 2] == 0x4D && b[i + 3] == 0x42 {
            return true;
        }
        i = i + 1;
    }
    false
}

fn sized_banner_of(label: &str, b: &[u8]) -> (r: String)
    ensures
        r@ == sized_banner(label@, b@),
{
    let mut out = String::from_str(label);
    push_decimal(&mut out, b.len());
    out.append(" bytes] ");
    let hex = to_hex_string(b);
    out.append(hex.as_str());
    out
}

/// Classifies the bytes that a port sent: an SMB reply on an SMB port first,
/// then binary data by the port's default service with a hex dump, and
/// decoded text by the matcher table.
pub fn analyze_response(response_bytes: &[u8], port: u16) -> (r: Fingerprint)
    ensures
        r@ == response_fingerprint(response_bytes@, port),
{
    let n = response_bytes.len();
    if (port == 139 || port == 445) && n >= 2 && response_bytes[0] == 0 && response_bytes[1] == 0
        && smb_marker_present(response_bytes) {
        return Fingerprint {
            service_name: String::from_str("smb"),
            banner: sized_banner_of("[SMB Response: ", response_bytes),
        };
    }
    match utf8_text(response_bytes) {
        Some(text) => analyze_text_banner(text, port),
        None => Fingerprint {
            service_name: String::from_str(get_service_name_from_port(port)),
            banner: sized_banner_of("[Binary data: ", response_bytes),
        },
    }
}

} // verus!

verus! {

proof fn lemma_first_match_is(text: Seq<char>, i: int, j: int)
    requires
        0 <= j <= i < MATCHER_COUNT,
        regex_group(matcher_pattern(i), text) is Some,
        forall|k: int| 0 <= k < i ==> (#[trigger] regex_group(matcher_pattern(k), text)) is None,
    ensures
        first_match_from(text, j) == Some(i),
    decreases i - j,
{
    if j < i {
        lemma_first_match_is(text, i, j + 1);
    }
}

/// Where several patterns of the matcher table match a text, the service
/// reported is that of the matching entry with the smallest index.
pub proof fn lemma_earliest_matcher_wins(text: Seq<char>, port: u16, i: int)
    requires
        0 <= i < MATCHER_COUNT,
        regex_group(matcher_pattern(i), text) is Some,
        forall|k: int| 0 <= k < i ==> (#[trigger] regex_group(matcher_pattern(k), text)) is None,
    ensures
        text_fingerprint(text, port).0 == matcher_service(i),
        forall|b: Seq<u8>|
            valid_utf8(b) && decode_utf8(b) == text && !is_smb_response(b, port) ==> (
            #[trigger] response_fingerprint(b, port)).0 == matcher_service(i),
{
    lemma_first_match_is(text, i, 0);
}

/// The analysis depends on the bytes and the port alone: equal inputs give
/// equal fingerprints.
pub proof fn lemma_analysis_is_pure(a: Seq<u8>, b: Seq<u8>, port: u16)
    requires
        a == b,
    ensures
        response_fingerprint(a, port) == response_fingerprint(b, port),
{
}

} // verus!
