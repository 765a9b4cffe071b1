//! The probe catalog and the decisions of a probe: which payloads to send to
//! a silent port and in what order, when to stop, and what to report.
use vstd::prelude::*;
use crate::analyzer::{analyze_response, response_fingerprint, Fingerprint};
use crate::services::{get_service_name_from_port, service_for_port};

verus! {

/// An SMB negotiate-protocol request.
pub open spec fn smb_payload() -> Seq<u8> {
    seq![
        0x00, 0x00, 0x00, 0x85, 0xff, 0x53, 0x4d, 0x42, 0x72, 0x00, 0x00, 0x00, 0x00,
        0x18, 0x53, 0xc8, 0x00, 0x00, 0x00, 0x00, 0x00, 0x00, 0x00, 0x00, 0x00, 0x00,
        0x00, 0x00, 0x00, 0x00, 0xff, 0xfe, 0x00, 0x00, 0x00, 0x00, 0x00, 0x62, 0x00,
        0x02, 0x50, 0x43, 0x20, 0x4e, 0x45, 0x54, 0x57, 0x4f, 0x52, 0x4b, 0x20, 0x50,
        0x52, 0x4f, 0x47, 0x52, 0x41, 0x4d, 0x20, 0x31, 0x2e, 0x30, 0x00, 0x02, 0x4d,
        0x49, 0x43, 0x52, 0x4f, 0x53, 0x4f, 0x46, 0x54, 0x20, 0x4e, 0x45, 0x54, 0x57,
        0x4f, 0x52, 0x4b, 0x53, 0x20, 0x31, 0x2e, 0x30, 0x33, 0x00, 0x02, 0x4d, 0x49,
        0x43, 0x52, 0x4f, 0x53, 0x4f, 0x46, 0x54, 0x20, 0x4e, 0x45, 0x54, 0x57, 0x4f,
        0x52, 0x4b, 0x53, 0x20, 0x33, 0x2e, 0x30, 0x00, 0x02, 0x4c, 0x41, 0x4e, 0x4d,
        0x41, 0x4e, 0x31, 0x2e, 0x30, 0x00, 0x02, 0x4c, 0x4d, 0x31, 0x2e, 0x32, 0x58,
        0x30, 0x30, 0x32, 0x00, 0x02, 0x53, 0x41, 0x4d, 0x42, 0x41, 0x00, 0x02, 0x4e,
        0x54, 0x20, 0x4c, 0x41, 0x4e, 0x4d, 0x41, 0x4e, 0x20, 0x31, 0x2e, 0x30, 0x00,
        0x02, 0x4e, 0x54, 0x20, 0x4c, 0x4d, 0x20, 0x30, 0x2e, 0x31, 0x32, 0x00,
    ]
}

/// An RDP X.224 connection request.
pub open spec fn rdp_payload() -> Seq<u8> {
    seq![
        0x03, 0x00, 0x00, 0x13, 0x0e, 0xe0, 0x00, 0x00, 0x00, 0x00, 0x00, 0x01, 0x00,
        0x08, 0x00, 0x03, 0x00, 0x00, 0x00,
    ]
}

/// A minimal HTTP/1.0 request for `/`.
pub open spec fn http_payload() -> Seq<u8> {
    seq![
        0x47, 0x45, 0x54, 0x20, 0x2f, 0x20, 0x48, 0x54, 0x54, 0x50, 0x2f, 0x31, 0x2e,
        0x30, 0x0d, 0x0a, 0x0d, 0x0a,
    ]
}

/// A bare pair of line endings.
pub open spec fn newline_payload() -> Seq<u8> {
    seq![
        0x0d, 0x0a, 0x0d, 0x0a,
    ]
}

fn smb_payload_bytes() -> (r: Vec<u8>)
    ensures
        r@ == smb_payload(),
{
    let r: Vec<u8> = vec![
        0x00, 0x00, 0x00, 0x85, 0xff, 0x53, 0x4d, 0x42, 0x72, 0x00, 0x00, 0x00, 0x00,
        0x18, 0x53, 0xc8, 0x00, 0x00, 0x00, 0x00, 0x00, 0x00, 0x00, 0x00, 0x00, 0x00,
        0x00, 0x00, 0x00, 0x00, 0xff, 0xfe, 0x00, 0x00, 0x00, 0x00, 0x00, 0x62, 0x00,
        0x02, 0x50, 0x43, 0x20, 0x4e, 0x45, 0x54, 0x57, 0x4f, 0x52, 0x4b, 0x20, 0x50,
        0x52, 0x4f, 0x47, 0x52, 0x41, 0x4d, 0x20, 0x31, 0x2e, 0x30, 0x00, 0x02, 0x4d,
        0x49, 0x43, 0x52, 0x4f, 0x53, 0x4f, 0x46, 0x54, 0x20, 0x4e, 0x45, 0x54, 0x57,
        0x4f, 0x52, 0x4b, 0x53, 0x20, 0x31, 0x2e, 0x30, 0x33, 0x00, 0x02, 0x4d, 0x49,
        0x43, 0x52, 0x4f, 0x53, 0x4f, 0x46, 0x54, 0x20, 0x4e, 0x45, 0x54, 0x57, 0x4f,
        0x52, 0x4b, 0x53, 0x20, 0x33, 0x2e, 0x30, 0x00, 0x02, 0x4c, 0x41, 0x4e, 0x4d,
        0x41, 0x4e, 0x31, 0x2e, 0x30, 0x00, 0x02, 0x4c, 0x4d, 0x31, 0x2e, 0x32, 0x58,
        0x30, 0x30, 0x32, 0x00, 0x02, 0x53, 0x41, 0x4d, 0x42, 0x41, 0x00, 0x02, 0x4e,
        0x54, 0x20, 0x4c, 0x41, 0x4e, 0x4d, 0x41, 0x4e, 0x20, 0x31, 0x2e, 0x30, 0x00,
        0x02, 0x4e, 0x54, 0x20, 0x4c, 0x4d, 0x20, 0x30, 0x2e, 0x31, 0x32, 0x00,
    ];
    r
}

fn rdp_payload_bytes() -> (r: Vec<u8>)
    ensures
        r@ == rdp_payload(),
{
    let r: Vec<u8> = vec![
        0x03, 0x00, 0x00, 0x13, 0x0e, 0xe0, 0x00, 0x00, 0x00, 0x00, 0x00, 0x01, 0x00,
        0x08, 0x00, 0x03, 0x00, 0x00, 0x00,
    ];
    r
}

fn http_payload_bytes() -> (r: Vec<u8>)
    ensures
        r@ == http_payload(),
{
    let r: Vec<u8> = vec![
        0x47, 0x45, 0x54, 0x20, 0x2f, 0x20, 0x48, 0x54, 0x54, 0x50, 0x2f, 0x31, 0x2e,
        0x30, 0x0d, 0x0a, 0x0d, 0x0a,
    ];
    r
}

fn newline_payload_bytes() -> (r: Vec<u8>)
    ensures
        r@ == newline_payload(),
{
    let r: Vec<u8> = vec![
        0x0d, 0x0a, 0x0d, 0x0a,
    ];
    r
}

/// Number of entries of the probe catalog.
pub const PROBE_COUNT: usize = 4;

/// The payload of each entry of the probe catalog, in table order.
pub open spec fn probe_payload(i: int) -> Seq<u8> {
    if i == 0 {
        smb_payload()
    } else if i == 1 {
        rdp_payload()
    } else if i == 2 {
        http_payload()
    } else {
        newline_payload()
    }
}

/// The ports that each entry of the catalog is meant for; none for an entry
/// that is tried on any port.
pub open spec fn probe_ports(i: int) -> Seq<u16> {
    if i == 0 {
        seq![139u16, 445]
    } else if i == 1 {
        seq![3389u16]
    } else if i == 2 {
        seq![80u16, 8000, 8080, 9993]
    } else {
        seq![]
    }
}

/// The payloads from entry `i` on that are meant for `port`.
pub open spec fn targeted_from(port: u16, i: int) -> Seq<Seq<u8>>
    decreases PROBE_COUNT - i,
{
    if i < 0 || i >= PROBE_COUNT {
        seq![]
    } else if probe_ports(i).contains(port) {
        seq![probe_payload(i)] + targeted_from(port, i + 1)
    } else {
        targeted_from(port, i + 1)
    }
}

/// The payloads from entry `i` on that are tried on any port.
pub open spec fn fallback_from(i: int) -> Seq<Seq<u8>>
    decreases PROBE_COUNT - i,
{
    if i < 0 || i >= PROBE_COUNT {
        seq![]
    } else if probe_ports(i).len() == 0 {
        seq![probe_payload(i)] + fallback_from(i + 1)
    } else {
        fallback_from(i + 1)
    }
}

/// What to send to a port that stays silent, in order: the payloads meant
/// for it, then those meant for any port.
pub open spec fn probe_plan_of(port: u16) -> Seq<Seq<u8>> {
    targeted_from(port, 0) + fallback_from(0)
}

/// Entry `i` of the probe catalog: its payload and its ports.
fn probe_entry(i: usize) -> (r: (Vec<u8>, Vec<u16>))
    requires
        i < PROBE_COUNT,
    ensures
        r.0@ == probe_payload(i as int),
        r.1@ == probe_ports(i as int),
{
    if i == 0 {
        (smb_payload_bytes(), vec![139, 445])
    } else if i == 1 {
        (rdp_payload_bytes(), vec![3389])
    } else if i == 2 {
        (http_payload_bytes(), vec![80, 8000, 8080, 9993])
    } else {
        (newline_payload_bytes(), Vec::new())
    }
}

fn port_listed(ports: &Vec<u16>, port: u16) -> (r: bool)
    ensures
        r == ports@.contains(port),
{
    let mut i: usize = 0;
    while i < ports.len()
        invariant
            i <= ports@.len(),
            forall|k: int| 0 <= k < i ==> ports@[k] != port,
        decreases ports@.len() - i,
    {
        if ports[i] == port {
            return true;
        }
        i = i + 1;
    }
    false
}

/// The bytes of each payload.
pub open spec fn payload_views(v: Seq<Vec<u8>>) -> Seq<Seq<u8>> {
    v.map_values(|p: Vec<u8>| p@)
}

/// The payloads to send, in order, to a port that sent nothing unprompted.
pub fn probe_plan(port: u16) -> (r: Vec<Vec<u8>>)
    ensures
        payload_views(r@) == probe_plan_of(port),
{
    let mut plan: Vec<Vec<u8>> = Vec::new();
    let mut i: usize = 0;
    while i < PROBE_COUNT
        invariant
            i <= PROBE_COUNT,
            payload_views(plan@) + targeted_from(port, i as int) == targeted_from(port, 0),
        decreases PROBE_COUNT - i,
    {
        let (payload, ports) = probe_entry(i);
        if port_listed(&ports, port) {
            let ghost before = payload_views(plan@);
            plan.push(payload);
            assert(payload_views(plan@) =~= before.push(probe_payload(i as int)));
            assert(before + targeted_from(port, i as int) =~= payload_views(plan@) + targeted_from(
                port,
                i + 1,
            ));
        }
        i = i + 1;
    }
    assert(payload_views(plan@) + seq![] =~= payload_views(plan@));
    let mut i: usize = 0;
    while i < PROBE_COUNT
        invariant
            i <= PROBE_COUNT,
            payload_views(plan@) + fallback_from(i as int) == probe_plan_of(port),
        decreases PROBE_COUNT - i,
    {
        let (payload, ports) = probe_entry(i);
        if ports.len() == 0 {
            let ghost before = payload_views(plan@);
            plan.push(payload);
            assert(payload_views(plan@) =~= before.push(probe_payload(i as int)));
            assert(before + fallback_from(i as int) =~= payload_views(plan@) + fallback_from(i + 1));
        }
        i = i + 1;
    }
    assert(payload_views(plan@) + seq![] =~= payload_views(plan@));
    plan
}

/// The next step of a probe over a plain connection.
#[derive(Debug, Clone)]
pub enum ProbeAction {
    /// Send this payload, then read again.
    Send(Vec<u8>),
    /// The probe is over: report this fingerprint.
    Report(Fingerprint),
}

/// The fingerprint of an open port that answered nothing.
pub open spec fn unresponsive(port: u16) -> (Seq<char>, Seq<char>) {
    (service_for_port(port), "[unresponsive]"@)
}

/// Whether a read brought data.
pub open spec fn has_data(response: Option<&[u8]>) -> bool {
    response is Some && response->0@.len() > 0
}

/// Decides the next step over a plain connection. `probes_sent` payloads of
/// the plan have been sent so far (none after the first, unprompted read),
/// and `response` is what the last read brought, `None` where the read timed
/// out or the payload could not be sent. The first data is analyzed; while
/// none came, the next payload of the plan is sent; once the plan is spent,
/// the port is reported open and unresponsive.
pub fn next_cleartext_action(port: u16, probes_sent: usize, response: Option<&[u8]>) -> (r:
    ProbeAction)
    ensures
        match r {
            ProbeAction::Report(f) => (has_data(response) && f@ == response_fingerprint(
                response->0@,
                port,
            )) || (!has_data(response) && probes_sent >= probe_plan_of(port).len() && f@
                == unresponsive(port)),
            ProbeAction::Send(p) => !has_data(response) && probes_sent < probe_plan_of(
                port,
            ).len() && p@ == probe_plan_of(port)[probes_sent as int],
        },
{
    if let Some(bytes) = response {
        if bytes.len() > 0 {
            return ProbeAction::Report(analyze_response(bytes, port));
        }
    }
    let mut plan = probe_plan(port);
    if probes_sent < plan.len() {
        let ghost whole = payload_views(plan@);
        let payload = plan.swap_remove(probes_sent);
        assert(payload@ == whole[probes_sent as int]);
        ProbeAction::Send(payload)
    } else {
        ProbeAction::Report(
            Fingerprint {
                service_name: String::from_str(get_service_name_from_port(port)),
                banner: String::from_str("[unresponsive]"),
            },
        )
    }
}

/// Ports that are probed over TLS.
pub fn uses_tls(port: u16) -> (r: bool)
    ensures
        r == (port == 443 || port == 993 || port == 995),
{
    port == 443 || port == 993 || port == 995
}

/// What to send once a TLS session stands: an HTTP request on port 443,
/// nothing elsewhere.
pub fn tls_request(port: u16) -> (r: Option<Vec<u8>>)
    ensures
        match r {
            Some(p) => port == 443 && p@ == http_payload(),
            None => port != 443,
        },
{
    if port == 443 {
        Some(http_payload_bytes())
    } else {
        None
    }
}

/// The fingerprint of a TLS port whose handshake failed.
pub open spec fn handshake_failed() -> (Seq<char>, Seq<char>) {
    ("tls"@, "Could not complete TLS handshake"@)
}

/// The fingerprint of a port probed over TLS: a failed handshake still marks
/// the port open; after a handshake, what the read brought (nothing where it
/// timed out) is analyzed.
pub fn tls_fingerprint(port: u16, handshake_completed: bool, response: Option<&[u8]>) -> (r:
    Fingerprint)
    ensures
        !handshake_completed ==> r@ == handshake_failed(),
        handshake_completed ==> r@ == response_fingerprint(
            match response {
                Some(b) => b@,
                None => seq![],
            },
            port,
        ),
{
    if !handshake_completed {
        return Fingerprint {
            service_name: String::from_str("tls"),
            banner: String::from_str("Could not complete TLS handshake"),
        };
    }
    match response {
        Some(bytes) => analyze_response(bytes, port),
        None => {
            let empty: Vec<u8> = Vec::new();
            assert(empty@ =~= seq![]);
            analyze_response(empty.as_slice(), port)
        },
    }
}

} // verus!
