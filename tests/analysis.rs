use portdog::analyzer::{analyze_response, analyze_text_banner, fingerprint_from_match, Fingerprint};
use portdog::services::get_service_name_from_port;
use portdog::text::to_hex_string;

fn fp(bytes: &[u8], port: u16) -> (String, String) {
    let f: Fingerprint = analyze_response(bytes, port);
    (f.service_name, f.banner)
}

#[test]
fn ssh_banner_gives_software_name() {
    let (service, banner) = fp(b"SSH-2.0-OpenSSH_9.3", 22);
    assert_eq!(service, "ssh");
    assert_eq!(banner, "OpenSSH_9.3");
    let (service, banner) = fp(b"SSH-2.0-OpenSSH_9.3", 2222);
    assert_eq!(service, "ssh");
    assert_eq!(banner, "OpenSSH_9.3");
}

#[test]
fn http_server_header_wins_over_status_line() {
    let (service, banner) = fp(b"HTTP/1.1 200 OK\r\nServer: nginx/1.18.0\r\n\r\n", 80);
    assert_eq!(service, "http");
    assert_eq!(banner, "nginx/1.18.0");
}

#[test]
fn http_without_server_header_shows_status_line() {
    let (service, banner) = fp(b"HTTP/1.0 404 Not Found\r\nContent-Length: 0\r\n\r\n", 8080);
    assert_eq!(service, "http");
    assert_eq!(banner, "HTTP/1.0 404 Not Found");
}

#[test]
fn earlier_matcher_has_priority() {
    let (service, banner) = fp(b"SSH-2.0-dropbear\r\nServer: nginx\r\nHTTP/1.1", 80);
    assert_eq!(service, "ssh");
    assert_eq!(banner, "dropbear");
    let (service, _) = fp(b"220 FTP and SMTP gateway\r\n", 25);
    assert_eq!(service, "ftp");
}

#[test]
fn ftp_and_smtp_greetings() {
    let (service, banner) = fp(b"220 ProFTPD Server (FTP)\r\n", 21);
    assert_eq!(service, "ftp");
    assert_eq!(banner, "220 ProFTPD Server (FTP)");
    let (service, banner) = fp(b"220 mail.example.com ESMTP Postfix\r\n", 25);
    assert_eq!(service, "smtp");
    assert_eq!(banner, "220 mail.example.com ESMTP Postfix");
}

#[test]
fn unmatched_text_falls_back_to_port_table() {
    let (service, banner) = fp(b"  -ERR unknown command\r\nmore\r\n", 6379);
    assert_eq!(service, "redis");
    assert_eq!(banner, "-ERR unknown command");
    let (service, banner) = fp(b"", 12345);
    assert_eq!(service, "unknown");
    assert_eq!(banner, "");
}

#[test]
fn binary_rdp_reply_is_hex_dumped() {
    let bytes: Vec<u8> = vec![
        0x05, 0x00, 0x0d, 0xff, 0x01, 0x02, 0x03, 0x04, 0x05, 0x06, 0x07, 0x08, 0x09, 0x0a, 0x0b,
        0x0c, 0x0d, 0x0e, 0x0f, 0xab,
    ];
    assert_eq!(bytes.len(), 20);
    let (service, banner) = fp(&bytes, 3389);
    assert_eq!(service, "ms-wbt-server");
    assert_eq!(
        banner,
        "[Binary data: 20 bytes] 05 00 0D FF 01 02 03 04 05 06 07 08 09 0A 0B 0C 0D 0E 0F AB"
    );
}

#[test]
fn smb_reply_on_smb_port() {
    let bytes: Vec<u8> = vec![0x00, 0x00, 0x00, 0x85, 0xff, 0x53, 0x4d, 0x42];
    let (service, banner) = fp(&bytes, 445);
    assert_eq!(service, "smb");
    assert_eq!(banner, "[SMB Response: 8 bytes] 00 00 00 85 FF 53 4D 42");
    let (service, banner) = fp(&bytes, 139);
    assert_eq!(service, "smb");
    assert!(banner.starts_with("[SMB Response: 8 bytes]"));
}

#[test]
fn smb_bytes_on_other_port_are_plain_text() {
    let bytes: Vec<u8> = vec![0x00, 0x00, 0x00, 0x05, 0x41, 0x53, 0x4d, 0x42];
    let (service, _) = fp(&bytes, 445);
    assert_eq!(service, "microsoft-ds");
    let smb: Vec<u8> = vec![0x00, 0x00, 0x00, 0x85, 0xff, 0x53, 0x4d, 0x42];
    let (service, banner) = fp(&smb, 8445);
    assert_eq!(service, "unknown");
    assert_eq!(banner, "[Binary data: 8 bytes] 00 00 00 85 FF 53 4D 42");
}

#[test]
fn analysis_is_repeatable() {
    let bytes = b"HTTP/1.1 200 OK\r\nServer: Apache\r\n\r\n";
    assert_eq!(fp(bytes, 80), fp(bytes, 80));
    let odd: Vec<u8> = vec![0xc3, 0x28, 0x00, 0x01];
    assert_eq!(fp(&odd, 3389), fp(&odd, 3389));
}

#[test]
fn text_banner_directly() {
    let f = analyze_text_banner("SSH-2.0-  \r\n", 2022);
    assert_eq!(f.service_name, "unknown");
    assert_eq!(f.banner, "SSH-2.0-");
    let f = analyze_text_banner("hello\r\n", 143);
    assert_eq!(f.service_name, "imap");
    assert_eq!(f.banner, "hello");
}

#[test]
fn hex_dump_caps_at_twenty_four_bytes() {
    let long: Vec<u8> = (0u8..25).collect();
    let dump = to_hex_string(&long);
    assert!(dump.ends_with(" ..."));
    assert_eq!(dump.len(), 24 * 3 - 1 + 4);
    assert!(dump.starts_with("00 01 02"));
    assert!(dump.contains("17 ..."));
    let exact: Vec<u8> = (0u8..24).collect();
    let dump = to_hex_string(&exact);
    assert!(!dump.contains("..."));
    assert_eq!(dump.len(), 24 * 3 - 1);
    assert!(dump.ends_with("16 17"));
    assert_eq!(to_hex_string(&[]), "");
    assert_eq!(to_hex_string(&[0xab]), "AB");
}

#[test]
fn well_known_service_table() {
    assert_eq!(get_service_name_from_port(21), "ftp");
    assert_eq!(get_service_name_from_port(443), "https");
    assert_eq!(get_service_name_from_port(3389), "ms-wbt-server");
    assert_eq!(get_service_name_from_port(27017), "mongodb");
    assert_eq!(get_service_name_from_port(12345), "unknown");
}

#[test]
fn fingerprint_from_matcher_outcome() {
    let f = fingerprint_from_match("SSH-2.0-OpenSSH_9.3\r\n", 22, Some((0, " OpenSSH_9.3 ")));
    assert_eq!(f.service_name, "ssh");
    assert_eq!(f.banner, "OpenSSH_9.3");
    let f = fingerprint_from_match("HTTP/1.1 200 OK\r\nDate: x\r\n", 80, Some((2, "")));
    assert_eq!(f.service_name, "http");
    assert_eq!(f.banner, "HTTP/1.1 200 OK");
    let f = fingerprint_from_match("220 hello SMTP\n", 25, Some((4, "  ")));
    assert_eq!(f.service_name, "smtp");
    assert_eq!(f.banner, "220 hello SMTP");
    let f = fingerprint_from_match("\r\n  plain text\r\nnext", 5432, None);
    assert_eq!(f.service_name, "postgresql");
    assert_eq!(f.banner, "plain text");
}
