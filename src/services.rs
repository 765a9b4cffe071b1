//! The table of well-known services, used as the last resort when nothing
//! else identifies what listens on a port.
use vstd::prelude::*;

verus! {

/// The default service name of a port.
pub open spec fn service_for_port(port: u16) -> Seq<char> {
    match port {
        21 => "ftp"@,
        22 => "ssh"@,
        23 => "telnet"@,
        25 => "smtp"@,
        53 => "dns"@,
        80 => "http"@,
        110 => "pop3"@,
        139 => "netbios-ssn"@,
        143 => "imap"@,
        443 => "https"@,
        445 => "microsoft-ds"@,
        993 => "imaps"@,
        995 => "pop3s"@,
        1433 => "mssql"@,
        3306 => "mysql"@,
        3389 => "ms-wbt-server"@,
        5432 => "postgresql"@,
        6379 => "redis"@,
        27017 => "mongodb"@,
        _ => "unknown"@,
    }
}

/// Looks up the default service name of a port, `"unknown"` for ports
/// outside the table.
pub fn get_service_name_from_port(port: u16) -> (r: &'static str)
    ensures
        r@ == service_for_port(port),
{
    match port {
        21 => "ftp",
        22 => "ssh",
        23 => "telnet",
        25 => "smtp",
        53 => "dns",
        80 => "http",
        110 => "pop3",
        139 => "netbios-ssn",
        143 => "imap",
        443 => "https",
        445 => "microsoft-ds",
        993 => "imaps",
        995 => "pop3s",
        1433 => "mssql",
        3306 => "mysql",
        3389 => "ms-wbt-server",
        5432 => "postgresql",
        6379 => "redis",
        27017 => "mongodb",
        _ => "unknown",
    }
}

} // verus!
