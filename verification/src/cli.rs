//! The settings that a command line gives, already read.

use crate::utils::Proto;
use vstd::prelude::*;

verus! {

/// The settings of one run. Addresses are 32-bit IPv4 values, ports are
/// kept as text. The polling interval is kept as it is written, in seconds
/// and in decimal notation: nothing here computes on it.
#[derive(Debug, Clone, PartialEq, Eq)]
pub struct Cli {
    /// Installs the background service with the launch arguments.
    pub install_service: bool,
    /// Uninstalls the service.
    pub uninstall_service: bool,
    /// Runs the service.
    pub run_service: bool,
    /// Which transport carries the alerts.
    pub proto: Proto,
    /// The address of the collector.
    pub syslog_ip: u32,
    /// The port of the collector.
    pub syslog_port: String,
    /// The address of this machine, for the datagram transport.
    pub local_ip: u32,
    /// The port on this machine, for the datagram transport.
    pub local_port: String,
    /// The seconds between two cycles.
    pub timeout: String,
}

/// The loopback address, 127.0.0.1.
pub const LOOPBACK: u32 = 0x7f00_0001;

impl Default for Cli {
    /// The settings of a command line without arguments: alerts go over a
    /// stream to port 1468 of this machine, every three seconds, and
    /// datagrams would leave from port 9999.
    fn default() -> (cli: Cli)
        ensures
            !cli.install_service,
            !cli.uninstall_service,
            !cli.run_service,
            cli.proto == Proto::Tcp,
            cli.syslog_ip == LOOPBACK,
            cli.syslog_port@ == "1468"@,
            cli.local_ip == LOOPBACK,
            cli.local_port@ == "9999"@,
            cli.timeout@ == "3"@,
    {
        Cli {
            install_service: false,
            uninstall_service: false,
            run_service: false,
            proto: Proto::Tcp,
            syslog_ip: LOOPBACK,
            syslog_port: "1468".to_owned(),
            local_ip: LOOPBACK,
            local_port: "9999".to_owned(),
            timeout: "3".to_owned(),
        }
    }
}

} // verus!
