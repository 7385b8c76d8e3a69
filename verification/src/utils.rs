//! The transport protocol and the options of the alert sender.

use crate::cli::Cli;
use crate::ipv4::{format_ipv4, ipv4_text};
use std::str::FromStr;
use vstd::prelude::*;

verus! {

/// The transport that carries alerts to the collector: datagrams or a
/// stream.
#[derive(Debug, PartialEq, Eq, Clone, Copy, Structural)]
pub enum Proto {
    Udp,
    Tcp,
}

/// The protocol that `name` selects. Names are case sensitive.
pub open spec fn proto_of_name(name: Seq<char>) -> Option<Proto> {
    if name == "udp"@ {
        Some(Proto::Udp)
    } else if name == "tcp"@ {
        Some(Proto::Tcp)
    } else {
        None
    }
}

/// Whether two texts hold the same characters.
fn same_text(a: &str, b: &str) -> (same: bool)
    ensures
        same == (a@ == b@),
{
    a.to_owned() == b.to_owned()
}

impl Default for Proto {
    /// Alerts go over a stream unless told otherwise.
    fn default() -> (proto: Proto)
        ensures
            proto == Proto::Tcp,
    {
        Proto::Tcp
    }
}

impl FromStr for Proto {
    type Err = String;

    /// Reads the name of a protocol, `udp` or `tcp`. Any other text is
    /// refused with a message that quotes it.
    fn from_str(s: &str) -> (parsed: Result<Proto, String>)
        ensures
            match proto_of_name(s@) {
                Some(proto) => parsed == Ok::<Proto, String>(proto),
                None => parsed matches Err(message) && message@ == "Invalid protocol type: "@
                    + s@,
            },
    {
        if same_text(s, "udp") {
            Ok(Proto::Udp)
        } else if same_text(s, "tcp") {
            Ok(Proto::Tcp)
        } else {
            let mut message = "Invalid protocol type: ".to_owned();
            message.append(s);
            Err(message)
        }
    }
}

impl Proto {
    /// How the protocol is written out.
    pub open spec fn label(self) -> Seq<char> {
        match self {
            Proto::Udp => "Udp"@,
            Proto::Tcp => "Tcp"@,
        }
    }

    /// The protocol written out, `Udp` or `Tcp`.
    pub fn to_string(&self) -> (text: String)
        ensures
            text@ == self.label(),
    {
        match self {
            Proto::Udp => "Udp".to_owned(),
            Proto::Tcp => "Tcp".to_owned(),
        }
    }
}

/// A type that can be made from the settings of a command line.
pub trait FromCli: Sized {
    fn from_cli(cli: &Cli) -> Self;
}

/// The options of the alert sender, fixed for a run: where the collector
/// is, which transport reaches it, and for datagrams where they leave from.
#[derive(Debug, Clone, PartialEq, Eq)]
pub struct LoggerOptions {
    /// The address of the collector.
    pub syslog_ip: String,
    /// The port of the collector.
    pub syslog_port: String,
    /// The transport.
    pub proto: Proto,
    /// The address to bind before datagrams are sent.
    pub local_ip: String,
    /// The port to bind before datagrams are sent.
    pub local_port: String,
    /// The seconds between two cycles, in decimal notation.
    pub timeout: String,
}

impl LoggerOptions {
    /// The options as launch arguments. The local address and port are
    /// named only for datagrams.
    pub open spec fn arguments(&self) -> Seq<char> {
        if self.proto == Proto::Tcp {
            "--syslog-ip "@ + self.syslog_ip@ + " --syslog-port "@ + self.syslog_port@
                + " --proto "@ + self.proto.label() + " --timeout "@ + self.timeout@
        } else {
            "--syslog-ip "@ + self.syslog_ip@ + " --syslog-port "@ + self.syslog_port@
                + " --proto "@ + self.proto.label() + " --local-ip "@ + self.local_ip@
                + " --local-port "@ + self.local_port@ + " --timeout "@ + self.timeout@
        }
    }

    /// The options written out as launch arguments.
    pub fn to_string(&self) -> (text: String)
        ensures
            text@ == self.arguments(),
    {
        let mut text = "--syslog-ip ".to_owned();
        text.append(self.syslog_ip.as_str());
        text.append(" --syslog-port ");
        text.append(self.syslog_port.as_str());
        text.append(" --proto ");
        text.append(self.proto.to_string().as_str());
        if self.proto != Proto::Tcp {
            text.append(" --local-ip ");
            text.append(self.local_ip.as_str());
            text.append(" --local-port ");
            text.append(self.local_port.as_str());
        }
        text.append(" --timeout ");
        text.append(self.timeout.as_str());
        text
    }
}

impl FromCli for LoggerOptions {
    /// Takes the options of the alert sender from the settings. The
    /// addresses are written out in dotted-decimal notation.
    fn from_cli(cli: &Cli) -> (options: LoggerOptions)
        ensures
            options.syslog_ip@ == ipv4_text(cli.syslog_ip),
            options.syslog_port@ == cli.syslog_port@,
            options.proto == cli.proto,
            options.local_ip@ == ipv4_text(cli.local_ip),
            options.local_port@ == cli.local_port@,
            options.timeout@ == cli.timeout@,
    {
        LoggerOptions {
            syslog_ip: format_ipv4(cli.syslog_ip),
            syslog_port: cli.syslog_port.clone(),
            proto: cli.proto,
            local_ip: format_ipv4(cli.local_ip),
            local_port: cli.local_port.clone(),
            timeout: cli.timeout.clone(),
        }
    }
}

} // verus!
