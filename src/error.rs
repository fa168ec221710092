//! Errors that a scan request can end with.

use vstd::prelude::*;
use crate::text::{decimal, push_decimal};

verus! {

/// Why a scan request failed. Every error reaches the caller as the text of
/// [`ScanError::message`].
#[derive(Clone, Debug, PartialEq, Eq)]
pub enum ScanError {
    /// A scan was requested while another one runs.
    ScanAlreadyRunning,
    /// A cancellation was requested while no scan runs.
    NoScanRunning,
    /// An empty address token (no explanation), or a host before a subnet
    /// suffix that did not resolve on the lookup port 80: the token and the
    /// resolver's explanation.
    InvalidAddress(String, String),
    /// A subnet suffix that is not a number, or is too long for the address
    /// family: the offending suffix.
    InvalidSubnetMask(String),
    /// A subnet suffix of 0, which would span the whole address space.
    ZeroSubnetMask,
    /// An address and port that did not resolve to a socket address, with the
    /// resolver's explanation.
    InvalidSocketAddress(String, u16, String),
    /// The last error that a probe reported in a scan that finalized nothing.
    ProbeFailure(String),
}

/// The text of an error.
pub open spec fn message_text(e: ScanError) -> Seq<char> {
    match e {
        ScanError::ScanAlreadyRunning => "A scan is already running"@,
        ScanError::NoScanRunning => "No scan is currently running"@,
        ScanError::InvalidAddress(a, d) => if d@.len() == 0 {
            "\""@ + a@ + "\" is an invalid address!"@
        } else {
            a@ + ":80 is an invalid socket address!\n"@ + d@
        },
        ScanError::InvalidSubnetMask(m) => "\""@ + m@ + "\" is an invalid subnet mask!"@,
        ScanError::ZeroSubnetMask => "Subnet mask cannot be 0"@,
        ScanError::InvalidSocketAddress(a, p, d) => a@ + ":"@ + decimal(p as nat)
            + " is an invalid socket address!\n"@ + d@,
        ScanError::ProbeFailure(m) => m@,
    }
}

impl ScanError {
    /// The text that the caller receives for this error.
    pub fn message(&self) -> (r: String)
        ensures
            r@ == message_text(*self),
    {
        let mut out = String::new();
        match self {
            ScanError::ScanAlreadyRunning => {
                out.append("A scan is already running");
            },
            ScanError::NoScanRunning => {
                out.append("No scan is currently running");
            },
            ScanError::InvalidAddress(a, d) => {
                if d.as_str().unicode_len() == 0 {
                    out.append("\"");
                    out.append(a.as_str());
                    out.append("\" is an invalid address!");
                } else {
                    out.append(a.as_str());
                    out.append(":80 is an invalid socket address!\n");
                    out.append(d.as_str());
                }
            },
            ScanError::ZeroSubnetMask => {
                out.append("Subnet mask cannot be 0");
            },
            ScanError::InvalidSubnetMask(m) => {
                out.append("\"");
                out.append(m.as_str());
                out.append("\" is an invalid subnet mask!");
            },
            ScanError::InvalidSocketAddress(a, p, d) => {
                out.append(a.as_str());
                out.append(":");
                push_decimal(&mut out, *p as u64);
                out.append(" is an invalid socket address!\n");
                out.append(d.as_str());
            },
            ScanError::ProbeFailure(m) => {
                out.append(m.as_str());
            },
        }
        proof {
            assert(out@ =~= message_text(*self));
        }
        out
    }
}

} // verus!
