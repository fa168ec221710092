//! The record of one probe: an address, a port and what was found there.

use vstd::prelude::*;
use crate::text::is_digit;

verus! {

/// What a probe found on a port.
#[derive(Clone, Copy, Debug, PartialEq, Eq)]
pub enum PortStatus {
    Open,
    Closed,
    Unknown,
}

/// The outcome of probing one port of one address. A record with neither
/// host name nor scan date is pending: enqueued, not yet probed.
#[derive(Clone, Debug, PartialEq, Eq)]
pub struct ScanResult {
    /// The host as it was handed to the probe: a numeric address after
    /// subnet expansion, otherwise the token as given (possibly a host name).
    pub address: String,
    pub port: u16,
    /// The numeric address that the probe connected to.
    pub host_name: Option<String>,
    pub port_status: PortStatus,
    /// When the record was finalized, in RFC 3339, UTC.
    pub scan_date: Option<String>,
}

/// `r` is the pending record of `address` and `port`.
pub open spec fn is_pending(r: ScanResult, address: Seq<char>, port: u16) -> bool {
    &&& r.address@ == address
    &&& r.port == port
    &&& r.host_name is None
    &&& r.port_status == PortStatus::Unknown
    &&& r.scan_date is None
}

/// `r` is a record of the same address and port as `q`.
pub open spec fn same_target(r: ScanResult, q: ScanResult) -> bool {
    r.address@ == q.address@ && r.port == q.port
}

/// `r` holds a host name exactly when it holds a scan date.
pub open spec fn is_consistent(r: ScanResult) -> bool {
    r.host_name is Some <==> r.scan_date is Some
}

/// `s` is an RFC 3339 timestamp in UTC as `YYYY-MM-DDTHH:MM:SS`, an
/// optional fraction of a second, then `+00:00`.
pub open spec fn is_rfc3339_utc(s: Seq<char>) -> bool {
    &&& s.len() >= 25
    &&& forall|i: int|
        0 <= i < 19 && i != 4 && i != 7 && i != 10 && i != 13 && i != 16 ==> is_digit(
            #[trigger] s[i],
        )
    &&& s[4] == '-'
    &&& s[7] == '-'
    &&& s[10] == 'T'
    &&& s[13] == ':'
    &&& s[16] == ':'
    &&& s.subrange(s.len() - 6, s.len() as int) == "+00:00"@
}

/// `r` was finalized with `host_name` and `status`, at some instant.
pub open spec fn is_finalized(r: ScanResult, host_name: Seq<char>, status: PortStatus) -> bool {
    &&& r.host_name matches Some(h) && h@ == host_name
    &&& r.port_status == status
    &&& r.scan_date matches Some(d) && is_rfc3339_utc(d@)
}

/// Relies on chrono's `DateTime<Utc>::from(SystemTime)` and
/// `DateTime::to_rfc3339`: the current instant in UTC, written in RFC 3339
/// with a zero offset as `+00:00` (no `Z`). For the years 0 to 9999, within
/// which a system clock stays, the year takes four digits.
#[verifier::external_body]
fn utc_now_rfc3339() -> (r: String)
    ensures
        is_rfc3339_utc(r@),
{
    let now: chrono::DateTime<chrono::Utc> = std::time::SystemTime::now().into();
    now.to_rfc3339()
}

impl ScanResult {
    /// A record finalized now, with the given host name and status.
    pub fn new(address: &str, port: u16, host_name: &str, port_status: PortStatus) -> (r:
        ScanResult)
        ensures
            r.address@ == address@,
            r.port == port,
            is_finalized(r, host_name@, port_status),
    {
        let now = utc_now_rfc3339();
        ScanResult {
            address: String::from_str(address),
            port,
            host_name: Some(String::from_str(host_name)),
            port_status,
            scan_date: Some(now),
        }
    }

    /// The pending record of `address` and `port`.
    pub fn initialize(address: &str, port: u16) -> (r: ScanResult)
        ensures
            is_pending(r, address@, port),
    {
        ScanResult {
            address: String::from_str(address),
            port,
            host_name: None,
            port_status: PortStatus::Unknown,
            scan_date: None,
        }
    }

    /// Finalizes the record now with the given host name and status; the
    /// address and port stay.
    pub fn set_scan_result(&mut self, host_name: &str, port_status: PortStatus)
        ensures
            final(self).address == old(self).address,
            final(self).port == old(self).port,
            is_finalized(*final(self), host_name@, port_status),
    {
        let now = utc_now_rfc3339();
        self.scan_date = Some(now);
        self.port_status = port_status;
        self.host_name = Some(String::from_str(host_name));
    }
}

/// Records built by [`ScanResult::initialize`], [`ScanResult::new`] and
/// [`ScanResult::set_scan_result`] hold a host name exactly when they hold a
/// scan date: none while pending, both once probed.
pub proof fn lemma_records_consistent(r: ScanResult, address: Seq<char>, port: u16, host_name: Seq<char>, status: PortStatus)
    ensures
        is_pending(r, address, port) ==> is_consistent(r),
        is_finalized(r, host_name, status) ==> is_consistent(r),
{
}

} // verus!
