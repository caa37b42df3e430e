//! The two-step address-discovery protocol, as decisions.
//!
//! The provider's probe endpoint answers with a single address of either
//! family, preferring IPv6. The caller performs the network probes and
//! feeds each answer back in; the functions here decide what the answer
//! settles, whether a second IPv4-only probe is owed, and when a missing
//! family is fatal.

use vstd::prelude::*;

use crate::addr::{IpAddress, Ipv4Address, Ipv6Address};
use crate::config::AddrMode;

verus! {

/// Why address resolution fails for the whole run.
#[derive(Clone, Copy, PartialEq, Eq, Structural, Debug)]
pub enum ResolveError {
    /// An IPv6 address was wanted unconditionally, but the probe answered
    /// with IPv4 — so the system has no IPv6 route to the provider.
    OnlyIpv4Available,
    /// An IPv4 address was wanted unconditionally, but only IPv6 could be
    /// determined.
    OnlyIpv6Available,
}

/// Where resolution stands after the first probe.
#[derive(Clone, Copy, PartialEq, Eq, Structural, Debug)]
pub enum ResolveStep {
    /// Both families are settled; no further probe is needed.
    Done { ipv4: Option<Ipv4Address>, ipv6: Option<Ipv6Address> },
    /// The probe answered with IPv6 and IPv4 is also wanted: a second
    /// probe against the IPv4-only endpoint is owed.
    NeedIpv4Probe { ipv6: Option<Ipv6Address> },
}

/// Whether the first probe must be sent at all: only when some family is
/// enabled. With both families disabled resolution is over before any
/// network call, with no addresses and no error.
pub open spec fn spec_probe_needed(v4: AddrMode, v6: AddrMode) -> bool {
    ||| (v4 is Enabled || v4 is Try)
    ||| (v6 is Enabled || v6 is Try)
}

/// Whether the first probe must be sent at all.
#[verifier::when_used_as_spec(spec_probe_needed)]
pub fn probe_needed(v4: AddrMode, v6: AddrMode) -> (b: bool)
    ensures
        b == spec_probe_needed(v4, v6),
{
    v4.is_enabled() || v6.is_enabled()
}

/// What the first probe's answer settles.
///
/// An IPv4 answer settles IPv4 (when wanted) and rules IPv6 out, since
/// the probe prefers IPv6 whenever the system can reach it that way:
/// fatal only when IPv6 was required, and silently absent when IPv6 was
/// merely tried — resolution fails only for a family that must succeed.
/// An IPv6 answer settles IPv6 (when wanted) and leaves IPv4 to a second
/// probe when IPv4 is wanted too.
pub open spec fn spec_after_first_probe(v4: AddrMode, v6: AddrMode, probe: IpAddress) -> Result<
    ResolveStep,
    ResolveError,
> {
    match probe {
        IpAddress::V4(a) => {
            let ipv4 = if v4 is Enabled || v4 is Try {
                Some(a)
            } else {
                None
            };
            if v6 is Enabled {
                Err(ResolveError::OnlyIpv4Available)
            } else {
                Ok(ResolveStep::Done { ipv4, ipv6: None })
            }
        },
        IpAddress::V6(a) => {
            let ipv6 = if v6 is Enabled || v6 is Try {
                Some(a)
            } else {
                None
            };
            if v4 is Enabled || v4 is Try {
                Ok(ResolveStep::NeedIpv4Probe { ipv6 })
            } else {
                Ok(ResolveStep::Done { ipv4: None, ipv6 })
            }
        },
    }
}

/// What the first probe's answer settles.
pub fn after_first_probe(v4: AddrMode, v6: AddrMode, probe: IpAddress) -> (r: Result<
    ResolveStep,
    ResolveError,
>)
    ensures
        r == spec_after_first_probe(v4, v6, probe),
{
    match probe {
        IpAddress::V4(a) => {
            let ipv4 = if v4.is_enabled() {
                Some(a)
            } else {
                None
            };
            if v6.is_required() {
                return Err(ResolveError::OnlyIpv4Available);
            }
            Ok(ResolveStep::Done { ipv4, ipv6: None })
        },
        IpAddress::V6(a) => {
            let ipv6 = if v6.is_enabled() {
                Some(a)
            } else {
                None
            };
            if v4.is_enabled() {
                Ok(ResolveStep::NeedIpv4Probe { ipv6 })
            } else {
                Ok(ResolveStep::Done { ipv4: None, ipv6 })
            }
        },
    }
}

/// What the second, IPv4-only probe settles: its answer is the IPv4
/// address; its failure is fatal exactly when IPv4 was required or was
/// the only family wanted, and otherwise leaves IPv4 absent.
pub open spec fn spec_after_ipv4_probe(
    v4: AddrMode,
    v6: AddrMode,
    ipv6: Option<Ipv6Address>,
    probe: Option<Ipv4Address>,
) -> Result<(Option<Ipv4Address>, Option<Ipv6Address>), ResolveError> {
    match probe {
        Some(a) => Ok((Some(a), ipv6)),
        None => if v4 is Enabled || !(v6 is Enabled || v6 is Try) {
            Err(ResolveError::OnlyIpv6Available)
        } else {
            Ok((None, ipv6))
        },
    }
}

/// What the second, IPv4-only probe settles. `probe` is its answer, or
/// `None` when the probe failed.
pub fn after_ipv4_probe(
    v4: AddrMode,
    v6: AddrMode,
    ipv6: Option<Ipv6Address>,
    probe: Option<Ipv4Address>,
) -> (r: Result<(Option<Ipv4Address>, Option<Ipv6Address>), ResolveError>)
    ensures
        r == spec_after_ipv4_probe(v4, v6, ipv6, probe),
{
    match probe {
        Some(a) => Ok((Some(a), ipv6)),
        None => {
            if v4.is_required() || !v6.is_enabled() {
                Err(ResolveError::OnlyIpv6Available)
            } else {
                Ok((None, ipv6))
            }
        },
    }
}

} // verus!
