//! The data records of a subscription.

use vstd::prelude::*;

pub mod proxy;

verus! {

/// Usage counters that a subscription reports for an account.
///
/// The four counters are independent of each other; each is wide enough for
/// any traffic total or timestamp a provider may report.
#[derive(Clone, Copy, Debug, PartialEq, Eq, Structural)]
pub struct SubscriptionUserinfo {
    /// Bytes uploaded so far.
    pub upload: i128,
    /// Bytes downloaded so far.
    pub download: i128,
    /// Traffic allowance in bytes.
    pub total: i128,
    /// Expiry of the subscription, as a timestamp.
    pub expire: i128,
}

} // verus!
