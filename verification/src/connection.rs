//! The two periodic activities of a connection: the probe that tells
//! whether the remote side is there, and the tick that refreshes what is
//! shown.

use vstd::prelude::*;
use vstd::arithmetic::power2::{lemma2_to64, lemma2_to64_rest, lemma_pow2_strictly_increases, pow2};

verus! {

/// How a connection starts out.
#[derive(Debug, PartialEq, Eq)]
pub struct ConnectionState {
    /// Whether what is shown refreshes by itself.
    pub automatic_poll: bool,
    /// Whether the remote side answered the last probe.
    pub is_connected: bool,
    /// The time between two ticks, in milliseconds.
    pub poll_interval: u64,
    /// The address of the remote side.
    pub url: String,
}

impl ConnectionState {
    /// The settings of a new connection to `url`: not yet connected,
    /// refreshing by itself four times a second.
    pub fn new(url: String) -> (r: ConnectionState)
        ensures
            r.automatic_poll,
            !r.is_connected,
            r.poll_interval == 250,
            r.url == url,
    {
        ConnectionState { automatic_poll: true, is_connected: false, poll_interval: 250, url }
    }
}

/// The time between two probes, in milliseconds.
pub const PROBE_INTERVAL: u64 = 1000;

/// What the probe does after a ping.
#[derive(Debug, Clone, Copy, PartialEq, Eq, Structural)]
pub enum ProbeAction {
    /// The remote side has just appeared: fetch its registry, and count it
    /// as connected only once that is there.
    FetchSchema,
    /// Take the connection as up (`true`) or down (`false`).
    Settle(bool),
}

/// What the probe does after a ping, where `was_connected` says whether
/// the connection counted as up before and `ping_ok` whether the ping was
/// answered. The registry is fetched on the way from down to up, and only
/// then.
pub fn after_ping(was_connected: bool, ping_ok: bool) -> (r: ProbeAction)
    ensures
        r == (if !was_connected && ping_ok {
            ProbeAction::FetchSchema
        } else {
            ProbeAction::Settle(ping_ok)
        }),
{
    if !was_connected && ping_ok {
        ProbeAction::FetchSchema
    } else {
        ProbeAction::Settle(ping_ok)
    }
}

/// Whether the connection counts as up after the registry was asked for:
/// it does where the registry came.
pub fn after_schema(schema_ok: bool) -> (r: bool)
    ensures
        r == schema_ok,
{
    schema_ok
}

/// Whether a tick refreshes what is shown: only while the connection is up
/// and refreshing by itself is switched on.
pub fn should_refresh(automatic_poll: bool, is_connected: bool) -> (r: bool)
    ensures
        r == (automatic_poll && is_connected),
{
    automatic_poll && is_connected
}

/// The greatest position of the slider for which the interval fits in 64
/// bits.
pub const MAX_SLIDER: u32 = 57;

/// The time between two ticks, in milliseconds, for the position `slider`
/// of the slider: 125 at zero, and twice as much for each step up.
pub fn poll_interval(slider: u32) -> (r: u64)
    requires
        slider <= MAX_SLIDER,
    ensures
        r == 125 * pow2(slider as nat),
{
    let mut interval: u64 = 125;
    let mut i: u32 = 0;
    proof {
        lemma2_to64();
    }
    while i < slider
        invariant
            i <= slider <= MAX_SLIDER,
            interval == 125 * pow2(i as nat),
        decreases slider - i,
    {
        proof {
            lemma2_to64_rest();
            if i + 1 < 57 {
                lemma_pow2_strictly_increases((i + 1) as nat, 57);
            }
            assert(pow2((i + 1) as nat) == 2 * pow2(i as nat)) by {
                vstd::arithmetic::power2::lemma_pow2_unfold((i + 1) as nat);
            }
            assert(pow2(57) == 0x200000000000000);
        }
        interval = interval * 2;
        i += 1;
    }
    interval
}

/// The time between two ticks for the position `slider`, or nothing where
/// it does not fit in 64 bits.
pub fn checked_poll_interval(slider: u32) -> (r: Option<u64>)
    ensures
        r == (if slider <= MAX_SLIDER {
            Some((125 * pow2(slider as nat)) as u64)
        } else {
            None
        }),
{
    if slider <= MAX_SLIDER {
        Some(poll_interval(slider))
    } else {
        None
    }
}

} // verus!
