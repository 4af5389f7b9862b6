//! The transmitter's schedule. Each cycle checks whether a peer is
//! connected: if so it sends the report and waits a short interval; if not
//! it blinks the status indicator once, off then on, at a slow period, and
//! sends nothing. The connection is checked anew every cycle.
use vstd::prelude::*;

verus! {

/// Wait after each report sent, in milliseconds.
pub const REPORT_INTERVAL_MS: u32 = 7;

/// How long the status indicator stays off, then on, while no peer is
/// connected, in milliseconds.
pub const BLINK_HALF_PERIOD_MS: u32 = 500;

/// One step of a transmitter cycle, performed by the caller in order.
#[derive(Clone, Copy, Debug, PartialEq, Eq, Structural)]
pub enum TransmitAction {
    /// Hand the encoded report to the transport and notify the peer.
    SendReport,
    /// Switch the status indicator on (`true`) or off.
    Indicator(bool),
    /// Suspend for this many milliseconds.
    Wait(u32),
}

/// The steps of one cycle.
pub open spec fn cycle_plan(connected: bool) -> Seq<TransmitAction> {
    if connected {
        seq![TransmitAction::SendReport, TransmitAction::Wait(REPORT_INTERVAL_MS)]
    } else {
        seq![
            TransmitAction::Indicator(false),
            TransmitAction::Wait(BLINK_HALF_PERIOD_MS),
            TransmitAction::Indicator(true),
            TransmitAction::Wait(BLINK_HALF_PERIOD_MS),
        ]
    }
}

/// The steps of consecutive cycles that found the connection states `links`.
pub open spec fn schedule(links: Seq<bool>) -> Seq<TransmitAction>
    decreases links.len(),
{
    if links.len() == 0 {
        seq![]
    } else {
        schedule(links.drop_last()) + cycle_plan(links.last())
    }
}

/// Step `i` of the blink pattern while disconnected.
pub open spec fn blink_step(i: int) -> TransmitAction {
    if i % 4 == 0 {
        TransmitAction::Indicator(false)
    } else if i % 4 == 2 {
        TransmitAction::Indicator(true)
    } else {
        TransmitAction::Wait(BLINK_HALF_PERIOD_MS)
    }
}

/// Decides the steps of one cycle from the connection state checked at its
/// start.
pub fn transmit_cycle(connected: bool) -> (r: Vec<TransmitAction>)
    ensures
        r@ == cycle_plan(connected),
{
    let mut steps: Vec<TransmitAction> = Vec::new();
    if connected {
        steps.push(TransmitAction::SendReport);
        steps.push(TransmitAction::Wait(REPORT_INTERVAL_MS));
    } else {
        steps.push(TransmitAction::Indicator(false));
        steps.push(TransmitAction::Wait(BLINK_HALF_PERIOD_MS));
        steps.push(TransmitAction::Indicator(true));
        steps.push(TransmitAction::Wait(BLINK_HALF_PERIOD_MS));
    }
    assert(steps@ =~= cycle_plan(connected));
    steps
}

/// While no peer is connected the transmitter never sends a report: over
/// any number of cycles it only switches the indicator off, waits the slow
/// half period, switches it on and waits again.
pub proof fn lemma_disconnected_never_sends(links: Seq<bool>)
    requires
        forall|i: int| 0 <= i < links.len() ==> !#[trigger] links[i],
    ensures
        schedule(links).len() == 4 * links.len(),
        forall|i: int| 0 <= i < schedule(links).len() ==> #[trigger] schedule(links)[i] == blink_step(i),
        forall|i: int|
            0 <= i < schedule(links).len() ==> #[trigger] schedule(links)[i]
                != TransmitAction::SendReport,
    decreases links.len(),
{
    if links.len() > 0 {
        let prefix = links.drop_last();
        assert forall|i: int| 0 <= i < prefix.len() implies !#[trigger] prefix[i] by {
            assert(prefix[i] == links[i]);
        }
        lemma_disconnected_never_sends(prefix);
        assert(!links[links.len() - 1]);
        let s = schedule(links);
        let p = schedule(prefix);
        assert forall|i: int| 0 <= i < s.len() implies #[trigger] s[i] == blink_step(i) by {
            if i >= p.len() {
                assert((i - 4 * prefix.len()) == i % 4) by (nonlinear_arith)
                    requires
                        4 * prefix.len() <= i < 4 * prefix.len() + 4,
                ;
            }
        }
    }
}

} // verus!
