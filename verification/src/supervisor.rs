//! The connection supervisor: a state machine over transport connectivity
//! transitions that decides when a reconnect has happened and a resync is
//! due. The very first `Connected` status a process observes is startup,
//! not a reconnect, so no resync is triggered until a disconnect has been
//! seen once.

use vstd::prelude::*;
use crate::messages::ConnectionStatus;

verus! {

/// The supervisor's phase.
///
/// `AwaitingFirstDisconnect`: the first observed status was already
/// `Connected`, so the supervisor ignores statuses until the transport
/// drops once. `Watching`: a disconnect has been seen (or the session
/// started disconnected), so every `Connected` status from here on is a
/// reconnect.
#[derive(Clone, Copy, PartialEq, Eq, Structural, Debug)]
pub enum SupervisorPhase {
    AwaitingFirstDisconnect,
    Watching,
}

/// Owns the interpretation of the connectivity status stream.
pub struct ConnectionSupervisor {
    pub phase: SupervisorPhase,
}

/// The phase a supervisor starts in, given the first status the stream
/// showed.
pub open spec fn spec_start(first_status: ConnectionStatus) -> SupervisorPhase {
    if first_status.spec_is_connected() {
        SupervisorPhase::AwaitingFirstDisconnect
    } else {
        SupervisorPhase::Watching
    }
}

/// The phase after one status transition.
pub open spec fn spec_next_phase(phase: SupervisorPhase, status: ConnectionStatus) -> SupervisorPhase {
    match phase {
        SupervisorPhase::AwaitingFirstDisconnect => {
            if status.spec_is_connected() {
                SupervisorPhase::AwaitingFirstDisconnect
            } else {
                SupervisorPhase::Watching
            }
        },
        SupervisorPhase::Watching => SupervisorPhase::Watching,
    }
}

/// Whether one status transition triggers a resync.
pub open spec fn spec_triggers_resync(phase: SupervisorPhase, status: ConnectionStatus) -> bool {
    phase == SupervisorPhase::Watching && status.spec_is_connected()
}

/// Whether any transition in a sequence of statuses triggers a resync.
pub open spec fn spec_any_resync(phase: SupervisorPhase, statuses: Seq<ConnectionStatus>) -> bool
    decreases statuses.len(),
{
    if statuses.len() == 0 {
        false
    } else {
        spec_triggers_resync(phase, statuses[0]) || spec_any_resync(
            spec_next_phase(phase, statuses[0]),
            statuses.drop_first(),
        )
    }
}

impl ConnectionSupervisor {
    /// Start supervising, given the status the stream already showed when
    /// the supervisor came up (pending statuses are drained without acting
    /// on them). If the process starts out connected, that connection is
    /// startup, not a reconnect.
    pub fn start(first_status: ConnectionStatus) -> (s: ConnectionSupervisor)
        ensures
            s.phase == spec_start(first_status),
    {
        if first_status.is_connected() {
            ConnectionSupervisor { phase: SupervisorPhase::AwaitingFirstDisconnect }
        } else {
            ConnectionSupervisor { phase: SupervisorPhase::Watching }
        }
    }

    /// Consume one status transition; the result says whether the driver
    /// must run the resync protocol now. A resync is due exactly when a
    /// `Connected` status arrives after a disconnect has been observed.
    pub fn on_status(&mut self, status: ConnectionStatus) -> (resync: bool)
        ensures
            resync == spec_triggers_resync(old(self).phase, status),
            final(self).phase == spec_next_phase(old(self).phase, status),
    {
        match self.phase {
            SupervisorPhase::AwaitingFirstDisconnect => {
                if !status.is_connected() {
                    self.phase = SupervisorPhase::Watching;
                }
                false
            },
            SupervisorPhase::Watching => status.is_connected(),
        }
    }
}

/// First-connect is not a reconnect: a supervisor whose first observed
/// status was `Connected` triggers no resync for as long as every further
/// status is still `Connected`; only after some non-connected status can a
/// `Connected` transition trigger one.
pub proof fn lemma_first_connect_never_resyncs(statuses: Seq<ConnectionStatus>)
    requires
        forall|i: int| 0 <= i < statuses.len() ==> (#[trigger] statuses[i]).spec_is_connected(),
    ensures
        !spec_any_resync(spec_start(ConnectionStatus::Connected), statuses),
    decreases statuses.len(),
{
    let phase = spec_start(ConnectionStatus::Connected);
    if statuses.len() > 0 {
        assert(statuses[0].spec_is_connected());
        assert(spec_next_phase(phase, statuses[0]) == phase);
        assert(forall|i: int|
            0 <= i < statuses.drop_first().len() ==> (#[trigger] statuses.drop_first()[i])
                == statuses[i + 1]);
        lemma_first_connect_never_resyncs(statuses.drop_first());
    }
}

/// A resync implies a prior disconnect: whatever the first status was, if a
/// run of the supervisor over a sequence of statuses triggers a resync at
/// all, then some status at or before the triggering one was not
/// `Connected`, or the session started out disconnected.
pub proof fn lemma_resync_needs_disconnect(first_status: ConnectionStatus, statuses: Seq<ConnectionStatus>)
    requires
        spec_any_resync(spec_start(first_status), statuses),
        first_status.spec_is_connected(),
    ensures
        exists|i: int| 0 <= i < statuses.len() && !(#[trigger] statuses[i]).spec_is_connected(),
    decreases statuses.len(),
{
    if forall|i: int| 0 <= i < statuses.len() ==> (#[trigger] statuses[i]).spec_is_connected() {
        lemma_first_connect_never_resyncs(statuses);
    }
}

} // verus!
