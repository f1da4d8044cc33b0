//! The supervisor of the wireless link as a state machine. It is told what
//! the radio and the network stack report and answers with what to do next.

use crate::timing::millis_duration;
use embassy_time::Duration;
use vstd::prelude::*;

verus! {

/// Milliseconds to wait after the link was lost, and after an association
/// failed, before the next attempt.
pub const RECONNECT_BACKOFF_MILLIS: u64 = 5000;

/// Where the link stands.
#[derive(Clone, Copy, Debug, PartialEq, Eq, Structural)]
pub enum LinkState {
    Disconnected,
    Starting,
    Connecting,
    Connected,
}

/// What the supervisor has asked for and waits on.
#[derive(Clone, Copy, Debug, PartialEq, Eq, Structural)]
pub enum SupervisorPhase {
    /// Asked whether the station is associated.
    Probing,
    /// Associated; waiting for the stack to signal disassociation.
    Watching,
    /// The association was lost; pausing before the radio is looked at.
    Settling,
    /// Asked whether the radio is started.
    CheckingRadio,
    /// Asked for the client configuration to be set.
    Configuring,
    /// Asked for the radio to start.
    Starting,
    /// Asked for association.
    Connecting,
    /// An association failed; pausing before the next round.
    Retrying,
    /// A fatal condition was met. Nothing follows.
    Halted,
}

/// What happened, as told to the supervisor.
#[derive(Clone, Copy, Debug, PartialEq, Eq, Structural)]
pub enum SupervisorEvent {
    /// The station is associated, or not.
    Association(bool),
    /// The stack signalled disassociation.
    Disassociated,
    /// A pause is over.
    Elapsed,
    /// The radio is started, or not.
    Started(bool),
    /// The client configuration was set, or could not be.
    Configured(bool),
    /// The radio started, or could not.
    StartFinished(bool),
    /// The association succeeded, or failed.
    AssociateFinished(bool),
}

/// What to do next.
#[derive(Debug, PartialEq, Eq)]
pub enum SupervisorAction {
    /// Ask whether the station is associated.
    QueryAssociation,
    /// Wait until the stack signals disassociation.
    AwaitDisassociation,
    /// Pause for this long.
    Backoff { duration: Duration },
    /// Ask whether the radio is started.
    QueryStarted,
    /// Set the client configuration from the configured network name and
    /// password.
    Configure,
    /// Start the radio.
    Start,
    /// Request association.
    Associate,
    /// Stop: the condition is fatal.
    Halt,
}

/// The supervisor of the wireless link.
#[derive(Clone, Copy, Debug, PartialEq, Eq, Structural)]
pub struct ConnectivitySupervisor {
    pub phase: SupervisorPhase,
    pub link: LinkState,
}

/// The outcome of one step: the supervisor after it, and what to do next.
pub struct Advance {
    pub supervisor: ConnectivitySupervisor,
    pub action: SupervisorAction,
}

/// Moves to `phase` with the link in `link`, and asks for `action`.
pub open spec fn turn(phase: SupervisorPhase, link: LinkState, action: SupervisorAction) -> Advance {
    Advance { supervisor: ConnectivitySupervisor { phase, link }, action }
}

/// One step of the supervisor.
///
/// While the station is associated the supervisor waits for the link to be
/// lost, then pauses. It then looks at the radio: one that is not started is
/// configured and started, and a failure of either is fatal. Then it asks
/// for association. On success the link is connected and the round begins
/// again; on failure it pauses and begins again, without end. An event that
/// the phase does not wait for is fatal.
pub open spec fn advance(supervisor: ConnectivitySupervisor, event: SupervisorEvent) -> Advance {
    let pause = SupervisorAction::Backoff { duration: millis_duration(RECONNECT_BACKOFF_MILLIS) };
    match (supervisor.phase, event) {
        (SupervisorPhase::Probing, SupervisorEvent::Association(associated)) => if associated {
            turn(
                SupervisorPhase::Watching,
                LinkState::Connected,
                SupervisorAction::AwaitDisassociation,
            )
        } else {
            turn(
                SupervisorPhase::CheckingRadio,
                LinkState::Disconnected,
                SupervisorAction::QueryStarted,
            )
        },
        (SupervisorPhase::Watching, SupervisorEvent::Disassociated) => turn(
            SupervisorPhase::Settling,
            LinkState::Disconnected,
            pause,
        ),
        (SupervisorPhase::Settling, SupervisorEvent::Elapsed) => turn(
            SupervisorPhase::CheckingRadio,
            LinkState::Disconnected,
            SupervisorAction::QueryStarted,
        ),
        (SupervisorPhase::CheckingRadio, SupervisorEvent::Started(started)) => if started {
            turn(SupervisorPhase::Connecting, LinkState::Connecting, SupervisorAction::Associate)
        } else {
            turn(SupervisorPhase::Configuring, LinkState::Starting, SupervisorAction::Configure)
        },
        (SupervisorPhase::Configuring, SupervisorEvent::Configured(done)) => if done {
            turn(SupervisorPhase::Starting, LinkState::Starting, SupervisorAction::Start)
        } else {
            turn(SupervisorPhase::Halted, supervisor.link, SupervisorAction::Halt)
        },
        (SupervisorPhase::Starting, SupervisorEvent::StartFinished(done)) => if done {
            turn(SupervisorPhase::Connecting, LinkState::Connecting, SupervisorAction::Associate)
        } else {
            turn(SupervisorPhase::Halted, supervisor.link, SupervisorAction::Halt)
        },
        (SupervisorPhase::Connecting, SupervisorEvent::AssociateFinished(done)) => if done {
            turn(
                SupervisorPhase::Probing,
                LinkState::Connected,
                SupervisorAction::QueryAssociation,
            )
        } else {
            turn(SupervisorPhase::Retrying, LinkState::Disconnected, pause)
        },
        (SupervisorPhase::Retrying, SupervisorEvent::Elapsed) => turn(
            SupervisorPhase::Probing,
            LinkState::Disconnected,
            SupervisorAction::QueryAssociation,
        ),
        _ => turn(SupervisorPhase::Halted, supervisor.link, SupervisorAction::Halt),
    }
}

/// The event answers what the phase has asked for.
pub open spec fn awaited(phase: SupervisorPhase, event: SupervisorEvent) -> bool {
    match (phase, event) {
        (SupervisorPhase::Probing, SupervisorEvent::Association(_)) => true,
        (SupervisorPhase::Watching, SupervisorEvent::Disassociated) => true,
        (SupervisorPhase::Settling, SupervisorEvent::Elapsed) => true,
        (SupervisorPhase::CheckingRadio, SupervisorEvent::Started(_)) => true,
        (SupervisorPhase::Configuring, SupervisorEvent::Configured(_)) => true,
        (SupervisorPhase::Starting, SupervisorEvent::StartFinished(_)) => true,
        (SupervisorPhase::Connecting, SupervisorEvent::AssociateFinished(_)) => true,
        (SupervisorPhase::Retrying, SupervisorEvent::Elapsed) => true,
        _ => false,
    }
}

impl ConnectivitySupervisor {
    /// The link state agrees with the phase.
    pub open spec fn wf(&self) -> bool {
        match self.phase {
            SupervisorPhase::Probing => self.link == LinkState::Disconnected || self.link
                == LinkState::Connected,
            SupervisorPhase::Watching => self.link == LinkState::Connected,
            SupervisorPhase::Settling => self.link == LinkState::Disconnected,
            SupervisorPhase::CheckingRadio => self.link == LinkState::Disconnected,
            SupervisorPhase::Configuring => self.link == LinkState::Starting,
            SupervisorPhase::Starting => self.link == LinkState::Starting,
            SupervisorPhase::Connecting => self.link == LinkState::Connecting,
            SupervisorPhase::Retrying => self.link == LinkState::Disconnected,
            SupervisorPhase::Halted => true,
        }
    }

    /// A supervisor before its first step, and the action that starts it.
    pub fn start() -> (r: (ConnectivitySupervisor, SupervisorAction))
        ensures
            r.0 == (ConnectivitySupervisor {
                phase: SupervisorPhase::Probing,
                link: LinkState::Disconnected,
            }),
            r.0.wf(),
            r.1 == SupervisorAction::QueryAssociation,
    {
        (
            ConnectivitySupervisor {
                phase: SupervisorPhase::Probing,
                link: LinkState::Disconnected,
            },
            SupervisorAction::QueryAssociation,
        )
    }

    fn turn(&mut self, phase: SupervisorPhase, link: LinkState, action: SupervisorAction) -> (r:
        SupervisorAction)
        ensures
            *final(self) == (ConnectivitySupervisor { phase, link }),
            r == action,
    {
        self.phase = phase;
        self.link = link;
        action
    }
}

/// Advances the supervisor by one event and says what to do next.
pub fn connection(supervisor: &mut ConnectivitySupervisor, event: SupervisorEvent) -> (action:
    SupervisorAction)
    ensures
        *final(supervisor) == advance(*old(supervisor), event).supervisor,
        action == advance(*old(supervisor), event).action,
        old(supervisor).wf() ==> final(supervisor).wf(),
{
    let link = supervisor.link;
    match (supervisor.phase, event) {
        (SupervisorPhase::Probing, SupervisorEvent::Association(associated)) => {
            if associated {
                supervisor.turn(
                    SupervisorPhase::Watching,
                    LinkState::Connected,
                    SupervisorAction::AwaitDisassociation,
                )
            } else {
                supervisor.turn(
                    SupervisorPhase::CheckingRadio,
                    LinkState::Disconnected,
                    SupervisorAction::QueryStarted,
                )
            }
        },
        (SupervisorPhase::Watching, SupervisorEvent::Disassociated) => supervisor.turn(
            SupervisorPhase::Settling,
            LinkState::Disconnected,
            SupervisorAction::Backoff { duration: Duration::from_millis(RECONNECT_BACKOFF_MILLIS) },
        ),
        (SupervisorPhase::Settling, SupervisorEvent::Elapsed) => supervisor.turn(
            SupervisorPhase::CheckingRadio,
            LinkState::Disconnected,
            SupervisorAction::QueryStarted,
        ),
        (SupervisorPhase::CheckingRadio, SupervisorEvent::Started(started)) => {
            if started {
                supervisor.turn(
                    SupervisorPhase::Connecting,
                    LinkState::Connecting,
                    SupervisorAction::Associate,
                )
            } else {
                supervisor.turn(
                    SupervisorPhase::Configuring,
                    LinkState::Starting,
                    SupervisorAction::Configure,
                )
            }
        },
        (SupervisorPhase::Configuring, SupervisorEvent::Configured(done)) => {
            if done {
                supervisor.turn(
                    SupervisorPhase::Starting,
                    LinkState::Starting,
                    SupervisorAction::Start,
                )
            } else {
                supervisor.turn(SupervisorPhase::Halted, link, SupervisorAction::Halt)
            }
        },
        (SupervisorPhase::Starting, SupervisorEvent::StartFinished(done)) => {
            if done {
                supervisor.turn(
                    SupervisorPhase::Connecting,
                    LinkState::Connecting,
                    SupervisorAction::Associate,
                )
            } else {
                supervisor.turn(SupervisorPhase::Halted, link, SupervisorAction::Halt)
            }
        },
        (SupervisorPhase::Connecting, SupervisorEvent::AssociateFinished(done)) => {
            if done {
                supervisor.turn(
                    SupervisorPhase::Probing,
                    LinkState::Connected,
                    SupervisorAction::QueryAssociation,
                )
            } else {
                supervisor.turn(
                    SupervisorPhase::Retrying,
                    LinkState::Disconnected,
                    SupervisorAction::Backoff {
                        duration: Duration::from_millis(RECONNECT_BACKOFF_MILLIS),
                    },
                )
            }
        },
        (SupervisorPhase::Retrying, SupervisorEvent::Elapsed) => supervisor.turn(
            SupervisorPhase::Probing,
            LinkState::Disconnected,
            SupervisorAction::QueryAssociation,
        ),
        _ => supervisor.turn(SupervisorPhase::Halted, link, SupervisorAction::Halt),
    }
}

/// The supervisor gives up only where the radio cannot be configured or
/// started, or where it is told something that it did not ask for. A failed
/// association never stops it.
pub proof fn lemma_halts_only_on_radio_fault(
    supervisor: ConnectivitySupervisor,
    event: SupervisorEvent,
)
    ensures
        advance(supervisor, event).action == SupervisorAction::Halt <==> !awaited(
            supervisor.phase,
            event,
        ) || event == SupervisorEvent::Configured(false) || event
            == SupervisorEvent::StartFinished(false),
        advance(supervisor, event).supervisor.phase == SupervisorPhase::Halted <==> advance(
            supervisor,
            event,
        ).action == SupervisorAction::Halt,
{
}

/// Every pause lasts the reconnect backoff, and a pause is what follows the
/// loss of the link and a failed association, and nothing else.
pub proof fn lemma_backoff(supervisor: ConnectivitySupervisor, event: SupervisorEvent)
    ensures
        advance(supervisor, event).action is Backoff ==> advance(supervisor, event).action == (
        SupervisorAction::Backoff { duration: millis_duration(RECONNECT_BACKOFF_MILLIS) }),
        advance(supervisor, event).action is Backoff <==> (supervisor.phase
            == SupervisorPhase::Watching && event == SupervisorEvent::Disassociated) || (
        supervisor.phase == SupervisorPhase::Connecting && event
            == SupervisorEvent::AssociateFinished(false)),
{
}

/// The link counts as connected only after the stack has said so: after a
/// successful association, or after it reported the station associated.
pub proof fn lemma_connected_is_reported(
    supervisor: ConnectivitySupervisor,
    event: SupervisorEvent,
)
    requires
        supervisor.wf(),
        supervisor.link != LinkState::Connected,
        advance(supervisor, event).supervisor.link == LinkState::Connected,
    ensures
        event == SupervisorEvent::AssociateFinished(true) || event == SupervisorEvent::Association(
            true,
        ),
{
}

} // verus!
