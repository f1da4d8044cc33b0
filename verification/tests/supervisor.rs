use device_lock::supervisor::{
    connection, ConnectivitySupervisor, LinkState, SupervisorAction, SupervisorEvent,
    SupervisorPhase, RECONNECT_BACKOFF_MILLIS,
};
use embassy_time::Duration;

fn at(phase: SupervisorPhase, link: LinkState) -> ConnectivitySupervisor {
    ConnectivitySupervisor { phase, link }
}

#[test]
fn supervisor_starts_by_asking_for_the_association() {
    let (supervisor, first) = ConnectivitySupervisor::start();
    assert_eq!(supervisor, at(SupervisorPhase::Probing, LinkState::Disconnected));
    assert_eq!(first, SupervisorAction::QueryAssociation);
    assert_eq!(RECONNECT_BACKOFF_MILLIS, 5000);
}

#[test]
fn radio_is_configured_started_and_associated() {
    let (mut supervisor, _) = ConnectivitySupervisor::start();
    assert_eq!(
        connection(&mut supervisor, SupervisorEvent::Association(false)),
        SupervisorAction::QueryStarted
    );
    assert_eq!(supervisor, at(SupervisorPhase::CheckingRadio, LinkState::Disconnected));
    assert_eq!(
        connection(&mut supervisor, SupervisorEvent::Started(false)),
        SupervisorAction::Configure
    );
    assert_eq!(supervisor, at(SupervisorPhase::Configuring, LinkState::Starting));
    assert_eq!(
        connection(&mut supervisor, SupervisorEvent::Configured(true)),
        SupervisorAction::Start
    );
    assert_eq!(supervisor, at(SupervisorPhase::Starting, LinkState::Starting));
    assert_eq!(
        connection(&mut supervisor, SupervisorEvent::StartFinished(true)),
        SupervisorAction::Associate
    );
    assert_eq!(supervisor, at(SupervisorPhase::Connecting, LinkState::Connecting));
    assert_eq!(
        connection(&mut supervisor, SupervisorEvent::AssociateFinished(true)),
        SupervisorAction::QueryAssociation
    );
    assert_eq!(supervisor, at(SupervisorPhase::Probing, LinkState::Connected));
}

#[test]
fn started_radio_is_not_started_again() {
    let mut supervisor = at(SupervisorPhase::CheckingRadio, LinkState::Disconnected);
    assert_eq!(
        connection(&mut supervisor, SupervisorEvent::Started(true)),
        SupervisorAction::Associate
    );
    assert_eq!(supervisor, at(SupervisorPhase::Connecting, LinkState::Connecting));
}

#[test]
fn lost_link_is_followed_by_a_pause_and_a_new_attempt() {
    let mut supervisor = at(SupervisorPhase::Probing, LinkState::Connected);
    assert_eq!(
        connection(&mut supervisor, SupervisorEvent::Association(true)),
        SupervisorAction::AwaitDisassociation
    );
    assert_eq!(supervisor, at(SupervisorPhase::Watching, LinkState::Connected));
    assert_eq!(
        connection(&mut supervisor, SupervisorEvent::Disassociated),
        SupervisorAction::Backoff { duration: Duration::from_millis(5000) }
    );
    assert_eq!(supervisor, at(SupervisorPhase::Settling, LinkState::Disconnected));
    assert_eq!(
        connection(&mut supervisor, SupervisorEvent::Elapsed),
        SupervisorAction::QueryStarted
    );
    assert_eq!(
        connection(&mut supervisor, SupervisorEvent::Started(true)),
        SupervisorAction::Associate
    );
}

#[test]
fn failed_association_is_retried_without_end() {
    let mut supervisor = at(SupervisorPhase::Connecting, LinkState::Connecting);
    for _ in 0..5 {
        assert_eq!(
            connection(&mut supervisor, SupervisorEvent::AssociateFinished(false)),
            SupervisorAction::Backoff { duration: Duration::from_millis(5000) }
        );
        assert_eq!(supervisor, at(SupervisorPhase::Retrying, LinkState::Disconnected));
        assert_eq!(
            connection(&mut supervisor, SupervisorEvent::Elapsed),
            SupervisorAction::QueryAssociation
        );
        assert_eq!(
            connection(&mut supervisor, SupervisorEvent::Association(false)),
            SupervisorAction::QueryStarted
        );
        assert_eq!(
            connection(&mut supervisor, SupervisorEvent::Started(true)),
            SupervisorAction::Associate
        );
        assert_eq!(supervisor, at(SupervisorPhase::Connecting, LinkState::Connecting));
    }
}

#[test]
fn radio_that_cannot_be_configured_or_started_is_fatal() {
    let mut supervisor = at(SupervisorPhase::Configuring, LinkState::Starting);
    assert_eq!(
        connection(&mut supervisor, SupervisorEvent::Configured(false)),
        SupervisorAction::Halt
    );
    assert_eq!(supervisor.phase, SupervisorPhase::Halted);

    let mut supervisor = at(SupervisorPhase::Starting, LinkState::Starting);
    assert_eq!(
        connection(&mut supervisor, SupervisorEvent::StartFinished(false)),
        SupervisorAction::Halt
    );
    assert_eq!(supervisor.phase, SupervisorPhase::Halted);
}

#[test]
fn supervisor_event_that_was_not_asked_for_is_fatal() {
    let (mut supervisor, _) = ConnectivitySupervisor::start();
    assert_eq!(connection(&mut supervisor, SupervisorEvent::Elapsed), SupervisorAction::Halt);
    assert_eq!(supervisor, at(SupervisorPhase::Halted, LinkState::Disconnected));
    for event in [
        SupervisorEvent::Association(true),
        SupervisorEvent::Disassociated,
        SupervisorEvent::Elapsed,
        SupervisorEvent::Started(true),
        SupervisorEvent::Configured(true),
        SupervisorEvent::StartFinished(true),
        SupervisorEvent::AssociateFinished(true),
    ] {
        assert_eq!(connection(&mut supervisor, event), SupervisorAction::Halt);
        assert_eq!(supervisor, at(SupervisorPhase::Halted, LinkState::Disconnected));
    }
}
