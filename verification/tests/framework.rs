use std::io;

use with_daemon::connect::{
    ClientAction, ClientEvent, ClientStart, DAEMON_CONNECTION_RETRY_DELAY,
};
use with_daemon::error::{connection_message, Error};
use with_daemon::launch::{Launch, LaunchAction, LaunchEvent};
use with_daemon::ready::DaemonReadyToken;
use with_daemon::serve::{Daemon, DaemonAction, DaemonControlMessage, DaemonEvent};
use with_daemon::wait_token::{Token, Waiter};

fn refused() -> io::Error {
    io::Error::new(io::ErrorKind::ConnectionRefused, "nobody there")
}

/// A daemon that has started to serve.
fn serving() -> Daemon {
    let (mut daemon, _) = Daemon::start();
    daemon.step(DaemonEvent::Done);
    daemon.step(DaemonEvent::Exists(false));
    daemon.step(DaemonEvent::Done);
    daemon.step(DaemonEvent::Done);
    daemon.step(DaemonEvent::Done);
    daemon
}

fn accept(daemon: &mut Daemon) -> Token {
    match daemon.step(DaemonEvent::Accepted) {
        DaemonAction::SpawnHandler(token) => {
            assert!(matches!(
                daemon.step(DaemonEvent::Done),
                DaemonAction::Select { .. }
            ));
            token
        }
        _ => panic!("no handler"),
    }
}

#[test]
fn waiter_waits_for_every_token() {
    let mut waiter = Waiter::new();
    assert!(waiter.wait());
    let first = waiter.token();
    let second = waiter.token();
    assert!(!waiter.wait());
    waiter.release(second);
    assert!(!waiter.wait());
    waiter.release(first);
    assert!(waiter.wait());
}

#[test]
fn daemon_prepares_its_socket_and_its_state() {
    let (mut daemon, action) = Daemon::start();
    assert!(matches!(action, DaemonAction::AdoptParent));
    assert!(matches!(daemon.step(DaemonEvent::Done), DaemonAction::ProbeSocket));
    assert!(matches!(
        daemon.step(DaemonEvent::Exists(true)),
        DaemonAction::RemoveSocket
    ));
    assert!(matches!(daemon.step(DaemonEvent::Done), DaemonAction::BindSocket));
    assert!(matches!(daemon.step(DaemonEvent::Done), DaemonAction::RunInit));
    assert!(matches!(
        daemon.step(DaemonEvent::Done),
        DaemonAction::Announce(DaemonReadyToken::Forked)
    ));
    assert!(matches!(
        daemon.step(DaemonEvent::Done),
        DaemonAction::Select { control: true }
    ));
}

#[test]
fn daemon_does_not_remove_a_socket_that_is_not_there() {
    let (mut daemon, _) = Daemon::start();
    daemon.step(DaemonEvent::Done);
    assert!(matches!(
        daemon.step(DaemonEvent::Exists(false)),
        DaemonAction::BindSocket
    ));
}

#[test]
fn daemon_without_parent_ends_in_silence() {
    let (mut daemon, _) = Daemon::start();
    assert!(matches!(daemon.step(DaemonEvent::Failed), DaemonAction::Return(false)));
}

#[test]
fn daemon_without_socket_says_that_it_failed() {
    for steps in 0..3 {
        let (mut daemon, _) = Daemon::start();
        daemon.step(DaemonEvent::Done);
        if steps > 0 {
            daemon.step(DaemonEvent::Exists(true));
        }
        if steps > 1 {
            daemon.step(DaemonEvent::Done);
        }
        assert!(matches!(
            daemon.step(DaemonEvent::Failed),
            DaemonAction::Announce(DaemonReadyToken::Failed)
        ));
        assert!(matches!(daemon.step(DaemonEvent::Done), DaemonAction::JoinNotifier));
        assert!(matches!(daemon.step(DaemonEvent::Done), DaemonAction::Return(false)));
    }
}

#[test]
fn daemon_without_state_says_why() {
    let (mut daemon, _) = Daemon::start();
    daemon.step(DaemonEvent::Done);
    daemon.step(DaemonEvent::Exists(false));
    daemon.step(DaemonEvent::Done);
    match daemon.step(DaemonEvent::InitFailed("no disk".to_owned())) {
        DaemonAction::Announce(token) => {
            assert_eq!(token, DaemonReadyToken::FailedState("no disk".to_owned()))
        }
        _ => panic!("nothing announced"),
    }
    assert!(matches!(daemon.step(DaemonEvent::Done), DaemonAction::JoinNotifier));
    assert!(matches!(daemon.step(DaemonEvent::Done), DaemonAction::Return(false)));
}

#[test]
fn shutdown_without_handlers_ends_the_daemon() {
    let mut daemon = serving();
    assert!(matches!(daemon.step(DaemonEvent::Shutdown), DaemonAction::CloseSocket));
    assert!(matches!(daemon.step(DaemonEvent::Done), DaemonAction::JoinNotifier));
    assert!(matches!(daemon.step(DaemonEvent::Done), DaemonAction::Return(true)));
}

#[test]
fn shutdown_waits_for_every_handler() {
    let mut daemon = serving();
    let first = accept(&mut daemon);
    let second = accept(&mut daemon);
    assert!(matches!(daemon.step(DaemonEvent::Shutdown), DaemonAction::CloseSocket));
    assert!(matches!(daemon.step(DaemonEvent::Done), DaemonAction::AwaitHandler));
    assert!(matches!(
        daemon.step(DaemonEvent::HandlerFinished(first)),
        DaemonAction::AwaitHandler
    ));
    assert!(matches!(
        daemon.step(DaemonEvent::HandlerFinished(second)),
        DaemonAction::JoinNotifier
    ));
    assert!(matches!(daemon.step(DaemonEvent::Done), DaemonAction::Return(true)));
}

#[test]
fn handlers_that_have_ended_are_not_waited_for() {
    let mut daemon = serving();
    let token = accept(&mut daemon);
    assert!(matches!(
        daemon.step(DaemonEvent::HandlerFinished(token)),
        DaemonAction::Select { control: true }
    ));
    assert!(matches!(daemon.step(DaemonEvent::Shutdown), DaemonAction::CloseSocket));
    assert!(matches!(daemon.step(DaemonEvent::Done), DaemonAction::JoinNotifier));
}

#[test]
fn connections_are_rejected_before_handlers_are_waited_for() {
    let mut daemon = serving();
    let token = accept(&mut daemon);
    let answers = [
        daemon.step(DaemonEvent::Shutdown),
        daemon.step(DaemonEvent::Done),
        daemon.step(DaemonEvent::HandlerFinished(token)),
    ];
    assert!(matches!(answers[0], DaemonAction::CloseSocket));
    assert!(matches!(answers[1], DaemonAction::AwaitHandler));
    assert!(matches!(answers[2], DaemonAction::JoinNotifier));
}

#[test]
fn failure_to_accept_does_not_end_the_daemon() {
    let mut daemon = serving();
    for _ in 0..3 {
        assert!(matches!(
            daemon.step(DaemonEvent::AcceptFailed),
            DaemonAction::Select { control: true }
        ));
    }
    accept(&mut daemon);
}

#[test]
fn daemon_that_no_one_controls_serves_on() {
    let mut daemon = serving();
    assert!(matches!(
        daemon.step(DaemonEvent::from_control(None)),
        DaemonAction::Select { control: false }
    ));
    accept(&mut daemon);
    assert!(matches!(
        daemon.step(DaemonEvent::AcceptFailed),
        DaemonAction::Select { control: false }
    ));
}

#[test]
fn control_message_is_a_request_for_shutdown() {
    assert!(matches!(
        DaemonEvent::from_control(Some(DaemonControlMessage::Shutdown)),
        DaemonEvent::Shutdown
    ));
    assert!(matches!(
        DaemonEvent::from_control(None),
        DaemonEvent::ControlClosed
    ));
}

fn reading() -> ClientStart {
    let (mut client, action) = ClientStart::start();
    assert!(matches!(action, ClientAction::AdoptParent));
    assert!(matches!(client.step(ClientEvent::Done), ClientAction::ReadToken));
    client
}

#[test]
fn client_connects_to_a_forked_daemon() {
    let mut client = reading();
    assert!(matches!(
        client.step(ClientEvent::Token(DaemonReadyToken::Forked)),
        ClientAction::Connect
    ));
    assert!(matches!(client.step(ClientEvent::Done), ClientAction::RunClient));
}

#[test]
fn client_does_not_retry_with_a_forked_daemon() {
    let mut client = reading();
    client.step(ClientEvent::Token(DaemonReadyToken::Forked));
    match client.step(ClientEvent::ConnectFailed(refused())) {
        ClientAction::Fail(Error::ConnectionError(e)) => {
            assert_eq!(e.kind(), io::ErrorKind::ConnectionRefused)
        }
        _ => panic!("no connection error"),
    }
}

#[test]
fn client_retries_once_with_a_running_daemon() {
    assert_eq!(DAEMON_CONNECTION_RETRY_DELAY, 10);
    let mut client = reading();
    client.step(ClientEvent::Token(DaemonReadyToken::Running));
    assert!(matches!(
        client.step(ClientEvent::ConnectFailed(refused())),
        ClientAction::Sleep(10)
    ));
    assert!(matches!(client.step(ClientEvent::Done), ClientAction::Connect));
    assert!(matches!(
        client.step(ClientEvent::ConnectFailed(refused())),
        ClientAction::Fail(Error::ConnectionError(_))
    ));
}

#[test]
fn client_runs_after_the_retry() {
    let mut client = reading();
    client.step(ClientEvent::Token(DaemonReadyToken::Running));
    client.step(ClientEvent::ConnectFailed(refused()));
    client.step(ClientEvent::Done);
    assert!(matches!(client.step(ClientEvent::Done), ClientAction::RunClient));
}

#[test]
fn client_gives_up_on_a_failed_daemon() {
    let mut client = reading();
    assert!(matches!(
        client.step(ClientEvent::Token(DaemonReadyToken::Failed)),
        ClientAction::Fail(Error::DaemonFailed)
    ));
}

#[test]
fn reason_of_the_daemon_reaches_the_client() {
    let sent = DaemonReadyToken::FailedState("no disk".to_owned()).write_to();
    let token = DaemonReadyToken::read_from(&sent).unwrap();
    let mut client = reading();
    match client.step(ClientEvent::Token(token)) {
        ClientAction::Fail(Error::StateFailed(reason)) => assert_eq!(reason, "no disk"),
        _ => panic!("no reason"),
    }
}

#[test]
fn client_without_token_does_not_know_the_status() {
    let mut client = reading();
    assert!(matches!(
        client.step(ClientEvent::Failed),
        ClientAction::Fail(Error::DaemonStatusUnknown)
    ));
    let (mut client, _) = ClientStart::start();
    assert!(matches!(
        client.step(ClientEvent::Failed),
        ClientAction::Fail(Error::DaemonStatusUnknown)
    ));
}

fn forking() -> Launch {
    let (mut launch, action) = Launch::start();
    assert!(matches!(action, LaunchAction::CreatePair));
    assert!(matches!(launch.step(LaunchEvent::Done), LaunchAction::UnblockParent));
    assert!(matches!(launch.step(LaunchEvent::Done), LaunchAction::Fork));
    launch
}

#[test]
fn parent_becomes_the_client() {
    let mut launch = forking();
    assert!(matches!(launch.step(LaunchEvent::Parent), LaunchAction::RunClient));
}

#[test]
fn child_becomes_the_daemon_and_exits() {
    for end in [LaunchEvent::Done, LaunchEvent::Failed] {
        let mut launch = forking();
        assert!(matches!(launch.step(LaunchEvent::Child), LaunchAction::UnblockChild));
        assert!(matches!(launch.step(LaunchEvent::Done), LaunchAction::Daemonize));
        assert!(matches!(launch.step(LaunchEvent::Done), LaunchAction::RunDaemon));
        assert!(matches!(launch.step(end), LaunchAction::Exit(0)));
    }
}

#[test]
fn child_tells_that_a_daemon_is_running() {
    for end in [LaunchEvent::Done, LaunchEvent::Failed] {
        let mut launch = forking();
        launch.step(LaunchEvent::Child);
        launch.step(LaunchEvent::Done);
        assert!(matches!(
            launch.step(LaunchEvent::Failed),
            LaunchAction::Notify(DaemonReadyToken::Running)
        ));
        assert!(matches!(launch.step(end), LaunchAction::Exit(0)));
    }
}

#[test]
fn child_with_a_blocking_stream_exits() {
    let mut launch = forking();
    launch.step(LaunchEvent::Child);
    assert!(matches!(launch.step(LaunchEvent::Failed), LaunchAction::Exit(0)));
}

#[test]
fn failures_before_the_fork_are_fatal() {
    let (mut launch, _) = Launch::start();
    assert!(matches!(
        launch.step(LaunchEvent::Failed),
        LaunchAction::Fail(Error::FatalIO)
    ));
    let (mut launch, _) = Launch::start();
    launch.step(LaunchEvent::Done);
    assert!(matches!(
        launch.step(LaunchEvent::Failed),
        LaunchAction::Fail(Error::FatalIO)
    ));
    let mut launch = forking();
    assert!(matches!(
        launch.step(LaunchEvent::Failed),
        LaunchAction::Fail(Error::FatalFork)
    ));
}

#[test]
fn messages_of_errors() {
    assert_eq!(Error::FatalIO.message(), "fatal I/O error");
    assert_eq!(Error::FatalFork.message(), "fork() error");
    assert_eq!(
        Error::DaemonStatusUnknown.message(),
        "cannot determine spawned daemon status"
    );
    assert_eq!(Error::DaemonFailed.message(), "daemon failed to start");
    assert_eq!(
        Error::StateFailed("no disk".to_owned()).message(),
        "daemon failed to start"
    );
    assert_eq!(
        Error::ConnectionError(refused()).message(),
        "could not connect to daemon: nobody there"
    );
    assert_eq!(connection_message("x"), "could not connect to daemon: x");
}
