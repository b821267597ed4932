use std::collections::HashMap;
use std::time::Duration;

use with_daemon::config::{Config, Field};
use with_daemon::handler::{Handler, HandlerAction, HandlerEvent};
use with_daemon::monitor::{MonitorAction, MonitorClient, MonitorEvent};
use with_daemon::monitor_daemon::{MonitorDaemon, MonitorDaemonAction, MonitorDaemonEvent};
use with_daemon::protocol::ReadyToken;
use with_daemon::startup::{Startup, StartupAction, StartupEvent};
use with_daemon::wire::{decode_words, encode_pids};

fn failed() -> StartupEvent {
    StartupEvent::Failed("oops".to_owned())
}

fn message(action: StartupAction) -> Option<String> {
    match action {
        StartupAction::Return(Err(message)) => message,
        _ => panic!("no failure"),
    }
}

fn forking() -> Startup {
    let (mut startup, action) = Startup::start();
    assert!(matches!(action, StartupAction::CreatePair));
    assert!(matches!(startup.step(StartupEvent::Done), StartupAction::Fork));
    startup
}

fn reading() -> Startup {
    let mut startup = forking();
    assert!(matches!(
        startup.step(StartupEvent::Parent),
        StartupAction::UnblockClient
    ));
    assert!(matches!(
        startup.step(StartupEvent::Done),
        StartupAction::AdoptClient
    ));
    assert!(matches!(startup.step(StartupEvent::Done), StartupAction::ReadToken));
    startup
}

fn announcing() -> Startup {
    let mut startup = forking();
    assert!(matches!(startup.step(StartupEvent::Child), StartupAction::Daemonize));
    assert!(matches!(
        startup.step(StartupEvent::Done),
        StartupAction::UnblockDaemon
    ));
    assert!(matches!(
        startup.step(StartupEvent::Done),
        StartupAction::AdoptDaemon
    ));
    assert!(matches!(startup.step(StartupEvent::Done), StartupAction::RunDaemon));
    startup
}

#[test]
fn monitor_client_connects_to_a_forked_daemon() {
    let mut startup = reading();
    assert!(matches!(
        startup.step(StartupEvent::Token(ReadyToken::DaemonForked)),
        StartupAction::Connect
    ));
    assert!(matches!(startup.step(StartupEvent::Done), StartupAction::RunClient));
    assert!(matches!(
        startup.step(StartupEvent::Done),
        StartupAction::Return(Ok(()))
    ));
}

#[test]
fn monitor_client_retries_once_with_a_running_daemon() {
    let mut startup = reading();
    startup.step(StartupEvent::Token(ReadyToken::DaemonRunning));
    assert!(matches!(startup.step(failed()), StartupAction::Sleep(10)));
    assert!(matches!(startup.step(StartupEvent::Done), StartupAction::Connect));
    assert_eq!(
        message(startup.step(failed())),
        Some("could not communicate with daemon after retry: oops".to_owned())
    );
}

#[test]
fn monitor_client_runs_after_the_retry() {
    let mut startup = reading();
    startup.step(StartupEvent::Token(ReadyToken::DaemonRunning));
    startup.step(failed());
    startup.step(StartupEvent::Done);
    assert!(matches!(startup.step(StartupEvent::Done), StartupAction::RunClient));
    assert_eq!(message(startup.step(failed())), Some("oops".to_owned()));
}

#[test]
fn monitor_client_does_not_retry_with_a_forked_daemon() {
    let mut startup = reading();
    startup.step(StartupEvent::Token(ReadyToken::DaemonForked));
    assert_eq!(
        message(startup.step(failed())),
        Some("could not communicate with just spawned daemon: oops".to_owned())
    );
}

#[test]
fn monitor_client_gives_up_on_a_failed_daemon() {
    let mut startup = reading();
    assert_eq!(
        message(startup.step(StartupEvent::Token(ReadyToken::DaemonFailed))),
        Some("daemon failed to start".to_owned())
    );
}

#[test]
fn monitor_failures_before_the_client_runs() {
    let (mut startup, _) = Startup::start();
    assert_eq!(
        message(startup.step(failed())),
        Some("could not create UnixStream pair: oops".to_owned())
    );
    let mut startup = forking();
    assert_eq!(message(startup.step(failed())), None);
    let mut startup = forking();
    startup.step(StartupEvent::Parent);
    assert_eq!(
        message(startup.step(failed())),
        Some("could not set UnixStream nonblocking: oops".to_owned())
    );
    let mut startup = forking();
    startup.step(StartupEvent::Parent);
    startup.step(StartupEvent::Done);
    assert_eq!(
        message(startup.step(failed())),
        Some("error tokioing UnixStream to fork: oops".to_owned())
    );
    let mut startup = reading();
    assert_eq!(
        message(startup.step(failed())),
        Some("error reading from fork parent: oops".to_owned())
    );
}

#[test]
fn monitor_child_tells_that_a_daemon_is_running() {
    let mut startup = forking();
    startup.step(StartupEvent::Child);
    match startup.step(failed()) {
        StartupAction::Tell(bytes) => assert_eq!(bytes, vec![0x4e, 0xa1, 0xab, 0x1e]),
        _ => panic!("nothing told"),
    }
    assert!(matches!(
        startup.step(StartupEvent::Done),
        StartupAction::Return(Ok(()))
    ));
    let mut startup = forking();
    startup.step(StartupEvent::Child);
    startup.step(failed());
    assert_eq!(
        message(startup.step(failed())),
        Some("error writing to parent: oops".to_owned())
    );
}

#[test]
fn monitor_daemon_never_ends_in_good_order() {
    let mut startup = announcing();
    assert!(matches!(
        startup.step(StartupEvent::Done),
        StartupAction::AwaitDaemon
    ));
    assert_eq!(
        message(startup.step(StartupEvent::DaemonEnded("gone".to_owned()))),
        Some("gone".to_owned())
    );
    let mut startup = announcing();
    assert_eq!(
        message(startup.step(StartupEvent::DaemonEnded("gone".to_owned()))),
        Some("gone".to_owned())
    );
}

#[test]
fn monitor_failures_of_the_daemon_process() {
    let mut startup = announcing();
    assert_eq!(
        message(startup.step(failed())),
        Some("error writing to fork parent: oops".to_owned())
    );
    let mut startup = forking();
    startup.step(StartupEvent::Child);
    startup.step(StartupEvent::Done);
    assert_eq!(
        message(startup.step(failed())),
        Some("could not set UnixStream nonblocking: oops".to_owned())
    );
    let mut startup = forking();
    startup.step(StartupEvent::Child);
    startup.step(StartupEvent::Done);
    startup.step(StartupEvent::Done);
    assert_eq!(
        message(startup.step(failed())),
        Some("error tokioing UnixStream to fork: oops".to_owned())
    );
}

fn socket_failed() -> MonitorDaemonEvent {
    MonitorDaemonEvent::Failed("oops".to_owned())
}

fn socket_message(action: MonitorDaemonAction) -> String {
    match action {
        MonitorDaemonAction::Return(message) => message,
        other => panic!("unexpected {:?}", other),
    }
}

#[test]
fn monitor_daemon_replaces_an_old_socket() {
    let (mut daemon, action) = MonitorDaemon::start("/tmp/s");
    assert!(matches!(action, MonitorDaemonAction::Probe));
    assert!(matches!(
        daemon.step(MonitorDaemonEvent::Probed(true)),
        MonitorDaemonAction::Remove
    ));
    assert!(matches!(
        daemon.step(MonitorDaemonEvent::Done),
        MonitorDaemonAction::Bind
    ));
    assert!(matches!(
        daemon.step(MonitorDaemonEvent::Done),
        MonitorDaemonAction::Start
    ));
    assert!(matches!(
        daemon.step(MonitorDaemonEvent::Done),
        MonitorDaemonAction::Accept
    ));
}

#[test]
fn monitor_daemon_starts_without_an_old_socket() {
    let (mut daemon, _) = MonitorDaemon::start("/tmp/s");
    assert!(matches!(
        daemon.step(MonitorDaemonEvent::Probed(false)),
        MonitorDaemonAction::Bind
    ));
}

#[test]
fn monitor_daemon_serves_for_ever() {
    let (mut daemon, _) = MonitorDaemon::start("/tmp/s");
    daemon.step(MonitorDaemonEvent::Probed(false));
    daemon.step(MonitorDaemonEvent::Done);
    daemon.step(MonitorDaemonEvent::Done);
    for _ in 0..3 {
        assert!(matches!(
            daemon.step(MonitorDaemonEvent::Done),
            MonitorDaemonAction::Spawn
        ));
        assert!(matches!(
            daemon.step(MonitorDaemonEvent::Done),
            MonitorDaemonAction::Accept
        ));
        assert!(matches!(
            daemon.step(socket_failed()),
            MonitorDaemonAction::Accept
        ));
    }
}

#[test]
fn monitor_daemon_says_what_is_wrong_with_its_socket() {
    let (mut daemon, _) = MonitorDaemon::start("/tmp/s");
    assert_eq!(
        socket_message(daemon.step(socket_failed())),
        "could not use file /tmp/s as socket: oops"
    );
    let (mut daemon, _) = MonitorDaemon::start("/tmp/s");
    daemon.step(MonitorDaemonEvent::Probed(true));
    assert_eq!(
        socket_message(daemon.step(socket_failed())),
        "could not remove old socket file: oops"
    );
    let (mut daemon, _) = MonitorDaemon::start("/tmp/s");
    daemon.step(MonitorDaemonEvent::Probed(false));
    assert_eq!(
        socket_message(daemon.step(socket_failed())),
        "error creating socket: oops"
    );
}

fn config(pids: Vec<i32>, timeout: Option<Duration>) -> Config<f32> {
    Config { pids, timeout, fields: vec![Field::Sum, Field::AllLoads] }
}

/// A client that has sent what it asks for.
fn asking(pids: Vec<i32>, timeout: Option<Duration>) -> MonitorClient {
    let expected = encode_pids(&pids);
    let (mut client, action) = MonitorClient::start(&config(pids, timeout));
    match action {
        MonitorAction::Send(bytes) => assert_eq!(bytes, expected),
        _ => panic!("nothing sent"),
    }
    assert!(matches!(client.step(MonitorEvent::Done), MonitorAction::Flush));
    assert!(matches!(client.step(MonitorEvent::Done), MonitorAction::Close));
    if timeout.is_some() {
        assert!(matches!(client.step(MonitorEvent::Done), MonitorAction::StartClock));
    }
    assert!(matches!(client.step(MonitorEvent::Done), MonitorAction::ReadWord));
    client
}

fn printed(action: MonitorAction) -> Vec<u32> {
    match action {
        MonitorAction::Print(words) => words,
        _ => panic!("nothing printed"),
    }
}

#[test]
fn client_prints_a_line_for_each_answer() {
    let mut client = asking(vec![7, 8], None);
    for round in 0..3 {
        assert!(matches!(
            client.step(MonitorEvent::Word(round)),
            MonitorAction::ReadWord
        ));
        assert_eq!(
            printed(client.step(MonitorEvent::Word(round + 10))),
            vec![round, round + 10]
        );
        assert!(matches!(client.step(MonitorEvent::Done), MonitorAction::ReadWord));
    }
    assert!(matches!(
        client.step(MonitorEvent::End),
        MonitorAction::Return(Ok(()))
    ));
}

#[test]
fn client_prints_what_is_left_at_the_end() {
    let mut client = asking(vec![7, 8], None);
    client.step(MonitorEvent::Word(1));
    assert_eq!(printed(client.step(MonitorEvent::End)), vec![1]);
    assert!(matches!(
        client.step(MonitorEvent::Done),
        MonitorAction::Return(Ok(()))
    ));
}

#[test]
fn client_ends_when_the_timeout_has_passed() {
    let mut client = asking(vec![7], Some(Duration::from_secs(1)));
    assert_eq!(printed(client.step(MonitorEvent::Word(1))), vec![1]);
    assert!(matches!(client.step(MonitorEvent::Done), MonitorAction::CheckClock));
    assert!(matches!(
        client.step(MonitorEvent::Expired(false)),
        MonitorAction::ReadWord
    ));
    client.step(MonitorEvent::Word(2));
    client.step(MonitorEvent::Done);
    assert!(matches!(
        client.step(MonitorEvent::Expired(true)),
        MonitorAction::Return(Ok(()))
    ));
}

#[test]
fn silent_daemon_does_not_outlast_the_timeout() {
    let mut client = asking(vec![7, 8], Some(Duration::from_secs(1)));
    assert!(matches!(
        client.step(MonitorEvent::Expired(false)),
        MonitorAction::ReadWord
    ));
    client.step(MonitorEvent::Word(1));
    assert!(matches!(
        client.step(MonitorEvent::Expired(true)),
        MonitorAction::Return(Ok(()))
    ));
    let mut client = asking(vec![7], Some(Duration::from_secs(1)));
    assert!(matches!(
        client.step(MonitorEvent::Expired(true)),
        MonitorAction::Return(Ok(()))
    ));
}

#[test]
fn client_says_what_it_could_not_send() {
    let expected = [
        "error writing to server: oops",
        "error flushing stream: oops",
        "error shutting down stream: oops",
    ];
    for (steps, text) in expected.iter().enumerate() {
        let (mut client, _) = MonitorClient::start(&config(vec![1], None));
        for _ in 0..steps {
            client.step(MonitorEvent::Done);
        }
        match client.step(MonitorEvent::Failed("oops".to_owned())) {
            MonitorAction::Return(Err(message)) => assert_eq!(message, *text),
            _ => panic!("no failure"),
        }
    }
}

fn answering(pids: &[i32]) -> Handler {
    let (mut handler, action) = Handler::start();
    assert!(matches!(action, HandlerAction::ReadRequest));
    assert!(matches!(
        handler.step(HandlerEvent::Request(encode_pids(pids))),
        HandlerAction::Receive
    ));
    handler
}

#[test]
fn handler_answers_for_the_processes_that_were_asked_for() {
    let handler = answering(&[3, 9, 3]);
    let loads = HashMap::from([(3, 0.5), (4, 0.25)]);
    let answer = handler.answer(&loads, f32::NAN);
    assert_eq!(answer.len(), 3);
    assert_eq!(answer[0], 0.5);
    assert!(answer[1].is_nan());
    assert_eq!(answer[2], 0.5);
}

#[test]
fn answers_reach_the_client() {
    let mut handler = answering(&[3, 9]);
    let loads = HashMap::from([(3, 30u32), (4, 40)]);
    let words = handler.answer_words(&loads, 1, |load: u32| load);
    let bytes = match handler.step(HandlerEvent::Answer(words)) {
        HandlerAction::Send(bytes) => bytes,
        _ => panic!("nothing sent"),
    };
    let mut client = asking(vec![3, 9], None);
    let received = decode_words(&bytes);
    client.step(MonitorEvent::Word(received[0]));
    assert_eq!(
        printed(client.step(MonitorEvent::Word(received[1]))),
        vec![30, 1]
    );
}

#[test]
fn answer_is_sent_as_the_words_of_its_loads() {
    let handler = answering(&[3, 9]);
    let loads: HashMap<i32, f32> = HashMap::from([(3, 0.5)]);
    assert_eq!(
        handler.answer_words(&loads, 1.0, f32::to_bits),
        vec![0x3f00_0000, 0x3f80_0000]
    );
}

#[test]
fn handler_serves_until_sending_fails() {
    let mut handler = answering(&[3]);
    assert!(matches!(handler.step(HandlerEvent::Missed), HandlerAction::Receive));
    for _ in 0..3 {
        match handler.step(HandlerEvent::Answer(vec![0x0102_0304])) {
            HandlerAction::Send(bytes) => assert_eq!(bytes, vec![1, 2, 3, 4]),
            _ => panic!("nothing sent"),
        }
        assert!(matches!(handler.step(HandlerEvent::Done), HandlerAction::Flush));
        assert!(matches!(handler.step(HandlerEvent::Done), HandlerAction::Receive));
    }
    handler.step(HandlerEvent::Answer(vec![0]));
    assert!(matches!(handler.step(HandlerEvent::Failed), HandlerAction::Close));
    assert!(matches!(handler.step(HandlerEvent::Failed), HandlerAction::End));
}

#[test]
fn handler_closes_when_flushing_fails() {
    let mut handler = answering(&[3]);
    handler.step(HandlerEvent::Answer(vec![0]));
    handler.step(HandlerEvent::Done);
    assert!(matches!(handler.step(HandlerEvent::Failed), HandlerAction::Close));
    assert!(matches!(handler.step(HandlerEvent::Done), HandlerAction::End));
}
