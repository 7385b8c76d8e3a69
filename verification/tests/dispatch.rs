use arp_spoof_detector::cache::BindingCache;
use arp_spoof_detector::local::run_cycle;
use arp_spoof_detector::remote::{
    endpoint, warning, warning_start, Action, DispatchResult, Stage,
};
use arp_spoof_detector::utils::{LoggerOptions, Proto};

fn options(proto: Proto) -> LoggerOptions {
    LoggerOptions {
        syslog_ip: "192.168.0.10".to_string(),
        syslog_port: "1468".to_string(),
        proto,
        local_ip: "192.168.0.2".to_string(),
        local_port: "9999".to_string(),
        timeout: "3".to_string(),
    }
}

/// Runs one attempt, with the outcomes of the operations taken in turn from
/// `outcomes`, and gives the actions decided and the result.
fn attempt(options: &LoggerOptions, outcomes: &[bool]) -> (Vec<Action>, DispatchResult) {
    let mut actions = Vec::new();
    let mut outcomes = outcomes.iter();
    let (mut stage, mut action) = warning_start(options);
    loop {
        actions.push(action.clone());
        if let Action::Stop(result) = action {
            assert_eq!(stage, Stage::Done(result));
            return (actions, result);
        }
        (stage, action) = warning(options, stage, *outcomes.next().unwrap());
    }
}

#[test]
fn attempt_starts_by_protocol() {
    assert_eq!(
        warning_start(&options(Proto::Udp)),
        (Stage::Binding, Action::Bind("192.168.0.2:9999".to_string()))
    );
    assert_eq!(
        warning_start(&options(Proto::Tcp)),
        (Stage::Connecting, Action::Connect("192.168.0.10:1468".to_string()))
    );
}

#[test]
fn endpoint_joins_address_and_port() {
    assert_eq!(endpoint("127.0.0.1", "1468"), "127.0.0.1:1468");
    assert_eq!(endpoint("", ""), ":");
}

#[test]
fn datagram_attempt_binds_connects_and_sends() {
    let (actions, result) = attempt(&options(Proto::Udp), &[true, true, true]);
    assert_eq!(
        actions,
        vec![
            Action::Bind("192.168.0.2:9999".to_string()),
            Action::Connect("192.168.0.10:1468".to_string()),
            Action::Send,
            Action::Stop(DispatchResult::Sent),
        ]
    );
    assert_eq!(result, DispatchResult::Sent);
}

#[test]
fn stream_attempt_connects_and_writes() {
    let (actions, result) = attempt(&options(Proto::Tcp), &[true, true]);
    assert_eq!(
        actions,
        vec![
            Action::Connect("192.168.0.10:1468".to_string()),
            Action::Send,
            Action::Stop(DispatchResult::Sent),
        ]
    );
    assert_eq!(result, DispatchResult::Sent);
}

#[test]
fn failed_bind_ends_the_attempt() {
    let (actions, result) = attempt(&options(Proto::Udp), &[false]);
    assert_eq!(
        actions,
        vec![
            Action::Bind("192.168.0.2:9999".to_string()),
            Action::Stop(DispatchResult::BindFailed)
        ]
    );
    assert_eq!(result, DispatchResult::BindFailed);
}

#[test]
fn failed_connect_ends_the_attempt() {
    assert_eq!(attempt(&options(Proto::Udp), &[true, false]).1, DispatchResult::ConnectFailed);
    let (actions, result) = attempt(&options(Proto::Tcp), &[false]);
    assert_eq!(
        actions,
        vec![
            Action::Connect("192.168.0.10:1468".to_string()),
            Action::Stop(DispatchResult::ConnectFailed)
        ]
    );
    assert_eq!(result, DispatchResult::ConnectFailed);
}

#[test]
fn failed_send_ends_the_attempt() {
    assert_eq!(attempt(&options(Proto::Udp), &[true, true, false]).1, DispatchResult::SendFailed);
    assert_eq!(attempt(&options(Proto::Tcp), &[true, false]).1, DispatchResult::SendFailed);
}

#[test]
fn finished_attempt_stays_finished() {
    for result in [
        DispatchResult::Sent,
        DispatchResult::BindFailed,
        DispatchResult::ConnectFailed,
        DispatchResult::SendFailed,
    ] {
        for succeeded in [true, false] {
            let (stage, action) = warning(&options(Proto::Udp), Stage::Done(result), succeeded);
            assert_eq!(stage, Stage::Done(result));
            assert_eq!(action, Action::Stop(result));
        }
    }
}

#[test]
fn failed_dispatch_leaves_detection_untouched() {
    let mut cache = BindingCache::new();
    let mut reference = BindingCache::new();
    let first = "10.0.0.5 aa:aa eth0\n";
    let second = "10.0.0.5 bb:bb eth0\n";

    for message in run_cycle(&mut cache, first) {
        assert!(!message.is_empty());
        let (_, result) = attempt(&options(Proto::Tcp), &[false]);
        assert_eq!(result, DispatchResult::ConnectFailed);
    }
    run_cycle(&mut reference, first);
    assert_eq!(cache.get(0x0a00_0005), Some("aa:aa".to_string()));
    assert_eq!(cache.len(), reference.len());

    let after_failure = run_cycle(&mut cache, second);
    let without_failure = run_cycle(&mut reference, second);
    assert_eq!(after_failure, without_failure);
    assert_eq!(after_failure.len(), 1);
    assert_eq!(cache.get(0x0a00_0005), Some("bb:bb".to_string()));
}
