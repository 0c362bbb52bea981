use vnc_home::address::{parse_address, Address};
use vnc_home::command::{
    decimal_string, dotted_string, endpoint, kill_command, list_command, session_endpoint,
    start_command, LauncherConfig,
};
use vnc_home::error::LaunchError;
use vnc_home::execution::{ExecAction, ExecEvent, ExecPhase, Execution};
use vnc_home::reply::{extract_trailing_number, is_digit_char, session_id_from_status};
use vnc_home::resolver::{from_discovery, resolve};

fn addr(a: u8, b: u8, c: u8, d: u8) -> Address {
    Address { a, b, c, d }
}

#[test]
fn parse_well_formed_addresses() {
    assert_eq!(parse_address("192.168.0.222"), Some(addr(192, 168, 0, 222)));
    assert_eq!(parse_address("0.0.0.0"), Some(addr(0, 0, 0, 0)));
    assert_eq!(parse_address("255.255.255.255"), Some(addr(255, 255, 255, 255)));
    assert_eq!(parse_address("10.20.30.40"), Some(addr(10, 20, 30, 40)));
}

#[test]
fn parse_malformed_addresses() {
    for s in [
        "1.2.3", "999.1.1.1", "a.b.c.d", "", "1.2.3.4.5", "1..2.3", "01.2.3.4", "1.2.3.256",
        "1.2.3.4 ", " 1.2.3.4", "1.2.3.", ".1.2.3", "1.2.3.1000", "1.2.-3.4",
    ] {
        assert_eq!(parse_address(s), None, "{}", s);
    }
}

#[test]
fn resolve_explicit_address_makes_no_lookup() {
    let mut calls = 0;
    let r = resolve(Some("192.168.1.7".to_string()), Some("pw".to_string()), |_c| {
        calls += 1;
        Ok(addr(1, 1, 1, 1))
    });
    assert_eq!(r, Ok(addr(192, 168, 1, 7)));
    assert_eq!(calls, 0);
}

#[test]
fn resolve_malformed_address_is_invalid_without_lookup() {
    for s in ["1.2.3", "999.1.1.1", "a.b.c.d"] {
        let mut calls = 0;
        let r = resolve(Some(s.to_string()), None, |_c| {
            calls += 1;
            Ok(addr(1, 1, 1, 1))
        });
        assert_eq!(r, Err(LaunchError::InvalidAddress(s.to_string())));
        assert_eq!(calls, 0);
    }
}

#[test]
fn resolve_without_address_asks_lookup_once() {
    let mut calls = 0;
    let mut seen = None;
    let r = resolve(None, Some("secret".to_string()), |c| {
        calls += 1;
        seen = c;
        Ok(addr(10, 0, 0, 5))
    });
    assert_eq!(r, Ok(addr(10, 0, 0, 5)));
    assert_eq!(calls, 1);
    assert_eq!(seen, Some("secret".to_string()));
}

#[test]
fn resolve_lookup_failure_is_passed_on() {
    let mut calls = 0;
    let r = resolve(None, None, |_c| {
        calls += 1;
        Err("authentication rejected".to_string())
    });
    assert_eq!(r, Err(LaunchError::DiscoveryFailed("authentication rejected".to_string())));
    assert_eq!(calls, 1);
    assert_eq!(
        from_discovery(Err("no record".to_string())),
        Err(LaunchError::DiscoveryFailed("no record".to_string()))
    );
    assert_eq!(from_discovery(Ok(addr(1, 2, 3, 4))), Ok(addr(1, 2, 3, 4)));
}

#[test]
fn trailing_number_of_session_listing() {
    assert_eq!(
        extract_trailing_number("TigerVNC server sessions:\nX DESKTOP# ... :5\n"),
        Some(5)
    );
}

#[test]
fn trailing_number_takes_whole_run() {
    assert_eq!(extract_trailing_number("Killing Xvnc process ID 12345"), Some(12345));
}

#[test]
fn trailing_number_absent() {
    assert_eq!(extract_trailing_number("no numbers here"), None);
    assert_eq!(extract_trailing_number(""), None);
    assert_eq!(
        session_id_from_status("no numbers here"),
        Err(LaunchError::SessionIdNotFound("no numbers here".to_string()))
    );
}

#[test]
fn trailing_number_picks_last_of_several_runs() {
    assert_eq!(extract_trailing_number("desktop 12 on display :34 ok"), Some(34));
    assert_eq!(extract_trailing_number("7"), Some(7));
    assert_eq!(extract_trailing_number("007"), Some(7));
    assert_eq!(session_id_from_status("New 'x' desktop is host:3\n"), Ok(3));
}

#[test]
fn trailing_number_limits() {
    assert_eq!(extract_trailing_number("id 4294967295"), Some(4294967295));
    assert_eq!(extract_trailing_number("id 4294967296"), None);
    assert_eq!(extract_trailing_number("id 99999999999999999999999"), None);
    assert!(is_digit_char('0') && is_digit_char('9'));
    assert!(!is_digit_char('a') && !is_digit_char('٣'));
}

#[test]
fn decimal_and_dotted_text() {
    assert_eq!(decimal_string(0), "0");
    assert_eq!(decimal_string(9), "9");
    assert_eq!(decimal_string(10), "10");
    assert_eq!(decimal_string(4294967295), "4294967295");
    assert_eq!(dotted_string(&addr(192, 168, 0, 222)), "192.168.0.222");
    assert_eq!(dotted_string(&addr(0, 10, 100, 255)), "0.10.100.255");
}

#[test]
fn dotted_text_parses_back() {
    for a in [addr(0, 0, 0, 0), addr(1, 20, 203, 255), addr(192, 168, 0, 222)] {
        assert_eq!(parse_address(&dotted_string(&a)), Some(a));
    }
}

#[test]
fn command_templates() {
    let config = LauncherConfig::default();
    assert_eq!(config.viewer_host, addr(192, 168, 0, 222));
    assert_eq!(config.xstartup_path, "/home/dsock/.vnc/init.arg");
    assert_eq!(
        start_command(&config, "firefox"),
        "vncserver -xstartup /home/dsock/.vnc/init.arg -name firefox"
    );
    assert_eq!(kill_command("3"), "vncserver -kill :3");
    assert_eq!(list_command(), "vncserver -list");
}

#[test]
fn viewer_endpoints() {
    let host = addr(192, 168, 0, 222);
    assert_eq!(endpoint(&host, "4"), "192.168.0.222:4");
    assert_eq!(session_endpoint(&host, 12), "192.168.0.222:12");
}

fn closes_in(actions: &[ExecAction]) -> usize {
    actions.iter().filter(|a| matches!(a, ExecAction::Close)).count()
}

fn drive(command: &str, events: Vec<ExecEvent>) -> (Execution, Vec<ExecAction>) {
    let (mut ex, first) = Execution::start(command.to_string());
    let mut actions = vec![first];
    for e in events {
        assert!(ex.can_accept(&e));
        actions.push(ex.step(e));
    }
    (ex, actions)
}

#[test]
fn execution_success_keeps_stderr_on_failure_status() {
    let (ex, actions) = drive(
        "vncserver -kill :3",
        vec![
            ExecEvent::Connected,
            ExecEvent::Completed {
                exit_status: Some(1),
                stdout: String::new(),
                stderr: "Killing Xvnc process ID 12345\n".to_string(),
            },
            ExecEvent::Closed,
        ],
    );
    assert_eq!(ex.phase, ExecPhase::Done);
    assert!(matches!(&actions[0], ExecAction::Connect));
    assert!(matches!(&actions[1], ExecAction::Run(c) if c == "vncserver -kill :3"));
    assert_eq!(closes_in(&actions), 1);
    match &actions[3] {
        ExecAction::Finish(Ok((out, err))) => {
            assert_eq!(out, "");
            assert_eq!(err, "Killing Xvnc process ID 12345\n");
        }
        other => panic!("unexpected {:?}", other),
    }
}

#[test]
fn execution_closes_once_on_every_error_path() {
    let cases = vec![
        (ExecEvent::ConnectFailed("unreachable".to_string()), false,
            LaunchError::ConnectFailed("unreachable".to_string())),
        (ExecEvent::AuthFailed("denied".to_string()), false,
            LaunchError::AuthFailed("denied".to_string())),
        (ExecEvent::DecodeFailed("bad utf-8".to_string()), true,
            LaunchError::DecodeError("bad utf-8".to_string())),
    ];
    for (failure, after_connect, expected) in cases {
        let mut events = Vec::new();
        if after_connect {
            events.push(ExecEvent::Connected);
        }
        events.push(failure);
        events.push(ExecEvent::Closed);
        let (ex, actions) = drive("vncserver -list", events);
        assert_eq!(ex.phase, ExecPhase::Done);
        assert_eq!(closes_in(&actions), 1);
        match actions.last() {
            Some(ExecAction::Finish(Err(e))) => assert_eq!(e, &expected),
            other => panic!("unexpected {:?}", other),
        }
    }
}

#[test]
fn execution_rejects_out_of_turn_events() {
    let (ex, _) = Execution::start("vncserver -list".to_string());
    assert!(!ex.can_accept(&ExecEvent::Closed));
    assert!(!ex.can_accept(&ExecEvent::DecodeFailed(String::new())));
    assert!(ex.can_accept(&ExecEvent::Connected));
}

#[test]
fn execution_failure_while_running_still_closes_once() {
    let (ex, actions) = drive(
        "vncserver -list",
        vec![
            ExecEvent::Connected,
            ExecEvent::AuthFailed("password rejected".to_string()),
            ExecEvent::Closed,
        ],
    );
    assert_eq!(ex.phase, ExecPhase::Done);
    assert_eq!(closes_in(&actions), 1);
    assert!(matches!(
        actions.last(),
        Some(ExecAction::Finish(Err(LaunchError::AuthFailed(m)))) if m == "password rejected"
    ));
}
