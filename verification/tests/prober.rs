use adb_sync::prober::check_connectivity;
use adb_sync::prober::echo_message;
use adb_sync::prober::ProbeOutcome;
use adb_sync::prober::ECHO_LEN;
use adb_sync::prober::ECHO_MESSAGE;
use adb_sync::prober::PROBE_TIMEOUT_SECS;

#[test]
fn probe_payload() {
    assert_eq!(echo_message(), b"Please echo\n".to_vec());
    assert_eq!(echo_message().len(), ECHO_LEN);
    assert_eq!(&ECHO_MESSAGE, b"Please echo\n");
    assert_eq!(PROBE_TIMEOUT_SECS, 1);
}

#[test]
fn the_only_echoing_candidate_is_chosen() {
    // A times out, B echoes, C answers with other bytes
    let outcomes = vec![
        ProbeOutcome::ConnectFailed,
        ProbeOutcome::Echoed(b"Please echo\n".to_vec()),
        ProbeOutcome::Echoed(b"Please echo!\n".to_vec()),
    ];
    assert_eq!(check_connectivity(&outcomes), Some(1));
}

#[test]
fn the_first_reachable_candidate_wins() {
    let good = || ProbeOutcome::Echoed(echo_message());
    assert_eq!(check_connectivity(&vec![good(), good(), good()]), Some(0));
    assert_eq!(check_connectivity(&vec![ProbeOutcome::IoFailed, good(), good()]), Some(1));
    assert_eq!(check_connectivity(&vec![ProbeOutcome::IoFailed, ProbeOutcome::ConnectFailed, good()]), Some(2));
}

#[test]
fn no_reachable_candidate() {
    assert_eq!(check_connectivity(&Vec::new()), None);
    let outcomes = vec![
        ProbeOutcome::ConnectFailed,
        ProbeOutcome::IoFailed,
        ProbeOutcome::Echoed(b"Please echo".to_vec()),
        ProbeOutcome::Echoed(Vec::new()),
        ProbeOutcome::Echoed(b"please echo\n".to_vec()),
    ];
    assert_eq!(check_connectivity(&outcomes), None);
    assert!(!outcomes[2].is_reachable());
    assert!(ProbeOutcome::Echoed(echo_message()).is_reachable());
}
