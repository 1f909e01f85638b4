use burst::ActivePoll;
use burst::BurstBuilder;
use burst::Error;
use burst::InstanceDescription;
use burst::MachineSetup;
use burst::Orchestrator;
use burst::Outcome;
use burst::Phase;
use burst::ProvisionConfig;
use burst::ProviderError;
use burst::RequestStatus;

fn config() -> ProvisionConfig {
    ProvisionConfig {
        security_groups: vec!["default".to_string()],
        key_name: "access-key".to_string(),
    }
}

fn web_builder() -> BurstBuilder {
    let mut b = BurstBuilder::default();
    b.add_set("web", 2, MachineSetup::new("t2.micro", "ami-123")).unwrap();
    b.set_max_duration(2).unwrap();
    b
}

fn status(req: &str, active: bool, inst: Option<&str>) -> RequestStatus {
    RequestStatus {
        request_id: req.to_string(),
        active,
        instance_id: inst.map(|s| s.to_string()),
    }
}

fn full_desc(id: &str, ty: &str, ip: &str, dns: &str) -> InstanceDescription {
    InstanceDescription {
        instance_id: id.to_string(),
        instance_type: Some(ty.to_string()),
        private_ip: Some(ip.to_string()),
        public_dns: Some(dns.to_string()),
    }
}

/// Drives the "web" run through submission and the active transition,
/// leaving the orchestrator in the cancel-reservation phase with
/// instances i-1 and i-2.
fn web_after_active() -> Orchestrator {
    let mut o = Orchestrator::new(web_builder(), config());
    assert_eq!(o.phase, Phase::Requesting);
    let req = o.next_capacity_request();
    assert_eq!(req.group, "web");
    assert_eq!(req.instance_type, "t2.micro");
    assert_eq!(req.ami, "ami-123");
    assert_eq!(req.count, 2);
    assert_eq!(req.duration_mins, 120);
    assert_eq!(req.security_groups, vec!["default".to_string()]);
    assert_eq!(req.key_name, "access-key");
    o.record_submission(vec!["sir-1".to_string(), "sir-2".to_string()]).unwrap();
    assert_eq!(o.phase, Phase::AwaitActive);
    assert_eq!(o.outstanding_request_ids(), vec!["sir-1".to_string(), "sir-2".to_string()]);
    let statuses = vec![
        status("sir-1", true, Some("i-1")),
        status("sir-2", true, Some("i-2")),
    ];
    assert_eq!(o.on_describe_requests(&statuses), ActivePoll::Ready);
    assert_eq!(o.phase, Phase::CancelRequests);
    assert_eq!(o.assigned_instance_ids(), vec!["i-1".to_string(), "i-2".to_string()]);
    o
}

/// Drives the "web" run up to the remote-setup phase, fleet assembled.
fn web_in_setup() -> Orchestrator {
    let mut o = web_after_active();
    o.on_cancel_ok();
    assert_eq!(o.phase, Phase::AwaitReady);
    let descs = vec![
        full_desc("i-2", "t2.micro", "10.0.0.2", "ec2-2.example"),
        full_desc("i-1", "t2.micro", "10.0.0.1", "ec2-1.example"),
    ];
    assert!(o.on_describe_instances(&descs));
    assert_eq!(o.phase, Phase::Setup);
    o
}

#[test]
fn empty_registry_completes_vacuously() {
    let mut o = Orchestrator::new(BurstBuilder::default(), config());
    assert_eq!(o.phase, Phase::AwaitActive);
    assert_eq!(o.on_describe_requests(&Vec::new()), ActivePoll::Ready);
    assert_eq!(o.phase, Phase::CancelRequests);
    o.on_cancel_ok();
    assert!(o.on_describe_instances(&Vec::new()));
    assert_eq!(o.phase, Phase::Callback);
    o.on_callback_done(true);
    assert_eq!(o.phase, Phase::Teardown);
    assert!(o.assigned_instance_ids().is_empty());
    o.on_terminate_ok();
    assert_eq!(o.outcome(), Outcome::Completed);
}

#[test]
fn await_active_converges_after_transient_errors() {
    let mut o = web_after_active_with_retries(3);
    assert_eq!(o.phase, Phase::CancelRequests);
    assert_eq!(o.fault, None);
    o.on_cancel_ok();
    assert_eq!(o.phase, Phase::AwaitReady);
}

/// The active-state poll sees the identifiers as "not found yet" a
/// bounded number of times, then an all-active answer: it must converge
/// without surfacing an error.
fn web_after_active_with_retries(not_visible_polls: usize) -> Orchestrator {
    let mut o = Orchestrator::new(web_builder(), config());
    let req = o.next_capacity_request();
    assert_eq!(req.count, 2);
    o.record_submission(vec!["sir-1".to_string(), "sir-2".to_string()]).unwrap();
    for _ in 0..not_visible_polls {
        let retry = o.on_provider_error(ProviderError::RequestNotVisible);
        assert!(retry);
        assert_eq!(o.phase, Phase::AwaitActive);
        assert_eq!(o.fault, None);
    }
    // a pending answer changes nothing either
    let pending = vec![
        status("sir-1", true, Some("i-1")),
        status("sir-2", false, None),
    ];
    assert_eq!(o.on_describe_requests(&pending), ActivePoll::NotReady);
    assert_eq!(o.phase, Phase::AwaitActive);
    let statuses = vec![
        status("sir-1", true, Some("i-1")),
        status("sir-2", true, Some("i-2")),
    ];
    assert_eq!(o.on_describe_requests(&statuses), ActivePoll::Ready);
    o
}

#[test]
fn await_active_fatal_error_aborts_without_retry() {
    let mut o = Orchestrator::new(web_builder(), config());
    let _ = o.next_capacity_request();
    o.record_submission(vec!["sir-1".to_string(), "sir-2".to_string()]).unwrap();
    let retry = o.on_provider_error(ProviderError::Other);
    assert!(!retry);
    assert_eq!(o.phase, Phase::Teardown);
    assert_eq!(o.fault, Some(Error::PollFailed));
    o.on_terminate_ok();
    assert_eq!(o.outcome(), Outcome::Aborted);
}

#[test]
fn submission_error_aborts_through_teardown() {
    let mut o = Orchestrator::new(web_builder(), config());
    let _ = o.next_capacity_request();
    o.on_submission_error();
    assert_eq!(o.phase, Phase::Teardown);
    assert_eq!(o.fault, Some(Error::SubmissionFailed));
    assert!(o.assigned_instance_ids().is_empty());
    o.on_terminate_ok();
    assert_eq!(o.outcome(), Outcome::Aborted);
}

#[test]
fn submission_answer_with_wrong_count_is_refused() {
    let mut o = Orchestrator::new(web_builder(), config());
    let _ = o.next_capacity_request();
    let r = o.record_submission(vec!["sir-1".to_string()]);
    assert_eq!(r, Err(Error::SubmissionFailed));
    assert_eq!(o.phase, Phase::Teardown);
    assert_eq!(o.fault, Some(Error::SubmissionFailed));
}

#[test]
fn submission_answer_with_duplicate_ids_is_refused() {
    let mut o = Orchestrator::new(web_builder(), config());
    let _ = o.next_capacity_request();
    let r = o.record_submission(vec!["sir-1".to_string(), "sir-1".to_string()]);
    assert_eq!(r, Err(Error::SubmissionFailed));
    assert_eq!(o.phase, Phase::Teardown);
}

#[test]
fn colliding_instance_ids_are_malformed() {
    let mut o = Orchestrator::new(web_builder(), config());
    let _ = o.next_capacity_request();
    o.record_submission(vec!["sir-1".to_string(), "sir-2".to_string()]).unwrap();
    let statuses = vec![
        status("sir-1", true, Some("i-1")),
        status("sir-2", true, Some("i-1")),
    ];
    assert_eq!(o.on_describe_requests(&statuses), ActivePoll::Malformed);
    assert_eq!(o.phase, Phase::Teardown);
    assert_eq!(o.fault, Some(Error::PollFailed));
    assert!(o.assigned_instance_ids().is_empty());
}

#[test]
fn readiness_poll_retries_until_metadata_is_full() {
    let mut o = web_after_active();
    o.on_cancel_ok();
    let partial = vec![
        full_desc("i-1", "t2.micro", "10.0.0.1", "ec2-1.example"),
        InstanceDescription {
            instance_id: "i-2".to_string(),
            instance_type: Some("t2.micro".to_string()),
            private_ip: Some("10.0.0.2".to_string()),
            public_dns: None,
        },
    ];
    assert!(!o.on_describe_instances(&partial));
    assert_eq!(o.phase, Phase::AwaitReady);
    let missing = vec![full_desc("i-1", "t2.micro", "10.0.0.1", "ec2-1.example")];
    assert!(!o.on_describe_instances(&missing));
    assert_eq!(o.phase, Phase::AwaitReady);
    let full = vec![
        full_desc("i-1", "t2.micro", "10.0.0.1", "ec2-1.example"),
        full_desc("i-2", "t2.micro", "10.0.0.2", "ec2-2.example"),
    ];
    assert!(o.on_describe_instances(&full));
    assert_eq!(o.phase, Phase::Setup);
}

#[test]
fn readiness_delivers_requested_count_per_group() {
    let mut b = BurstBuilder::default();
    b.add_set("web", 2, MachineSetup::new("t2.micro", "ami-123")).unwrap();
    b.add_set("db", 1, MachineSetup::new("m4.large", "ami-777")).unwrap();
    let mut o = Orchestrator::new(b, config());
    let _ = o.next_capacity_request();
    o.record_submission(vec!["sir-1".to_string(), "sir-2".to_string()]).unwrap();
    let _ = o.next_capacity_request();
    o.record_submission(vec!["sir-3".to_string()]).unwrap();
    let statuses = vec![
        status("sir-1", true, Some("i-1")),
        status("sir-2", true, Some("i-2")),
        status("sir-3", true, Some("i-3")),
    ];
    assert_eq!(o.on_describe_requests(&statuses), ActivePoll::Ready);
    o.on_cancel_ok();
    let descs = vec![
        full_desc("i-3", "m4.large", "10.0.0.3", "ec2-3.example"),
        full_desc("i-1", "t2.micro", "10.0.0.1", "ec2-1.example"),
        full_desc("i-2", "t2.micro", "10.0.0.2", "ec2-2.example"),
    ];
    assert!(o.on_describe_instances(&descs));
    // one fleet entry per group, machine count equal to the requested count
    assert_eq!(o.fleet.len(), 2);
    assert_eq!(o.fleet[0].0, "web");
    assert_eq!(o.fleet[0].1.len(), 2);
    assert_eq!(o.fleet[1].0, "db");
    assert_eq!(o.fleet[1].1.len(), 1);
    assert_eq!(o.fleet[0].1[0].instance_id, "i-1");
    assert_eq!(o.fleet[0].1[1].instance_id, "i-2");
    assert_eq!(o.fleet[1].1[0].instance_id, "i-3");
}

#[test]
fn teardown_covers_assigned_set_after_setup_failure() {
    // pinned regression: a remote-setup failure must still reach
    // teardown over exactly the assigned instances
    let mut o = web_in_setup();
    let (group, dns) = o.next_setup_target();
    assert_eq!(group, "web");
    assert_eq!(dns, "ec2-1.example");
    o.on_setup_failed();
    assert_eq!(o.phase, Phase::Teardown);
    assert_eq!(o.fault, Some(Error::SetupFailed));
    assert_eq!(o.assigned_instance_ids(), vec!["i-1".to_string(), "i-2".to_string()]);
    o.on_terminate_ok();
    assert_eq!(o.outcome(), Outcome::AbortedWithCleanup);
}

#[test]
fn teardown_covers_assigned_set_after_callback_failure() {
    let mut o = web_in_setup();
    o.on_session_attached(0);
    o.on_session_attached(1);
    assert_eq!(o.phase, Phase::Callback);
    o.on_callback_done(false);
    assert_eq!(o.phase, Phase::Teardown);
    assert!(!o.callback_ok);
    assert_eq!(o.assigned_instance_ids(), vec!["i-1".to_string(), "i-2".to_string()]);
    o.on_terminate_ok();
    assert_eq!(o.phase, Phase::Done);
}

#[test]
fn teardown_retries_transient_transport_errors() {
    let mut o = web_in_setup();
    o.on_session_attached(0);
    o.on_session_attached(1);
    o.on_callback_done(true);
    assert_eq!(o.phase, Phase::Teardown);
    assert!(o.on_provider_error(ProviderError::TransportDisconnect));
    assert_eq!(o.phase, Phase::Teardown);
    assert!(o.on_provider_error(ProviderError::TransportDisconnect));
    assert_eq!(o.phase, Phase::Teardown);
    o.on_terminate_ok();
    assert_eq!(o.outcome(), Outcome::Completed);
}

#[test]
fn teardown_fatal_error_is_reported() {
    let mut o = web_in_setup();
    o.on_session_attached(0);
    o.on_session_attached(1);
    o.on_callback_done(true);
    assert!(!o.on_provider_error(ProviderError::Other));
    assert_eq!(o.phase, Phase::Done);
    assert!(o.teardown_failed);
    assert_eq!(o.outcome(), Outcome::CleanupFailed);
    assert_eq!(o.run_error(), Some(Error::TeardownFailed));
}

#[test]
fn request_not_visible_is_not_transient_during_teardown() {
    let mut o = web_in_setup();
    o.on_setup_failed();
    assert!(!o.on_provider_error(ProviderError::RequestNotVisible));
    assert_eq!(o.outcome(), Outcome::CleanupFailed);
}

#[test]
fn end_to_end_web_run() {
    let mut o = web_in_setup();
    // remote setup walks both machines in order
    let (g1, d1) = o.next_setup_target();
    assert_eq!((g1.as_str(), d1.as_str()), ("web", "ec2-1.example"));
    o.on_session_attached(0);
    assert_eq!(o.phase, Phase::Setup);
    let (g2, d2) = o.next_setup_target();
    assert_eq!((g2.as_str(), d2.as_str()), ("web", "ec2-2.example"));
    o.on_session_attached(1);
    assert_eq!(o.phase, Phase::Callback);
    // the fleet handed over: {"web": [i-1, i-2]}, full metadata, live sessions
    assert_eq!(o.fleet.len(), 1);
    assert_eq!(o.fleet[0].0, "web");
    assert_eq!(o.fleet[0].1.len(), 2);
    let m1 = &o.fleet[0].1[0];
    assert_eq!(m1.instance_id, "i-1");
    assert_eq!(m1.instance_type, "t2.micro");
    assert_eq!(m1.private_ip, "10.0.0.1");
    assert_eq!(m1.public_dns, "ec2-1.example");
    assert_eq!(m1.session, Some(0));
    let m2 = &o.fleet[0].1[1];
    assert_eq!(m2.instance_id, "i-2");
    assert_eq!(m2.session, Some(1));
    o.on_callback_done(true);
    // exactly one terminate call, covering {i-1, i-2}
    assert_eq!(o.phase, Phase::Teardown);
    assert_eq!(o.assigned_instance_ids(), vec!["i-1".to_string(), "i-2".to_string()]);
    o.on_terminate_ok();
    assert_eq!(o.phase, Phase::Done);
    assert!(o.callback_ok);
    assert_eq!(o.outcome(), Outcome::Completed);
}
