use tunnel_core::error::{Error, Kind};
use tunnel_core::identifier::Identifier;
use tunnel_core::inlet::{
    default_to_addr, process_nodes_multiaddr, step, CreateCommand, Inlet, InletAction, InletEvent,
    InletState, InletStatus, KnownNode, Reply, Status,
};
use tunnel_core::multiaddr::MultiAddr;

fn command(to: &str, retry_wait: u64) -> CreateCommand {
    CreateCommand {
        at: None,
        from: "127.0.0.1:5000".to_string(),
        to: to.to_string(),
        authorized: None,
        alias: Some("web".to_string()),
        connection_wait: 5000,
        retry_wait,
        timeout: None,
    }
}

fn failure(status: Option<Status>) -> InletEvent {
    InletEvent::Replied(Reply::Failed { message: None, status })
}

fn established() -> InletStatus {
    InletStatus {
        bind_addr: "127.0.0.1:5000".to_string(),
        alias: "web".to_string(),
        outlet_route: "/service/outlet".to_string(),
    }
}

#[test]
fn test_parse_arg_to() {
    let default_project_name = Some("p1".to_string());

    // Invalid values
    CreateCommand::parse_arg_to("/alice/service", &default_project_name)
        .expect_err("Invalid protocol");
    CreateCommand::parse_arg_to("alice/forwarder", &default_project_name)
        .expect_err("Invalid protocol");

    // The placeholders are replaced in the default value
    let res = CreateCommand::parse_arg_to(&default_to_addr(), &default_project_name).unwrap();
    assert_eq!(res, "/project/p1/service/forward_to_default/secure/api/service/outlet");

    // The user provides a full project route
    let addr = "/project/p1/service/forward_to_n1/secure/api/service/outlet";
    let res = CreateCommand::parse_arg_to(addr, &default_project_name).unwrap();
    assert_eq!(res, addr);

    // The user provides the name of the relay
    let res = CreateCommand::parse_arg_to("alice", &default_project_name).unwrap();
    assert_eq!(res, "/project/p1/service/forward_to_alice/secure/api/service/outlet");
}

#[test]
fn parse_arg_to_says_why_it_fails() {
    let project = Some("p1".to_string());
    let err = CreateCommand::parse_arg_to("/alice/service", &project).unwrap_err();
    assert_eq!(err.kind(), Kind::BadRequest);
    assert_eq!(err.message(), "The relay name can't contain '/'");
    let err = CreateCommand::parse_arg_to("alice/forwarder", &project).unwrap_err();
    assert_eq!(err.message(), "The relay name can't contain '/'");

    let err = CreateCommand::parse_arg_to(&default_to_addr(), &None).unwrap_err();
    assert_eq!(err.kind(), Kind::PreconditionFailed);
    assert_eq!(
        err.message(),
        "There is no default project defined. Please enroll or create a project."
    );
    let err = CreateCommand::parse_arg_to("alice", &None).unwrap_err();
    assert_eq!(err.kind(), Kind::PreconditionFailed);

    let err = CreateCommand::parse_arg_to("alice", &Some("a/b".to_string())).unwrap_err();
    assert_eq!(err.kind(), Kind::BadRequest);
    assert_eq!(err.message(), "Invalid address value or relay name");
}

#[test]
fn parse_arg_to_takes_routes_that_need_no_project() {
    let res = CreateCommand::parse_arg_to("/node/n1/service/outlet", &None).unwrap();
    assert_eq!(res, "/node/n1/service/outlet");
    // a full route without placeholder needs no default project, project route or not
    let addr = "/project/p1/service/forward_to_n1/secure/api/service/outlet";
    assert_eq!(CreateCommand::parse_arg_to(addr, &None).unwrap(), addr);
    // placeholders are filled in wherever they stand
    let res = CreateCommand::parse_arg_to("/service/$RELAY_NAME", &Some("p1".to_string()));
    assert_eq!(res.unwrap(), "/service/default");
    let res = CreateCommand::parse_arg_to("/node/$PROJECT_NAME/service/a", &Some("p1".to_string()));
    assert_eq!(res.unwrap(), "/node/p1/service/a");
    let res = CreateCommand::parse_arg_to("$RELAY_NAME", &Some("p1".to_string()));
    assert_eq!(res.unwrap(), "/project/p1/service/forward_to_default/secure/api/service/outlet");
    // a placeholder without a default project is a failure, wherever it stands
    for to in ["/service/$RELAY_NAME", "/node/$PROJECT_NAME/service/a", "$PROJECT_NAME"] {
        let err = CreateCommand::parse_arg_to(to, &None).unwrap_err();
        assert_eq!(err.kind(), Kind::PreconditionFailed, "target {:?}", to);
        assert_eq!(
            err.message(),
            "There is no default project defined. Please enroll or create a project."
        );
    }
    // what only looks like a placeholder is none
    let res = CreateCommand::parse_arg_to("/service/$RELAY", &None);
    assert_eq!(res.unwrap(), "/service/$RELAY");
    // the project name is filled in before the relay name
    let res = CreateCommand::parse_arg_to(
        "/project/$PROJECT_NAME/service/x",
        &Some("$RELAY_NAME".to_string()),
    );
    assert_eq!(res.unwrap(), "/project/default/service/x");
}

#[test]
fn run_reads_the_target_and_starts_idle() {
    let inlet = command("alice", 20000).run(&Some("p1".to_string())).unwrap();
    assert_eq!(inlet.state(), InletState::Idle);
    assert_eq!(
        inlet.command().to,
        "/project/p1/service/forward_to_alice/secure/api/service/outlet"
    );
    assert_eq!(inlet.command().from, "127.0.0.1:5000");
    assert!(!inlet.is_finished());
    assert_eq!(inlet.status(), None);
    assert!(command("a/b", 0).run(&None).is_err());
}

#[test]
fn occupied_bind_address_fails_before_any_attempt() {
    let mut inlet = Inlet::new(command("/service/outlet", 20000));
    let action = inlet.step(InletEvent::BindTested { free: false });
    match action {
        InletAction::Abort(e) => {
            assert_eq!(e.kind(), Kind::PreconditionFailed);
            assert_eq!(e.message(), "the local address 127.0.0.1:5000 is already in use");
        }
        other => panic!("unexpected action {:?}", other),
    }
    assert_eq!(inlet.state(), InletState::Failed { kind: Kind::PreconditionFailed });
}

#[test]
fn authorized_cannot_go_with_a_project_route() {
    let mut cmd = command("/project/p1/service/forward_to_n1/secure/api/service/outlet", 20000);
    cmd.authorized = Some(Identifier::new("I1234"));
    let (state, action) = step(&cmd, InletState::Idle, InletEvent::BindTested { free: true });
    assert_eq!(state, InletState::Failed { kind: Kind::PreconditionFailed });
    match action {
        InletAction::Abort(e) => {
            assert_eq!(e.message(), "--authorized can not be used with project addresses")
        }
        other => panic!("unexpected action {:?}", other),
    }

    // the project may stand anywhere in the route
    cmd.to = "/node/n1/project/p1/service/outlet".to_string();
    let (state, _) = step(&cmd, InletState::Idle, InletEvent::BindTested { free: true });
    assert_eq!(state, InletState::Failed { kind: Kind::PreconditionFailed });

    // without a project the restriction is fine
    cmd.to = "/node/n1/service/outlet".to_string();
    let (state, action) = step(&cmd, InletState::Idle, InletEvent::BindTested { free: true });
    assert_eq!(state, InletState::Attempting { attempts: 1 });
    match action {
        InletAction::Attempt(request) => {
            assert_eq!(request.authorized, Some(Identifier::new("I1234")));
            assert_eq!(request.to, "/node/n1/service/outlet");
            assert_eq!(request.from, "127.0.0.1:5000");
            assert_eq!(request.alias, Some("web".to_string()));
            assert_eq!(request.connection_wait, 5000);
        }
        other => panic!("unexpected action {:?}", other),
    }
}

#[test]
fn target_that_is_no_address_fails_at_the_start() {
    let (state, action) =
        step(&command("alice", 1), InletState::Idle, InletEvent::BindTested { free: true });
    assert_eq!(state, InletState::Failed { kind: Kind::BadRequest });
    match action {
        InletAction::Abort(e) => assert_eq!(e.message(), "the target alice is not an address"),
        other => panic!("unexpected action {:?}", other),
    }
}

#[test]
fn bad_request_never_retries() {
    let mut inlet = Inlet::new(command("/service/outlet", 20000));
    assert!(matches!(inlet.step(InletEvent::BindTested { free: true }), InletAction::Attempt(_)));
    let action = inlet.step(InletEvent::Replied(Reply::Failed {
        message: Some("not authorized".to_string()),
        status: Some(Status::BadRequest),
    }));
    match action {
        InletAction::Abort(e) => {
            assert_eq!(e.kind(), Kind::BadRequest);
            assert_eq!(e.message(), "not authorized");
        }
        other => panic!("unexpected action {:?}", other),
    }
    assert_eq!(inlet.state(), InletState::Failed { kind: Kind::BadRequest });
    // whatever happens next, nothing is asked again
    assert_eq!(inlet.step(failure(None)), InletAction::Nothing);
    assert_eq!(inlet.step(InletEvent::BindTested { free: true }), InletAction::Nothing);
    assert_eq!(inlet.step(InletEvent::Replied(Reply::Successful(established()))), InletAction::Nothing);
    assert_eq!(inlet.step(InletEvent::TimedOut), InletAction::Nothing);
    assert_eq!(inlet.state(), InletState::Failed { kind: Kind::BadRequest });
    assert_eq!(inlet.status(), None);
}

#[test]
fn bad_request_without_a_message_gets_one() {
    let (_, action) = step(
        &command("/service/outlet", 5),
        InletState::Attempting { attempts: 1 },
        failure(Some(Status::BadRequest)),
    );
    match action {
        InletAction::Abort(e) => assert_eq!(e.message(), "bad request when creating an inlet"),
        other => panic!("unexpected action {:?}", other),
    }
}

#[test]
fn zero_retry_wait_fails_on_the_first_failure() {
    for status in [None, Some(Status::NotFound), Some(Status::InternalServerError)] {
        let mut inlet = Inlet::new(command("/service/outlet", 0));
        inlet.step(InletEvent::BindTested { free: true });
        let action = inlet.step(failure(status));
        match action {
            InletAction::Abort(e) => {
                assert_eq!(e.kind(), Kind::Internal);
                assert_eq!(e.message(), "Failed to create TCP inlet");
            }
            other => panic!("unexpected action {:?}", other),
        }
        assert_eq!(inlet.state(), InletState::Failed { kind: Kind::Internal });
        assert_eq!(inlet.step(failure(status)), InletAction::Nothing);
    }
}

#[test]
fn other_failures_are_retried_after_the_wait() {
    let mut inlet = Inlet::new(command("/service/outlet", 20000));
    inlet.step(InletEvent::BindTested { free: true });
    for attempt in 2..5u64 {
        match inlet.step(failure(Some(Status::NotFound))) {
            InletAction::Retry { wait, message, request } => {
                assert_eq!(wait, 20000);
                assert_eq!(
                    message,
                    "Waiting for inlet /service/outlet to be available... Retrying momentarily"
                );
                assert_eq!(request.to, "/service/outlet");
            }
            other => panic!("unexpected action {:?}", other),
        }
        assert_eq!(inlet.state(), InletState::Attempting { attempts: attempt });
        assert!(!inlet.is_finished());
    }
    let action = inlet.step(InletEvent::Replied(Reply::Successful(established())));
    assert_eq!(action, InletAction::Finish(established()));
    assert_eq!(inlet.state(), InletState::Established);
    assert!(inlet.is_finished());
    assert_eq!(inlet.status(), Some(established()));
    // an established inlet stays as it is
    assert_eq!(inlet.step(failure(None)), InletAction::Nothing);
    assert_eq!(inlet.status(), Some(established()));
}

#[test]
fn the_count_of_attempts_stops_at_the_top() {
    let (state, _) = step(
        &command("/service/outlet", 1),
        InletState::Attempting { attempts: u64::MAX },
        failure(None),
    );
    assert_eq!(state, InletState::Attempting { attempts: u64::MAX });
}

#[test]
fn timeout_ends_the_loop_whatever_the_count() {
    for state in [InletState::Idle, InletState::Attempting { attempts: 17 }] {
        let (next, action) = step(&command("/service/outlet", 20000), state, InletEvent::TimedOut);
        assert_eq!(next, InletState::Failed { kind: Kind::Timeout });
        match action {
            InletAction::Abort(e) => {
                assert_eq!(e.kind(), Kind::Timeout);
                assert_eq!(e.message(), "timed out while creating an inlet to /service/outlet");
            }
            other => panic!("unexpected action {:?}", other),
        }
    }
}

#[test]
fn a_request_that_fails_is_passed_on() {
    let failure = Error::new(Kind::Internal, "connection refused");
    let (state, action) = step(
        &command("/service/outlet", 20000),
        InletState::Attempting { attempts: 3 },
        InletEvent::RequestFailed(failure.clone()),
    );
    assert_eq!(state, InletState::Failed { kind: Kind::Internal });
    assert_eq!(action, InletAction::Abort(failure));
}

#[test]
fn events_that_do_not_fit_the_state_change_nothing() {
    let cmd = command("/service/outlet", 20000);
    let (state, action) = step(&cmd, InletState::Idle, failure(None));
    assert_eq!((state, action), (InletState::Idle, InletAction::Nothing));
    let attempting = InletState::Attempting { attempts: 2 };
    let (state, action) = step(&cmd, attempting, InletEvent::BindTested { free: false });
    assert_eq!((state, action), (attempting, InletAction::Nothing));
    assert!(InletState::Established.is_terminal());
    assert!(!attempting.is_terminal());
}

#[test]
fn fatal_kinds_are_bad_request_and_precondition_failed() {
    assert!(Error::new(Kind::BadRequest, "").is_fatal());
    assert!(Error::new(Kind::PreconditionFailed, "").is_fatal());
    for kind in [Kind::NotFound, Kind::Corruption, Kind::Timeout, Kind::Internal] {
        assert!(!Error::new(kind, "").is_fatal());
    }
}

#[test]
fn the_texts_for_the_user_name_the_addresses() {
    let cmd = command("/service/outlet", 20000);
    assert_eq!(cmd.creating_message(), "Creating TCP Inlet at 127.0.0.1:5000...\n");
    assert_eq!(
        cmd.progress_messages("n1"),
        vec![
            "Creating TCP Inlet on n1...".to_string(),
            "Hosting TCP Socket at 127.0.0.1:5000...".to_string(),
            "Establishing connection to outlet /service/outlet...".to_string(),
        ]
    );
    assert_eq!(
        cmd.established_message("n1"),
        "TCP Inlet 127.0.0.1:5000 on node n1 is now sending traffic\nto the outlet at /service/outlet"
    );
}

fn known(name: &str, address: &str) -> KnownNode {
    KnownNode { name: name.to_string(), address: MultiAddr::from_str(address).unwrap() }
}

#[test]
fn nodes_are_replaced_by_their_addresses() {
    let nodes = vec![
        known("n1", "/dnsaddr/localhost/tcp/4000"),
        known("n2", "/ip4/127.0.0.1/tcp/5000"),
        known("n1", "/dnsaddr/localhost/tcp/9999"),
        known("n3", ""),
    ];
    let address = MultiAddr::from_str("/node/n2/service/a/node/n1/secure/api/node/n3").unwrap();
    let processed = process_nodes_multiaddr(&address, &nodes).unwrap();
    assert_eq!(
        processed.to_string(),
        "/ip4/127.0.0.1/tcp/5000/service/a/dnsaddr/localhost/tcp/4000/secure/api"
    );

    let plain = MultiAddr::from_str("/project/p1/service/a").unwrap();
    assert_eq!(process_nodes_multiaddr(&plain, &nodes).unwrap(), plain);
    assert_eq!(process_nodes_multiaddr(&MultiAddr::new(), &vec![]).unwrap(), MultiAddr::new());

    let unknown = MultiAddr::from_str("/node/n1/node/n9/node/n8").unwrap();
    let err = process_nodes_multiaddr(&unknown, &nodes).unwrap_err();
    assert_eq!(err.kind(), Kind::NotFound);
    assert_eq!(err.message(), "There is no node named 'n9'");
}
