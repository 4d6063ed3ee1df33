use tunnel_core::enroll::{
    enrollment_report, next_step, retrieve_project, retrieve_space, text_lt, AppState, EnrollStep,
    EnrollmentOutcome, NotificationKind, OrchestratorStatus, Project, Refresh, Space, StepResult,
};
use tunnel_core::error::{Error, Kind};

fn space(id: &str, name: &str) -> Space {
    Space { id: id.to_string(), name: name.to_string() }
}

fn project(name: &str, admins: &[&str]) -> Project {
    Project { name: name.to_string(), admins: admins.iter().map(|a| a.to_string()).collect() }
}

#[test]
fn the_steps_of_an_enrollment_go_in_one_order() {
    let mut step = EnrollStep::CheckEnrolled;
    let mut shown = Vec::new();
    let results = [
        StepResult::Enrolled(false),
        StepResult::Completed,
        StepResult::UserInfo { email_verified: true },
        StepResult::Completed,
        StepResult::Completed,
        StepResult::Completed,
        StepResult::Completed,
        StepResult::Completed,
    ];
    let mut steps = vec![step];
    for result in results {
        let (next, status) = next_step(step, result);
        step = next;
        steps.push(step);
        shown.extend(status);
    }
    assert_eq!(
        steps,
        vec![
            EnrollStep::CheckEnrolled,
            EnrollStep::GetToken,
            EnrollStep::GetUserInfo,
            EnrollStep::StoreUser,
            EnrollStep::EnrollWithController,
            EnrollStep::RetrieveSpace,
            EnrollStep::RetrieveProject,
            EnrollStep::MarkEnrolled,
            EnrollStep::Done(EnrollmentOutcome::Successful),
        ]
    );
    assert_eq!(
        shown,
        vec![
            OrchestratorStatus::WaitingForToken,
            OrchestratorStatus::RetrievingSpace,
            OrchestratorStatus::RetrievingProject,
        ]
    );
}

#[test]
fn an_enrollment_ends_early_twice() {
    assert_eq!(
        next_step(EnrollStep::CheckEnrolled, StepResult::Enrolled(true)),
        (EnrollStep::Done(EnrollmentOutcome::AlreadyEnrolled), None)
    );
    assert_eq!(
        next_step(EnrollStep::GetUserInfo, StepResult::UserInfo { email_verified: false }),
        (EnrollStep::Done(EnrollmentOutcome::PendingValidation), None)
    );
    // a result that does not belong to the step changes nothing
    assert_eq!(
        next_step(EnrollStep::GetToken, StepResult::Enrolled(true)),
        (EnrollStep::GetToken, None)
    );
    let done = EnrollStep::Done(EnrollmentOutcome::Successful);
    assert_eq!(next_step(done, StepResult::Completed), (done, None));
}

#[test]
fn the_user_is_told_how_the_enrollment_ended() {
    let report = enrollment_report(Ok(EnrollmentOutcome::AlreadyEnrolled));
    assert_eq!(report.notification, None);
    assert_eq!(report.status, None);
    assert!(!report.reset_node);
    assert_eq!(report.result, Ok(()));

    let report = enrollment_report(Ok(EnrollmentOutcome::PendingValidation));
    let notification = report.notification.unwrap();
    assert_eq!(notification.kind, NotificationKind::Information);
    assert_eq!(notification.title, "Email Verification Required");
    assert_eq!(report.status, Some(OrchestratorStatus::Disconnected));
    assert!(!report.reset_node);
    assert_eq!(report.result, Ok(()));

    let report = enrollment_report(Ok(EnrollmentOutcome::Successful));
    let notification = report.notification.unwrap();
    assert_eq!(notification.title, "Enrolled successfully!");
    assert_eq!(notification.message, "You can now use the Ockam app");
    assert_eq!(report.status, None);
    assert!(report.reset_node);

    let failure = Error::new(Kind::Internal, "no token");
    let report = enrollment_report(Err(failure.clone()));
    let notification = report.notification.unwrap();
    assert_eq!(notification.kind, NotificationKind::Error);
    assert_eq!(notification.title, "Failed to enroll user");
    assert_eq!(notification.message, "no token");
    assert_eq!(report.status, Some(OrchestratorStatus::Disconnected));
    assert!(!report.reset_node);
    assert_eq!(report.result, Err(failure));
}

#[test]
fn the_space_with_the_first_name_is_taken() {
    assert_eq!(retrieve_space(&vec![]), None);
    let spaces = vec![space("1", "delta"), space("2", "alpha"), space("3", "charlie")];
    assert_eq!(retrieve_space(&spaces), Some(1));
    // of several with that name, the first
    let spaces = vec![space("1", "b"), space("2", "a"), space("3", "a"), space("4", "")];
    assert_eq!(retrieve_space(&spaces), Some(3));
    let spaces = vec![space("1", "a"), space("2", "a")];
    assert_eq!(retrieve_space(&spaces), Some(0));
}

#[test]
fn texts_are_ordered_as_strings_are() {
    let texts = ["", "a", "ab", "b", "B", "é", "z", "aa", "✓", "a✓", "\u{10ffff}"];
    for a in texts {
        for b in texts {
            assert_eq!(text_lt(a, b), a < b, "{:?} < {:?}", a, b);
        }
    }
}

#[test]
fn the_project_is_the_first_default_project_that_the_user_administers() {
    let projects = vec![
        project("default", &["you@ockam.io"]),
        project("other", &["me@ockam.io"]),
        project("default", &["you@ockam.io", "me@ockam.io"]),
        project("default", &["me@ockam.io"]),
    ];
    assert_eq!(retrieve_project(&projects, "me@ockam.io"), Some(2));
    assert_eq!(retrieve_project(&projects, "you@ockam.io"), Some(0));
    assert_eq!(retrieve_project(&projects, "nobody@ockam.io"), None);
    assert_eq!(retrieve_project(&vec![], "me@ockam.io"), None);
    assert!(projects[2].has_admin_with_email("you@ockam.io"));
    assert!(!projects[1].has_admin_with_email("you@ockam.io"));
}

#[test]
fn the_state_follows_the_steps_and_shows_the_status() {
    let mut state = AppState::new();
    assert_eq!(state.enroll_with_token(StepResult::Enrolled(false)), EnrollStep::GetToken);
    assert_eq!(state.orchestrator_status, OrchestratorStatus::WaitingForToken);
    assert_eq!(state.enroll_with_token(StepResult::Completed), EnrollStep::GetUserInfo);
    assert_eq!(state.orchestrator_status, OrchestratorStatus::WaitingForToken);
    let next = state.enroll_with_token(StepResult::UserInfo { email_verified: false });
    assert_eq!(next, EnrollStep::Done(EnrollmentOutcome::PendingValidation));
    let report = state.enroll_user(Ok(EnrollmentOutcome::PendingValidation));
    assert_eq!(report.status, Some(OrchestratorStatus::Disconnected));
    assert_eq!(state.orchestrator_status, OrchestratorStatus::Disconnected);
    assert_eq!(state.step, EnrollStep::CheckEnrolled);

    let mut state = AppState {
        step: EnrollStep::MarkEnrolled,
        orchestrator_status: OrchestratorStatus::RetrievingProject,
    };
    state.enroll_with_token(StepResult::Completed);
    let report = state.enroll_user(Ok(EnrollmentOutcome::Successful));
    assert!(report.reset_node);
    assert_eq!(state.orchestrator_status, OrchestratorStatus::RetrievingProject);
    assert_eq!(AppState::retrieve_space(&vec![space("1", "b"), space("2", "a")]), Some(1));
    assert_eq!(AppState::retrieve_project(&vec![project("default", &["me"])], "me"), Some(0));
}

#[test]
fn a_failed_reset_fails_the_enrollment_and_refreshes_nothing() {
    let report = enrollment_report(Ok(EnrollmentOutcome::Successful));
    assert!(report.reset_node);
    assert_eq!(report.result, Ok(()));

    let done = AppState::after_reset(Ok(()));
    assert_eq!(done.refreshes, vec![Refresh::Relay, Refresh::Invitations, Refresh::Projects]);
    assert_eq!(done.result, Ok(()));

    let failure = Error::new(Kind::Internal, "the node did not start");
    let done = AppState::after_reset(Err(failure.clone()));
    assert!(done.refreshes.is_empty());
    assert_eq!(done.result, Err(failure));
}
