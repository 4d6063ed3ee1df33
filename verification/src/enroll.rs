//! Enrolling a user: the order of the steps, what the user is told at the
//! end, and which space and project the user gets.
//!
//! Every step waits on the network, so the steps are run by the caller, who
//! hands each result to [`next_step`] and is told the step that follows.

use crate::error::{Error, ErrorView};
use crate::text::chars_of;
use vstd::prelude::*;

verus! {

/// The name of the project that an enrolled user works in.
pub open spec fn project_name() -> Seq<char> {
    "default"@
}

/// How an enrollment ended.
#[derive(Clone, Copy, Debug, PartialEq, Eq, Structural)]
pub enum EnrollmentOutcome {
    AlreadyEnrolled,
    PendingValidation,
    Successful,
}

/// The state of the connection to the orchestrator, as it is shown.
#[derive(Clone, Copy, Debug, PartialEq, Eq, Structural)]
pub enum OrchestratorStatus {
    Disconnected,
    WaitingForToken,
    RetrievingSpace,
    RetrievingProject,
}

/// The kind of a notification.
#[derive(Clone, Copy, Debug, PartialEq, Eq, Structural)]
pub enum NotificationKind {
    Information,
    Error,
}

/// What the user is told.
#[derive(Debug, PartialEq, Eq)]
pub struct Notification {
    pub kind: NotificationKind,
    pub title: String,
    pub message: String,
}

pub struct NotificationView {
    pub kind: NotificationKind,
    pub title: Seq<char>,
    pub message: Seq<char>,
}

impl View for Notification {
    type V = NotificationView;

    open spec fn view(&self) -> NotificationView {
        NotificationView { kind: self.kind, title: self.title@, message: self.message@ }
    }
}

/// What remains to be done after the steps of an enrollment.
#[derive(Debug, PartialEq, Eq)]
pub struct EnrollmentReport {
    /// What to tell the user, if anything.
    pub notification: Option<Notification>,
    /// The status to show, where it changes.
    pub status: Option<OrchestratorStatus>,
    /// Whether the node has to be set up again; what follows that is told
    /// by [`AppState::after_reset`].
    pub reset_node: bool,
    /// The result of the enrollment.
    pub result: Result<(), Error>,
}

pub struct EnrollmentReportView {
    pub notification: Option<NotificationView>,
    pub status: Option<OrchestratorStatus>,
    pub reset_node: bool,
    pub result: Result<(), ErrorView>,
}

impl View for EnrollmentReport {
    type V = EnrollmentReportView;

    open spec fn view(&self) -> EnrollmentReportView {
        EnrollmentReportView {
            notification: match self.notification {
                Some(n) => Some(n@),
                None => None,
            },
            status: self.status,
            reset_node: self.reset_node,
            result: match self.result {
                Ok(_) => Ok(()),
                Err(e) => Err(e@),
            },
        }
    }
}

pub open spec fn verification_title() -> Seq<char> {
    "Email Verification Required"@
}

pub open spec fn verification_message() -> Seq<char> {
    "For security reasons, we need to confirm your email address. A verification email has been sent to you. Please review your inbox and follow the provided steps to complete the verification process"@
}

pub open spec fn enrolled_title() -> Seq<char> {
    "Enrolled successfully!"@
}

pub open spec fn enrolled_message() -> Seq<char> {
    "You can now use the Ockam app"@
}

pub open spec fn failed_title() -> Seq<char> {
    "Failed to enroll user"@
}

/// What remains to be done for each way in which the steps can end. Only a
/// successful enrollment has the node set up again; a pending validation and
/// a failure disconnect; a failure is passed on with its message.
pub open spec fn spec_enroll_user(outcome: Result<EnrollmentOutcome, ErrorView>)
    -> EnrollmentReportView {
    match outcome {
        Ok(EnrollmentOutcome::AlreadyEnrolled) => EnrollmentReportView {
            notification: None,
            status: None,
            reset_node: false,
            result: Ok(()),
        },
        Ok(EnrollmentOutcome::PendingValidation) => EnrollmentReportView {
            notification: Some(
                NotificationView {
                    kind: NotificationKind::Information,
                    title: verification_title(),
                    message: verification_message(),
                },
            ),
            status: Some(OrchestratorStatus::Disconnected),
            reset_node: false,
            result: Ok(()),
        },
        Ok(EnrollmentOutcome::Successful) => EnrollmentReportView {
            notification: Some(
                NotificationView {
                    kind: NotificationKind::Information,
                    title: enrolled_title(),
                    message: enrolled_message(),
                },
            ),
            status: None,
            reset_node: true,
            result: Ok(()),
        },
        Err(e) => EnrollmentReportView {
            notification: Some(
                NotificationView {
                    kind: NotificationKind::Error,
                    title: failed_title(),
                    message: e.message,
                },
            ),
            status: Some(OrchestratorStatus::Disconnected),
            reset_node: false,
            result: Err(e),
        },
    }
}

/// The view of the way in which the steps ended.
pub open spec fn outcome_view(outcome: Result<EnrollmentOutcome, Error>) -> Result<
    EnrollmentOutcome,
    ErrorView,
> {
    match outcome {
        Ok(o) => Ok(o),
        Err(e) => Err(e@),
    }
}

/// See [`spec_enroll_user`].
pub fn enrollment_report(outcome: Result<EnrollmentOutcome, Error>) -> (report: EnrollmentReport)
    ensures
        report@ == spec_enroll_user(outcome_view(outcome)),
{
    match outcome {
        Ok(EnrollmentOutcome::AlreadyEnrolled) => EnrollmentReport {
            notification: None,
            status: None,
            reset_node: false,
            result: Ok(()),
        },
        Ok(EnrollmentOutcome::PendingValidation) => EnrollmentReport {
            notification: Some(
                Notification {
                    kind: NotificationKind::Information,
                    title: "Email Verification Required".to_owned(),
                    message: "For security reasons, we need to confirm your email address. A verification email has been sent to you. Please review your inbox and follow the provided steps to complete the verification process".to_owned(),
                },
            ),
            status: Some(OrchestratorStatus::Disconnected),
            reset_node: false,
            result: Ok(()),
        },
        Ok(EnrollmentOutcome::Successful) => EnrollmentReport {
            notification: Some(
                Notification {
                    kind: NotificationKind::Information,
                    title: "Enrolled successfully!".to_owned(),
                    message: "You can now use the Ockam app".to_owned(),
                },
            ),
            status: None,
            reset_node: true,
            result: Ok(()),
        },
        Err(e) => EnrollmentReport {
            notification: Some(
                Notification {
                    kind: NotificationKind::Error,
                    title: "Failed to enroll user".to_owned(),
                    message: e.message.clone(),
                },
            ),
            status: Some(OrchestratorStatus::Disconnected),
            reset_node: false,
            result: Err(e),
        },
    }
}

/// A step of an enrollment.
#[derive(Clone, Copy, Debug, PartialEq, Eq, Structural)]
pub enum EnrollStep {
    /// Ask whether the user is enrolled already.
    CheckEnrolled,
    /// Get a token from the login service.
    GetToken,
    /// Get what the login service knows of the user.
    GetUserInfo,
    /// Store the user and make it the default user.
    StoreUser,
    /// Enroll the user with the controller.
    EnrollWithController,
    /// Find or create the space of the user.
    RetrieveSpace,
    /// Find or create the project of the user.
    RetrieveProject,
    /// Mark the identity of the node as enrolled.
    MarkEnrolled,
    /// The enrollment is over.
    Done(EnrollmentOutcome),
}

/// What a step gave.
#[derive(Clone, Copy, Debug, PartialEq, Eq, Structural)]
pub enum StepResult {
    /// Whether the user is enrolled; a failure to find out counts as no.
    Enrolled(bool),
    /// What is known of the user: whether the email is verified.
    UserInfo { email_verified: bool },
    /// The step was done.
    Completed,
}

/// The step that follows a step, and the status to show before it. The
/// steps go in one order. The enrollment ends early where the user is
/// enrolled already, and where the email of the user is not verified. A
/// result that does not belong to the step leaves the step as it is.
pub open spec fn spec_next_step(step: EnrollStep, result: StepResult) -> (
    EnrollStep,
    Option<OrchestratorStatus>,
) {
    match (step, result) {
        (EnrollStep::CheckEnrolled, StepResult::Enrolled(true)) => (
            EnrollStep::Done(EnrollmentOutcome::AlreadyEnrolled),
            None,
        ),
        (EnrollStep::CheckEnrolled, StepResult::Enrolled(false)) => (
            EnrollStep::GetToken,
            Some(OrchestratorStatus::WaitingForToken),
        ),
        (EnrollStep::GetToken, StepResult::Completed) => (EnrollStep::GetUserInfo, None),
        (EnrollStep::GetUserInfo, StepResult::UserInfo { email_verified: false }) => (
            EnrollStep::Done(EnrollmentOutcome::PendingValidation),
            None,
        ),
        (EnrollStep::GetUserInfo, StepResult::UserInfo { email_verified: true }) => (
            EnrollStep::StoreUser,
            None,
        ),
        (EnrollStep::StoreUser, StepResult::Completed) => (EnrollStep::EnrollWithController, None),
        (EnrollStep::EnrollWithController, StepResult::Completed) => (
            EnrollStep::RetrieveSpace,
            Some(OrchestratorStatus::RetrievingSpace),
        ),
        (EnrollStep::RetrieveSpace, StepResult::Completed) => (
            EnrollStep::RetrieveProject,
            Some(OrchestratorStatus::RetrievingProject),
        ),
        (EnrollStep::RetrieveProject, StepResult::Completed) => (EnrollStep::MarkEnrolled, None),
        (EnrollStep::MarkEnrolled, StepResult::Completed) => (
            EnrollStep::Done(EnrollmentOutcome::Successful),
            None,
        ),
        _ => (step, None),
    }
}

/// See [`spec_next_step`].
pub fn next_step(step: EnrollStep, result: StepResult) -> (r: (
    EnrollStep,
    Option<OrchestratorStatus>,
))
    ensures
        r == spec_next_step(step, result),
{
    match step {
        EnrollStep::CheckEnrolled => match result {
            StepResult::Enrolled(true) => (
                EnrollStep::Done(EnrollmentOutcome::AlreadyEnrolled),
                None,
            ),
            StepResult::Enrolled(false) => (
                EnrollStep::GetToken,
                Some(OrchestratorStatus::WaitingForToken),
            ),
            _ => (step, None),
        },
        EnrollStep::GetToken => match result {
            StepResult::Completed => (EnrollStep::GetUserInfo, None),
            _ => (step, None),
        },
        EnrollStep::GetUserInfo => match result {
            StepResult::UserInfo { email_verified: false } => (
                EnrollStep::Done(EnrollmentOutcome::PendingValidation),
                None,
            ),
            StepResult::UserInfo { email_verified: true } => (EnrollStep::StoreUser, None),
            _ => (step, None),
        },
        EnrollStep::StoreUser => match result {
            StepResult::Completed => (EnrollStep::EnrollWithController, None),
            _ => (step, None),
        },
        EnrollStep::EnrollWithController => match result {
            StepResult::Completed => (
                EnrollStep::RetrieveSpace,
                Some(OrchestratorStatus::RetrievingSpace),
            ),
            _ => (step, None),
        },
        EnrollStep::RetrieveSpace => match result {
            StepResult::Completed => (
                EnrollStep::RetrieveProject,
                Some(OrchestratorStatus::RetrievingProject),
            ),
            _ => (step, None),
        },
        EnrollStep::RetrieveProject => match result {
            StepResult::Completed => (EnrollStep::MarkEnrolled, None),
            _ => (step, None),
        },
        EnrollStep::MarkEnrolled => match result {
            StepResult::Completed => (EnrollStep::Done(EnrollmentOutcome::Successful), None),
            _ => (step, None),
        },
        EnrollStep::Done(_) => (step, None),
    }
}

/// What is refreshed after a successful enrollment.
#[derive(Clone, Copy, Debug, PartialEq, Eq, Structural)]
pub enum Refresh {
    /// The connection to the relay.
    Relay,
    /// The invitations.
    Invitations,
    /// The list of projects.
    Projects,
}

/// What ends an enrollment after the node was set up again.
#[derive(Debug, PartialEq, Eq)]
pub struct Completion {
    /// What to refresh at once, in this order.
    pub refreshes: Vec<Refresh>,
    /// The result of the enrollment.
    pub result: Result<(), Error>,
}

pub struct CompletionView {
    pub refreshes: Seq<Refresh>,
    pub result: Result<(), ErrorView>,
}

impl View for Completion {
    type V = CompletionView;

    open spec fn view(&self) -> CompletionView {
        CompletionView {
            refreshes: self.refreshes@,
            result: match self.result {
                Ok(_) => Ok(()),
                Err(e) => Err(e@),
            },
        }
    }
}

/// What ends an enrollment for the result of setting up the node again.
/// Where that failed, nothing is refreshed and the failure is the result.
/// Else the relay, the invitations and the projects are refreshed, each
/// once and in this order, and the enrollment succeeds.
pub open spec fn spec_after_reset(reset: Result<(), ErrorView>) -> CompletionView {
    match reset {
        Ok(_) => CompletionView {
            refreshes: seq![Refresh::Relay, Refresh::Invitations, Refresh::Projects],
            result: Ok(()),
        },
        Err(e) => CompletionView { refreshes: Seq::empty(), result: Err(e) },
    }
}

/// The state of the application as far as enrolling goes: the step that is
/// due, and the status that is shown.
#[derive(Clone, Copy, Debug, PartialEq, Eq, Structural)]
pub struct AppState {
    pub step: EnrollStep,
    pub orchestrator_status: OrchestratorStatus,
}

/// The status after a step: the new one where the step brings one.
pub open spec fn status_after(now: OrchestratorStatus, change: Option<OrchestratorStatus>)
    -> OrchestratorStatus {
    match change {
        Some(status) => status,
        None => now,
    }
}

impl AppState {
    /// The state before the first step.
    pub fn new() -> (state: AppState)
        ensures
            state.step == EnrollStep::CheckEnrolled,
            state.orchestrator_status == OrchestratorStatus::Disconnected,
    {
        AppState {
            step: EnrollStep::CheckEnrolled,
            orchestrator_status: OrchestratorStatus::Disconnected,
        }
    }

    /// Takes the result of the step that was due, and returns the step that
    /// is due next: see [`spec_next_step`]. The status changes where the
    /// next step brings a new one.
    pub fn enroll_with_token(&mut self, result: StepResult) -> (next: EnrollStep)
        ensures
            next == spec_next_step(old(self).step, result).0,
            final(self).step == next,
            final(self).orchestrator_status == status_after(
                old(self).orchestrator_status,
                spec_next_step(old(self).step, result).1,
            ),
    {
        let (next, status) = next_step(self.step, result);
        self.step = next;
        match status {
            Some(status) => {
                self.orchestrator_status = status;
            },
            None => {},
        }
        next
    }

    /// Takes the way in which the steps ended, and returns what remains to
    /// be done: see [`spec_enroll_user`]. The status changes where the
    /// report brings a new one, and the next enrollment starts with the
    /// first step.
    pub fn enroll_user(&mut self, outcome: Result<EnrollmentOutcome, Error>) -> (report:
        EnrollmentReport)
        ensures
            report@ == spec_enroll_user(outcome_view(outcome)),
            final(self).step == EnrollStep::CheckEnrolled,
            final(self).orchestrator_status == status_after(
                old(self).orchestrator_status,
                report.status,
            ),
    {
        let report = enrollment_report(outcome);
        self.step = EnrollStep::CheckEnrolled;
        match report.status {
            Some(status) => {
                self.orchestrator_status = status;
            },
            None => {},
        }
        report
    }

    /// Takes the result of setting up the node again, which a report with
    /// `reset_node` asks for, and returns what ends the enrollment: see
    /// [`spec_after_reset`].
    pub fn after_reset(reset: Result<(), Error>) -> (completion: Completion)
        ensures
            completion@ == spec_after_reset(
                match reset {
                    Ok(_) => Ok(()),
                    Err(e) => Err(e@),
                },
            ),
    {
        match reset {
            Ok(_) => {
                let mut refreshes: Vec<Refresh> = Vec::new();
                refreshes.push(Refresh::Relay);
                refreshes.push(Refresh::Invitations);
                refreshes.push(Refresh::Projects);
                assert(refreshes@ =~= seq![
                    Refresh::Relay,
                    Refresh::Invitations,
                    Refresh::Projects,
                ]);
                Completion { refreshes, result: Ok(()) }
            },
            Err(e) => Completion { refreshes: Vec::new(), result: Err(e) },
        }
    }

    /// The index of the space that the user gets: see [`retrieve_space`].
    pub fn retrieve_space(spaces: &Vec<Space>) -> (r: Option<usize>)
        ensures
            match r {
                Some(i) => is_first_least(spaces@, i as int),
                None => spaces@.len() == 0,
            },
    {
        retrieve_space(spaces)
    }

    /// The index of the project that the user with `email` works in: see
    /// [`retrieve_project`].
    pub fn retrieve_project(projects: &Vec<Project>, email: &str) -> (r: Option<usize>)
        ensures
            match r {
                Some(i) => is_first_project_of(projects@, email@, i as int),
                None => forall|j: int|
                    0 <= j < projects@.len() ==> !(#[trigger] projects@[j]).is_project_of(email@),
            },
    {
        retrieve_project(projects, email)
    }
}

/// A project of the orchestrator.
#[derive(Debug, PartialEq, Eq)]
pub struct Project {
    pub name: String,
    /// The emails of the administrators of the project.
    pub admins: Vec<String>,
}

impl Project {
    /// Whether an administrator of the project has the email `email`.
    pub open spec fn spec_has_admin_with_email(&self, email: Seq<char>) -> bool {
        exists|i: int| 0 <= i < self.admins@.len() && (#[trigger] self.admins@[i])@ == email
    }

    /// Whether an administrator of the project has the email `email`.
    pub fn has_admin_with_email(&self, email: &str) -> (b: bool)
        ensures
            b == self.spec_has_admin_with_email(email@),
    {
        let wanted = email.to_owned();
        let mut i: usize = 0;
        while i < self.admins.len()
            invariant
                i <= self.admins@.len(),
                wanted@ == email@,
                forall|j: int| 0 <= j < i ==> (#[trigger] self.admins@[j])@ != email@,
            decreases self.admins.len() - i,
        {
            if self.admins[i] == wanted {
                return true;
            }
            i = i + 1;
        }
        false
    }

    /// Whether this is a project that the user with `email` can work in: it
    /// has the name of such projects, and the user administers it.
    pub open spec fn is_project_of(&self, email: Seq<char>) -> bool {
        self.spec_has_admin_with_email(email) && self.name@ == project_name()
    }
}

/// Whether `i` is the index of the first project that the user with `email`
/// can work in.
pub open spec fn is_first_project_of(projects: Seq<Project>, email: Seq<char>, i: int) -> bool {
    &&& 0 <= i < projects.len()
    &&& projects[i].is_project_of(email)
    &&& forall|j: int| 0 <= j < i ==> !(#[trigger] projects[j]).is_project_of(email)
}

/// The index of the project that the user with `email` works in: the first
/// project that has the name of such projects and that the user administers.
/// Where there is none, a project has to be created.
pub fn retrieve_project(projects: &Vec<Project>, email: &str) -> (r: Option<usize>)
    ensures
        match r {
            Some(i) => is_first_project_of(projects@, email@, i as int),
            None => forall|j: int|
                0 <= j < projects@.len() ==> !(#[trigger] projects@[j]).is_project_of(email@),
        },
{
    let wanted = "default".to_owned();
    let mut i: usize = 0;
    while i < projects.len()
        invariant
            i <= projects@.len(),
            wanted@ == project_name(),
            forall|j: int| 0 <= j < i ==> !(#[trigger] projects@[j]).is_project_of(email@),
        decreases projects.len() - i,
    {
        if projects[i].has_admin_with_email(email) && projects[i].name == wanted {
            return Some(i);
        }
        i = i + 1;
    }
    None
}

/// Whether `a` comes before `b` in the order of texts: character by
/// character, a shorter text before its extensions.
pub open spec fn lex_lt(a: Seq<char>, b: Seq<char>) -> bool
    decreases a.len(),
{
    if b.len() == 0 {
        false
    } else if a.len() == 0 {
        true
    } else if a[0] != b[0] {
        a[0] < b[0]
    } else {
        lex_lt(a.skip(1), b.skip(1))
    }
}

/// No text comes before itself.
pub proof fn lemma_lex_lt_irreflexive(a: Seq<char>)
    ensures
        !lex_lt(a, a),
    decreases a.len(),
{
    if a.len() > 0 {
        lemma_lex_lt_irreflexive(a.skip(1));
    }
}

/// The order of texts is transitive.
pub proof fn lemma_lex_lt_transitive(a: Seq<char>, b: Seq<char>, c: Seq<char>)
    requires
        lex_lt(a, b),
        lex_lt(b, c),
    ensures
        lex_lt(a, c),
    decreases a.len(),
{
    if a.len() > 0 && a[0] == b[0] && b[0] == c[0] {
        lemma_lex_lt_transitive(a.skip(1), b.skip(1), c.skip(1));
    }
}

/// What is before a text is before whatever is not before that text.
pub proof fn lemma_lex_lt_before(a: Seq<char>, b: Seq<char>, c: Seq<char>)
    requires
        lex_lt(a, b),
        !lex_lt(c, b),
    ensures
        lex_lt(a, c),
    decreases a.len(),
{
    if a.len() > 0 && c.len() > 0 {
        if a[0] == b[0] && b[0] == c[0] {
            lemma_lex_lt_before(a.skip(1), b.skip(1), c.skip(1));
        }
    }
}

/// Whether `a` comes before `b` in the order of texts.
pub fn text_lt(a: &str, b: &str) -> (r: bool)
    ensures
        r == lex_lt(a@, b@),
{
    let x = chars_of(a);
    let y = chars_of(b);
    let mut i: usize = 0;
    assert(x@.skip(0) =~= x@ && y@.skip(0) =~= y@);
    while i < x.len() && i < y.len()
        invariant
            i <= x@.len(),
            i <= y@.len(),
            x@ == a@,
            y@ == b@,
            lex_lt(a@, b@) == lex_lt(x@.skip(i as int), y@.skip(i as int)),
        decreases x.len() - i,
    {
        let ghost p = x@.skip(i as int);
        let ghost q = y@.skip(i as int);
        assert(p[0] == x@[i as int] && q[0] == y@[i as int]);
        if x[i] != y[i] {
            return x[i] < y[i];
        }
        assert(p.skip(1) =~= x@.skip(i + 1) && q.skip(1) =~= y@.skip(i + 1));
        i = i + 1;
    }
    i < y.len()
}

/// A space of the orchestrator.
#[derive(Debug, PartialEq, Eq)]
pub struct Space {
    pub id: String,
    pub name: String,
}

/// Whether `i` is the index of the space whose name comes first in the
/// order of texts, and of several with that name the first.
pub open spec fn is_first_least(spaces: Seq<Space>, i: int) -> bool {
    &&& 0 <= i < spaces.len()
    &&& forall|j: int| 0 <= j < spaces.len() ==> !lex_lt((#[trigger] spaces[j]).name@, spaces[i].name@)
    &&& forall|j: int| 0 <= j < i ==> lex_lt(spaces[i].name@, (#[trigger] spaces[j]).name@)
}

/// The index of the space that the user gets: the space whose name comes
/// first in the order of texts, and of several with that name the first.
/// It is the same space every time. Without spaces, one has to be created.
pub fn retrieve_space(spaces: &Vec<Space>) -> (r: Option<usize>)
    ensures
        match r {
            Some(i) => is_first_least(spaces@, i as int),
            None => spaces@.len() == 0,
        },
{
    if spaces.len() == 0 {
        return None;
    }
    let mut best: usize = 0;
    let mut i: usize = 1;
    proof {
        lemma_lex_lt_irreflexive(spaces@[0].name@);
    }
    while i < spaces.len()
        invariant
            best < i <= spaces@.len(),
            forall|j: int|
                0 <= j < i ==> !lex_lt((#[trigger] spaces@[j]).name@, spaces@[best as int].name@),
            forall|j: int|
                0 <= j < best ==> lex_lt(spaces@[best as int].name@, (#[trigger] spaces@[j]).name@),
        decreases spaces.len() - i,
    {
        if text_lt(spaces[i].name.as_str(), spaces[best].name.as_str()) {
            proof {
                let new = spaces@[i as int].name@;
                let old = spaces@[best as int].name@;
                assert forall|j: int| 0 <= j < i + 1 implies !lex_lt(
                    (#[trigger] spaces@[j]).name@,
                    new,
                ) by {
                    if j == i {
                        lemma_lex_lt_irreflexive(new);
                    } else if lex_lt(spaces@[j].name@, new) {
                        lemma_lex_lt_transitive(spaces@[j].name@, new, old);
                    }
                }
                assert forall|j: int| 0 <= j < i implies lex_lt(
                    new,
                    (#[trigger] spaces@[j]).name@,
                ) by {
                    lemma_lex_lt_before(new, old, spaces@[j].name@);
                }
            }
            best = i;
        }
        i = i + 1;
    }
    Some(best)
}

} // verus!
