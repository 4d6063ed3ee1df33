//! The inlet lifecycle: reading the target of a tunnel, and the decisions of
//! the loop that asks a remote node to create the inlet until it succeeds or
//! fails for good.
//!
//! The loop itself waits on the network and on timers, so it is run by the
//! caller. After each thing that happens the caller hands the event to
//! [`Inlet::step`], which returns the next thing to do.

use crate::error::{Error, ErrorView, Kind};
use crate::identifier::{
    clone_opt_identifier,
    clone_opt_text,
    opt_identifier,
    opt_text,
    Identifier,
};
use crate::multiaddr::{
    has_protocol,
    is_address_text,
    lemma_text_injective,
    text_of,
    valid_segments,
    MultiAddr,
    Protocol,
    SegmentView,
};
use crate::text::{
    concat2,
    concat3,
    contains_char,
    contains_text,
    occurs,
    replace,
    replace_all,
};
use vstd::prelude::*;

verus! {

/// The target that stands for "the default relay of the default project".
pub open spec fn default_target() -> Seq<char> {
    "/project/$PROJECT_NAME/service/forward_to_$RELAY_NAME/secure/api/service/outlet"@
}

/// The target of an inlet when the caller names none.
pub fn default_to_addr() -> (to: String)
    ensures
        to@ == default_target(),
{
    "/project/$PROJECT_NAME/service/forward_to_$RELAY_NAME/secure/api/service/outlet".to_owned()
}

/// The route to the outlet behind the relay `relay` of the project `project`.
pub open spec fn relay_route(project: Seq<char>, relay: Seq<char>) -> Seq<char> {
    "/project/"@ + project + "/service/forward_to_"@ + relay + "/secure/api/service/outlet"@
}

/// A target with its placeholders filled in: first the project name, then
/// the name of the default relay.
pub open spec fn expand_placeholders(to: Seq<char>, project: Seq<char>) -> Seq<char> {
    replace_all(replace_all(to, "$PROJECT_NAME"@, project), "$RELAY_NAME"@, "default"@)
}

pub open spec fn missing_project_message() -> Seq<char> {
    "There is no default project defined. Please enroll or create a project."@
}

pub open spec fn relay_name_message() -> Seq<char> {
    "The relay name can't contain '/'"@
}

pub open spec fn invalid_relay_message() -> Seq<char> {
    "Invalid address value or relay name"@
}

/// Whether a target holds a placeholder.
pub open spec fn has_placeholder(to: Seq<char>) -> bool {
    occurs(to, "$PROJECT_NAME"@) || occurs(to, "$RELAY_NAME"@)
}

/// What reading a target gives: the text of the route to the outlet, or the
/// failure.
///
/// A target that holds a placeholder has its placeholders filled in from
/// the default project, which must exist; a target without placeholder is
/// taken as it is. A target that then is the text of an address stands for
/// itself, with or without a default project. Any other target is the name
/// of a relay of the default project: it cannot hold a `/`, and a default
/// project must exist.
pub open spec fn spec_parse_arg_to(to: Seq<char>, project: Option<Seq<char>>) -> Result<
    Seq<char>,
    ErrorView,
> {
    if has_placeholder(to) && project is None {
        Err(ErrorView { kind: Kind::PreconditionFailed, message: missing_project_message() })
    } else {
        let target = if has_placeholder(to) {
            expand_placeholders(to, project->0)
        } else {
            to
        };
        if is_address_text(target) {
            Ok(target)
        } else if target.contains('/') {
            Err(ErrorView { kind: Kind::BadRequest, message: relay_name_message() })
        } else if project is None {
            Err(ErrorView { kind: Kind::PreconditionFailed, message: missing_project_message() })
        } else if is_address_text(relay_route(project->0, target)) {
            Ok(relay_route(project->0, target))
        } else {
            Err(ErrorView { kind: Kind::BadRequest, message: invalid_relay_message() })
        }
    }
}

/// A target that is the text of an address and holds no placeholder is
/// taken as it is, whether or not there is a default project.
pub proof fn lemma_address_needs_no_project(to: Seq<char>, project: Option<Seq<char>>)
    requires
        !has_placeholder(to),
        is_address_text(to),
    ensures
        spec_parse_arg_to(to, project) == Ok::<Seq<char>, ErrorView>(to),
{
}

/// The failure for a missing default project comes only where the target
/// holds a placeholder or is no address, so that it has to be the name of a
/// relay of the default project.
pub proof fn lemma_missing_project_only_where_needed(to: Seq<char>, project: Option<Seq<char>>)
    requires
        spec_parse_arg_to(to, project) == Err::<Seq<char>, ErrorView>(
            ErrorView { kind: Kind::PreconditionFailed, message: missing_project_message() },
        ),
    ensures
        project is None,
        has_placeholder(to) || !is_address_text(to),
{
}

/// A node that is known by its name, with the address at which it listens.
#[derive(Debug, PartialEq, Eq)]
pub struct KnownNode {
    pub name: String,
    pub address: MultiAddr,
}

pub struct KnownNodeView {
    pub name: Seq<char>,
    pub address: Seq<SegmentView>,
}

impl View for KnownNode {
    type V = KnownNodeView;

    open spec fn view(&self) -> KnownNodeView {
        KnownNodeView { name: self.name@, address: self.address@ }
    }
}

/// What a list of known nodes stands for.
pub open spec fn nodes_view(nodes: Seq<KnownNode>) -> Seq<KnownNodeView> {
    Seq::new(nodes.len(), |i: int| nodes[i]@)
}

/// The address of the first known node that goes by `name`, if there is one.
pub open spec fn spec_node_address(nodes: Seq<KnownNodeView>, name: Seq<char>) -> Option<
    Seq<SegmentView>,
>
    decreases nodes.len(),
{
    if nodes.len() == 0 {
        None
    } else if nodes[0].name == name {
        Some(nodes[0].address)
    } else {
        spec_node_address(nodes.skip(1), name)
    }
}

/// An address with each segment that names a node replaced by the segments
/// of the address of that node; or the name of the first node that is not
/// known.
pub open spec fn spec_process_nodes(segs: Seq<SegmentView>, nodes: Seq<KnownNodeView>) -> Result<
    Seq<SegmentView>,
    Seq<char>,
>
    decreases segs.len(),
{
    if segs.len() == 0 {
        Ok(Seq::empty())
    } else {
        match spec_process_nodes(segs.drop_last(), nodes) {
            Err(name) => Err(name),
            Ok(done) => if segs.last().protocol == Protocol::Node {
                match spec_node_address(nodes, segs.last().value) {
                    Some(address) => Ok(done + address),
                    None => Err(segs.last().value),
                }
            } else {
                Ok(done.push(segs.last()))
            },
        }
    }
}

pub open spec fn unknown_node_message(name: Seq<char>) -> Seq<char> {
    "There is no node named '"@ + name + "'"@
}

fn find_node<'a>(nodes: &'a Vec<KnownNode>, name: &str) -> (r: Option<&'a MultiAddr>)
    ensures
        match r {
            Some(address) => spec_node_address(nodes_view(nodes@), name@) == Some(address@)
                && exists|i: int| 0 <= i < nodes@.len() && nodes@[i].address == *address,
            None => spec_node_address(nodes_view(nodes@), name@) is None,
        },
{
    let wanted = name.to_owned();
    let ghost all = nodes_view(nodes@);
    let mut i: usize = 0;
    assert(all.skip(0) =~= all);
    while i < nodes.len()
        invariant
            i <= nodes@.len(),
            all == nodes_view(nodes@),
            wanted@ == name@,
            spec_node_address(all, name@) == spec_node_address(all.skip(i as int), name@),
        decreases nodes.len() - i,
    {
        let ghost rest = all.skip(i as int);
        assert(rest[0] == nodes@[i as int]@);
        if nodes[i].name == wanted {
            return Some(&nodes[i].address);
        }
        assert(rest.skip(1) =~= all.skip(i + 1));
        i = i + 1;
    }
    None
}

/// Replaces each segment of `address` that names a node by the segments of
/// the address of that node: see [`spec_process_nodes`]. A node that is not
/// known is a failure.
pub fn process_nodes_multiaddr(address: &MultiAddr, nodes: &Vec<KnownNode>) -> (r: Result<
    MultiAddr,
    Error,
>)
    requires
        address.wf(),
        forall|i: int| 0 <= i < nodes@.len() ==> (#[trigger] nodes@[i]).address.wf(),
    ensures
        match r {
            Ok(processed) => processed.wf() && spec_process_nodes(address@, nodes_view(nodes@))
                == Ok::<Seq<SegmentView>, Seq<char>>(processed@),
            Err(e) => spec_process_nodes(address@, nodes_view(nodes@)) is Err && e@ == (ErrorView {
                kind: Kind::NotFound,
                message: unknown_node_message(
                    spec_process_nodes(address@, nodes_view(nodes@))->Err_0,
                ),
            }),
        },
{
    let mut processed = MultiAddr::new();
    let mut i: usize = 0;
    assert(address@.take(0) =~= Seq::<SegmentView>::empty());
    while i < address.len()
        invariant
            i <= address@.len(),
            address.wf(),
            processed.wf(),
            forall|j: int| 0 <= j < nodes@.len() ==> (#[trigger] nodes@[j]).address.wf(),
            spec_process_nodes(address@.take(i as int), nodes_view(nodes@)) == Ok::<
                Seq<SegmentView>,
                Seq<char>,
            >(processed@),
        decreases address@.len() - i,
    {
        let ghost next = address@.take(i + 1);
        proof {
            assert(next.drop_last() =~= address@.take(i as int));
            assert(next.last() == address@[i as int]);
        }
        let named = match address.protocol_at(i) {
            Protocol::Node => true,
            _ => false,
        };
        if named {
            match find_node(nodes, address.value_at(i)) {
                Some(found) => {
                    processed.try_extend(found);
                },
                None => {
                    proof {
                        let rest = address@.skip(i + 1);
                        assert(address@ =~= next + rest);
                        lemma_process_nodes_fails_on(next, rest, nodes_view(nodes@));
                    }
                    return Err(
                        Error {
                            kind: Kind::NotFound,
                            message: concat3(
                                "There is no node named '",
                                address.value_at(i),
                                "'",
                            ),
                        },
                    );
                },
            }
        } else {
            processed.push_back_value(address, i);
        }
        i = i + 1;
    }
    assert(address@.take(i as int) =~= address@);
    Ok(processed)
}

/// Where the first segments of an address name a node that is not known,
/// the whole address fails on that node.
pub proof fn lemma_process_nodes_fails_on(
    first: Seq<SegmentView>,
    rest: Seq<SegmentView>,
    nodes: Seq<KnownNodeView>,
)
    requires
        spec_process_nodes(first, nodes) is Err,
    ensures
        spec_process_nodes(first + rest, nodes) == spec_process_nodes(first, nodes),
    decreases rest.len(),
{
    if rest.len() == 0 {
        assert(first + rest =~= first);
    } else {
        assert((first + rest).drop_last() =~= first + rest.drop_last());
        lemma_process_nodes_fails_on(first, rest.drop_last(), nodes);
    }
}

/// An address without segments that name a node stays as it is.
pub proof fn lemma_process_nodes_without_nodes(segs: Seq<SegmentView>, nodes: Seq<KnownNodeView>)
    requires
        !has_protocol(segs, Protocol::Node),
    ensures
        spec_process_nodes(segs, nodes) == Ok::<Seq<SegmentView>, Seq<char>>(segs),
    decreases segs.len(),
{
    if segs.len() > 0 {
        let first = segs.drop_last();
        assert(!has_protocol(first, Protocol::Node)) by {
            if has_protocol(first, Protocol::Node) {
                let i = choose|i: int|
                    0 <= i < first.len() && #[trigger] first[i].protocol == Protocol::Node;
                assert(segs[i].protocol == Protocol::Node);
            }
        }
        lemma_process_nodes_without_nodes(first, nodes);
        assert(segs.last() == segs[segs.len() - 1]);
        assert(first.push(segs.last()) =~= segs);
    } else {
        assert(segs =~= Seq::<SegmentView>::empty());
    }
}

/// The arguments of a request for an inlet. Times are in milliseconds.
#[derive(Debug, PartialEq, Eq)]
pub struct CreateCommand {
    /// The node on which to start the inlet.
    pub at: Option<String>,
    /// The local address on which to accept connections.
    pub from: String,
    /// The route to the outlet, or the name of a relay.
    pub to: String,
    /// The only identity that the secure channel may reach.
    pub authorized: Option<Identifier>,
    /// A name for the inlet.
    pub alias: Option<String>,
    /// How long one attempt waits for the outlet.
    pub connection_wait: u64,
    /// How long to wait before the next attempt; zero for no second attempt.
    pub retry_wait: u64,
    /// The time allowed for all attempts together.
    pub timeout: Option<u64>,
}

pub struct CreateCommandView {
    pub at: Option<Seq<char>>,
    pub from: Seq<char>,
    pub to: Seq<char>,
    pub authorized: Option<Seq<char>>,
    pub alias: Option<Seq<char>>,
    pub connection_wait: u64,
    pub retry_wait: u64,
    pub timeout: Option<u64>,
}

impl View for CreateCommand {
    type V = CreateCommandView;

    open spec fn view(&self) -> CreateCommandView {
        CreateCommandView {
            at: opt_text(self.at),
            from: self.from@,
            to: self.to@,
            authorized: opt_identifier(self.authorized),
            alias: opt_text(self.alias),
            connection_wait: self.connection_wait,
            retry_wait: self.retry_wait,
            timeout: self.timeout,
        }
    }
}

/// What the remote node is asked for in one attempt.
#[derive(Debug, PartialEq, Eq)]
pub struct InletRequest {
    pub from: String,
    pub to: String,
    pub alias: Option<String>,
    pub authorized: Option<Identifier>,
    pub connection_wait: u64,
}

pub struct InletRequestView {
    pub from: Seq<char>,
    pub to: Seq<char>,
    pub alias: Option<Seq<char>>,
    pub authorized: Option<Seq<char>>,
    pub connection_wait: u64,
}

impl View for InletRequest {
    type V = InletRequestView;

    open spec fn view(&self) -> InletRequestView {
        InletRequestView {
            from: self.from@,
            to: self.to@,
            alias: opt_text(self.alias),
            authorized: opt_identifier(self.authorized),
            connection_wait: self.connection_wait,
        }
    }
}

/// The request that a command makes in each attempt.
pub open spec fn request_of(cmd: CreateCommandView) -> InletRequestView {
    InletRequestView {
        from: cmd.from,
        to: cmd.to,
        alias: cmd.alias,
        authorized: cmd.authorized,
        connection_wait: cmd.connection_wait,
    }
}

/// What an established inlet records.
#[derive(Debug, PartialEq, Eq)]
pub struct InletStatus {
    /// The local address that the listener is bound to.
    pub bind_addr: String,
    /// The name of the inlet.
    pub alias: String,
    /// The resolved route to the outlet.
    pub outlet_route: String,
}

pub struct InletStatusView {
    pub bind_addr: Seq<char>,
    pub alias: Seq<char>,
    pub outlet_route: Seq<char>,
}

impl View for InletStatus {
    type V = InletStatusView;

    open spec fn view(&self) -> InletStatusView {
        InletStatusView {
            bind_addr: self.bind_addr@,
            alias: self.alias@,
            outlet_route: self.outlet_route@,
        }
    }
}

impl Clone for InletStatus {
    fn clone(&self) -> (r: InletStatus)
        ensures
            r@ == self@,
    {
        InletStatus {
            bind_addr: self.bind_addr.clone(),
            alias: self.alias.clone(),
            outlet_route: self.outlet_route.clone(),
        }
    }
}

/// The status that comes with a reply that is no success.
#[derive(Clone, Copy, Debug, PartialEq, Eq, Structural)]
pub enum Status {
    BadRequest,
    Unauthorized,
    Forbidden,
    NotFound,
    Conflict,
    MethodNotAllowed,
    InternalServerError,
    NotImplemented,
}

/// The answer of the remote node to one attempt.
#[derive(Debug, PartialEq, Eq)]
pub enum Reply {
    Successful(InletStatus),
    Failed { message: Option<String>, status: Option<Status> },
}

pub enum ReplyView {
    Successful(InletStatusView),
    Failed { message: Option<Seq<char>>, status: Option<Status> },
}

impl View for Reply {
    type V = ReplyView;

    open spec fn view(&self) -> ReplyView {
        match self {
            Reply::Successful(s) => ReplyView::Successful(s@),
            Reply::Failed { message, status } => ReplyView::Failed {
                message: opt_text(*message),
                status: *status,
            },
        }
    }
}

/// Where an inlet stands in its lifecycle.
#[derive(Clone, Copy, Debug, PartialEq, Eq, Structural)]
pub enum InletState {
    /// Nothing was tried yet.
    Idle,
    /// The remote node has been asked `attempts` times, and no answer has
    /// ended the loop.
    Attempting { attempts: u64 },
    /// The inlet exists.
    Established,
    /// The inlet was given up, with a failure of the class `kind`.
    Failed { kind: Kind },
}

impl InletState {
    /// Whether nothing more will happen in this state.
    pub open spec fn spec_is_terminal(&self) -> bool {
        *self is Established || *self is Failed
    }

    /// Whether nothing more will happen in this state.
    #[verifier::when_used_as_spec(spec_is_terminal)]
    pub fn is_terminal(&self) -> (b: bool)
        ensures
            b == self.spec_is_terminal(),
    {
        match self {
            InletState::Established => true,
            InletState::Failed { .. } => true,
            _ => false,
        }
    }
}

/// What happened since the last step.
#[derive(Debug, PartialEq, Eq)]
pub enum InletEvent {
    /// The requested local address was tested: `free` says whether a listener
    /// can be bound to it.
    BindTested { free: bool },
    /// The remote node answered the attempt.
    Replied(Reply),
    /// The attempt could not be made or its answer could not be read.
    RequestFailed(Error),
    /// The time allowed for all attempts together is over.
    TimedOut,
}

pub enum InletEventView {
    BindTested { free: bool },
    Replied(ReplyView),
    RequestFailed(ErrorView),
    TimedOut,
}

impl View for InletEvent {
    type V = InletEventView;

    open spec fn view(&self) -> InletEventView {
        match self {
            InletEvent::BindTested { free } => InletEventView::BindTested { free: *free },
            InletEvent::Replied(r) => InletEventView::Replied(r@),
            InletEvent::RequestFailed(e) => InletEventView::RequestFailed(e@),
            InletEvent::TimedOut => InletEventView::TimedOut,
        }
    }
}

/// What to do next.
#[derive(Debug, PartialEq, Eq)]
pub enum InletAction {
    /// Ask the remote node to create the inlet, now.
    Attempt(InletRequest),
    /// Show `message`, wait `wait` milliseconds, then ask the remote node again.
    Retry { wait: u64, message: String, request: InletRequest },
    /// The inlet exists: tell whoever reports progress that the work is
    /// finished, and hand over what was recorded.
    Finish(InletStatus),
    /// Give up with this failure.
    Abort(Error),
    /// Nothing: the event changes nothing.
    Nothing,
}

pub enum InletActionView {
    Attempt(InletRequestView),
    Retry { wait: u64, message: Seq<char>, request: InletRequestView },
    Finish(InletStatusView),
    Abort(ErrorView),
    Nothing,
}

impl View for InletAction {
    type V = InletActionView;

    open spec fn view(&self) -> InletActionView {
        match self {
            InletAction::Attempt(r) => InletActionView::Attempt(r@),
            InletAction::Retry { wait, message, request } => InletActionView::Retry {
                wait: *wait,
                message: message@,
                request: request@,
            },
            InletAction::Finish(s) => InletActionView::Finish(s@),
            InletAction::Abort(e) => InletActionView::Abort(e@),
            InletAction::Nothing => InletActionView::Nothing,
        }
    }
}

impl InletActionView {
    /// Whether the action asks the remote node to create the inlet.
    pub open spec fn asks_remote(self) -> bool {
        self is Attempt || self is Retry
    }
}

pub open spec fn bind_occupied_message(from: Seq<char>) -> Seq<char> {
    "the local address "@ + from + " is already in use"@
}

pub open spec fn invalid_target_message(to: Seq<char>) -> Seq<char> {
    "the target "@ + to + " is not an address"@
}

pub open spec fn authorized_with_project_message() -> Seq<char> {
    "--authorized can not be used with project addresses"@
}

pub open spec fn bad_request_message() -> Seq<char> {
    "bad request when creating an inlet"@
}

pub open spec fn no_retry_message() -> Seq<char> {
    "Failed to create TCP inlet"@
}

pub open spec fn timeout_message(to: Seq<char>) -> Seq<char> {
    "timed out while creating an inlet to "@ + to
}

pub open spec fn waiting_message(to: Seq<char>) -> Seq<char> {
    "Waiting for inlet "@ + to + " to be available... Retrying momentarily"@
}

/// Whether `to` is the text of an address that goes through a project.
pub open spec fn traverses_project(to: Seq<char>) -> bool {
    exists|segs: Seq<SegmentView>|
        valid_segments(segs) && #[trigger] text_of(segs) == to && has_protocol(
            segs,
            Protocol::Project,
        )
}

/// One more than `n`, as far as the type can count.
pub open spec fn count_up(n: u64) -> u64 {
    if n < u64::MAX {
        (n + 1) as u64
    } else {
        n
    }
}

pub open spec fn give_up(kind: Kind, message: Seq<char>) -> (InletState, InletActionView) {
    (InletState::Failed { kind }, InletActionView::Abort(ErrorView { kind, message }))
}

/// The first step: the checks made before anything is asked of the remote
/// node.
pub open spec fn spec_start(cmd: CreateCommandView, free: bool) -> (InletState, InletActionView) {
    if !free {
        give_up(Kind::PreconditionFailed, bind_occupied_message(cmd.from))
    } else if !is_address_text(cmd.to) {
        give_up(Kind::BadRequest, invalid_target_message(cmd.to))
    } else if traverses_project(cmd.to) && cmd.authorized is Some {
        give_up(Kind::PreconditionFailed, authorized_with_project_message())
    } else {
        (InletState::Attempting { attempts: 1 }, InletActionView::Attempt(request_of(cmd)))
    }
}

/// What follows the answer of the remote node to an attempt.
pub open spec fn spec_after_reply(cmd: CreateCommandView, attempts: u64, reply: ReplyView) -> (
    InletState,
    InletActionView,
) {
    match reply {
        ReplyView::Successful(status) => (
            InletState::Established,
            InletActionView::Finish(status),
        ),
        ReplyView::Failed { message, status } => {
            if status == Some(Status::BadRequest) {
                give_up(
                    Kind::BadRequest,
                    match message {
                        Some(m) => m,
                        None => bad_request_message(),
                    },
                )
            } else if cmd.retry_wait == 0 {
                give_up(Kind::Internal, no_retry_message())
            } else {
                (
                    InletState::Attempting { attempts: count_up(attempts) },
                    InletActionView::Retry {
                        wait: cmd.retry_wait,
                        message: waiting_message(cmd.to),
                        request: request_of(cmd),
                    },
                )
            }
        },
    }
}

/// The lifecycle of an inlet: the state and the action that follow from a
/// state and an event.
pub open spec fn spec_step(cmd: CreateCommandView, state: InletState, event: InletEventView) -> (
    InletState,
    InletActionView,
) {
    match state {
        InletState::Idle => match event {
            InletEventView::BindTested { free } => spec_start(cmd, free),
            InletEventView::TimedOut => give_up(Kind::Timeout, timeout_message(cmd.to)),
            _ => (state, InletActionView::Nothing),
        },
        InletState::Attempting { attempts } => match event {
            InletEventView::Replied(reply) => spec_after_reply(cmd, attempts, reply),
            InletEventView::RequestFailed(e) => (
                InletState::Failed { kind: e.kind },
                InletActionView::Abort(e),
            ),
            InletEventView::TimedOut => give_up(Kind::Timeout, timeout_message(cmd.to)),
            InletEventView::BindTested { .. } => (state, InletActionView::Nothing),
        },
        _ => (state, InletActionView::Nothing),
    }
}

/// The state after a run of events.
pub open spec fn spec_run(cmd: CreateCommandView, state: InletState, events: Seq<InletEventView>)
    -> InletState
    decreases events.len(),
{
    if events.len() == 0 {
        state
    } else {
        spec_run(cmd, spec_step(cmd, state, events[0]).0, events.skip(1))
    }
}

/// The actions that a run of events gives rise to, one for each event.
pub open spec fn spec_actions(
    cmd: CreateCommandView,
    state: InletState,
    events: Seq<InletEventView>,
) -> Seq<InletActionView>
    decreases events.len(),
{
    if events.len() == 0 {
        Seq::empty()
    } else {
        seq![spec_step(cmd, state, events[0]).1] + spec_actions(
            cmd,
            spec_step(cmd, state, events[0]).0,
            events.skip(1),
        )
    }
}

/// Once an inlet is established or given up, no event changes its state and
/// none has the remote node asked again.
pub proof fn lemma_terminal_is_final(
    cmd: CreateCommandView,
    state: InletState,
    events: Seq<InletEventView>,
)
    requires
        state.is_terminal(),
    ensures
        spec_run(cmd, state, events) == state,
        spec_actions(cmd, state, events).len() == events.len(),
        forall|i: int|
            0 <= i < events.len() ==> spec_actions(cmd, state, events)[i]
                == InletActionView::Nothing,
    decreases events.len(),
{
    if events.len() > 0 {
        lemma_terminal_is_final(cmd, state, events.skip(1));
        let rest = spec_actions(cmd, state, events.skip(1));
        assert(spec_actions(cmd, state, events) == seq![InletActionView::Nothing] + rest);
        assert forall|i: int| 0 <= i < events.len() implies spec_actions(cmd, state, events)[i]
            == InletActionView::Nothing by {
            if i > 0 {
                assert(spec_actions(cmd, state, events)[i] == rest[i - 1]);
            }
        }
    }
}

/// An attempt that is answered with the status `BadRequest` is the last one:
/// the inlet is given up with a failure of the class `BadRequest`, at once
/// and whatever the retry wait is, and whatever happens afterwards the
/// remote node is not asked again.
pub proof fn lemma_bad_request_never_retries(
    cmd: CreateCommandView,
    attempts: u64,
    message: Option<Seq<char>>,
    later: Seq<InletEventView>,
)
    ensures
        ({
            let reply = ReplyView::Failed { message, status: Some(Status::BadRequest) };
            let (state, action) = spec_step(
                cmd,
                InletState::Attempting { attempts },
                InletEventView::Replied(reply),
            );
            &&& state == InletState::Failed { kind: Kind::BadRequest }
            &&& action is Abort
            &&& action->Abort_0.kind == Kind::BadRequest
            &&& spec_run(cmd, state, later) == state
            &&& forall|i: int|
                0 <= i < later.len() ==> !(#[trigger] spec_actions(
                    cmd,
                    state,
                    later,
                )[i]).asks_remote()
        }),
{
    let state = InletState::Failed { kind: Kind::BadRequest };
    lemma_terminal_is_final(cmd, state, later);
}

/// With a retry wait of zero, an attempt that is answered with anything but
/// success is the last one: the inlet is given up at once, and whatever
/// happens afterwards the remote node is not asked again.
pub proof fn lemma_no_wait_no_retry(
    cmd: CreateCommandView,
    attempts: u64,
    message: Option<Seq<char>>,
    status: Option<Status>,
    later: Seq<InletEventView>,
)
    requires
        cmd.retry_wait == 0,
    ensures
        ({
            let reply = ReplyView::Failed { message, status };
            let (state, action) = spec_step(
                cmd,
                InletState::Attempting { attempts },
                InletEventView::Replied(reply),
            );
            &&& state is Failed
            &&& action is Abort
            &&& status != Some(Status::BadRequest) ==> state == InletState::Failed {
                kind: Kind::Internal,
            }
            &&& spec_run(cmd, state, later) == state
            &&& forall|i: int|
                0 <= i < later.len() ==> !(#[trigger] spec_actions(
                    cmd,
                    state,
                    later,
                )[i]).asks_remote()
        }),
{
    let reply = ReplyView::Failed { message, status };
    let state = spec_step(
        cmd,
        InletState::Attempting { attempts },
        InletEventView::Replied(reply),
    ).0;
    lemma_terminal_is_final(cmd, state, later);
}

/// With a retry wait above zero, an attempt that is answered with a failure
/// other than `BadRequest` is followed by another one, after the wait.
pub proof fn lemma_retry_when_waiting(
    cmd: CreateCommandView,
    attempts: u64,
    message: Option<Seq<char>>,
    status: Option<Status>,
)
    requires
        cmd.retry_wait > 0,
        status != Some(Status::BadRequest),
    ensures
        ({
            let reply = ReplyView::Failed { message, status };
            let (state, action) = spec_step(
                cmd,
                InletState::Attempting { attempts },
                InletEventView::Replied(reply),
            );
            &&& state == InletState::Attempting { attempts: count_up(attempts) }
            &&& action is Retry
            &&& action->Retry_wait == cmd.retry_wait
            &&& action->Retry_request == request_of(cmd)
        }),
{
}

impl CreateCommand {
    /// The target as an address.
    pub fn to(&self) -> (r: Result<MultiAddr, Error>)
        ensures
            match r {
                Ok(m) => m.wf() && text_of(m@) == self.to@,
                Err(e) => !is_address_text(self.to@) && e@ == (ErrorView {
                    kind: Kind::BadRequest,
                    message: invalid_target_message(self.to@),
                }),
            },
    {
        match MultiAddr::from_str(self.to.as_str()) {
            Ok(m) => Ok(m),
            Err(_) => {
                let message = concat3("the target ", self.to.as_str(), " is not an address");
                Err(Error { kind: Kind::BadRequest, message })
            },
        }
    }

    /// Reads the target of an inlet: a route, or the name of a relay of the
    /// default project. Returns the text of the route to the outlet.
    pub fn parse_arg_to(to: &str, default_project_name: &Option<String>) -> (r: Result<
        String,
        Error,
    >)
        ensures
            match r {
                Ok(text) => spec_parse_arg_to(to@, opt_text(*default_project_name)) == Ok::<
                    Seq<char>,
                    ErrorView,
                >(text@),
                Err(e) => spec_parse_arg_to(to@, opt_text(*default_project_name)) == Err::<
                    Seq<char>,
                    ErrorView,
                >(e@),
            },
    {
        let target = if contains_text(to, "$PROJECT_NAME") || contains_text(to, "$RELAY_NAME") {
            match default_project_name {
                None => {
                    return Err(
                        Error::new(
                            Kind::PreconditionFailed,
                            "There is no default project defined. Please enroll or create a project.",
                        ),
                    );
                },
                Some(name) => {
                    let named = replace(to, "$PROJECT_NAME", name.as_str());
                    replace(named.as_str(), "$RELAY_NAME", "default")
                },
            }
        } else {
            to.to_owned()
        };
        match MultiAddr::from_str(target.as_str()) {
            Ok(address) => Ok(address.to_string()),
            Err(_) => {
                if contains_char(target.as_str(), '/') {
                    return Err(Error::new(Kind::BadRequest, "The relay name can't contain '/'"));
                }
                match default_project_name {
                    None => Err(
                        Error::new(
                            Kind::PreconditionFailed,
                            "There is no default project defined. Please enroll or create a project.",
                        ),
                    ),
                    Some(name) => {
                        let mut route = concat3("/project/", name.as_str(), "/service/forward_to_");
                        route.append(target.as_str());
                        route.append("/secure/api/service/outlet");
                        match MultiAddr::from_str(route.as_str()) {
                            Ok(address) => Ok(address.to_string()),
                            Err(_) => Err(
                                Error::new(
                                    Kind::BadRequest,
                                    "Invalid address value or relay name",
                                ),
                            ),
                        }
                    },
                }
            },
        }
    }

    /// The command with its target read: see [`CreateCommand::parse_arg_to`].
    pub fn parse_args(self, default_project_name: &Option<String>) -> (r: Result<
        CreateCommand,
        Error,
    >)
        ensures
            match r {
                Ok(cmd) => spec_parse_arg_to(self.to@, opt_text(*default_project_name)) == Ok::<
                    Seq<char>,
                    ErrorView,
                >(cmd.to@) && cmd@ == (CreateCommandView { to: cmd.to@, ..self@ }),
                Err(e) => spec_parse_arg_to(self.to@, opt_text(*default_project_name)) == Err::<
                    Seq<char>,
                    ErrorView,
                >(e@),
            },
    {
        match CreateCommand::parse_arg_to(self.to.as_str(), default_project_name) {
            Ok(to) => Ok(
                CreateCommand {
                    at: self.at,
                    from: self.from,
                    to,
                    authorized: self.authorized,
                    alias: self.alias,
                    connection_wait: self.connection_wait,
                    retry_wait: self.retry_wait,
                    timeout: self.timeout,
                },
            ),
            Err(e) => Err(e),
        }
    }

    /// What the remote node is asked for in each attempt.
    pub fn request(&self) -> (r: InletRequest)
        ensures
            r@ == request_of(self@),
    {
        InletRequest {
            from: self.from.clone(),
            to: self.to.clone(),
            alias: clone_opt_text(&self.alias),
            authorized: clone_opt_identifier(&self.authorized),
            connection_wait: self.connection_wait,
        }
    }

    /// Reads the target and, where that succeeds, gives the inlet in its
    /// first state, ready for its first event.
    pub fn run(self, default_project_name: &Option<String>) -> (r: Result<Inlet, Error>)
        ensures
            match r {
                Ok(inlet) => {
                    &&& inlet.wf()
                    &&& inlet.spec_state() == InletState::Idle
                    &&& spec_parse_arg_to(self.to@, opt_text(*default_project_name)) == Ok::<
                        Seq<char>,
                        ErrorView,
                    >(inlet.spec_command().to)
                    &&& inlet.spec_command() == (CreateCommandView {
                        to: inlet.spec_command().to,
                        ..self@
                    })
                },
                Err(e) => spec_parse_arg_to(self.to@, opt_text(*default_project_name)) == Err::<
                    Seq<char>,
                    ErrorView,
                >(e@),
            },
    {
        match self.parse_args(default_project_name) {
            Ok(cmd) => Ok(Inlet::new(cmd)),
            Err(e) => Err(e),
        }
    }
}

/// The text that announces the work.
pub open spec fn creating_text(cmd: CreateCommandView) -> Seq<char> {
    "Creating TCP Inlet at "@ + cmd.from + "...\n"@
}

/// The texts that are shown, one after the other, while the attempts run.
pub open spec fn progress_texts(cmd: CreateCommandView, node_name: Seq<char>) -> Seq<Seq<char>> {
    seq![
        "Creating TCP Inlet on "@ + node_name + "..."@,
        "Hosting TCP Socket at "@ + cmd.from + "..."@,
        "Establishing connection to outlet "@ + cmd.to + "..."@,
    ]
}

/// The text that reports the established inlet.
pub open spec fn established_text(cmd: CreateCommandView, node_name: Seq<char>) -> Seq<char> {
    "TCP Inlet "@ + cmd.from + " on node "@ + node_name + " is now sending traffic\n"@
        + "to the outlet at "@ + cmd.to
}

impl CreateCommand {
    /// The text that announces the work.
    pub fn creating_message(&self) -> (text: String)
        ensures
            text@ == creating_text(self@),
    {
        concat3("Creating TCP Inlet at ", self.from.as_str(), "...\n")
    }

    /// The texts that are shown, one after the other, while the attempts
    /// run on the node `node_name`.
    pub fn progress_messages(&self, node_name: &str) -> (texts: Vec<String>)
        ensures
            texts@.len() == 3,
            forall|i: int| 0 <= i < 3 ==> (#[trigger] texts@[i])@ == progress_texts(
                self@,
                node_name@,
            )[i],
    {
        let mut texts: Vec<String> = Vec::new();
        texts.push(concat3("Creating TCP Inlet on ", node_name, "..."));
        texts.push(concat3("Hosting TCP Socket at ", self.from.as_str(), "..."));
        texts.push(concat3("Establishing connection to outlet ", self.to.as_str(), "..."));
        texts
    }

    /// The text that reports the established inlet on the node `node_name`.
    pub fn established_message(&self, node_name: &str) -> (text: String)
        ensures
            text@ == established_text(self@, node_name@),
    {
        let mut text = concat3("TCP Inlet ", self.from.as_str(), " on node ");
        text.append(node_name);
        text.append(" is now sending traffic\n");
        text.append("to the outlet at ");
        text.append(self.to.as_str());
        text
    }
}

fn abort(kind: Kind, message: String) -> (r: (InletState, InletAction))
    ensures
        (r.0, r.1@) == give_up(kind, message@),
{
    (InletState::Failed { kind }, InletAction::Abort(Error { kind, message }))
}

/// The first step of the lifecycle.
fn start(cmd: &CreateCommand, free: bool) -> (r: (InletState, InletAction))
    ensures
        (r.0, r.1@) == spec_start(cmd@, free),
{
    if !free {
        return abort(
            Kind::PreconditionFailed,
            concat3("the local address ", cmd.from.as_str(), " is already in use"),
        );
    }
    match cmd.to() {
        Err(e) => (InletState::Failed { kind: Kind::BadRequest }, InletAction::Abort(e)),
        Ok(address) => {
            let through_project = address.contains_protocol(Protocol::Project);
            proof {
                if traverses_project(cmd.to@) {
                    let segs = choose|segs: Seq<SegmentView>|
                        valid_segments(segs) && #[trigger] text_of(segs) == cmd.to@
                            && has_protocol(segs, Protocol::Project);
                    lemma_text_injective(segs, address@);
                }
            }
            if through_project && cmd.authorized.is_some() {
                abort(
                    Kind::PreconditionFailed,
                    "--authorized can not be used with project addresses".to_owned(),
                )
            } else {
                (InletState::Attempting { attempts: 1 }, InletAction::Attempt(cmd.request()))
            }
        },
    }
}

/// What follows the answer of the remote node.
fn after_reply(cmd: &CreateCommand, attempts: u64, reply: Reply) -> (r: (InletState, InletAction))
    ensures
        (r.0, r.1@) == spec_after_reply(cmd@, attempts, reply@),
{
    match reply {
        Reply::Successful(status) => (InletState::Established, InletAction::Finish(status)),
        Reply::Failed { message, status } => {
            let bad_request = match status {
                Some(Status::BadRequest) => true,
                _ => false,
            };
            if bad_request {
                let text = match message {
                    Some(m) => m,
                    None => "bad request when creating an inlet".to_owned(),
                };
                abort(Kind::BadRequest, text)
            } else if cmd.retry_wait == 0 {
                abort(Kind::Internal, "Failed to create TCP inlet".to_owned())
            } else {
                let next: u64 = if attempts < u64::MAX {
                    attempts + 1
                } else {
                    attempts
                };
                (
                    InletState::Attempting { attempts: next },
                    InletAction::Retry {
                        wait: cmd.retry_wait,
                        message: concat3(
                            "Waiting for inlet ",
                            cmd.to.as_str(),
                            " to be available... Retrying momentarily",
                        ),
                        request: cmd.request(),
                    },
                )
            }
        },
    }
}

/// The state and the action that follow from a state and an event.
pub fn step(cmd: &CreateCommand, state: InletState, event: InletEvent) -> (r: (
    InletState,
    InletAction,
))
    ensures
        (r.0, r.1@) == spec_step(cmd@, state, event@),
{
    match state {
        InletState::Idle => match event {
            InletEvent::BindTested { free } => start(cmd, free),
            InletEvent::TimedOut => abort(
                Kind::Timeout,
                concat2("timed out while creating an inlet to ", cmd.to.as_str()),
            ),
            _ => (state, InletAction::Nothing),
        },
        InletState::Attempting { attempts } => match event {
            InletEvent::Replied(reply) => after_reply(cmd, attempts, reply),
            InletEvent::RequestFailed(e) => (
                InletState::Failed { kind: e.kind },
                InletAction::Abort(e),
            ),
            InletEvent::TimedOut => abort(
                Kind::Timeout,
                concat2("timed out while creating an inlet to ", cmd.to.as_str()),
            ),
            InletEvent::BindTested { .. } => (state, InletAction::Nothing),
        },
        _ => (state, InletAction::Nothing),
    }
}

/// One inlet: its command, where it stands in its lifecycle and, once it is
/// established, what was recorded of it.
#[derive(Debug)]
pub struct Inlet {
    cmd: CreateCommand,
    state: InletState,
    status: Option<InletStatus>,
}

/// The view of what an inlet has recorded.
pub open spec fn opt_status(o: Option<InletStatus>) -> Option<InletStatusView> {
    match o {
        Some(s) => Some(s@),
        None => None,
    }
}

impl Inlet {
    pub closed spec fn spec_command(&self) -> CreateCommandView {
        self.cmd@
    }

    pub closed spec fn spec_state(&self) -> InletState {
        self.state
    }

    pub closed spec fn spec_status(&self) -> Option<InletStatusView> {
        opt_status(self.status)
    }

    /// The invariant of an inlet: it holds a bound address exactly when it
    /// is established, so never more than one.
    pub open spec fn wf(&self) -> bool {
        self.spec_status() is Some <==> self.spec_state() is Established
    }

    /// An inlet for which nothing was tried yet.
    pub fn new(cmd: CreateCommand) -> (inlet: Inlet)
        ensures
            inlet.wf(),
            inlet.spec_command() == cmd@,
            inlet.spec_state() == InletState::Idle,
            inlet.spec_status() is None,
    {
        Inlet { cmd, state: InletState::Idle, status: None }
    }

    /// The command that asked for this inlet.
    pub fn command(&self) -> (cmd: &CreateCommand)
        ensures
            cmd@ == self.spec_command(),
    {
        &self.cmd
    }

    /// Where the inlet stands in its lifecycle.
    pub fn state(&self) -> (s: InletState)
        ensures
            s == self.spec_state(),
    {
        self.state
    }

    /// What was recorded of the inlet when it was established.
    pub fn status(&self) -> (s: Option<InletStatus>)
        ensures
            opt_status(s) == self.spec_status(),
    {
        match &self.status {
            Some(s) => Some(s.clone()),
            None => None,
        }
    }

    /// Whether the inlet is established: the flag that whoever reports
    /// progress waits for.
    pub fn is_finished(&self) -> (b: bool)
        ensures
            b == (self.spec_state() is Established),
    {
        match self.state {
            InletState::Established => true,
            _ => false,
        }
    }

    /// Takes an event and says what to do next.
    pub fn step(&mut self, event: InletEvent) -> (action: InletAction)
        requires
            old(self).wf(),
        ensures
            final(self).wf(),
            final(self).spec_command() == old(self).spec_command(),
            (final(self).spec_state(), action@) == spec_step(
                old(self).spec_command(),
                old(self).spec_state(),
                event@,
            ),
            final(self).spec_status() == match action@ {
                InletActionView::Finish(status) => Some(status),
                _ => old(self).spec_status(),
            },
    {
        let (state, action) = step(&self.cmd, self.state, event);
        match &action {
            InletAction::Finish(status) => {
                self.status = Some(status.clone());
            },
            _ => {},
        }
        self.state = state;
        action
    }
}

} // verus!
