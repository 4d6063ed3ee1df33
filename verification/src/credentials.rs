//! The exchange of credentials: obtaining a credential for an identity from
//! the trust authority, keeping it, and presenting it to a peer.
//!
//! The authority and the peer are reached over the network, so they stand
//! behind traits that the caller implements. Nothing is assumed of an
//! implementation: what this module promises holds whatever it returns.

use crate::cli_state::{spec_identifier_by_name, CliState, NamedIdentityView};
use crate::error::{Error, ErrorView, Kind};
use crate::identifier::{opt_text, Identifier};
use crate::inlet::Status;
use crate::multiaddr::{is_address_text, text_of, valid_segments, MultiAddr, Protocol, SegmentView};
use crate::route::{Address, AddressView, Route, TransportType, LOCAL};
use crate::text::{concat2, concat3};
use vstd::prelude::*;

verus! {

/// What a credential is for.
#[derive(Clone, Copy, Debug, PartialEq, Eq, Structural)]
pub enum Purpose {
    /// Setting up secure channels.
    SecureChannel,
    /// Proving attributes to a peer.
    Credentials,
}

/// Attributes of an identity, signed by an authority.
#[derive(Debug, PartialEq, Eq)]
pub struct Credential {
    /// The identity that the attributes belong to.
    pub subject: Identifier,
    /// The authority that signed them.
    pub issuer: Identifier,
    /// What the credential is for.
    pub purpose: Purpose,
    /// The signed attributes with the purpose key, as the authority sent them.
    pub bundle: Vec<u8>,
}

/// What a credential stands for.
pub struct CredentialView {
    pub subject: Seq<char>,
    pub issuer: Seq<char>,
    pub purpose: Purpose,
    pub bundle: Seq<u8>,
}

impl View for Credential {
    type V = CredentialView;

    open spec fn view(&self) -> CredentialView {
        CredentialView {
            subject: self.subject@,
            issuer: self.issuer@,
            purpose: self.purpose,
            bundle: self.bundle@,
        }
    }
}

impl Clone for Credential {
    fn clone(&self) -> (r: Credential)
        ensures
            r@ == self@,
    {
        Credential {
            subject: self.subject.clone(),
            issuer: self.issuer.clone(),
            purpose: self.purpose,
            bundle: self.bundle.clone(),
        }
    }
}

/// The view of an optional credential.
pub open spec fn opt_credential(o: Option<Credential>) -> Option<CredentialView> {
    match o {
        Some(c) => Some(c@),
        None => None,
    }
}

/// Whether `c` is the credential of `subject` for `purpose`.
pub open spec fn is_for(c: CredentialView, subject: Seq<char>, purpose: Purpose) -> bool {
    c.subject == subject && c.purpose == purpose
}

/// Whether no two credentials are for the same identity and purpose.
pub open spec fn one_per_key(entries: Seq<CredentialView>) -> bool {
    forall|i: int, j: int|
        0 <= i < j < entries.len() ==> !is_for(
            #[trigger] entries[j],
            (#[trigger] entries[i]).subject,
            entries[i].purpose,
        )
}

/// Whether a credential of `subject` for `purpose` is kept.
pub open spec fn is_cached(entries: Seq<CredentialView>, subject: Seq<char>, purpose: Purpose)
    -> bool {
    exists|i: int| 0 <= i < entries.len() && is_for(#[trigger] entries[i], subject, purpose)
}

/// The index of a credential of `subject` for `purpose`, where one is kept.
pub open spec fn index_cached(entries: Seq<CredentialView>, subject: Seq<char>, purpose: Purpose)
    -> int {
    choose|i: int| 0 <= i < entries.len() && is_for(#[trigger] entries[i], subject, purpose)
}

/// The credential of `subject` for `purpose` that is kept, if any.
pub open spec fn spec_cached(entries: Seq<CredentialView>, subject: Seq<char>, purpose: Purpose)
    -> Option<CredentialView> {
    if is_cached(entries, subject, purpose) {
        Some(entries[index_cached(entries, subject, purpose)])
    } else {
        None
    }
}

/// What is kept after `c` was put in: it takes the place of the credential
/// of its identity and purpose, where there was one.
pub open spec fn spec_put(entries: Seq<CredentialView>, c: CredentialView) -> Seq<CredentialView> {
    if is_cached(entries, c.subject, c.purpose) {
        entries.update(index_cached(entries, c.subject, c.purpose), c)
    } else {
        entries.push(c)
    }
}

/// With one credential per key, a credential of a key is the credential of
/// that key.
pub proof fn lemma_index_cached(entries: Seq<CredentialView>, i: int)
    requires
        one_per_key(entries),
        0 <= i < entries.len(),
    ensures
        is_cached(entries, entries[i].subject, entries[i].purpose),
        index_cached(entries, entries[i].subject, entries[i].purpose) == i,
        spec_cached(entries, entries[i].subject, entries[i].purpose) == Some(entries[i]),
{
    let p = index_cached(entries, entries[i].subject, entries[i].purpose);
    assert(is_for(entries[i], entries[i].subject, entries[i].purpose));
    if p < i {
        assert(!is_for(entries[i], entries[p].subject, entries[p].purpose));
    } else if i < p {
        assert(!is_for(entries[p], entries[i].subject, entries[i].purpose));
    }
}

/// After a credential was put in, it is the one that is kept for its
/// identity and purpose; there is still one per key, and what is kept for
/// any other key is what was kept before.
pub proof fn lemma_put(
    entries: Seq<CredentialView>,
    c: CredentialView,
    subject: Seq<char>,
    purpose: Purpose,
)
    requires
        one_per_key(entries),
    ensures
        one_per_key(spec_put(entries, c)),
        spec_cached(spec_put(entries, c), c.subject, c.purpose) == Some(c),
        !is_for(c, subject, purpose) ==> spec_cached(spec_put(entries, c), subject, purpose)
            == spec_cached(entries, subject, purpose),
{
    let after = spec_put(entries, c);
    let p = if is_cached(entries, c.subject, c.purpose) {
        index_cached(entries, c.subject, c.purpose)
    } else {
        entries.len() as int
    };
    assert(after[p] == c);
    assert forall|i: int, j: int| 0 <= i < j < after.len() implies !is_for(
        #[trigger] after[j],
        (#[trigger] after[i]).subject,
        after[i].purpose,
    ) by {
        if is_cached(entries, c.subject, c.purpose) {
            assert(is_for(entries[i], after[i].subject, after[i].purpose));
            assert(is_for(entries[j], after[j].subject, after[j].purpose));
        } else if j == p {
            assert(!is_for(entries[i], c.subject, c.purpose));
        } else {
            assert(after[i] == entries[i] && after[j] == entries[j]);
        }
    }
    lemma_index_cached(after, p);
    if !is_for(c, subject, purpose) {
        if is_cached(entries, subject, purpose) {
            let q = index_cached(entries, subject, purpose);
            lemma_index_cached(entries, q);
            assert(after[q] == entries[q]);
            lemma_index_cached(after, q);
        } else if is_cached(after, subject, purpose) {
            let q = index_cached(after, subject, purpose);
            if q < entries.len() {
                assert(after[q] == c || after[q] == entries[q]);
            }
        }
    }
}

/// What a vector of credentials stands for.
pub open spec fn credentials_view(entries: Seq<Credential>) -> Seq<CredentialView> {
    entries.map_values(|c: Credential| c@)
}

/// The credentials that a node keeps: at most one for each identity and
/// purpose.
#[derive(Debug)]
pub struct CredentialCache {
    entries: Vec<Credential>,
}

impl View for CredentialCache {
    type V = Seq<CredentialView>;

    closed spec fn view(&self) -> Seq<CredentialView> {
        credentials_view(self.entries@)
    }
}

impl CredentialCache {
    /// The invariant of the cache: one credential per identity and purpose.
    pub open spec fn wf(&self) -> bool {
        one_per_key(self@)
    }

    /// A cache that keeps nothing.
    pub fn new() -> (cache: CredentialCache)
        ensures
            cache.wf(),
            cache@ == Seq::<CredentialView>::empty(),
    {
        let cache = CredentialCache { entries: Vec::new() };
        assert(cache@ =~= Seq::<CredentialView>::empty());
        cache
    }

    fn find(&self, subject: &Identifier, purpose: Purpose) -> (r: Option<usize>)
        requires
            self.wf(),
        ensures
            match r {
                Some(i) => i < self@.len() && is_cached(self@, subject@, purpose) && index_cached(
                    self@,
                    subject@,
                    purpose,
                ) == i,
                None => !is_cached(self@, subject@, purpose),
            },
    {
        let mut i: usize = 0;
        while i < self.entries.len()
            invariant
                i <= self.entries@.len(),
                self@.len() == self.entries@.len(),
                self.wf(),
                forall|j: int| 0 <= j < i ==> !is_for(#[trigger] self@[j], subject@, purpose),
            decreases self.entries.len() - i,
        {
            if self.entries[i].subject.equals(subject) && self.entries[i].purpose == purpose {
                proof {
                    assert(is_for(self@[i as int], subject@, purpose));
                    lemma_index_cached(self@, i as int);
                }
                return Some(i);
            }
            i = i + 1;
        }
        None
    }

    /// The credential of `subject` for `purpose` that is kept, if any.
    pub fn get(&self, subject: &Identifier, purpose: Purpose) -> (r: Option<Credential>)
        requires
            self.wf(),
        ensures
            opt_credential(r) == spec_cached(self@, subject@, purpose),
    {
        match self.find(subject, purpose) {
            Some(i) => {
                assert(self@[i as int] == self.entries@[i as int]@);
                Some(self.entries[i].clone())
            },
            None => None,
        }
    }

    /// Keeps `credential`, in place of the one that was kept for its
    /// identity and purpose.
    pub fn put(&mut self, credential: Credential)
        requires
            old(self).wf(),
        ensures
            final(self).wf(),
            final(self)@ == spec_put(old(self)@, credential@),
            spec_cached(final(self)@, credential@.subject, credential@.purpose) == Some(
                credential@,
            ),
    {
        proof {
            lemma_put(self@, credential@, credential@.subject, credential@.purpose);
        }
        let ghost before = self@;
        match self.find(&credential.subject, credential.purpose) {
            Some(i) => {
                self.entries.set(i, credential);
                assert(self@ =~= before.update(i as int, credential@));
            },
            None => {
                self.entries.push(credential);
                assert(self@ =~= before.push(credential@));
            },
        }
    }
}

/// What the authority answered when it was asked for a credential: a
/// credential, the news that it has none, or a failure.
pub open spec fn fetched_view(fetched: Result<Option<Credential>, Error>) -> Result<
    Option<CredentialView>,
    ErrorView,
> {
    match fetched {
        Ok(c) => Ok(opt_credential(c)),
        Err(e) => Err(e@),
    }
}

pub open spec fn wrong_subject_message(subject: Seq<char>) -> Seq<char> {
    "the authority returned a credential that does not belong to "@ + subject
}

/// What follows from the answer of the authority for `subject`: what is
/// kept afterwards, and what the caller gets. A credential is kept and
/// handed on only where it is a credential of `subject` for presenting
/// attributes.
pub open spec fn spec_accept(
    entries: Seq<CredentialView>,
    subject: Seq<char>,
    fetched: Result<Option<CredentialView>, ErrorView>,
) -> (Seq<CredentialView>, Result<Option<CredentialView>, ErrorView>) {
    match fetched {
        Ok(Some(c)) => if is_for(c, subject, Purpose::Credentials) {
            (spec_put(entries, c), Ok(Some(c)))
        } else {
            (
                entries,
                Err(ErrorView { kind: Kind::Internal, message: wrong_subject_message(subject) }),
            )
        },
        Ok(None) => (entries, Ok(None)),
        Err(e) => (entries, Err(e)),
    }
}

impl CredentialCache {
    /// Takes the answer of the authority for `subject`: see [`spec_accept`].
    pub fn accept(&mut self, subject: &Identifier, fetched: Result<Option<Credential>, Error>)
        -> (r: Result<Option<Credential>, Error>)
        requires
            old(self).wf(),
        ensures
            final(self).wf(),
            (final(self)@, fetched_view(r)) == spec_accept(
                old(self)@,
                subject@,
                fetched_view(fetched),
            ),
    {
        match fetched {
            Ok(Some(c)) => {
                let wanted = match c.purpose {
                    Purpose::Credentials => c.subject.equals(subject),
                    _ => false,
                };
                if wanted {
                    self.put(c.clone());
                    Ok(Some(c))
                } else {
                    Err(
                        Error {
                            kind: Kind::Internal,
                            message: concat2(
                                "the authority returned a credential that does not belong to ",
                                subject.as_str(),
                            ),
                        },
                    )
                }
            },
            Ok(None) => Ok(None),
            Err(e) => Err(e),
        }
    }
}

/// After an obtained credential of `subject` was accepted, it is the
/// credential that is kept for `subject`.
pub proof fn lemma_accepted_is_cached(
    entries: Seq<CredentialView>,
    subject: Seq<char>,
    c: CredentialView,
)
    requires
        one_per_key(entries),
        is_for(c, subject, Purpose::Credentials),
    ensures
        spec_cached(spec_accept(entries, subject, Ok(Some(c))).0, subject, Purpose::Credentials)
            == Some(c),
        one_per_key(spec_accept(entries, subject, Ok(Some(c))).0),
{
    lemma_put(entries, c, subject, Purpose::Credentials);
}

/// Accepting an answer never changes what is kept for another identity or
/// purpose.
pub proof fn lemma_accept_keeps_others(
    entries: Seq<CredentialView>,
    subject: Seq<char>,
    fetched: Result<Option<CredentialView>, ErrorView>,
    other: Seq<char>,
    purpose: Purpose,
)
    requires
        one_per_key(entries),
        !(other == subject && purpose == Purpose::Credentials),
    ensures
        one_per_key(spec_accept(entries, subject, fetched).0),
        spec_cached(spec_accept(entries, subject, fetched).0, other, purpose) == spec_cached(
            entries,
            other,
            purpose,
        ),
{
    match fetched {
        Ok(Some(c)) => {
            lemma_put(entries, c, other, purpose);
        },
        _ => {},
    }
}

/// Whether the hops of `protocol` are workers of this node.
pub open spec fn is_local_protocol(protocol: Protocol) -> bool {
    protocol == Protocol::Worker || protocol == Protocol::Service || protocol == Protocol::Secure
}

/// Whether every segment names a worker of this node.
pub open spec fn all_local(segs: Seq<SegmentView>) -> bool {
    forall|i: int| 0 <= i < segs.len() ==> is_local_protocol((#[trigger] segs[i]).protocol)
}

/// The route of local hops that an address of local segments stands for.
pub open spec fn local_route_of(segs: Seq<SegmentView>) -> Seq<AddressView> {
    Seq::new(
        segs.len(),
        |i: int| AddressView { transport_type: TransportType { value: LOCAL }, value: segs[i].value },
    )
}

pub open spec fn not_local_message() -> Seq<char> {
    "the address must consist of worker, service and secure segments only"@
}

/// Turns an address whose segments all name workers of this node into the
/// route of those workers. Any other address is refused.
pub fn local_multiaddr_to_route(address: &MultiAddr) -> (r: Result<Route, Error>)
    ensures
        match r {
            Ok(route) => all_local(address@) && route@ == local_route_of(address@),
            Err(e) => !all_local(address@) && e@ == (ErrorView {
                kind: Kind::BadRequest,
                message: not_local_message(),
            }),
        },
{
    let mut route = Route::new();
    let mut i: usize = 0;
    while i < address.len()
        invariant
            i <= address@.len(),
            all_local(address@.take(i as int)),
            route@ == local_route_of(address@.take(i as int)),
        decreases address@.len() - i,
    {
        let protocol = address.protocol_at(i);
        let local = match protocol {
            Protocol::Worker => true,
            Protocol::Service => true,
            Protocol::Secure => true,
            _ => false,
        };
        if !local {
            assert(!is_local_protocol(address@[i as int].protocol));
            return Err(
                Error::new(
                    Kind::BadRequest,
                    "the address must consist of worker, service and secure segments only",
                ),
            );
        }
        route = route.append(Address::new(TransportType::new(LOCAL), address.value_at(i)));
        proof {
            let next = address@.take(i + 1);
            assert(route@ =~= local_route_of(next));
            assert forall|j: int| 0 <= j < next.len() implies is_local_protocol(
                (#[trigger] next[j]).protocol,
            ) by {
                if j < i {
                    assert(next[j] == address@.take(i as int)[j]);
                }
            }
        }
        i = i + 1;
    }
    assert(address@.take(i as int) =~= address@);
    Ok(route)
}

/// The route that an address of local segments stands for is local.
pub proof fn lemma_local_route_is_local(segs: Seq<SegmentView>)
    ensures
        crate::route::is_local_route(local_route_of(segs)),
{
}

/// The request for a credential.
#[derive(Debug, PartialEq, Eq)]
pub struct GetCredentialRequest {
    /// Whether to ask the authority even where a credential is kept.
    pub overwrite: bool,
    /// The name of the identity; none for the default identity.
    pub identity_name: Option<String>,
}

impl GetCredentialRequest {
    pub fn new(overwrite: bool, identity_name: Option<String>) -> (r: GetCredentialRequest)
        ensures
            r.overwrite == overwrite,
            r.identity_name == identity_name,
    {
        GetCredentialRequest { overwrite, identity_name }
    }
}

/// The request to present the credential of the node to a peer.
#[derive(Debug, PartialEq, Eq)]
pub struct PresentCredentialRequest {
    /// The text of the address of the peer.
    pub route: String,
    /// Whether only this node presents a credential.
    pub oneway: bool,
}

impl PresentCredentialRequest {
    pub fn new(to: &MultiAddr, oneway: bool) -> (r: PresentCredentialRequest)
        ensures
            r.route@ == text_of(to@),
            r.oneway == oneway,
    {
        PresentCredentialRequest { route: to.to_string(), oneway }
    }
}

/// The method of a request.
#[derive(Clone, Copy, Debug, PartialEq, Eq, Structural)]
pub enum Method {
    Get,
    Post,
    Put,
    Delete,
    Patch,
}

/// A request to a node.
#[derive(Debug, PartialEq, Eq)]
pub struct Request<B> {
    pub method: Method,
    pub path: String,
    pub body: B,
}

impl<B> Request<B> {
    /// The request that posts `body` to `path`.
    pub fn post(path: &str, body: B) -> (r: Request<B>)
        ensures
            r.method == Method::Post,
            r.path@ == path@,
            r.body == body,
    {
        Request { method: Method::Post, path: path.to_owned(), body }
    }
}

/// The path of the requests for a credential.
pub open spec fn get_credential_path() -> Seq<char> {
    "/node/credentials/actions/get"@
}

/// The path of the requests to present a credential.
pub open spec fn present_credential_path() -> Seq<char> {
    "/node/credentials/actions/present"@
}

/// The request that asks a node for the credential of `identity_name`.
pub fn get_credential_request(overwrite: bool, identity_name: Option<String>) -> (r: Request<
    GetCredentialRequest,
>)
    ensures
        r.method == Method::Post,
        r.path@ == get_credential_path(),
        r.body.overwrite == overwrite,
        r.body.identity_name == identity_name,
{
    Request::post("/node/credentials/actions/get", GetCredentialRequest::new(overwrite, identity_name))
}

/// The request that asks a node to present its credential to the peer at
/// `to`.
pub fn present_credential_request(to: &MultiAddr, oneway: bool) -> (r: Request<
    PresentCredentialRequest,
>)
    ensures
        r.method == Method::Post,
        r.path@ == present_credential_path(),
        r.body.route@ == text_of(to@),
        r.body.oneway == oneway,
{
    Request::post("/node/credentials/actions/present", PresentCredentialRequest::new(to, oneway))
}

/// The answer of a node to a request.
#[derive(Debug, PartialEq, Eq)]
pub enum Reply<T> {
    Successful(T),
    Failed { message: Option<String>, status: Option<Status> },
}

/// The class of the failure that a status stands for.
pub open spec fn kind_of_status(status: Option<Status>) -> Kind {
    match status {
        Some(Status::BadRequest) => Kind::BadRequest,
        Some(Status::NotFound) => Kind::NotFound,
        _ => Kind::Internal,
    }
}

pub open spec fn no_message() -> Seq<char> {
    "the node answered with a failure and gave no reason"@
}

impl<T> Reply<T> {
    /// The body of a successful answer, or the failure that the answer
    /// reports.
    pub fn success(self) -> (r: Result<T, Error>)
        ensures
            match self {
                Reply::Successful(body) => r == Ok::<T, Error>(body),
                Reply::Failed { message, status } => r matches Err(e) && e.kind == kind_of_status(
                    status,
                ) && e.message@ == match message {
                    Some(m) => m@,
                    None => no_message(),
                },
            },
    {
        match self {
            Reply::Successful(body) => Ok(body),
            Reply::Failed { message, status } => {
                let kind = match status {
                    Some(Status::BadRequest) => Kind::BadRequest,
                    Some(Status::NotFound) => Kind::NotFound,
                    _ => Kind::Internal,
                };
                let message = match message {
                    Some(m) => m,
                    None => "the node answered with a failure and gave no reason".to_owned(),
                };
                Err(Error { kind, message })
            },
        }
    }
}

/// The way to a node that answers requests.
///
/// Nothing is assumed of an implementation but what it says itself, in
/// `asks` and `tells`, of what it may return. An implementation that says
/// nothing may return anything.
pub trait NodeClient {
    /// The invariant that the implementation keeps.
    open spec fn ready(&self) -> bool {
        true
    }

    /// Whether the client may return `answer` when it is handed `request`.
    open spec fn asks(
        &self,
        request: Request<GetCredentialRequest>,
        answer: Result<Reply<Credential>, Error>,
    ) -> bool {
        true
    }

    /// Whether the client may return `answer` when it is handed `request`.
    open spec fn tells(
        &self,
        request: Request<PresentCredentialRequest>,
        answer: Result<Reply<()>, Error>,
    ) -> bool {
        true
    }

    /// Sends a request for a credential and waits for the answer.
    fn ask(&mut self, request: Request<GetCredentialRequest>) -> (answer: Result<
        Reply<Credential>,
        Error,
    >)
        requires
            old(self).ready(),
        ensures
            final(self).ready(),
            old(self).asks(request, answer),
    ;

    /// Sends a request to present a credential and waits for the answer.
    fn tell(&mut self, request: Request<PresentCredentialRequest>) -> (answer: Result<
        Reply<()>,
        Error,
    >)
        requires
            old(self).ready(),
        ensures
            final(self).ready(),
            old(self).tells(request, answer),
    ;
}

/// Whether `request` asks for the credential of `identity_name`.
pub open spec fn is_get_credential_request(
    request: Request<GetCredentialRequest>,
    overwrite: bool,
    identity_name: Option<String>,
) -> bool {
    &&& request.method == Method::Post
    &&& request.path@ == get_credential_path()
    &&& request.body.overwrite == overwrite
    &&& request.body.identity_name == identity_name
}

/// Whether `request` asks to present the credential of the node to the
/// peer at `to`.
pub open spec fn is_present_credential_request(
    request: Request<PresentCredentialRequest>,
    to: Seq<SegmentView>,
    oneway: bool,
) -> bool {
    &&& request.method == Method::Post
    &&& request.path@ == present_credential_path()
    &&& request.body.route@ == text_of(to)
    &&& request.body.oneway == oneway
}

/// Whether `r` is what the answer `answer` of a node comes to: the body of
/// a successful reply, the failure that a reply reports, or the failure to
/// get a reply.
pub open spec fn is_outcome<T>(answer: Result<Reply<T>, Error>, r: Result<T, Error>) -> bool {
    match answer {
        Ok(Reply::Successful(body)) => r == Ok::<T, Error>(body),
        Ok(Reply::Failed { message, status }) => r matches Err(e) && e.kind == kind_of_status(
            status,
        ) && e.message@ == match message {
            Some(m) => m@,
            None => no_message(),
        },
        Err(e) => r == Err::<T, Error>(e),
    }
}

/// What the answer of a node comes to: see [`is_outcome`].
pub fn outcome<T>(answer: Result<Reply<T>, Error>) -> (r: Result<T, Error>)
    ensures
        is_outcome(answer, r),
{
    match answer {
        Ok(reply) => reply.success(),
        Err(e) => Err(e),
    }
}

/// Whether `r` may come of asking the node behind `client` for the
/// credential of `identity_name`: the request for it is handed to the
/// client, and `r` is what the answer comes to.
pub open spec fn remote_obtains<C: NodeClient>(
    client: C,
    overwrite: bool,
    identity_name: Option<String>,
    r: Result<Credential, Error>,
) -> bool {
    exists|request: Request<GetCredentialRequest>, answer: Result<Reply<Credential>, Error>|
        is_get_credential_request(request, overwrite, identity_name) && #[trigger] client.asks(
            request,
            answer,
        ) && is_outcome(answer, r)
}

/// Whether `r` may come of telling the node behind `client` to present its
/// credential to the peer at `to`: the request for it is handed to the
/// client, and `r` is what the answer comes to.
pub open spec fn remote_presents<C: NodeClient>(
    client: C,
    to: Seq<SegmentView>,
    oneway: bool,
    r: Result<(), Error>,
) -> bool {
    exists|request: Request<PresentCredentialRequest>, answer: Result<Reply<()>, Error>|
        is_present_credential_request(request, to, oneway) && #[trigger] client.tells(
            request,
            answer,
        ) && is_outcome(answer, r)
}

/// What discarding the credential leaves of the result of obtaining it.
pub open spec fn discard(r: Result<Credential, Error>) -> Result<(), Error> {
    match r {
        Ok(_) => Ok(()),
        Err(e) => Err(e),
    }
}

/// Obtaining and presenting credentials.
pub trait Credentials {
    /// The invariant that the implementation keeps.
    open spec fn valid(&self) -> bool {
        true
    }

    /// What a call of `get_credential` may do: how the state before, the
    /// arguments, the state after and the result go together. An
    /// implementation that says nothing may do anything.
    open spec fn obtains(
        before: &Self,
        overwrite: bool,
        identity_name: Option<String>,
        after: &Self,
        r: Result<Credential, Error>,
    ) -> bool {
        true
    }

    /// Makes sure that a credential is held for `identity_name`: obtains it
    /// as `get_credential` does where none is kept, and discards it.
    fn authenticate(&mut self, identity_name: Option<String>) -> (r: Result<(), Error>)
        requires
            old(self).valid(),
        ensures
            final(self).valid(),
            exists|c: Result<Credential, Error>|
                #[trigger] Self::obtains(old(self), false, identity_name, final(self), c) && r
                    == discard(c),
    {
        let c = self.get_credential(false, identity_name);
        let r = match c {
            Ok(_) => Ok(()),
            Err(e) => Err(e),
        };
        assert(Self::obtains(old(self), false, identity_name, self, c) && r == discard(c));
        r
    }

    /// The credential of `identity_name`: the one that is kept, unless
    /// `overwrite` is set or none is kept; then one is obtained from the
    /// authority and kept in place of the old one.
    fn get_credential(&mut self, overwrite: bool, identity_name: Option<String>) -> (r: Result<
        Credential,
        Error,
    >)
        requires
            old(self).valid(),
        ensures
            final(self).valid(),
            Self::obtains(old(self), overwrite, identity_name, final(self), r),
    ;

    /// What a call of `present_credential` may do: how the state before,
    /// the arguments, the state after and the result go together. An
    /// implementation that says nothing may do anything.
    open spec fn presents(
        before: &Self,
        to: Seq<SegmentView>,
        oneway: bool,
        after: &Self,
        r: Result<(), Error>,
    ) -> bool {
        true
    }

    /// Presents the credential of the node to the peer at `to`; unless
    /// `oneway` is set, the peer has to present one in turn.
    fn present_credential(&mut self, to: &MultiAddr, oneway: bool) -> (r: Result<(), Error>)
        requires
            old(self).valid(),
        ensures
            final(self).valid(),
            Self::presents(old(self), to@, oneway, final(self), r),
    ;
}

/// Asks the node behind `client` for the credential of `identity_name`:
/// the request that [`get_credential_request`] builds goes to the client,
/// and the result is what [`outcome`] makes of the answer.
fn remote_get_credential<C: NodeClient>(
    client: &mut C,
    overwrite: bool,
    identity_name: Option<String>,
) -> (r: Result<Credential, Error>)
    requires
        old(client).ready(),
    ensures
        final(client).ready(),
        remote_obtains(*old(client), overwrite, identity_name, r),
{
    let request = get_credential_request(overwrite, identity_name);
    let answer = client.ask(request);
    let r = outcome(answer);
    assert(old(client).asks(request, answer) && is_outcome(answer, r));
    r
}

/// Tells the node behind `client` to present its credential to the peer
/// at `to`: the request that [`present_credential_request`] builds goes to
/// the client, and the result is what [`outcome`] makes of the answer.
fn remote_present_credential<C: NodeClient>(client: &mut C, to: &MultiAddr, oneway: bool) -> (r:
    Result<(), Error>)
    requires
        old(client).ready(),
    ensures
        final(client).ready(),
        remote_presents(*old(client), to@, oneway, r),
{
    let request = present_credential_request(to, oneway);
    let answer = client.tell(request);
    let r = outcome(answer);
    assert(old(client).tells(request, answer) && is_outcome(answer, r));
    r
}

/// A node of the authority, reached through a secure client.
pub struct AuthorityNode<C: NodeClient> {
    pub secure_client: C,
}

impl<C: NodeClient> Credentials for AuthorityNode<C> {
    open spec fn valid(&self) -> bool {
        self.secure_client.ready()
    }

    /// The request for the credential goes to the node, and the result is
    /// what its answer comes to.
    open spec fn obtains(
        before: &Self,
        overwrite: bool,
        identity_name: Option<String>,
        after: &Self,
        r: Result<Credential, Error>,
    ) -> bool {
        remote_obtains(before.secure_client, overwrite, identity_name, r)
    }

    /// The request to present the credential goes to the node, and the
    /// result is what its answer comes to.
    open spec fn presents(
        before: &Self,
        to: Seq<SegmentView>,
        oneway: bool,
        after: &Self,
        r: Result<(), Error>,
    ) -> bool {
        remote_presents(before.secure_client, to, oneway, r)
    }

    fn get_credential(&mut self, overwrite: bool, identity_name: Option<String>) -> (r: Result<
        Credential,
        Error,
    >) {
        remote_get_credential(&mut self.secure_client, overwrite, identity_name)
    }

    fn present_credential(&mut self, to: &MultiAddr, oneway: bool) -> (r: Result<(), Error>) {
        remote_present_credential(&mut self.secure_client, to, oneway)
    }
}

/// A node that runs in the background of this machine.
pub struct BackgroundNode<C: NodeClient> {
    pub client: C,
}

impl<C: NodeClient> Credentials for BackgroundNode<C> {
    open spec fn valid(&self) -> bool {
        self.client.ready()
    }

    /// The request for the credential goes to the node, and the result is
    /// what its answer comes to.
    open spec fn obtains(
        before: &Self,
        overwrite: bool,
        identity_name: Option<String>,
        after: &Self,
        r: Result<Credential, Error>,
    ) -> bool {
        remote_obtains(before.client, overwrite, identity_name, r)
    }

    /// The request to present the credential goes to the node, and the
    /// result is what its answer comes to.
    open spec fn presents(
        before: &Self,
        to: Seq<SegmentView>,
        oneway: bool,
        after: &Self,
        r: Result<(), Error>,
    ) -> bool {
        remote_presents(before.client, to, oneway, r)
    }

    fn get_credential(&mut self, overwrite: bool, identity_name: Option<String>) -> (r: Result<
        Credential,
        Error,
    >) {
        remote_get_credential(&mut self.client, overwrite, identity_name)
    }

    fn present_credential(&mut self, to: &MultiAddr, oneway: bool) -> (r: Result<(), Error>) {
        remote_present_credential(&mut self.client, to, oneway)
    }
}

/// The view of the result of a call that gives nothing back.
pub open spec fn unit_result_view(r: Result<(), Error>) -> Result<(), ErrorView> {
    match r {
        Ok(_) => Ok(()),
        Err(e) => Err(e@),
    }
}

/// The trust authority: it issues the credentials of identities.
///
/// Nothing is assumed of an implementation but what it says itself, in
/// `issues`, of what it may answer. An implementation that says nothing may
/// answer anything.
pub trait Authority {
    /// Whether the authority may answer `answer` when it is asked for the
    /// credential of `subject`.
    open spec fn issues(
        &self,
        subject: Seq<char>,
        answer: Result<Option<CredentialView>, ErrorView>,
    ) -> bool {
        true
    }

    /// The credential of `subject`, or nothing where the authority has none
    /// for it.
    fn credential(&mut self, subject: &Identifier) -> (r: Result<Option<Credential>, Error>)
        ensures
            old(self).issues(subject@, fetched_view(r)),
    ;
}

/// The service that carries credentials to peers.
///
/// Nothing is assumed of an implementation but what it says itself, in
/// `presents` and `presents_mutual`, of what it may return. An
/// implementation that says nothing may return anything.
pub trait CredentialsServer {
    /// Whether the service may return `result` when it is told to send
    /// `credential` over `route`, and to expect nothing in turn.
    open spec fn presents(
        &self,
        route: Seq<AddressView>,
        credential: CredentialView,
        result: Result<(), ErrorView>,
    ) -> bool {
        true
    }

    /// Whether the service may return `result` when it is told to send
    /// `credential` over `route`, and to check what the peer presents in
    /// turn against `authorities`.
    open spec fn presents_mutual(
        &self,
        route: Seq<AddressView>,
        authorities: Seq<Seq<char>>,
        credential: CredentialView,
        result: Result<(), ErrorView>,
    ) -> bool {
        true
    }

    /// Sends `credential` to the peer at the end of `route`.
    fn present_credential(&mut self, route: Route, credential: Credential) -> (r: Result<
        (),
        Error,
    >)
        ensures
            old(self).presents(route@, credential@, unit_result_view(r)),
    ;

    /// Sends `credential` to the peer at the end of `route`, takes the
    /// credential that the peer presents in turn, and fails unless one of
    /// `authorities` issued it.
    fn present_credential_mutual(
        &mut self,
        route: Route,
        authorities: &Vec<Identifier>,
        credential: Credential,
    ) -> (r: Result<(), Error>)
        ensures
            old(self).presents_mutual(
                route@,
                identifiers_view(authorities@),
                credential@,
                unit_result_view(r),
            ),
    ;
}

/// Whether `result` may come of handing `plan` to `server`: where the plan
/// names no authorities, of the one-way call with its route and credential;
/// else of the mutual call with its route, authorities and credential.
pub open spec fn spec_carried<S: CredentialsServer>(
    server: S,
    plan: PresentationView,
    result: Result<(), ErrorView>,
) -> bool {
    match plan.authorities {
        None => server.presents(plan.route, plan.credential, result),
        Some(authorities) => server.presents_mutual(
            plan.route,
            authorities,
            plan.credential,
            result,
        ),
    }
}

/// What is handed to the service that carries credentials.
#[derive(Debug, PartialEq, Eq)]
pub struct Presentation {
    /// The route of local hops to the peer.
    pub route: Route,
    /// The credential of this node.
    pub credential: Credential,
    /// The authorities that the credential of the peer has to come from;
    /// none where the peer presents nothing.
    pub authorities: Option<Vec<Identifier>>,
}

/// What a vector of identifiers stands for.
pub open spec fn identifiers_view(v: Seq<Identifier>) -> Seq<Seq<char>> {
    Seq::new(v.len(), |i: int| v[i]@)
}

/// The view of an optional vector of identifiers.
pub open spec fn opt_identifiers(o: Option<Vec<Identifier>>) -> Option<Seq<Seq<char>>> {
    match o {
        Some(v) => Some(identifiers_view(v@)),
        None => None,
    }
}

pub struct PresentationView {
    pub route: Seq<AddressView>,
    pub credential: CredentialView,
    pub authorities: Option<Seq<Seq<char>>>,
}

impl View for Presentation {
    type V = PresentationView;

    open spec fn view(&self) -> PresentationView {
        PresentationView {
            route: self.route@,
            credential: self.credential@,
            authorities: opt_identifiers(self.authorities),
        }
    }
}

pub open spec fn bad_route_message(route: Seq<char>) -> Seq<char> {
    "Couldn't convert String to MultiAddr: "@ + route
}

pub open spec fn no_credential_message(identifier: Seq<char>) -> Seq<char> {
    "A credential must be retrieved for "@ + identifier
}

pub open spec fn no_authorities_message() -> Seq<char> {
    "there is no trust context to check the credential of the peer against"@
}

pub open spec fn not_found_message(identifier: Seq<char>) -> Seq<char> {
    "no credential found for "@ + identifier
}

pub open spec fn authority_failed_message(identifier: Seq<char>, reason: Seq<char>) -> Seq<char> {
    "Error retrieving credential from authority for "@ + identifier + ": "@ + reason
}

/// The segments of the address with the text `text`.
pub open spec fn segments_of(text: Seq<char>) -> Seq<SegmentView> {
    choose|segs: Seq<SegmentView>| valid_segments(segs) && #[trigger] text_of(segs) == text
}

/// What presenting the credential of the node `own` to the peer at `route`
/// comes to: what is handed to the service, or the failure that ends the
/// exchange before anything is sent.
///
/// The route has to be the text of an address of local segments. The node
/// has to keep a credential of its own; only that credential is presented.
/// Unless `oneway` is set, there have to be authorities to check the
/// credential of the peer against.
pub open spec fn spec_present_plan(
    route: Seq<char>,
    oneway: bool,
    own: Seq<char>,
    entries: Seq<CredentialView>,
    authorities: Option<Seq<Seq<char>>>,
) -> Result<PresentationView, ErrorView> {
    if !is_address_text(route) {
        Err(ErrorView { kind: Kind::BadRequest, message: bad_route_message(route) })
    } else if !all_local(segments_of(route)) {
        Err(ErrorView { kind: Kind::BadRequest, message: not_local_message() })
    } else if spec_cached(entries, own, Purpose::Credentials) is None {
        Err(ErrorView { kind: Kind::PreconditionFailed, message: no_credential_message(own) })
    } else if !oneway && authorities is None {
        Err(ErrorView { kind: Kind::PreconditionFailed, message: no_authorities_message() })
    } else {
        Ok(
            PresentationView {
                route: local_route_of(segments_of(route)),
                credential: spec_cached(entries, own, Purpose::Credentials)->0,
                authorities: if oneway {
                    None
                } else {
                    authorities
                },
            },
        )
    }
}

/// Only a credential that the node keeps for its own identity is ever
/// presented, and only over a route of local hops.
pub proof fn lemma_presented_is_kept(
    route: Seq<char>,
    oneway: bool,
    own: Seq<char>,
    entries: Seq<CredentialView>,
    authorities: Option<Seq<Seq<char>>>,
)
    ensures
        spec_present_plan(route, oneway, own, entries, authorities) matches Ok(p) ==> {
            &&& spec_cached(entries, own, Purpose::Credentials) == Some(p.credential)
            &&& crate::route::is_local_route(p.route)
            &&& (p.authorities is None <==> oneway)
        },
{
}

/// What the node answers to a request for the credential of `identifier`.
#[derive(Debug, PartialEq, Eq)]
pub enum CredentialResponse {
    /// The credential.
    Found(Credential),
    /// There is no credential for the identity; the text says so.
    NotFound(String),
    /// The authority failed; the text says how.
    InternalError(String),
}

pub enum CredentialResponseView {
    Found(CredentialView),
    NotFound(Seq<char>),
    InternalError(Seq<char>),
}

impl View for CredentialResponse {
    type V = CredentialResponseView;

    open spec fn view(&self) -> CredentialResponseView {
        match self {
            CredentialResponse::Found(c) => CredentialResponseView::Found(c@),
            CredentialResponse::NotFound(m) => CredentialResponseView::NotFound(m@),
            CredentialResponse::InternalError(m) => CredentialResponseView::InternalError(m@),
        }
    }
}

/// The answer to a request for the credential of `identifier`, for what
/// obtaining it gave.
pub open spec fn spec_credential_response(
    identifier: Seq<char>,
    outcome: Result<Option<CredentialView>, ErrorView>,
) -> CredentialResponseView {
    match outcome {
        Ok(Some(c)) => CredentialResponseView::Found(c),
        Ok(None) => CredentialResponseView::NotFound(not_found_message(identifier)),
        Err(e) => CredentialResponseView::InternalError(
            authority_failed_message(identifier, e.message),
        ),
    }
}

/// See [`spec_credential_response`].
pub fn credential_response(identifier: &Identifier, outcome: Result<Option<Credential>, Error>)
    -> (r: CredentialResponse)
    ensures
        r@ == spec_credential_response(identifier@, fetched_view(outcome)),
{
    match outcome {
        Ok(Some(c)) => CredentialResponse::Found(c),
        Ok(None) => CredentialResponse::NotFound(
            concat2("no credential found for ", identifier.as_str()),
        ),
        Err(e) => {
            let mut message = concat3(
                "Error retrieving credential from authority for ",
                identifier.as_str(),
                ": ",
            );
            message.append(e.message());
            CredentialResponse::InternalError(message)
        },
    }
}

/// How obtaining the credential of `subject` changes what is kept and what
/// it gives: the kept credential where one is kept and `overwrite` is not
/// set; else what accepting an answer that `authority` may give gives.
#[verifier::opaque]
pub open spec fn spec_obtained<A: Authority>(
    authority: A,
    before: Seq<CredentialView>,
    subject: Seq<char>,
    overwrite: bool,
    after: Seq<CredentialView>,
    outcome: Result<Option<CredentialView>, ErrorView>,
) -> bool {
    if !overwrite && spec_cached(before, subject, Purpose::Credentials) is Some {
        after == before && outcome == Ok::<Option<CredentialView>, ErrorView>(
            spec_cached(before, subject, Purpose::Credentials),
        )
    } else {
        exists|fetched: Result<Option<CredentialView>, ErrorView>|
            authority.issues(subject, fetched) && (after, outcome) == #[trigger] spec_accept(
                before,
                subject,
                fetched,
            )
    }
}

/// A credential that is kept is used as it is unless `overwrite` is set.
pub proof fn lemma_kept_is_used<A: Authority>(
    authority: A,
    before: Seq<CredentialView>,
    subject: Seq<char>,
    after: Seq<CredentialView>,
    outcome: Result<Option<CredentialView>, ErrorView>,
)
    requires
        spec_obtained(authority, before, subject, false, after, outcome),
        spec_cached(before, subject, Purpose::Credentials) is Some,
    ensures
        after == before,
        outcome == Ok::<Option<CredentialView>, ErrorView>(
            spec_cached(before, subject, Purpose::Credentials),
        ),
{
    reveal(spec_obtained);
}

/// A credential that was obtained is kept afterwards, in place of what was
/// kept for its identity before; and whatever was obtained, there is still
/// one credential per identity and purpose, and what is kept for any other
/// identity or purpose is what was kept before.
pub proof fn lemma_obtained_is_kept<A: Authority>(
    authority: A,
    before: Seq<CredentialView>,
    subject: Seq<char>,
    overwrite: bool,
    after: Seq<CredentialView>,
    outcome: Result<Option<CredentialView>, ErrorView>,
    other: Seq<char>,
    purpose: Purpose,
)
    requires
        one_per_key(before),
        spec_obtained(authority, before, subject, overwrite, after, outcome),
    ensures
        one_per_key(after),
        outcome matches Ok(Some(c)) ==> spec_cached(after, subject, Purpose::Credentials) == Some(c),
        !(other == subject && purpose == Purpose::Credentials) ==> spec_cached(
            after,
            other,
            purpose,
        ) == spec_cached(before, other, purpose),
{
    reveal(spec_obtained);
    if !overwrite && spec_cached(before, subject, Purpose::Credentials) is Some {
    } else {
        let fetched = choose|fetched: Result<Option<CredentialView>, ErrorView>|
            authority.issues(subject, fetched) && (after, outcome) == #[trigger] spec_accept(
                before,
                subject,
                fetched,
            );
        match fetched {
            Ok(Some(c)) => {
                lemma_put(before, c, subject, Purpose::Credentials);
                lemma_put(before, c, other, purpose);
            },
            _ => {},
        }
    }
}

/// A node: its own identity, the identities that it knows by name, the
/// credentials that it keeps, and its ways to the authority and to peers.
pub struct NodeManager<A: Authority, S: CredentialsServer> {
    identifier: Identifier,
    identities: CliState,
    cache: CredentialCache,
    authorities: Option<Vec<Identifier>>,
    authority: A,
    server: S,
}

impl<A: Authority, S: CredentialsServer> NodeManager<A, S> {
    /// The identity of the node.
    pub closed spec fn own(&self) -> Seq<char> {
        self.identifier@
    }

    /// The identities that the node knows by name.
    pub closed spec fn known(&self) -> Seq<NamedIdentityView> {
        self.identities@
    }

    /// The credentials that the node keeps.
    pub closed spec fn kept(&self) -> Seq<CredentialView> {
        self.cache@
    }

    /// The authorities that the node trusts, where it has a trust context.
    pub closed spec fn trusted(&self) -> Option<Seq<Seq<char>>> {
        opt_identifiers(self.authorities)
    }

    /// The way to the authority.
    pub closed spec fn spec_authority(&self) -> A {
        self.authority
    }

    /// The way to peers.
    pub closed spec fn spec_server(&self) -> S {
        self.server
    }

    /// The invariant of a node: its identities have unique names, and it
    /// keeps one credential per identity and purpose.
    pub open spec fn wf(&self) -> bool {
        crate::cli_state::unique_names(self.known()) && one_per_key(self.kept())
    }

    /// Whether two states of a node differ at most in the kept credentials
    /// and in the ways to the authority and to peers.
    pub open spec fn same_settings(&self, other: &Self) -> bool {
        self.own() == other.own() && self.known() == other.known() && self.trusted()
            == other.trusted()
    }

    /// A node that keeps no credential.
    pub fn new(
        identifier: Identifier,
        identities: CliState,
        authorities: Option<Vec<Identifier>>,
        authority: A,
        server: S,
    ) -> (node: NodeManager<A, S>)
        requires
            identities.wf(),
        ensures
            node.wf(),
            node.own() == identifier@,
            node.known() == identities@,
            node.kept() == Seq::<CredentialView>::empty(),
            node.trusted() == opt_identifiers(authorities),
    {
        NodeManager {
            identifier,
            identities,
            cache: CredentialCache::new(),
            authorities,
            authority,
            server,
        }
    }

    /// The identity of the node.
    pub fn identifier(&self) -> (i: Identifier)
        ensures
            i@ == self.own(),
    {
        self.identifier.clone()
    }

    /// The credential that is kept for `subject`, if any.
    pub fn cached_credential(&self, subject: &Identifier) -> (r: Option<Credential>)
        requires
            self.wf(),
        ensures
            opt_credential(r) == spec_cached(self.kept(), subject@, Purpose::Credentials),
    {
        self.cache.get(subject, Purpose::Credentials)
    }

    /// The credential of `subject`: see [`spec_obtained`]. The authority is
    /// asked only where no credential is kept or `overwrite` is set.
    pub fn credential_of(&mut self, subject: &Identifier, overwrite: bool) -> (r: Result<
        Option<Credential>,
        Error,
    >)
        requires
            old(self).wf(),
        ensures
            final(self).wf(),
            final(self).same_settings(old(self)),
            final(self).spec_server() == old(self).spec_server(),
            spec_obtained(
                old(self).spec_authority(),
                old(self).kept(),
                subject@,
                overwrite,
                final(self).kept(),
                fetched_view(r),
            ),
            !overwrite && spec_cached(old(self).kept(), subject@, Purpose::Credentials) is Some
                ==> final(self).spec_authority() == old(self).spec_authority(),
    {
        if !overwrite {
            match self.cache.get(subject, Purpose::Credentials) {
                Some(c) => {
                    proof {
                        reveal(spec_obtained);
                    }
                    return Ok(Some(c));
                },
                None => {},
            }
        }
        let fetched = self.authority.credential(subject);
        let ghost answer = fetched_view(fetched);
        let r = self.cache.accept(subject, fetched);
        proof {
            reveal(spec_obtained);
            assert(old(self).spec_authority().issues(subject@, answer) && (
                self.kept(),
                fetched_view(r),
            ) == spec_accept(old(self).kept(), subject@, answer));
        }
        r
    }

    /// What presenting the credential of the node for `request` comes to:
    /// see [`spec_present_plan`].
    pub fn present_plan(&self, request: &PresentCredentialRequest) -> (r: Result<
        Presentation,
        Error,
    >)
        requires
            self.wf(),
        ensures
            match r {
                Ok(p) => spec_present_plan(
                    request.route@,
                    request.oneway,
                    self.own(),
                    self.kept(),
                    self.trusted(),
                ) == Ok::<PresentationView, ErrorView>(p@),
                Err(e) => spec_present_plan(
                    request.route@,
                    request.oneway,
                    self.own(),
                    self.kept(),
                    self.trusted(),
                ) == Err::<PresentationView, ErrorView>(e@),
            },
    {
        let address = match MultiAddr::from_str(request.route.as_str()) {
            Ok(address) => address,
            Err(_) => {
                return Err(
                    Error {
                        kind: Kind::BadRequest,
                        message: concat2(
                            "Couldn't convert String to MultiAddr: ",
                            request.route.as_str(),
                        ),
                    },
                );
            },
        };
        proof {
            crate::multiaddr::lemma_text_injective(segments_of(request.route@), address@);
        }
        let route = match local_multiaddr_to_route(&address) {
            Ok(route) => route,
            Err(e) => {
                return Err(e);
            },
        };
        let credential = match self.cache.get(&self.identifier, Purpose::Credentials) {
            Some(c) => c,
            None => {
                return Err(
                    Error {
                        kind: Kind::PreconditionFailed,
                        message: concat2(
                            "A credential must be retrieved for ",
                            self.identifier.as_str(),
                        ),
                    },
                );
            },
        };
        if request.oneway {
            return Ok(Presentation { route, credential, authorities: None });
        }
        match &self.authorities {
            None => Err(
                Error::new(
                    Kind::PreconditionFailed,
                    "there is no trust context to check the credential of the peer against",
                ),
            ),
            Some(trusted) => {
                let mut authorities: Vec<Identifier> = Vec::new();
                let mut i: usize = 0;
                while i < trusted.len()
                    invariant
                        i <= trusted@.len(),
                        authorities@.len() == i,
                        forall|j: int| 0 <= j < i ==> authorities@[j]@ == trusted@[j]@,
                    decreases trusted.len() - i,
                {
                    authorities.push(trusted[i].clone());
                    i = i + 1;
                }
                assert(identifiers_view(authorities@) =~= identifiers_view(trusted@));
                Ok(Presentation { route, credential, authorities: Some(authorities) })
            },
        }
    }

    /// Presents the credential of the node as `request` asks. Where
    /// [`spec_present_plan`] gives a failure, that failure is returned and
    /// nothing is sent. Else the service is handed the plan, by the one-way
    /// call where the plan names no authorities and by the mutual call
    /// where it names them, and the result is what that call returns.
    pub fn present(&mut self, request: &PresentCredentialRequest) -> (r: Result<(), Error>)
        requires
            old(self).wf(),
        ensures
            final(self).wf(),
            final(self).same_settings(old(self)),
            final(self).kept() == old(self).kept(),
            final(self).spec_authority() == old(self).spec_authority(),
            match spec_present_plan(
                request.route@,
                request.oneway,
                old(self).own(),
                old(self).kept(),
                old(self).trusted(),
            ) {
                Err(e) => (r matches Err(x) && x@ == e) && final(self).spec_server() == old(
                    self,
                ).spec_server(),
                Ok(plan) => spec_carried(old(self).spec_server(), plan, unit_result_view(r)),
            },
    {
        match self.present_plan(request) {
            Err(e) => Err(e),
            Ok(plan) => match plan.authorities {
                None => self.server.present_credential(plan.route, plan.credential),
                Some(authorities) => self.server.present_credential_mutual(
                    plan.route,
                    &authorities,
                    plan.credential,
                ),
            },
        }
    }
}

/// What the credential that was obtained for `subject` gives the caller
/// who needs one: the credential, or the failure `NotFound` where the
/// authority has none.
pub open spec fn spec_required(subject: Seq<char>, outcome: Result<Option<CredentialView>, ErrorView>)
    -> Result<CredentialView, ErrorView> {
    match outcome {
        Ok(Some(c)) => Ok(c),
        Ok(None) => Err(ErrorView { kind: Kind::NotFound, message: not_found_message(subject) }),
        Err(e) => Err(e),
    }
}

/// The view of the result of obtaining a credential.
pub open spec fn credential_result_view(r: Result<Credential, Error>) -> Result<
    CredentialView,
    ErrorView,
> {
    match r {
        Ok(c) => Ok(c@),
        Err(e) => Err(e@),
    }
}

impl<A: Authority, S: CredentialsServer> NodeManager<A, S> {
    /// The identifier of the identity that goes by `name` or, where no name
    /// is given, of the default identity.
    pub fn get_identifier_by_name(&self, name: &Option<String>) -> (r: Result<Identifier, Error>)
        requires
            self.wf(),
        ensures
            match r {
                Ok(identifier) => spec_identifier_by_name(self.known(), opt_text(*name)) == Ok::<
                    Seq<char>,
                    ErrorView,
                >(identifier@),
                Err(e) => spec_identifier_by_name(self.known(), opt_text(*name)) == Err::<
                    Seq<char>,
                    ErrorView,
                >(e@),
            },
    {
        self.identities.get_identifier_by_name(name)
    }
}

/// What a caller who needs the credential gets for what obtaining it gave.
fn required(subject: &Identifier, outcome: Result<Option<Credential>, Error>) -> (r: Result<
    Credential,
    Error,
>)
    ensures
        credential_result_view(r) == spec_required(subject@, fetched_view(outcome)),
{
    match outcome {
        Ok(Some(c)) => Ok(c),
        Ok(None) => Err(
            Error {
                kind: Kind::NotFound,
                message: concat2("no credential found for ", subject.as_str()),
            },
        ),
        Err(e) => Err(e),
    }
}

impl<A: Authority, S: CredentialsServer> Credentials for NodeManager<A, S> {
    open spec fn valid(&self) -> bool {
        self.wf()
    }

    /// The identity is looked up first; an unknown name fails and changes
    /// nothing. Then the credential is obtained as [`spec_obtained`] says.
    open spec fn obtains(
        before: &Self,
        overwrite: bool,
        identity_name: Option<String>,
        after: &Self,
        r: Result<Credential, Error>,
    ) -> bool {
        &&& after.same_settings(before)
        &&& after.spec_server() == before.spec_server()
        &&& match spec_identifier_by_name(before.known(), opt_text(identity_name)) {
            Err(e) => after.kept() == before.kept() && credential_result_view(r) == Err::<
                CredentialView,
                ErrorView,
            >(e),
            Ok(subject) => exists|outcome: Result<Option<CredentialView>, ErrorView>|
                #[trigger] spec_obtained(
                    before.spec_authority(),
                    before.kept(),
                    subject,
                    overwrite,
                    after.kept(),
                    outcome,
                ) && credential_result_view(r) == spec_required(subject, outcome),
        }
    }

    /// Where the exchange cannot start, its failure is the result and
    /// nothing is sent. Else the service is handed what
    /// [`spec_present_plan`] gives, by the call that [`spec_carried`]
    /// names, and the result is what that call returns.
    open spec fn presents(
        before: &Self,
        to: Seq<SegmentView>,
        oneway: bool,
        after: &Self,
        r: Result<(), Error>,
    ) -> bool {
        &&& after.same_settings(before)
        &&& after.kept() == before.kept()
        &&& after.spec_authority() == before.spec_authority()
        &&& match spec_present_plan(
            text_of(to),
            oneway,
            before.own(),
            before.kept(),
            before.trusted(),
        ) {
            Err(e) => unit_result_view(r) == Err::<(), ErrorView>(e) && after.spec_server()
                == before.spec_server(),
            Ok(plan) => spec_carried(before.spec_server(), plan, unit_result_view(r)),
        }
    }

    fn get_credential(&mut self, overwrite: bool, identity_name: Option<String>) -> (r: Result<
        Credential,
        Error,
    >) {
        let subject = match self.get_identifier_by_name(&identity_name) {
            Ok(subject) => subject,
            Err(e) => {
                return Err(e);
            },
        };
        let ghost before = self.kept();
        let outcome = self.credential_of(&subject, overwrite);
        let ghost seen = fetched_view(outcome);
        let r = required(&subject, outcome);
        proof {
            let who = spec_identifier_by_name(old(self).known(), opt_text(identity_name));
            assert(who is Ok && who->Ok_0 == subject@);
            assert(spec_obtained(
                old(self).spec_authority(),
                before,
                who->Ok_0,
                overwrite,
                self.kept(),
                seen,
            ));
        }
        r
    }

    fn present_credential(&mut self, to: &MultiAddr, oneway: bool) -> (r: Result<(), Error>) {
        self.present(&PresentCredentialRequest::new(to, oneway))
    }
}

/// The worker that answers the requests that reach a node.
pub struct NodeManagerWorker<A: Authority, S: CredentialsServer> {
    pub node_manager: NodeManager<A, S>,
}

impl<A: Authority, S: CredentialsServer> NodeManagerWorker<A, S> {
    pub fn new(node_manager: NodeManager<A, S>) -> (worker: NodeManagerWorker<A, S>)
        ensures
            worker.node_manager == node_manager,
    {
        NodeManagerWorker { node_manager }
    }

    /// Answers a request for a credential. An unknown identity fails and
    /// changes nothing. Else the credential is obtained as
    /// [`spec_obtained`] says, and the answer is the one that
    /// [`spec_credential_response`] gives for what came of it.
    pub fn get_credential(&mut self, request: &GetCredentialRequest) -> (r: Result<
        CredentialResponse,
        Error,
    >)
        requires
            old(self).node_manager.wf(),
        ensures
            final(self).node_manager.wf(),
            final(self).node_manager.same_settings(&old(self).node_manager),
            final(self).node_manager.spec_server() == old(self).node_manager.spec_server(),
            match spec_identifier_by_name(
                old(self).node_manager.known(),
                opt_text(request.identity_name),
            ) {
                Err(e) => (r matches Err(x) && x@ == e) && final(self).node_manager.kept() == old(
                    self,
                ).node_manager.kept(),
                Ok(subject) => r matches Ok(response) && (exists|
                    outcome: Result<Option<CredentialView>, ErrorView>,
                |
                    #[trigger] spec_obtained(
                        old(self).node_manager.spec_authority(),
                        old(self).node_manager.kept(),
                        subject,
                        request.overwrite,
                        final(self).node_manager.kept(),
                        outcome,
                    ) && response@ == spec_credential_response(subject, outcome)),
            },
    {
        let identifier = match self.node_manager.get_identifier_by_name(&request.identity_name) {
            Ok(identifier) => identifier,
            Err(e) => {
                return Err(e);
            },
        };
        let outcome = self.node_manager.credential_of(&identifier, request.overwrite);
        let ghost seen = fetched_view(outcome);
        let response = credential_response(&identifier, outcome);
        proof {
            let who = spec_identifier_by_name(
                old(self).node_manager.known(),
                opt_text(request.identity_name),
            );
            assert(who is Ok && who->Ok_0 == identifier@);
            assert(spec_obtained(
                old(self).node_manager.spec_authority(),
                old(self).node_manager.kept(),
                who->Ok_0,
                request.overwrite,
                self.node_manager.kept(),
                seen,
            ));
        }
        Ok(response)
    }

    /// Answers a request to present the credential of the node. Where
    /// [`spec_present_plan`] gives a failure, that failure is returned and
    /// nothing is sent. Else the service is handed the plan: with `oneway`
    /// the one-way call is made with the route and the kept credential;
    /// without it the mutual call is made with the route, the trusted
    /// authorities and the kept credential. The result is what that call
    /// returns.
    pub fn present_credential(&mut self, request: &PresentCredentialRequest) -> (r: Result<
        (),
        Error,
    >)
        requires
            old(self).node_manager.wf(),
        ensures
            final(self).node_manager.wf(),
            final(self).node_manager.same_settings(&old(self).node_manager),
            final(self).node_manager.kept() == old(self).node_manager.kept(),
            final(self).node_manager.spec_authority() == old(self).node_manager.spec_authority(),
            match spec_present_plan(
                request.route@,
                request.oneway,
                old(self).node_manager.own(),
                old(self).node_manager.kept(),
                old(self).node_manager.trusted(),
            ) {
                Err(e) => (r matches Err(x) && x@ == e) && final(self).node_manager.spec_server()
                    == old(self).node_manager.spec_server(),
                Ok(plan) => spec_carried(
                    old(self).node_manager.spec_server(),
                    plan,
                    unit_result_view(r),
                ),
            },
    {
        self.node_manager.present(request)
    }
}

/// Whether `answer` is the answer that carries `response`: the credential
/// in a successful reply; else a failed reply with the text of the response
/// and the status `NotFound` or `InternalServerError`.
pub open spec fn is_reply_to(
    answer: Result<Reply<Credential>, Error>,
    response: CredentialResponseView,
) -> bool {
    match response {
        CredentialResponseView::Found(c) => answer matches Ok(Reply::Successful(found))
            && found@ == c,
        CredentialResponseView::NotFound(text) => answer matches Ok(
            Reply::Failed { message: Some(m), status: Some(Status::NotFound) },
        ) && m@ == text,
        CredentialResponseView::InternalError(text) => answer matches Ok(
            Reply::Failed { message: Some(m), status: Some(Status::InternalServerError) },
        ) && m@ == text,
    }
}

/// The reply that carries `response`: see [`is_reply_to`].
pub fn reply_to(response: CredentialResponse) -> (reply: Reply<Credential>)
    ensures
        is_reply_to(Ok(reply), response@),
{
    match response {
        CredentialResponse::Found(c) => Reply::Successful(c),
        CredentialResponse::NotFound(text) => Reply::Failed {
            message: Some(text),
            status: Some(Status::NotFound),
        },
        CredentialResponse::InternalError(text) => Reply::Failed {
            message: Some(text),
            status: Some(Status::InternalServerError),
        },
    }
}

/// A worker is the way to its own node: it answers a request as the node
/// does, without a network in between.
impl<A: Authority, S: CredentialsServer> NodeClient for NodeManagerWorker<A, S> {
    open spec fn ready(&self) -> bool {
        self.node_manager.wf()
    }

    /// An unknown identity is answered with the failure to find it. Else
    /// the credential is obtained as [`spec_obtained`] says, and the answer
    /// carries what [`spec_credential_response`] makes of it.
    open spec fn asks(
        &self,
        request: Request<GetCredentialRequest>,
        answer: Result<Reply<Credential>, Error>,
    ) -> bool {
        match spec_identifier_by_name(
            self.node_manager.known(),
            opt_text(request.body.identity_name),
        ) {
            Err(e) => answer matches Err(x) && x@ == e,
            Ok(subject) => exists|
                after: Seq<CredentialView>,
                outcome: Result<Option<CredentialView>, ErrorView>,
            |
                #[trigger] spec_obtained(
                    self.node_manager.spec_authority(),
                    self.node_manager.kept(),
                    subject,
                    request.body.overwrite,
                    after,
                    outcome,
                ) && is_reply_to(answer, spec_credential_response(subject, outcome)),
        }
    }

    /// Where the exchange cannot start, the answer is the failure that
    /// [`spec_present_plan`] gives. Else the service is handed the plan,
    /// and the answer is a successful reply where the service succeeds and
    /// its failure where it fails.
    open spec fn tells(
        &self,
        request: Request<PresentCredentialRequest>,
        answer: Result<Reply<()>, Error>,
    ) -> bool {
        match spec_present_plan(
            request.body.route@,
            request.body.oneway,
            self.node_manager.own(),
            self.node_manager.kept(),
            self.node_manager.trusted(),
        ) {
            Err(e) => answer matches Err(x) && x@ == e,
            Ok(plan) => (answer is Err || answer == Ok::<Reply<()>, Error>(Reply::Successful(())))
                && spec_carried(
                self.node_manager.spec_server(),
                plan,
                match answer {
                    Ok(_) => Ok(()),
                    Err(e) => Err(e@),
                },
            ),
        }
    }

    fn ask(&mut self, request: Request<GetCredentialRequest>) -> (answer: Result<
        Reply<Credential>,
        Error,
    >) {
        match self.get_credential(&request.body) {
            Ok(response) => {
                let ghost carried = response@;
                let answer = Ok(reply_to(response));
                proof {
                    let who = spec_identifier_by_name(
                        old(self).node_manager.known(),
                        opt_text(request.body.identity_name),
                    );
                    assert(who is Ok);
                    let outcome = choose|outcome: Result<Option<CredentialView>, ErrorView>|
                        #[trigger] spec_obtained(
                            old(self).node_manager.spec_authority(),
                            old(self).node_manager.kept(),
                            who->Ok_0,
                            request.body.overwrite,
                            self.node_manager.kept(),
                            outcome,
                        ) && carried == spec_credential_response(who->Ok_0, outcome);
                    assert(spec_obtained(
                        old(self).node_manager.spec_authority(),
                        old(self).node_manager.kept(),
                        who->Ok_0,
                        request.body.overwrite,
                        self.node_manager.kept(),
                        outcome,
                    ) && is_reply_to(answer, spec_credential_response(who->Ok_0, outcome)));
                }
                answer
            },
            Err(e) => Err(e),
        }
    }

    fn tell(&mut self, request: Request<PresentCredentialRequest>) -> (answer: Result<
        Reply<()>,
        Error,
    >) {
        match self.present_credential(&request.body) {
            Ok(_) => Ok(Reply::Successful(())),
            Err(e) => Err(e),
        }
    }
}

} // verus!
