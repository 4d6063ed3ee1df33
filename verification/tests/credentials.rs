use std::cell::RefCell;
use std::rc::Rc;

use tunnel_core::cli_state::CliState;
use tunnel_core::credentials::{
    credential_response, get_credential_request, local_multiaddr_to_route, outcome,
    present_credential_request, reply_to, Authority, AuthorityNode, BackgroundNode, Credential,
    CredentialCache, CredentialResponse, Credentials, CredentialsServer, GetCredentialRequest,
    Method, NodeClient, NodeManager, NodeManagerWorker, PresentCredentialRequest, Purpose, Reply,
    Request,
};
use tunnel_core::error::{Error, Kind};
use tunnel_core::identifier::Identifier;
use tunnel_core::inlet::Status;
use tunnel_core::multiaddr::MultiAddr;
use tunnel_core::route::{Address, Route, TransportType, LOCAL};

fn credential(subject: &str, serial: u8) -> Credential {
    Credential {
        subject: Identifier::new(subject),
        issuer: Identifier::new("Iauthority"),
        purpose: Purpose::Credentials,
        bundle: vec![serial],
    }
}

/// An authority that issues credentials with rising serial numbers and
/// counts how often it is asked.
struct CountingAuthority {
    asked: Rc<RefCell<u8>>,
    answer: fn(&Identifier, u8) -> Result<Option<Credential>, Error>,
}

impl Authority for CountingAuthority {
    fn credential(&mut self, subject: &Identifier) -> Result<Option<Credential>, Error> {
        *self.asked.borrow_mut() += 1;
        (self.answer)(subject, *self.asked.borrow())
    }
}

fn issue(subject: &Identifier, serial: u8) -> Result<Option<Credential>, Error> {
    Ok(Some(credential(subject.as_str(), serial)))
}

type Sent = (Route, Credential, Option<Vec<Identifier>>);

/// A service that records what it is handed.
struct RecordingServer {
    sent: Rc<RefCell<Vec<Sent>>>,
    fail: bool,
}

impl CredentialsServer for RecordingServer {
    fn present_credential(&mut self, route: Route, credential: Credential) -> Result<(), Error> {
        self.sent.borrow_mut().push((route, credential, None));
        Ok(())
    }

    fn present_credential_mutual(
        &mut self,
        route: Route,
        authorities: &Vec<Identifier>,
        credential: Credential,
    ) -> Result<(), Error> {
        self.sent.borrow_mut().push((route, credential, Some(authorities.clone())));
        if self.fail {
            Err(Error::new(Kind::BadRequest, "the peer is not trusted"))
        } else {
            Ok(())
        }
    }
}

struct Setup {
    node: NodeManager<CountingAuthority, RecordingServer>,
    asked: Rc<RefCell<u8>>,
    sent: Rc<RefCell<Vec<Sent>>>,
}

fn setup(
    answer: fn(&Identifier, u8) -> Result<Option<Credential>, Error>,
    authorities: Option<Vec<Identifier>>,
    fail: bool,
) -> Setup {
    let mut identities = CliState::new();
    identities.create_identity("node", Identifier::new("Inode")).unwrap();
    identities.create_identity("other", Identifier::new("Iother")).unwrap();
    let asked = Rc::new(RefCell::new(0));
    let sent = Rc::new(RefCell::new(Vec::new()));
    let node = NodeManager::new(
        Identifier::new("Inode"),
        identities,
        authorities,
        CountingAuthority { asked: asked.clone(), answer },
        RecordingServer { sent: sent.clone(), fail },
    );
    Setup { node, asked, sent }
}

#[test]
fn credential_is_fetched_once_and_then_kept() {
    let Setup { mut node, asked, .. } = setup(issue, None, false);
    let first = node.get_credential(false, None).unwrap();
    assert_eq!(first, credential("Inode", 1));
    let second = node.get_credential(false, Some("node".to_string())).unwrap();
    assert_eq!(second, first);
    assert_eq!(*asked.borrow(), 1);
    assert_eq!(node.cached_credential(&Identifier::new("Inode")), Some(first));
    assert_eq!(node.cached_credential(&Identifier::new("Iother")), None);
}

#[test]
fn overwrite_fetches_again_and_replaces() {
    let Setup { mut node, asked, .. } = setup(issue, None, false);
    node.get_credential(false, None).unwrap();
    let fresh = node.get_credential(true, None).unwrap();
    assert_eq!(fresh, credential("Inode", 2));
    assert_eq!(*asked.borrow(), 2);
    assert_eq!(node.get_credential(false, None).unwrap(), fresh);
    assert_eq!(*asked.borrow(), 2);
}

#[test]
fn each_identity_has_its_own_credential() {
    let Setup { mut node, .. } = setup(issue, None, false);
    let own = node.get_credential(false, None).unwrap();
    let other = node.get_credential(false, Some("other".to_string())).unwrap();
    assert_eq!(other, credential("Iother", 2));
    assert_eq!(node.cached_credential(&Identifier::new("Inode")), Some(own));
    assert_eq!(node.cached_credential(&Identifier::new("Iother")), Some(other));
}

#[test]
fn authenticate_obtains_and_discards() {
    let Setup { mut node, asked, .. } = setup(issue, None, false);
    node.authenticate(None).unwrap();
    assert_eq!(*asked.borrow(), 1);
    node.authenticate(None).unwrap();
    assert_eq!(*asked.borrow(), 1);
    let err = node.authenticate(Some("nobody".to_string())).unwrap_err();
    assert_eq!(err.kind(), Kind::NotFound);
    assert_eq!(err.message(), "There is no identity named 'nobody'");
}

#[test]
fn failures_of_the_authority_keep_nothing() {
    let Setup { mut node, .. } =
        setup(|_, _| Err(Error::new(Kind::Internal, "unreachable")), None, false);
    let err = node.get_credential(false, None).unwrap_err();
    assert_eq!((err.kind(), err.message()), (Kind::Internal, "unreachable"));
    assert_eq!(node.cached_credential(&Identifier::new("Inode")), None);

    let Setup { mut node, .. } = setup(|_, _| Ok(None), None, false);
    let err = node.get_credential(false, None).unwrap_err();
    assert_eq!((err.kind(), err.message()), (Kind::NotFound, "no credential found for Inode"));

    let Setup { mut node, .. } = setup(|_, n| Ok(Some(credential("Ielse", n))), None, false);
    let err = node.get_credential(false, None).unwrap_err();
    assert_eq!(err.kind(), Kind::Internal);
    assert_eq!(
        err.message(),
        "the authority returned a credential that does not belong to Inode"
    );
    assert_eq!(node.cached_credential(&Identifier::new("Ielse")), None);
}

#[test]
fn worker_answers_requests_for_credentials() {
    let Setup { node, .. } = setup(issue, None, false);
    let mut worker = NodeManagerWorker::new(node);
    let response = worker.get_credential(&GetCredentialRequest::new(false, None)).unwrap();
    assert_eq!(response, CredentialResponse::Found(credential("Inode", 1)));
    let err =
        worker.get_credential(&GetCredentialRequest::new(false, Some("x".to_string()))).unwrap_err();
    assert_eq!(err.kind(), Kind::NotFound);

    let id = Identifier::new("Inode");
    assert_eq!(
        credential_response(&id, Ok(None)),
        CredentialResponse::NotFound("no credential found for Inode".to_string())
    );
    assert_eq!(
        credential_response(&id, Err(Error::new(Kind::Timeout, "too late"))),
        CredentialResponse::InternalError(
            "Error retrieving credential from authority for Inode: too late".to_string()
        )
    );
}

#[test]
fn presenting_needs_a_credential_first() {
    let Setup { node, sent, .. } = setup(issue, None, false);
    let mut worker = NodeManagerWorker::new(node);
    let request =
        PresentCredentialRequest { route: "/service/peer".to_string(), oneway: true };
    let err = worker.present_credential(&request).unwrap_err();
    assert_eq!(err.kind(), Kind::PreconditionFailed);
    assert_eq!(err.message(), "A credential must be retrieved for Inode");
    assert!(sent.borrow().is_empty());

    worker.get_credential(&GetCredentialRequest::new(false, None)).unwrap();
    worker.present_credential(&request).unwrap();
    let expected_route =
        Route::new().append(Address::new(TransportType::new(LOCAL), "peer"));
    assert_eq!(*sent.borrow(), vec![(expected_route, credential("Inode", 1), None)]);
}

#[test]
fn credential_of_another_identity_is_not_presented() {
    let Setup { mut node, sent, .. } = setup(issue, None, false);
    node.get_credential(false, Some("other".to_string())).unwrap();
    let to = MultiAddr::from_str("/service/peer").unwrap();
    let err = node.present_credential(&to, true).unwrap_err();
    assert_eq!(err.kind(), Kind::PreconditionFailed);
    assert!(sent.borrow().is_empty());
}

#[test]
fn mutual_exchange_needs_authorities_and_hands_them_on() {
    let Setup { mut node, sent, .. } = setup(issue, None, false);
    node.get_credential(false, None).unwrap();
    let to = MultiAddr::from_str("/secure/api/worker/w1").unwrap();
    let err = node.present_credential(&to, false).unwrap_err();
    assert_eq!(err.kind(), Kind::PreconditionFailed);
    assert!(sent.borrow().is_empty());

    let trusted = vec![Identifier::new("Iauthority"), Identifier::new("Ibackup")];
    let Setup { mut node, sent, .. } = setup(issue, Some(trusted.clone()), false);
    node.get_credential(false, None).unwrap();
    node.present_credential(&to, false).unwrap();
    let route = Route::new()
        .append(Address::new(TransportType::new(LOCAL), "api"))
        .append(Address::new(TransportType::new(LOCAL), "w1"));
    assert_eq!(*sent.borrow(), vec![(route, credential("Inode", 1), Some(trusted.clone()))]);

    // the peer fails the check: the exchange is aborted with that failure
    let Setup { mut node, .. } = setup(issue, Some(trusted), true);
    node.get_credential(false, None).unwrap();
    let err = node.present_credential(&to, false).unwrap_err();
    assert_eq!((err.kind(), err.message()), (Kind::BadRequest, "the peer is not trusted"));
}

#[test]
fn routes_that_are_not_local_are_refused() {
    let Setup { mut node, sent, .. } = setup(issue, None, false);
    node.get_credential(false, None).unwrap();
    let request =
        PresentCredentialRequest { route: "/dnsaddr/a.b/tcp/4000".to_string(), oneway: true };
    let err = node.present(&request).unwrap_err();
    assert_eq!(err.kind(), Kind::BadRequest);
    assert_eq!(
        err.message(),
        "the address must consist of worker, service and secure segments only"
    );
    let request = PresentCredentialRequest { route: "peer".to_string(), oneway: true };
    let err = node.present(&request).unwrap_err();
    assert_eq!(err.message(), "Couldn't convert String to MultiAddr: peer");
    assert!(sent.borrow().is_empty());

    let address = MultiAddr::from_str("/node/n1/service/a").unwrap();
    assert!(local_multiaddr_to_route(&address).is_err());
    let address = MultiAddr::from_str("").unwrap();
    assert_eq!(local_multiaddr_to_route(&address).unwrap(), Route::new());
}

#[test]
fn cache_keeps_one_credential_per_identity_and_purpose() {
    let mut cache = CredentialCache::new();
    let id = Identifier::new("I1");
    cache.put(credential("I1", 1));
    let mut channel = credential("I1", 2);
    channel.purpose = Purpose::SecureChannel;
    cache.put(channel.clone());
    cache.put(credential("I1", 3));
    assert_eq!(cache.get(&id, Purpose::Credentials), Some(credential("I1", 3)));
    assert_eq!(cache.get(&id, Purpose::SecureChannel), Some(channel));
    assert_eq!(cache.get(&Identifier::new("I2"), Purpose::Credentials), None);
    // an answer for the wrong purpose is not kept
    let mut wrong = credential("I2", 4);
    wrong.purpose = Purpose::SecureChannel;
    let err = cache.accept(&Identifier::new("I2"), Ok(Some(wrong))).unwrap_err();
    assert_eq!(err.kind(), Kind::Internal);
    assert_eq!(cache.get(&Identifier::new("I2"), Purpose::SecureChannel), None);
}

type Asked = Rc<RefCell<Vec<Request<GetCredentialRequest>>>>;
type Told = Rc<RefCell<Vec<Request<PresentCredentialRequest>>>>;

/// A client that records the requests and answers as it was told to.
struct ScriptedClient {
    asked: Asked,
    told: Told,
    status: Option<Status>,
}

impl NodeClient for ScriptedClient {
    fn ask(&mut self, request: Request<GetCredentialRequest>) -> Result<Reply<Credential>, Error> {
        self.asked.borrow_mut().push(request);
        match self.status {
            None => Ok(Reply::Successful(credential("Iremote", 9))),
            Some(status) => {
                Ok(Reply::Failed { message: Some("no".to_string()), status: Some(status) })
            }
        }
    }

    fn tell(&mut self, request: Request<PresentCredentialRequest>) -> Result<Reply<()>, Error> {
        self.told.borrow_mut().push(request);
        match self.status {
            None => Ok(Reply::Successful(())),
            Some(_) => Err(Error::new(Kind::Timeout, "no answer")),
        }
    }
}

#[test]
fn remote_nodes_send_the_requests_and_read_the_replies() {
    let asked: Asked = Rc::new(RefCell::new(Vec::new()));
    let told: Told = Rc::new(RefCell::new(Vec::new()));
    let mut node = BackgroundNode {
        client: ScriptedClient { asked: asked.clone(), told: told.clone(), status: None },
    };
    let to = MultiAddr::from_str("/service/peer").unwrap();
    assert_eq!(node.get_credential(true, Some("me".to_string())).unwrap(), credential("Iremote", 9));
    node.authenticate(None).unwrap();
    node.present_credential(&to, false).unwrap();
    assert_eq!(
        *asked.borrow(),
        vec![get_credential_request(true, Some("me".to_string())), get_credential_request(false, None)]
    );
    assert_eq!(*told.borrow(), vec![present_credential_request(&to, false)]);
    let request = get_credential_request(true, None);
    assert_eq!(request.method, Method::Post);
    assert_eq!(request.path, "/node/credentials/actions/get");
    assert_eq!(told.borrow()[0].path, "/node/credentials/actions/present");
    assert_eq!(told.borrow()[0].body.route, "/service/peer");

    let mut authority = AuthorityNode {
        secure_client: ScriptedClient { asked, told, status: Some(Status::NotFound) },
    };
    let err = authority.get_credential(false, None).unwrap_err();
    assert_eq!((err.kind(), err.message()), (Kind::NotFound, "no"));
    let err = authority.present_credential(&to, true).unwrap_err();
    assert_eq!(err.kind(), Kind::Timeout);
}

#[test]
fn replies_map_their_status_to_the_class_of_the_failure() {
    let reply: Reply<()> = Reply::Failed { message: None, status: Some(Status::BadRequest) };
    let err = reply.success().unwrap_err();
    assert_eq!(err.kind(), Kind::BadRequest);
    assert_eq!(err.message(), "the node answered with a failure and gave no reason");
    let reply: Reply<()> = Reply::Failed { message: None, status: Some(Status::Forbidden) };
    assert_eq!(reply.success().unwrap_err().kind(), Kind::Internal);
    let reply: Reply<()> = Reply::Failed { message: None, status: None };
    assert_eq!(reply.success().unwrap_err().kind(), Kind::Internal);
    assert_eq!(Reply::Successful(3u8).success().unwrap(), 3);
}

#[test]
fn a_worker_answers_as_its_node_does() {
    let Setup { node, asked, sent } = setup(issue, None, false);
    let mut local = BackgroundNode { client: NodeManagerWorker::new(node) };
    let to = MultiAddr::from_str("/service/peer").unwrap();

    // nothing can be presented before a credential was obtained
    let err = local.present_credential(&to, true).unwrap_err();
    assert_eq!(err.kind(), Kind::PreconditionFailed);
    assert!(sent.borrow().is_empty());

    assert_eq!(local.get_credential(false, None).unwrap(), credential("Inode", 1));
    local.authenticate(Some("node".to_string())).unwrap();
    assert_eq!(*asked.borrow(), 1);
    assert_eq!(local.get_credential(true, None).unwrap(), credential("Inode", 2));
    let err = local.get_credential(false, Some("nobody".to_string())).unwrap_err();
    assert_eq!((err.kind(), err.message()), (Kind::NotFound, "There is no identity named 'nobody'"));

    local.present_credential(&to, true).unwrap();
    assert_eq!(sent.borrow().len(), 1);
    assert_eq!(sent.borrow()[0].1, credential("Inode", 2));
}

#[test]
fn a_worker_reports_what_the_authority_lacks_in_its_reply() {
    let Setup { node, .. } = setup(|_, _| Ok(None), None, false);
    let mut worker = NodeManagerWorker::new(node);
    let answer = worker.ask(get_credential_request(false, None));
    assert_eq!(
        answer,
        Ok(Reply::Failed {
            message: Some("no credential found for Inode".to_string()),
            status: Some(Status::NotFound),
        })
    );
    let err = outcome(answer).unwrap_err();
    assert_eq!((err.kind(), err.message()), (Kind::NotFound, "no credential found for Inode"));

    let Setup { node, .. } = setup(|_, _| Err(Error::new(Kind::Timeout, "late")), None, false);
    let mut local = AuthorityNode { secure_client: NodeManagerWorker::new(node) };
    let err = local.get_credential(false, None).unwrap_err();
    assert_eq!(err.kind(), Kind::Internal);
    assert_eq!(err.message(), "Error retrieving credential from authority for Inode: late");
}

#[test]
fn replies_carry_the_response_and_outcomes_read_them() {
    assert_eq!(
        reply_to(CredentialResponse::Found(credential("I1", 1))),
        Reply::Successful(credential("I1", 1))
    );
    assert_eq!(
        reply_to(CredentialResponse::InternalError("broken".to_string())),
        Reply::Failed {
            message: Some("broken".to_string()),
            status: Some(Status::InternalServerError),
        }
    );
    assert_eq!(outcome(Ok(Reply::Successful(7u8))), Ok(7));
    let failure = Error::new(Kind::Timeout, "no answer");
    assert_eq!(outcome::<u8>(Err(failure.clone())), Err(failure));
}
