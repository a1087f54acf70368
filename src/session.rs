//! The session core: the state of an established session, the abort rules
//! that decide whether a session still sends and receives, and the dispatch of each received
//! operation.
use vstd::prelude::*;
use vstd::utf8::encode_utf8;
use crate::codec::{enc, lemma_trees_of, trees_of, LexError, TokenTree, Tree};
use crate::handshake::{handoff_receive_tree, DescHandoffReceive, SigningKey};
use crate::locator::{LocatorModel, NodeLocator};
use crate::msg::{
    abort_tree, deliver_only_tree, deliver_tree, export_tree, import_position, import_tree, lemma_operation_tree_injective, operation_tree,
    DecodeError, DeliverModel, DeliverOnlyModel, DescExport, DescImport, DescImportObject,
    OpAbort, OpDeliver, OpDeliverOnly, Operation, OperationModel, PublicKey,
};
use crate::resolver::{break_model, FetchResolver, GenericResolver};
use crate::tables::{export_step, exports_wf, ExportManager, ExportsModel, ImportSet, ObjectId};

verus! {

#[verifier::external_type_specification]
#[verifier::external_body]
pub struct ExIoError(std::io::Error);

/// Why a message could not be sent.
#[derive(Debug)]
pub enum SendError {
    Io(std::io::Error),
    /// The peer ended the session, with this reason.
    SessionAborted(String),
    /// This side ended the session.
    SessionAbortedLocally,
}

/// Why no event could be received.
#[derive(Debug)]
pub enum RecvError {
    Io(std::io::Error),
    Lex(LexError),
    Decode(DecodeError),
    /// The peer ended the session, with this reason.
    SessionAborted(String),
    /// This side ended the session.
    SessionAbortedLocally,
    /// A one-way delivery to a position where nothing is exported.
    UnknownTarget(u64, Vec<TokenTree>),
    /// A call of the bootstrap object other than a well-formed `fetch`
    /// (the gift verbs are reserved).
    Bootstrap(Vec<TokenTree>),
}

/// What the bootstrap object asks of the host.
#[derive(Debug)]
pub enum BootstrapEvent {
    /// Look up the object under a swiss number and answer through the resolver.
    Fetch { swiss: Vec<u8>, resolver: FetchResolver },
}

/// What a session hands to the host.
#[derive(Debug)]
pub enum Event {
    Bootstrap(BootstrapEvent),
    /// The peer ended the session, with this reason.
    Abort(String),
}

/// What the host does with a received operation.
#[derive(Debug)]
pub enum Step {
    /// Hand the event to the application.
    Event(Event),
    /// Call the exported object's one-way handler with the arguments.
    DeliverOnly { object: ObjectId, args: Vec<TokenTree> },
    /// Call the exported object's handler with the arguments and a resolver.
    Deliver { object: ObjectId, args: Vec<TokenTree>, resolver: GenericResolver },
    /// Send this delivery back to the peer (it breaks a caller's promise).
    Reply(OpDeliverOnly),
}

/// The model of a step.
pub enum StepModel {
    Fetch { swiss: Seq<u8>, answer_pos: Option<u64>, resolve_me_desc: DescImport },
    Abort(Seq<char>),
    DeliverOnly { object: ObjectId, args: Seq<Tree> },
    Deliver { object: ObjectId, args: Seq<Tree>, answer_pos: Option<u64>, resolve_me_desc: DescImport },
    Reply(DeliverOnlyModel),
}

/// The model of a receive error.
pub enum RecvErrorModel {
    Io,
    Lex(LexError),
    Decode,
    SessionAborted(Seq<char>),
    SessionAbortedLocally,
    UnknownTarget(u64, Seq<Tree>),
    Bootstrap(Seq<Tree>),
}

impl View for Step {
    type V = StepModel;

    open spec fn view(&self) -> StepModel {
        match self {
            Step::Event(Event::Bootstrap(BootstrapEvent::Fetch { swiss, resolver })) => StepModel::Fetch {
                swiss: swiss@,
                answer_pos: resolver.base.answer_pos,
                resolve_me_desc: resolver.base.resolve_me_desc,
            },
            Step::Event(Event::Abort(r)) => StepModel::Abort(r@),
            Step::DeliverOnly { object, args } => StepModel::DeliverOnly { object: *object, args: trees_of(args@) },
            Step::Deliver { object, args, resolver } => StepModel::Deliver {
                object: *object,
                args: trees_of(args@),
                answer_pos: resolver.answer_pos,
                resolve_me_desc: resolver.resolve_me_desc,
            },
            Step::Reply(d) => StepModel::Reply(d@),
        }
    }
}

impl View for RecvError {
    type V = RecvErrorModel;

    open spec fn view(&self) -> RecvErrorModel {
        match self {
            RecvError::Io(_) => RecvErrorModel::Io,
            RecvError::Lex(e) => RecvErrorModel::Lex(*e),
            RecvError::Decode(_) => RecvErrorModel::Decode,
            RecvError::SessionAborted(r) => RecvErrorModel::SessionAborted(r@),
            RecvError::SessionAbortedLocally => RecvErrorModel::SessionAbortedLocally,
            RecvError::UnknownTarget(p, a) => RecvErrorModel::UnknownTarget(*p, trees_of(a@)),
            RecvError::Bootstrap(a) => RecvErrorModel::Bootstrap(trees_of(a@)),
        }
    }
}

/// The reason given when a call names a position where nothing is exported.
pub const UNKNOWN_TARGET_REASON: &'static str = "unknown delivery target";

/// The model of a session.
pub struct SessionModel {
    pub signing_key: Seq<u8>,
    pub remote_vkey: Seq<u8>,
    pub remote_locator: LocatorModel,
    pub exports: ExportsModel,
    pub imports: Set<u64>,
    pub aborted_locally: bool,
    pub aborted_by_remote: Option<Seq<char>>,
}

/// An established session: the peer's identity, the export and import
/// tables, and whether either side has ended it.
pub struct CapTpSession {
    signing_key: SigningKey,
    remote_vkey: PublicKey,
    remote_locator: NodeLocator,
    exports: ExportManager,
    imports: ImportSet,
    aborted_by_remote: Option<String>,
    aborted_locally: bool,
}

impl View for CapTpSession {
    type V = SessionModel;

    closed spec fn view(&self) -> SessionModel {
        SessionModel {
            signing_key: self.signing_key@,
            remote_vkey: self.remote_vkey@,
            remote_locator: self.remote_locator@,
            exports: self.exports@,
            imports: self.imports@,
            aborted_locally: self.aborted_locally,
            aborted_by_remote: match self.aborted_by_remote {
                Some(r) => Some(r@),
                None => None,
            },
        }
    }
}

/// The session's tables are consistent.
pub open spec fn session_wf(s: SessionModel) -> bool {
    exports_wf(s.exports)
}

/// The session after a local abort.
pub open spec fn aborted_locally(s: SessionModel) -> SessionModel {
    SessionModel { aborted_locally: true, ..s }
}

/// The session after the peer's abort with `reason`.
pub open spec fn aborted_by_remote(s: SessionModel, reason: Seq<char>) -> SessionModel {
    SessionModel { aborted_by_remote: Some(reason), ..s }
}

/// Whether either side has ended the session.
pub open spec fn is_aborted(s: SessionModel) -> bool {
    s.aborted_locally || s.aborted_by_remote is Some
}

/// What a send gives: a local abort first, then the peer's.
pub open spec fn send_outcome(s: SessionModel, r: Result<Vec<u8>, SendError>, bytes: Seq<u8>) -> bool {
    if s.aborted_locally {
        r is Err && r->Err_0 is SessionAbortedLocally
    } else if s.aborted_by_remote is Some {
        r is Err && r->Err_0 is SessionAborted && r->Err_0->SessionAborted_0@ == s.aborted_by_remote->Some_0
    } else {
        r is Ok && r->Ok_0@ == bytes
    }
}

/// A bootstrap call that asks for an object: the verb `fetch` and the swiss
/// number, as a byte string or a symbol.
pub open spec fn is_fetch(args: Seq<Tree>) -> bool {
    &&& args.len() >= 2
    &&& args[0] == Tree::Symbol("fetch"@)
    &&& (args[1] is Bytes || args[1] is Symbol)
}

/// The bytes of a swiss number given as a byte string or a symbol.
pub open spec fn swiss_bytes(t: Tree) -> Seq<u8> {
    match t {
        Tree::Symbol(cs) => encode_utf8(cs),
        Tree::Bytes(b) => b,
        _ => Seq::empty(),
    }
}

/// What a live session does with a received operation.
pub open spec fn dispatch(s: SessionModel, m: OperationModel) -> Result<StepModel, RecvErrorModel> {
    match m {
        OperationModel::DeliverOnly(d) => {
            let pos = d.to_desc.position;
            if pos == 0 {
                Err(RecvErrorModel::Bootstrap(d.args))
            } else if s.exports.objects.contains_key(pos) {
                Ok(StepModel::DeliverOnly { object: s.exports.objects[pos], args: d.args })
            } else {
                Err(RecvErrorModel::UnknownTarget(pos, d.args))
            }
        },
        OperationModel::Deliver(d) => {
            let pos = d.to_desc.position;
            if pos == 0 {
                if is_fetch(d.args) {
                    Ok(StepModel::Fetch {
                        swiss: swiss_bytes(d.args[1]),
                        answer_pos: d.answer_pos,
                        resolve_me_desc: d.resolve_me_desc,
                    })
                } else {
                    Err(RecvErrorModel::Bootstrap(d.args))
                }
            } else if s.exports.objects.contains_key(pos) {
                Ok(StepModel::Deliver {
                    object: s.exports.objects[pos],
                    args: d.args,
                    answer_pos: d.answer_pos,
                    resolve_me_desc: d.resolve_me_desc,
                })
            } else {
                Ok(StepModel::Reply(break_model(d.resolve_me_desc, Tree::Str(UNKNOWN_TARGET_REASON@))))
            }
        },
        OperationModel::Abort(r) => Ok(StepModel::Abort(r)),
    }
}

/// What receiving the token tree `t` gives: the abort checks, then decoding,
/// then the dispatch of the operation.
pub open spec fn recv_outcome(s: SessionModel, t: Tree) -> Result<StepModel, RecvErrorModel> {
    if s.aborted_locally {
        Err(RecvErrorModel::SessionAbortedLocally)
    } else if s.aborted_by_remote is Some {
        Err(RecvErrorModel::SessionAborted(s.aborted_by_remote->Some_0))
    } else if !(exists|m: OperationModel| operation_tree(m) == t) {
        Err(RecvErrorModel::Decode)
    } else {
        dispatch(s, choose|m: OperationModel| operation_tree(m) == t)
    }
}

/// The session after receiving `t`: only the peer's abort changes it.
pub open spec fn recv_state(s: SessionModel, t: Tree) -> SessionModel {
    match recv_outcome(s, t) {
        Ok(StepModel::Abort(r)) => aborted_by_remote(s, r),
        _ => s,
    }
}

/// The session with other export tables.
pub open spec fn with_exports(s: SessionModel, exports: ExportsModel) -> SessionModel {
    SessionModel { exports, ..s }
}

/// The session with other imports.
pub open spec fn with_imports(s: SessionModel, imports: Set<u64>) -> SessionModel {
    SessionModel { imports, ..s }
}

/// The one-way delivery to `to_desc` with `args`.
pub open spec fn deliver_only_model(to_desc: DescExport, args: Seq<Tree>) -> DeliverOnlyModel {
    DeliverOnlyModel { to_desc, args }
}

/// The delivery to `to_desc` with `args`, asking for an answer.
pub open spec fn deliver_model(
    to_desc: DescExport,
    args: Seq<Tree>,
    answer_pos: Option<u64>,
    resolve_me_desc: DescImport,
) -> DeliverModel {
    DeliverModel { to_desc, args, answer_pos, resolve_me_desc }
}

/// A remote reference: a position in the peer's export table.
#[derive(Clone, Copy, Debug, PartialEq, Eq)]
pub struct RemoteObject {
    pub position: DescExport,
}

impl CapTpSession {
    /// A fresh session with a peer whose key and locator the handshake proved.
    pub fn new(signing_key: SigningKey, remote_vkey: PublicKey, remote_locator: NodeLocator) -> (r: CapTpSession)
        ensures
            r@.signing_key == signing_key@,
            r@.remote_vkey == remote_vkey@,
            r@.remote_locator == remote_locator@,
            r@.exports.objects == crate::tables::no_objects(),
            r@.exports.next_position == 1,
            r@.imports == Set::<u64>::empty(),
            !r@.aborted_locally,
            r@.aborted_by_remote is None,
            session_wf(r@),
    {
        CapTpSession {
            signing_key,
            remote_vkey,
            remote_locator,
            exports: ExportManager::new(),
            imports: ImportSet::new(),
            aborted_by_remote: None,
            aborted_locally: false,
        }
    }

    pub fn signing_key(&self) -> (r: &SigningKey)
        ensures
            r@ == self@.signing_key,
    {
        &self.signing_key
    }

    pub fn remote_vkey(&self) -> (r: &PublicKey)
        ensures
            r@ == self@.remote_vkey,
    {
        &self.remote_vkey
    }

    pub fn remote_locator(&self) -> (r: &NodeLocator)
        ensures
            r@ == self@.remote_locator,
    {
        &self.remote_locator
    }

    /// Exports an object to the peer at a fresh position.
    pub fn export_object(&mut self, obj: ObjectId) -> (r: Option<DescImportObject>)
        requires
            session_wf(old(self)@),
        ensures
            session_wf(final(self)@),
            old(self)@.exports.next_position == u64::MAX ==> r is None && final(self)@ == old(self)@,
            old(self)@.exports.next_position < u64::MAX ==> r is Some
                && export_step(old(self)@.exports, obj, final(self)@.exports, r->Some_0.position)
                && final(self)@ == with_exports(old(self)@, final(self)@.exports),
            r is Some ==> r->Some_0.position >= 1,
    {
        self.exports.export_object(obj)
    }

    /// The object exported at a position, if any.
    pub fn exported(&self, position: u64) -> (r: Option<ObjectId>)
        ensures
            r == (if self@.exports.objects.contains_key(position) {
                Some(self@.exports.objects[position])
            } else {
                None
            }),
    {
        self.exports.get(position)
    }

    pub fn is_aborted(&self) -> (r: bool)
        ensures
            r == is_aborted(self@),
    {
        self.aborted_locally || self.aborted_by_remote.is_some()
    }

    /// Marks the session as ended by this side.
    pub fn local_abort(&mut self)
        ensures
            final(self)@ == aborted_locally(old(self)@),
    {
        self.aborted_locally = true;
    }

    /// Records that the peer ended the session.
    pub fn set_remote_abort(&mut self, reason: String)
        ensures
            final(self)@ == aborted_by_remote(old(self)@, reason@),
    {
        self.aborted_by_remote = Some(reason);
    }

    /// The bytes to write for a message, unless the session has ended.
    pub fn send_msg(&self, msg: &TokenTree) -> (r: Result<Vec<u8>, SendError>)
        ensures
            send_outcome(self@, r, enc(msg@)),
    {
        if self.aborted_locally {
            return Err(SendError::SessionAbortedLocally);
        }
        match &self.aborted_by_remote {
            Some(reason) => Err(SendError::SessionAborted(reason.clone())),
            None => Ok(msg.encode()),
        }
    }

    /// Ends the session from this side: the bytes of the `op:abort` to send,
    /// if the session was still live; the session is aborted either way.
    pub fn abort(&mut self, reason: String) -> (r: Result<Vec<u8>, SendError>)
        ensures
            send_outcome(old(self)@, r, enc(abort_tree(reason@))),
            final(self)@ == aborted_locally(old(self)@),
    {
        let msg = OpAbort::new(reason).to_tokens();
        let r = self.send_msg(&msg);
        self.local_abort();
        r
    }

    /// The bytes of a one-way delivery to a remote object.
    pub fn deliver_only(&self, target: &RemoteObject, args: Vec<TokenTree>) -> (r: Result<Vec<u8>, SendError>)
        ensures
            send_outcome(self@, r, enc(deliver_only_tree(deliver_only_model(target.position, trees_of(args@))))),
    {
        let msg = OpDeliverOnly::new(target.position, args).to_tokens();
        self.send_msg(&msg)
    }

    /// The bytes of a delivery to a remote object that asks for an answer.
    pub fn deliver(
        &self,
        target: &RemoteObject,
        args: Vec<TokenTree>,
        answer_pos: Option<u64>,
        resolve_me_desc: DescImport,
    ) -> (r: Result<Vec<u8>, SendError>)
        ensures
            send_outcome(self@, r, enc(deliver_tree(deliver_model(target.position, trees_of(args@), answer_pos, resolve_me_desc)))),
    {
        let msg = OpDeliver::new(target.position, args, answer_pos, resolve_me_desc).to_tokens();
        self.send_msg(&msg)
    }

    /// A call whose answer comes back to a local resolver: the resolver
    /// object is exported, and the delivery names it as the import to
    /// resolve.
    pub fn deliver_and(&mut self, target: &RemoteObject, args: Vec<TokenTree>, resolver: ObjectId) -> (r: Result<Vec<u8>, SendError>)
        requires
            session_wf(old(self)@),
            old(self)@.exports.next_position < u64::MAX,
        ensures
            session_wf(final(self)@),
            export_step(old(self)@.exports, resolver, final(self)@.exports, old(self)@.exports.next_position),
            final(self)@ == with_exports(old(self)@, final(self)@.exports),
            send_outcome(old(self)@, r, enc(deliver_tree(deliver_model(
                target.position,
                trees_of(args@),
                None,
                DescImport::Object(DescImportObject { position: old(self)@.exports.next_position }),
            )))),
    {
        let pos = self.exports.export_object(resolver).unwrap();
        self.deliver(target, args, None, DescImport::Object(pos))
    }

    /// Notes a position that the peer has given us.
    pub fn record_import(&mut self, position: u64)
        ensures
            final(self)@ == with_imports(old(self)@, old(self)@.imports.insert(position)),
    {
        self.imports.insert(position);
    }

    /// A reference to the peer's object at `position`: the bootstrap object,
    /// or a position that the peer has given us.
    pub fn into_remote_object(&self, position: DescExport) -> (r: Option<RemoteObject>)
        ensures
            r is Some <==> (position.position == 0 || self@.imports.contains(position.position)),
            r is Some ==> r->Some_0.position == position,
    {
        if position.position != 0 && !self.imports.contains(position.position) {
            None
        } else {
            Some(RemoteObject { position })
        }
    }

    /// The peer's bootstrap object.
    pub fn get_remote_bootstrap(&self) -> (r: RemoteObject)
        ensures
            r.position.position == 0,
    {
        RemoteObject { position: DescExport { position: 0 } }
    }
}

/// The model of a receive result.
pub open spec fn outcome_of(r: Result<Step, RecvError>) -> Result<StepModel, RecvErrorModel> {
    match r {
        Ok(step) => Ok(step@),
        Err(e) => Err(e@),
    }
}

/// Whether `t` is the symbol `name`.
fn is_symbol(t: &TokenTree, name: &str) -> (r: bool)
    ensures
        r == (t@ == Tree::Symbol(name@)),
{
    match t {
        TokenTree::Symbol(s) => *s == name.to_owned(),
        _ => false,
    }
}

impl CapTpSession {
    /// Handles one received token tree: fails if the session has ended, else
    /// decodes the operation and dispatches it. An `op:abort` ends the session.
    pub fn recv_event(&mut self, t: TokenTree) -> (r: Result<Step, RecvError>)
        requires
            session_wf(old(self)@),
        ensures
            session_wf(final(self)@),
            outcome_of(r) == recv_outcome(old(self)@, t@),
            final(self)@ == recv_state(old(self)@, t@),
    {
        let ghost s0 = self@;
        let ghost tv = t@;
        if self.aborted_locally {
            return Err(RecvError::SessionAbortedLocally);
        }
        match &self.aborted_by_remote {
            Some(reason) => {
                return Err(RecvError::SessionAborted(reason.clone()));
            },
            None => {},
        }
        let op = match Operation::decode(t) {
            Ok(op) => op,
            Err(e) => {
                return Err(RecvError::Decode(e));
            },
        };
        proof {
            let m = choose|m: OperationModel| operation_tree(m) == tv;
            lemma_operation_tree_injective(m, op@);
            assert(recv_outcome(s0, tv) == dispatch(s0, op@));
        }
        match op {
            Operation::DeliverOnly(d) => {
                let pos = d.to_desc.position;
                if pos == 0 {
                    return Err(RecvError::Bootstrap(d.args));
                }
                match self.exports.get(pos) {
                    Some(object) => Ok(Step::DeliverOnly { object, args: d.args }),
                    None => Err(RecvError::UnknownTarget(pos, d.args)),
                }
            },
            Operation::Deliver(d) => {
                let pos = d.to_desc.position;
                proof {
                    lemma_trees_of(d.args@);
                }
                if pos == 0 {
                    if d.args.len() >= 2 && is_symbol(&d.args[0], "fetch") {
                        let raw: Option<&[u8]> = match &d.args[1] {
                            TokenTree::Bytes(b) => Some(b.as_slice()),
                            TokenTree::Symbol(name) => Some(name.as_str().as_bytes()),
                            _ => None,
                        };
                        match raw {
                            Some(raw) => {
                                assert(raw@ == swiss_bytes(d.args@[1]@));
                                let swiss = crate::codec::copy_range(raw, 0, raw.len());
                                assert(swiss@ =~= raw@);
                                let resolver = FetchResolver::new(GenericResolver::new(d.answer_pos, d.resolve_me_desc));
                                return Ok(Step::Event(Event::Bootstrap(BootstrapEvent::Fetch { swiss, resolver })));
                            },
                            None => {},
                        }
                    }
                    return Err(RecvError::Bootstrap(d.args));
                }
                let resolver = GenericResolver::new(d.answer_pos, d.resolve_me_desc);
                match self.exports.get(pos) {
                    Some(object) => Ok(Step::Deliver { object, args: d.args, resolver }),
                    None => {
                        let reason = TokenTree::Str(UNKNOWN_TARGET_REASON.to_owned());
                        Ok(Step::Reply(resolver.break_promise(reason)))
                    },
                }
            },
            Operation::Abort(a) => {
                self.set_remote_abort(a.reason.clone());
                Ok(Step::Event(Event::Abort(a.reason)))
            },
        }
    }
}

/// Aborting locally a second time changes nothing: the state is as after
/// one abort, and the second `op:abort` is refused before anything is sent.
pub proof fn lemma_abort_idempotent(s: SessionModel, r: Result<Vec<u8>, SendError>, bytes: Seq<u8>)
    requires
        send_outcome(aborted_locally(s), r, bytes),
    ensures
        aborted_locally(aborted_locally(s)) == aborted_locally(s),
        r is Err && r->Err_0 is SessionAbortedLocally,
{
}

/// Once either side has aborted, every send and every receive fails with a
/// session-aborted error, and the session stays aborted.
pub proof fn lemma_aborted_refuses(s: SessionModel, r: Result<Vec<u8>, SendError>, bytes: Seq<u8>, t: Tree)
    requires
        is_aborted(s),
        send_outcome(s, r, bytes),
    ensures
        r is Err && (r->Err_0 is SessionAborted || r->Err_0 is SessionAbortedLocally),
        recv_outcome(s, t) is Err,
        recv_outcome(s, t)->Err_0 is SessionAborted || recv_outcome(s, t)->Err_0 is SessionAbortedLocally,
        recv_state(s, t) == s,
        is_aborted(aborted_locally(s)),
{
}

/// The peer's abort is surfaced as an abort event with its reason, and every
/// later send and receive fails with that reason.
pub proof fn lemma_remote_abort(s: SessionModel, reason: Seq<char>, r: Result<Vec<u8>, SendError>, bytes: Seq<u8>, t: Tree)
    requires
        !is_aborted(s),
        send_outcome(recv_state(s, abort_tree(reason)), r, bytes),
    ensures
        recv_outcome(s, abort_tree(reason)) == Ok::<StepModel, RecvErrorModel>(StepModel::Abort(reason)),
        recv_state(s, abort_tree(reason)) == aborted_by_remote(s, reason),
        r is Err && r->Err_0 is SessionAborted && r->Err_0->SessionAborted_0@ == reason,
        recv_outcome(aborted_by_remote(s, reason), t) == Err::<StepModel, RecvErrorModel>(RecvErrorModel::SessionAborted(reason)),
{
    let m = OperationModel::Abort(reason);
    assert(operation_tree(m) == abort_tree(reason));
    let c = choose|m2: OperationModel| operation_tree(m2) == abort_tree(reason);
    lemma_operation_tree_injective(c, m);
}

/// The arguments of a bootstrap `fetch` of the object under a swiss number.
pub fn fetch_call(swiss: Vec<u8>) -> (r: Vec<TokenTree>)
    ensures
        trees_of(r@) == seq![Tree::Symbol("fetch"@), Tree::Bytes(swiss@)],
{
    let mut args: Vec<TokenTree> = Vec::new();
    args.push(TokenTree::Symbol("fetch".to_owned()));
    args.push(TokenTree::Bytes(swiss));
    proof {
        lemma_trees_of(args@);
        assert(trees_of(args@) =~= seq![Tree::Symbol("fetch"@), Tree::Bytes(swiss@)]);
    }
    args
}

impl CapTpSession {
    /// Asks the peer's bootstrap object for the object under a swiss number;
    /// the answer comes back to the local resolver object `resolver`.
    pub fn fetch(&mut self, swiss: Vec<u8>, resolver: ObjectId) -> (r: Result<Vec<u8>, SendError>)
        requires
            session_wf(old(self)@),
            old(self)@.exports.next_position < u64::MAX,
        ensures
            session_wf(final(self)@),
            export_step(old(self)@.exports, resolver, final(self)@.exports, old(self)@.exports.next_position),
            final(self)@ == with_exports(old(self)@, final(self)@.exports),
            send_outcome(old(self)@, r, enc(deliver_tree(deliver_model(
                DescExport { position: 0 },
                seq![Tree::Symbol("fetch"@), Tree::Bytes(swiss@)],
                None,
                DescImport::Object(DescImportObject { position: old(self)@.exports.next_position }),
            )))),
    {
        let bootstrap = self.get_remote_bootstrap();
        self.deliver_and(&bootstrap, fetch_call(swiss), resolver)
    }

    /// Reads the answer to a `fetch`: its first argument is the position of
    /// the object found, which becomes a valid import.
    pub fn fetch_reply(&mut self, args: Vec<TokenTree>) -> (r: Result<RemoteObject, DecodeError>)
        ensures
            match r {
                Ok(obj) => trees_of(args@).len() >= 1
                    && trees_of(args@)[0] == export_tree(obj.position)
                    && final(self)@ == with_imports(old(self)@, old(self)@.imports.insert(obj.position.position)),
                Err(_) => final(self)@ == old(self)@ && (trees_of(args@).len() == 0
                    || forall|d: DescExport| export_tree(d) != trees_of(args@)[0]),
            },
    {
        proof {
            lemma_trees_of(args@);
        }
        if args.len() == 0 {
            return Err(DecodeError { position: 0 });
        }
        let mut args = args;
        let ghost a0 = args@;
        let first = args.remove(0);
        assert(first == a0[0]);
        let position = DescExport::decode(first)?;
        self.record_import(position.position);
        Ok(RemoteObject { position })
    }
}

impl CapTpSession {
    /// Whether a receive may go on: not after either side's abort.
    pub fn check_recv(&self) -> (r: Result<(), RecvError>)
        ensures
            self@.aborted_locally ==> r is Err && r->Err_0 is SessionAbortedLocally,
            !self@.aborted_locally && self@.aborted_by_remote is Some ==> r is Err
                && r->Err_0 is SessionAborted && r->Err_0->SessionAborted_0@ == self@.aborted_by_remote->Some_0,
            !is_aborted(self@) ==> r is Ok,
    {
        if self.aborted_locally {
            return Err(RecvError::SessionAbortedLocally);
        }
        match &self.aborted_by_remote {
            Some(reason) => Err(RecvError::SessionAborted(reason.clone())),
            None => Ok(()),
        }
    }
}

impl CapTpSession {
    /// Asks the peer's bootstrap object for the object under a swiss number,
    /// with the answer going where the caller says.
    pub fn fetch_to(&self, swiss: Vec<u8>, answer_pos: Option<u64>, resolve_me_desc: DescImport) -> (r: Result<Vec<u8>, SendError>)
        ensures
            send_outcome(self@, r, enc(deliver_tree(deliver_model(
                DescExport { position: 0 },
                seq![Tree::Symbol("fetch"@), Tree::Bytes(swiss@)],
                answer_pos,
                resolve_me_desc,
            )))),
    {
        let bootstrap = self.get_remote_bootstrap();
        self.deliver(&bootstrap, fetch_call(swiss), answer_pos, resolve_me_desc)
    }

    /// Hands the peer's bootstrap object a gift to hold under an identifier.
    pub fn deposit_gift(&self, gift_id: u64, desc: DescImport) -> (r: Result<Vec<u8>, SendError>)
        ensures
            send_outcome(self@, r, enc(deliver_only_tree(deliver_only_model(
                DescExport { position: 0 },
                seq![Tree::Symbol("deposit-gift"@), Tree::Int(gift_id as int), import_tree(desc)],
            )))),
    {
        let mut args: Vec<TokenTree> = Vec::new();
        args.push(TokenTree::Symbol("deposit-gift".to_owned()));
        args.push(TokenTree::Int(gift_id as i128));
        args.push(desc.to_tokens());
        proof {
            lemma_trees_of(args@);
            assert(trees_of(args@) =~= seq![Tree::Symbol("deposit-gift"@), Tree::Int(gift_id as int), import_tree(desc)]);
        }
        let bootstrap = self.get_remote_bootstrap();
        self.deliver_only(&bootstrap, args)
    }

    /// Fulfills a peer's promise with `args` and asks for an answer in turn,
    /// which comes back to the local resolver object `resolver`.
    pub fn fulfill_and(&mut self, promise: GenericResolver, args: Vec<TokenTree>, resolver: ObjectId) -> (r: Result<Vec<u8>, SendError>)
        requires
            session_wf(old(self)@),
            old(self)@.exports.next_position < u64::MAX,
        ensures
            session_wf(final(self)@),
            export_step(old(self)@.exports, resolver, final(self)@.exports, old(self)@.exports.next_position),
            final(self)@ == with_exports(old(self)@, final(self)@.exports),
            send_outcome(old(self)@, r, enc(deliver_tree(deliver_model(
                DescExport { position: import_position(promise.resolve_me_desc) },
                seq![Tree::Symbol("fulfill"@)] + trees_of(args@),
                None,
                DescImport::Object(DescImportObject { position: old(self)@.exports.next_position }),
            )))),
    {
        let mut all: Vec<TokenTree> = Vec::new();
        all.push(TokenTree::Symbol("fulfill".to_owned()));
        let mut args = args;
        let ghost a0 = args@;
        all.append(&mut args);
        proof {
            lemma_trees_of(all@);
            lemma_trees_of(a0);
            assert(trees_of(all@) =~= seq![Tree::Symbol("fulfill"@)] + trees_of(a0));
        }
        let target = RemoteObject { position: promise.position() };
        self.deliver_and(&target, all, resolver)
    }
}

impl CapTpSession {
    /// Asks the peer's bootstrap object for a gift that a third party handed
    /// over, with the answer going where the caller says.
    pub fn withdraw_gift(
        &self,
        handoff_receive: &DescHandoffReceive,
        answer_pos: Option<u64>,
        resolve_me_desc: DescImport,
    ) -> (r: Result<Vec<u8>, SendError>)
        ensures
            send_outcome(self@, r, enc(deliver_tree(deliver_model(
                DescExport { position: 0 },
                seq![Tree::Symbol("withdraw-gift"@), handoff_receive_tree(handoff_receive@)],
                answer_pos,
                resolve_me_desc,
            )))),
    {
        let mut args: Vec<TokenTree> = Vec::new();
        args.push(TokenTree::Symbol("withdraw-gift".to_owned()));
        args.push(handoff_receive.to_tokens());
        proof {
            lemma_trees_of(args@);
            assert(trees_of(args@) =~= seq![Tree::Symbol("withdraw-gift"@), handoff_receive_tree(handoff_receive@)]);
        }
        let bootstrap = self.get_remote_bootstrap();
        self.deliver(&bootstrap, args, answer_pos, resolve_me_desc)
    }
}

} // verus!
