//! Resolvers: the one-shot local object that receives the answer to a call,
//! and the handles through which a call's answer is sent to the peer.
use vstd::prelude::*;
use futures::channel::oneshot::{Receiver, Sender};
use crate::codec::{lemma_trees_of, trees_of, TokenTree, Tree};
use crate::msg::{
    export_tree, import_position, DeliverModel, DeliverOnlyModel, DescExport, DescImport,
    OpDeliver, OpDeliverOnly,
};

verus! {

#[verifier::external_type_specification]
#[verifier::external_body]
#[verifier::reject_recursive_types(T)]
pub struct ExSender<T>(Sender<T>);

#[verifier::external_type_specification]
#[verifier::external_body]
#[verifier::reject_recursive_types(T)]
pub struct ExReceiver<T>(Receiver<T>);

#[verifier::external_type_specification]
#[verifier::external_body]
pub struct ExCanceled(futures::channel::oneshot::Canceled);

/// How a promise ends: the fulfilling arguments, or the reason it broke.
pub type PromiseResult = Result<Vec<TokenTree>, TokenTree>;

/// Relies on `futures::channel::oneshot::channel`: a connected sender and
/// receiver.
#[verifier::external_body]
fn promise_channel() -> (r: (Sender<PromiseResult>, Receiver<PromiseResult>)) {
    futures::channel::oneshot::channel()
}

/// Relies on `futures::channel::oneshot::Sender::send`: whether the value was
/// handed over depends on whether the receiver is still there.
#[verifier::external_body]
fn send_promise(sender: Sender<PromiseResult>, value: PromiseResult) -> (r: bool) {
    sender.send(value).is_ok()
}

/// Why a resolver did not take an answer.
#[derive(PartialEq, Eq, Clone, Copy, Debug, Structural)]
pub enum ResolveError {
    /// The resolver had already taken an answer.
    AlreadyResolved,
    /// Nobody waits for the answer any more.
    Abandoned,
    /// The call named no verb that a resolver answers to.
    UnknownVerb,
}

/// One call of `fulfill` or `break_promise`: the resolver is resolved
/// afterwards, and the call fails as already resolved exactly when it was so
/// before.
pub open spec fn resolve_step(pending_before: bool, pending_after: bool, r: Result<(), ResolveError>) -> bool {
    &&& !pending_after
    &&& !pending_before <==> r == Err::<(), ResolveError>(ResolveError::AlreadyResolved)
}

/// A one-shot local object that takes the peer's answer to a call.
pub struct Resolver {
    sender: Option<Sender<PromiseResult>>,
}

/// The side that awaits the answer that a `Resolver` takes.
pub struct Answer {
    pub receiver: Receiver<PromiseResult>,
}

impl View for Resolver {
    type V = bool;

    /// Whether the resolver still waits for its answer.
    closed spec fn view(&self) -> bool {
        self.sender is Some
    }
}

impl Resolver {
    /// A pending resolver and the answer it will complete.
    pub fn new() -> (r: (Resolver, Answer))
        ensures
            r.0@,
    {
        let (sender, receiver) = promise_channel();
        (Resolver { sender: Some(sender) }, Answer { receiver })
    }

    /// Takes the one-shot sender out of the resolver together with the value
    /// it is to hand over; afterwards the resolver is resolved.
    fn take(&mut self, value: PromiseResult) -> (r: Result<(Sender<PromiseResult>, PromiseResult), ResolveError>)
        ensures
            !final(self)@,
            old(self)@ <==> r is Ok,
            !old(self)@ ==> r == Err::<(Sender<PromiseResult>, PromiseResult), ResolveError>(ResolveError::AlreadyResolved),
            r is Ok ==> r->Ok_0.1 == value,
    {
        match self.sender.take() {
            None => Err(ResolveError::AlreadyResolved),
            Some(sender) => Ok((sender, value)),
        }
    }

    /// The first step of `fulfill`: the sender, with the arguments it is to
    /// hand to the answer.
    pub fn take_fulfill(&mut self, args: Vec<TokenTree>) -> (r: Result<(Sender<PromiseResult>, PromiseResult), ResolveError>)
        ensures
            !final(self)@,
            old(self)@ <==> r is Ok,
            !old(self)@ ==> r == Err::<(Sender<PromiseResult>, PromiseResult), ResolveError>(ResolveError::AlreadyResolved),
            r is Ok ==> promise_model(r->Ok_0.1) == fulfilled_with(trees_of(args@)),
    {
        self.take(Ok(args))
    }

    /// The first step of `break_promise`: the sender, with the reason it is
    /// to hand to the answer.
    pub fn take_break(&mut self, reason: TokenTree) -> (r: Result<(Sender<PromiseResult>, PromiseResult), ResolveError>)
        ensures
            !final(self)@,
            old(self)@ <==> r is Ok,
            !old(self)@ ==> r == Err::<(Sender<PromiseResult>, PromiseResult), ResolveError>(ResolveError::AlreadyResolved),
            r is Ok ==> promise_model(r->Ok_0.1) == broken_with(reason@),
    {
        self.take(Err(reason))
    }

    /// Completes the answer with the given arguments: `take_fulfill`, then
    /// the sender hands them over, unless nobody waits any more.
    pub fn fulfill(&mut self, args: Vec<TokenTree>) -> (r: Result<(), ResolveError>)
        ensures
            resolve_step(old(self)@, final(self)@, r),
    {
        match self.take_fulfill(args) {
            Err(e) => Err(e),
            Ok((sender, value)) => hand_over(sender, value),
        }
    }

    /// Completes the answer as broken, with a reason: `take_break`, then the
    /// sender hands it over, unless nobody waits any more.
    pub fn break_promise(&mut self, reason: TokenTree) -> (r: Result<(), ResolveError>)
        ensures
            resolve_step(old(self)@, final(self)@, r),
    {
        match self.take_break(reason) {
            Err(e) => Err(e),
            Ok((sender, value)) => hand_over(sender, value),
        }
    }
}

/// Hands a value to the answer: `Ok`, or `Abandoned` when nobody waits.
fn hand_over(sender: Sender<PromiseResult>, value: PromiseResult) -> (r: Result<(), ResolveError>)
    ensures
        r is Ok || r == Err::<(), ResolveError>(ResolveError::Abandoned),
{
    if send_promise(sender, value) {
        Ok(())
    } else {
        Err(ResolveError::Abandoned)
    }
}

/// The model of how a promise ends.
pub open spec fn promise_model(v: PromiseResult) -> Result<Seq<Tree>, Tree> {
    match v {
        Ok(args) => Ok(trees_of(args@)),
        Err(reason) => Err(reason@),
    }
}

/// A promise fulfilled with these arguments.
pub open spec fn fulfilled_with(args: Seq<Tree>) -> Result<Seq<Tree>, Tree> {
    Ok(args)
}

/// A promise broken with this reason.
pub open spec fn broken_with(reason: Tree) -> Result<Seq<Tree>, Tree> {
    Err(reason)
}

/// The verb of a call on a resolver, and what follows it.
pub open spec fn resolver_call(args: Seq<Tree>) -> Option<(Seq<char>, Seq<Tree>)> {
    if args.len() >= 1 && args[0] is Symbol {
        Some((args[0]->Symbol_0, args.drop_first()))
    } else {
        None
    }
}

impl Resolver {
    /// Handles a call on the resolver from the peer: `fulfill` with the
    /// answer's arguments, or `break` with one reason. Any other call leaves
    /// the resolver as it is.
    pub fn deliver(&mut self, args: Vec<TokenTree>) -> (r: Result<(), ResolveError>)
        ensures
            ({
                let call = resolver_call(trees_of(args@));
                if call is Some && (call->Some_0.0 == "fulfill"@ || (call->Some_0.0 == "break"@ && call->Some_0.1.len() == 1)) {
                    resolve_step(old(self)@, final(self)@, r)
                } else {
                    r == Err::<(), ResolveError>(ResolveError::UnknownVerb) && final(self)@ == old(self)@
                }
            }),
    {
        proof {
            lemma_trees_of(args@);
        }
        if args.len() == 0 {
            return Err(ResolveError::UnknownVerb);
        }
        let mut args = args;
        let ghost a0 = args@;
        let verb = args.remove(0);
        proof {
            lemma_trees_of(args@);
            assert(args@ =~= a0.drop_first());
            assert(trees_of(args@) =~= trees_of(a0).drop_first());
        }
        match verb {
            TokenTree::Symbol(name) => {
                if name == "fulfill".to_owned() {
                    self.fulfill(args)
                } else if name == "break".to_owned() && args.len() == 1 {
                    let reason = args.pop().unwrap();
                    self.break_promise(reason)
                } else {
                    Err(ResolveError::UnknownVerb)
                }
            },
            _ => Err(ResolveError::UnknownVerb),
        }
    }
}

/// What a resolver that already took its answer tells a later caller.
pub const ALREADY_RESOLVED_REASON: &'static str = "promise already resolved";

/// The reply to a caller whose answer a resolver did not take because it had
/// one already: the caller's promise breaks.
pub fn already_resolved_reply(caller: GenericResolver) -> (r: OpDeliverOnly)
    ensures
        r@ == break_model(caller.resolve_me_desc, Tree::Str(ALREADY_RESOLVED_REASON@)),
{
    caller.break_promise(TokenTree::Str(ALREADY_RESOLVED_REASON.to_owned()))
}

/// At most one of the calls that resolve a resolver succeeds: after any
/// first call, every later one fails as already resolved.
pub proof fn lemma_resolve_once(
    p0: bool,
    p1: bool,
    r1: Result<(), ResolveError>,
    p2: bool,
    r2: Result<(), ResolveError>,
)
    requires
        resolve_step(p0, p1, r1),
        resolve_step(p1, p2, r2),
    ensures
        r2 == Err::<(), ResolveError>(ResolveError::AlreadyResolved),
        !(r1 is Ok && r2 is Ok),
{
}

/// The handle through which the answer to a peer's call is sent: the peer's
/// answer position and the import that it asked to be resolved through.
#[derive(Clone, Debug, PartialEq, Eq)]
pub struct GenericResolver {
    pub answer_pos: Option<u64>,
    pub resolve_me_desc: DescImport,
}

/// The delivery that fulfills the promise at `target` with `args`.
pub open spec fn fulfill_model(
    target: DescImport,
    args: Seq<Tree>,
    answer_pos: Option<u64>,
    resolve_me_desc: DescImport,
) -> DeliverModel {
    DeliverModel {
        to_desc: DescExport { position: import_position(target) },
        args: seq![Tree::Symbol("fulfill"@)] + args,
        answer_pos,
        resolve_me_desc,
    }
}

/// The one-way delivery that breaks the promise at `target` with `error`.
pub open spec fn break_model(target: DescImport, error: Tree) -> DeliverOnlyModel {
    DeliverOnlyModel {
        to_desc: DescExport { position: import_position(target) },
        args: seq![Tree::Symbol("break"@), error],
    }
}

impl GenericResolver {
    pub fn new(answer_pos: Option<u64>, resolve_me_desc: DescImport) -> (r: GenericResolver)
        ensures
            r.answer_pos == answer_pos,
            r.resolve_me_desc == resolve_me_desc,
    {
        GenericResolver { answer_pos, resolve_me_desc }
    }

    /// Where the answer goes: the position of the import to resolve.
    pub fn position(&self) -> (r: DescExport)
        ensures
            r.position == import_position(self.resolve_me_desc),
    {
        DescExport { position: self.resolve_me_desc.position() }
    }

    /// The delivery that fulfills the promise with `args`.
    pub fn fulfill(
        self,
        args: Vec<TokenTree>,
        answer_pos: Option<u64>,
        resolve_me_desc: DescImport,
    ) -> (r: OpDeliver)
        ensures
            r@ == fulfill_model(self.resolve_me_desc, trees_of(args@), answer_pos, resolve_me_desc),
    {
        let mut all: Vec<TokenTree> = Vec::new();
        all.push(TokenTree::Symbol("fulfill".to_owned()));
        let mut args = args;
        let ghost a0 = args@;
        all.append(&mut args);
        proof {
            lemma_trees_of(all@);
            lemma_trees_of(a0);
            assert(trees_of(all@) =~= seq![Tree::Symbol("fulfill"@)] + trees_of(a0));
        }
        OpDeliver::new(self.position(), all, answer_pos, resolve_me_desc)
    }

    /// The one-way delivery that breaks the promise with `error`.
    pub fn break_promise(self, error: TokenTree) -> (r: OpDeliverOnly)
        ensures
            r@ == break_model(self.resolve_me_desc, error@),
    {
        let mut args: Vec<TokenTree> = Vec::new();
        args.push(TokenTree::Symbol("break".to_owned()));
        args.push(error);
        proof {
            lemma_trees_of(args@);
            assert(trees_of(args@) =~= seq![Tree::Symbol("break"@), error@]);
        }
        OpDeliverOnly::new(self.position(), args)
    }
}

/// The resolver of a bootstrap `fetch`: it answers with the position of the
/// object found, or breaks.
#[derive(Clone, Debug, PartialEq, Eq)]
pub struct FetchResolver {
    pub base: GenericResolver,
}

impl FetchResolver {
    pub fn new(base: GenericResolver) -> (r: FetchResolver)
        ensures
            r.base == base,
    {
        FetchResolver { base }
    }

    /// The delivery that answers the fetch with the object at `position`.
    pub fn fulfill(self, position: DescExport, answer_pos: Option<u64>, resolve_me_desc: DescImport) -> (r: OpDeliver)
        ensures
            r@ == fulfill_model(self.base.resolve_me_desc, seq![export_tree(position)], answer_pos, resolve_me_desc),
    {
        let mut args: Vec<TokenTree> = Vec::new();
        args.push(position.to_tokens());
        proof {
            lemma_trees_of(args@);
            assert(trees_of(args@) =~= seq![export_tree(position)]);
        }
        self.base.fulfill(args, answer_pos, resolve_me_desc)
    }

    /// The one-way delivery that breaks the fetch with `error`.
    pub fn break_promise(self, error: TokenTree) -> (r: OpDeliverOnly)
        ensures
            r@ == break_model(self.base.resolve_me_desc, error@),
    {
        self.base.break_promise(error)
    }
}

} // verus!
