//! Session establishment: the `op:start-session` message, the session's
//! signing key, and the checks a side makes of its peer's first message.
use vstd::prelude::*;
use vstd::utf8::encode_utf8;
use ed25519_dalek::Signer;
use crate::codec::{
    enc, lemma_parse_enc, lemma_trees_of, parse_value, trees_of, wf, LexError, Lexed, TokenTree, Tree,
};
use crate::locator::{
    hint_keys_unique, lemma_locator_tree_injective, lemma_locator_wf, locator_tree, locator_valid, LocatorModel,
    NodeLocator,
};
use crate::msg::{
    fields_of, is_record_with, lemma_record_shape, lemma_record_wf, next_field, open_record,
    public_key_tree, record, record_of, signature_tree, string_of, DecodeError, PublicKey,
    Signature, PUBLIC_KEY_LEN, SIGNATURE_LEN,
};

verus! {

/// The protocol version that each side advertises and requires.
pub const CAPTP_VERSION: &'static str = "1.0";

/// The Ed25519 verifying key of a 32-byte secret.
pub uninterp spec fn ed25519_public(secret: Seq<u8>) -> Seq<u8>;

/// The Ed25519 signature of a message under a 32-byte secret.
pub uninterp spec fn ed25519_sign(secret: Seq<u8>, msg: Seq<u8>) -> Seq<u8>;

/// Whether a signature is accepted, under strict verification, for a message
/// and a verifying key.
pub uninterp spec fn ed25519_verify(key: Seq<u8>, msg: Seq<u8>, sig: Seq<u8>) -> bool;

/// Relies on `ed25519_dalek::SigningKey::generate` with the operating
/// system's random source: a fresh 32-byte secret.
#[verifier::external_body]
fn generate_secret() -> (r: Vec<u8>)
    ensures
        r@.len() == 32,
{
    ed25519_dalek::SigningKey::generate(&mut rand::rngs::OsRng).to_bytes().to_vec()
}

/// Relies on `ed25519_dalek::SigningKey::verifying_key`: the verifying key
/// that belongs to a secret.
#[verifier::external_body]
fn public_of(secret: &[u8]) -> (r: Vec<u8>)
    requires
        secret@.len() == 32,
    ensures
        r@ == ed25519_public(secret@),
        r@.len() == PUBLIC_KEY_LEN,
{
    let bytes: [u8; 32] = secret.try_into().unwrap();
    ed25519_dalek::SigningKey::from_bytes(&bytes).verifying_key().to_bytes().to_vec()
}

/// Relies on `ed25519_dalek::Signer::sign` for a `SigningKey`: the 64-byte
/// signature of a message.
#[verifier::external_body]
fn sign_with(secret: &[u8], msg: &[u8]) -> (r: Vec<u8>)
    requires
        secret@.len() == 32,
    ensures
        r@ == ed25519_sign(secret@, msg@),
        r@.len() == SIGNATURE_LEN,
{
    let bytes: [u8; 32] = secret.try_into().unwrap();
    ed25519_dalek::SigningKey::from_bytes(&bytes).sign(msg).to_bytes().to_vec()
}

/// Relies on `ed25519_dalek::VerifyingKey::verify_strict`, after reading the
/// key with `VerifyingKey::from_bytes` (bytes that are no valid key verify
/// nothing).
#[verifier::external_body]
fn verify_strict(key: &[u8], msg: &[u8], sig: &[u8]) -> (r: bool)
    requires
        key@.len() == PUBLIC_KEY_LEN,
        sig@.len() == SIGNATURE_LEN,
    ensures
        r == ed25519_verify(key@, msg@, sig@),
{
    let key: [u8; 32] = key.try_into().unwrap();
    let sig: [u8; 64] = sig.try_into().unwrap();
    match ed25519_dalek::VerifyingKey::from_bytes(&key) {
        Ok(k) => k.verify_strict(msg, &ed25519_dalek::Signature::from_bytes(&sig)).is_ok(),
        Err(_) => false,
    }
}

/// A session's Ed25519 signing key: its 32-byte secret.
pub struct SigningKey {
    secret: Vec<u8>,
}

impl View for SigningKey {
    type V = Seq<u8>;

    closed spec fn view(&self) -> Seq<u8> {
        self.secret@
    }
}

impl SigningKey {
    #[verifier::type_invariant]
    spec fn secret_len(&self) -> bool {
        self.secret@.len() == 32
    }

    /// A fresh key from the operating system's random source.
    pub fn generate() -> (r: SigningKey)
        ensures
            r@.len() == 32,
    {
        SigningKey { secret: generate_secret() }
    }

    /// The key with the given secret.
    pub fn from_bytes(secret: [u8; 32]) -> (r: SigningKey)
        ensures
            r@ == secret@,
    {
        let mut v: Vec<u8> = Vec::new();
        let mut i: usize = 0;
        while i < 32
            invariant
                i <= 32,
                v@ == secret@.take(i as int),
            decreases 32 - i,
        {
            v.push(secret[i]);
            i = i + 1;
            assert(v@ =~= secret@.take(i as int));
        }
        assert(secret@.take(32) =~= secret@);
        SigningKey { secret: v }
    }

    /// The verifying key that peers check this key's signatures with.
    pub fn verifying_key(&self) -> (r: PublicKey)
        ensures
            r@ == ed25519_public(self@),
            r@.len() == PUBLIC_KEY_LEN,
    {
        proof {
            use_type_invariant(self);
        }
        PublicKey { ecc: public_of(self.secret.as_slice()) }
    }

    /// Signs a message.
    pub fn sign(&self, msg: &[u8]) -> (r: Signature)
        ensures
            r@ == ed25519_sign(self@, msg@),
            r@.len() == SIGNATURE_LEN,
    {
        proof {
            use_type_invariant(self);
        }
        Signature { eddsa: sign_with(self.secret.as_slice(), msg) }
    }
}

/// The first message of each side: the protocol version, the session's
/// verifying key, where the side can be reached, and its signature of the
/// encoding of that locator.
#[derive(Clone, Debug, PartialEq, Eq)]
pub struct OpStartSession {
    pub captp_version: String,
    pub session_pubkey: PublicKey,
    pub acceptable_location: NodeLocator,
    pub acceptable_location_sig: Signature,
}

/// The model of a start message.
pub struct StartSessionModel {
    pub captp_version: Seq<char>,
    pub session_pubkey: Seq<u8>,
    pub acceptable_location: LocatorModel,
    pub acceptable_location_sig: Seq<u8>,
}

impl View for OpStartSession {
    type V = StartSessionModel;

    open spec fn view(&self) -> StartSessionModel {
        StartSessionModel {
            captp_version: self.captp_version@,
            session_pubkey: self.session_pubkey@,
            acceptable_location: self.acceptable_location@,
            acceptable_location_sig: self.acceptable_location_sig@,
        }
    }
}

/// A start message that decoding can give: valid, with each hint key once.
pub open spec fn start_session_decodable(m: StartSessionModel) -> bool {
    start_session_valid(m) && hint_keys_unique(m.acceptable_location.hints)
}

/// A start message whose key and signature have their Ed25519 lengths.
pub open spec fn start_session_valid(m: StartSessionModel) -> bool {
    m.session_pubkey.len() == PUBLIC_KEY_LEN && m.acceptable_location_sig.len() == SIGNATURE_LEN
}

/// The token tree of a start message.
pub open spec fn start_session_tree(m: StartSessionModel) -> Tree {
    record(
        "op:start-session"@,
        seq![
            Tree::Str(m.captp_version),
            public_key_tree(m.session_pubkey),
            locator_tree(m.acceptable_location),
            signature_tree(m.acceptable_location_sig),
        ],
    )
}

/// The bytes that a side signs for its locator: the locator's encoding.
pub open spec fn locator_bytes(l: LocatorModel) -> Seq<u8> {
    enc(locator_tree(l))
}

/// Whether the start message's signature of its locator verifies under its key.
pub open spec fn location_verifies(m: StartSessionModel) -> bool {
    ed25519_verify(m.session_pubkey, locator_bytes(m.acceptable_location), m.acceptable_location_sig)
}

impl OpStartSession {
    /// The start message that `key` sends to advertise `location`.
    pub fn new(key: &SigningKey, location: NodeLocator) -> (r: OpStartSession)
        ensures
            r@.captp_version == CAPTP_VERSION@,
            r@.session_pubkey == ed25519_public(key@),
            r@.acceptable_location == location@,
            r@.acceptable_location_sig == ed25519_sign(key@, locator_bytes(location@)),
            start_session_valid(r@),
    {
        let bytes = location.to_tokens().encode();
        let sig = key.sign(bytes.as_slice());
        OpStartSession {
            captp_version: CAPTP_VERSION.to_owned(),
            session_pubkey: key.verifying_key(),
            acceptable_location: location,
            acceptable_location_sig: sig,
        }
    }

    /// Checks the signature of the locator with the advertised key.
    pub fn verify_location(&self) -> (r: bool)
        requires
            start_session_valid(self@),
        ensures
            r == location_verifies(self@),
    {
        let bytes = self.acceptable_location.to_tokens().encode();
        verify_strict(self.session_pubkey.ecc.as_slice(), bytes.as_slice(), self.acceptable_location_sig.eddsa.as_slice())
    }

    pub fn to_tokens(self) -> (r: TokenTree)
        ensures
            r@ == start_session_tree(self@),
    {
        let mut fields: Vec<TokenTree> = Vec::new();
        let loc = self.acceptable_location.to_tokens();
        fields.push(string_of(self.captp_version));
        fields.push(self.session_pubkey.to_tokens());
        fields.push(loc);
        fields.push(self.acceptable_location_sig.to_tokens());
        proof {
            lemma_trees_of(fields@);
            assert(trees_of(fields@) =~= seq![
                Tree::Str(self@.captp_version),
                public_key_tree(self@.session_pubkey),
                locator_tree(self@.acceptable_location),
                signature_tree(self@.acceptable_location_sig),
            ]);
        }
        record_of("op:start-session", fields)
    }

    pub fn decode(t: TokenTree) -> (r: Result<OpStartSession, DecodeError>)
        ensures
            match r {
                Ok(m) => start_session_tree(m@) == t@ && start_session_decodable(m@),
                Err(_) => forall|m: StartSessionModel|
                    start_session_decodable(m) ==> start_session_tree(m) != t@,
            },
    {
        let ghost tv = t@;
        assert forall|m: StartSessionModel| #[trigger] start_session_tree(m) == tv implies
            is_record_with(tv, "op:start-session"@, 4)
            && fields_of(tv)[0] == Tree::Str(m.captp_version)
            && fields_of(tv)[1] == public_key_tree(m.session_pubkey)
            && fields_of(tv)[2] == locator_tree(m.acceptable_location)
            && fields_of(tv)[3] == signature_tree(m.acceptable_location_sig) by {
            lemma_record_shape("op:start-session"@, seq![
                Tree::Str(m.captp_version),
                public_key_tree(m.session_pubkey),
                locator_tree(m.acceptable_location),
                signature_tree(m.acceptable_location_sig),
            ]);
        }
        let mut fields = open_record(t, "op:start-session", 4)?;
        let f0 = next_field(&mut fields);
        let f1 = next_field(&mut fields);
        let f2 = next_field(&mut fields);
        let f3 = next_field(&mut fields);
        let captp_version = match f0 {
            TokenTree::Str(s) => s,
            _ => {
                return Err(DecodeError { position: 1 });
            },
        };
        let session_pubkey = match PublicKey::decode(f1) {
            Ok(k) => k,
            Err(_) => {
                return Err(DecodeError { position: 2 });
            },
        };
        let acceptable_location = match NodeLocator::decode(f2) {
            Ok(l) => l,
            Err(_) => {
                return Err(DecodeError { position: 3 });
            },
        };
        let acceptable_location_sig = match Signature::decode(f3) {
            Ok(s) => s,
            Err(_) => {
                return Err(DecodeError { position: 4 });
            },
        };
        let r = OpStartSession { captp_version, session_pubkey, acceptable_location, acceptable_location_sig };
        proof {
            let fs = seq![
                Tree::Str(r@.captp_version),
                public_key_tree(r@.session_pubkey),
                locator_tree(r@.acceptable_location),
                signature_tree(r@.acceptable_location_sig),
            ];
            lemma_record_shape("op:start-session"@, fs);
            assert(tv->Group_1 =~= seq![Tree::Symbol("op:start-session"@)] + fields_of(tv));
            assert(fields_of(tv) =~= fs);
        }
        Ok(r)
    }
}

/// Why a session could not be established.
#[derive(Debug)]
pub enum SessionInitError {
    /// The peer's bytes are no valid encoding.
    Lex(LexError),
    /// The peer's first message is not a start message.
    Decode(DecodeError),
    /// The peer advertised another protocol version (given here).
    Version(String),
    /// The peer's signature of its locator does not verify under its key.
    Signature,
}

/// What the checks of a start message give: a version error for any other
/// version; else a signature error unless the locator's signature verifies;
/// else the peer's key and locator.
pub open spec fn start_verdict(m: StartSessionModel, r: Result<(PublicKey, NodeLocator), SessionInitError>) -> bool {
    if m.captp_version != CAPTP_VERSION@ {
        r is Err && r->Err_0 is Version && r->Err_0->Version_0@ == m.captp_version
    } else if !location_verifies(m) {
        r is Err && r->Err_0 is Signature
    } else {
        r is Ok && r->Ok_0.0@ == m.session_pubkey && r->Ok_0.1@ == m.acceptable_location
    }
}

/// Checks a peer's start message: its version, then its locator's signature.
pub fn check_start_session(msg: OpStartSession) -> (r: Result<(PublicKey, NodeLocator), SessionInitError>)
    requires
        start_session_valid(msg@),
    ensures
        start_verdict(msg@, r),
{
    if msg.captp_version != CAPTP_VERSION.to_owned() {
        return Err(SessionInitError::Version(msg.captp_version));
    }
    if !msg.verify_location() {
        return Err(SessionInitError::Signature);
    }
    Ok((msg.session_pubkey, msg.acceptable_location))
}

/// Reads the peer's first message from a token tree and checks it.
pub fn recv_start_session(t: TokenTree) -> (r: Result<(PublicKey, NodeLocator), SessionInitError>)
    ensures
        (r is Err && r->Err_0 is Decode) <==> (forall|m: StartSessionModel|
            start_session_decodable(m) ==> start_session_tree(m) != t@),
        forall|m: StartSessionModel| start_session_decodable(m) && start_session_tree(m) == t@
            ==> start_verdict(m, r),
{
    let ghost tv = t@;
    match OpStartSession::decode(t) {
        Err(e) => Err(SessionInitError::Decode(e)),
        Ok(msg) => {
            let ghost mv = msg@;
            proof {
                lemma_start_session_tree_injective(mv);
            }
            check_start_session(msg)
        },
    }
}

/// Distinct start messages have distinct token trees.
pub proof fn lemma_start_session_tree_injective(a: StartSessionModel)
    ensures
        forall|b: StartSessionModel| #[trigger] start_session_tree(b) == start_session_tree(a) ==> b == a,
{
    assert forall|b: StartSessionModel| #[trigger] start_session_tree(b) == start_session_tree(a) implies b == a by {
        let fa = seq![
            Tree::Str(a.captp_version),
            public_key_tree(a.session_pubkey),
            locator_tree(a.acceptable_location),
            signature_tree(a.acceptable_location_sig),
        ];
        let fb = seq![
            Tree::Str(b.captp_version),
            public_key_tree(b.session_pubkey),
            locator_tree(b.acceptable_location),
            signature_tree(b.acceptable_location_sig),
        ];
        lemma_record_shape("op:start-session"@, fa);
        lemma_record_shape("op:start-session"@, fb);
        assert(fa[1] == fb[1]);
        assert(fa[3] == fb[3]);
        lemma_record_shape("public-key"@, seq![Tree::Bytes(a.session_pubkey)]);
        lemma_record_shape("public-key"@, seq![Tree::Bytes(b.session_pubkey)]);
        lemma_record_shape("sig-val"@, seq![Tree::Bytes(a.acceptable_location_sig)]);
        lemma_record_shape("sig-val"@, seq![Tree::Bytes(b.acceptable_location_sig)]);
        assert(fields_of(fa[1])[0] == fields_of(fb[1])[0]);
        assert(fields_of(fa[3])[0] == fields_of(fb[3])[0]);
        assert(fa[2] == fb[2]);
        lemma_locator_tree_injective(a.acceptable_location, b.acceptable_location);
        assert(fa[0] == fb[0]);
    }
}

/// A start message that the encoding can carry.
pub open spec fn start_session_encodable(m: StartSessionModel) -> bool {
    &&& start_session_valid(m)
    &&& locator_valid(m.acceptable_location)
    &&& encode_utf8(m.captp_version).len() <= 0xffff_ffff_ffff_ffff
}

/// Every start message is read back from its encoding, whatever bytes follow
/// it, and decodes to itself.
pub proof fn lemma_start_session_round_trip(m: StartSessionModel, rest: Seq<u8>)
    requires
        start_session_encodable(m),
    ensures
        wf(start_session_tree(m)),
        parse_value(enc(start_session_tree(m)) + rest) == Lexed::Done(start_session_tree(m), enc(start_session_tree(m)).len()),
        forall|m2: StartSessionModel| #[trigger] start_session_tree(m2) == start_session_tree(m) ==> m2 == m,
{
    reveal_strlit("op:start-session");
    reveal_strlit("public-key");
    reveal_strlit("sig-val");
    lemma_locator_wf(m.acceptable_location);
    lemma_record_wf("public-key"@, seq![Tree::Bytes(m.session_pubkey)]);
    lemma_record_wf("sig-val"@, seq![Tree::Bytes(m.acceptable_location_sig)]);
    let fs = seq![
        Tree::Str(m.captp_version),
        public_key_tree(m.session_pubkey),
        locator_tree(m.acceptable_location),
        signature_tree(m.acceptable_location_sig),
    ];
    assert forall|i: int| 0 <= i < fs.len() implies #[trigger] wf(fs[i]) by {}
    lemma_record_wf("op:start-session"@, fs);
    lemma_parse_enc(start_session_tree(m), rest);
    lemma_start_session_tree_injective(m);
}

/// What one side sends, the other reads back and checks: the version is the
/// advertised one, so the check gives the sender's key and locator exactly,
/// unless the signature of the locator does not verify.
pub proof fn lemma_start_session_exchange(m: StartSessionModel, r: Result<(PublicKey, NodeLocator), SessionInitError>)
    requires
        m.captp_version == CAPTP_VERSION@,
        start_verdict(m, r),
    ensures
        location_verifies(m) ==> r is Ok && r->Ok_0.0@ == m.session_pubkey && r->Ok_0.1@ == m.acceptable_location,
        !location_verifies(m) ==> r is Err && r->Err_0 is Signature,
{
}

/// A gift handed from one peer to another through a third: who may receive
/// it, where the exporter is, and the session, side and gift identifiers.
#[derive(Clone, Debug, PartialEq, Eq)]
pub struct DescHandoffGive {
    pub receiver_key: PublicKey,
    pub exporter_location: NodeLocator,
    pub session: Vec<u8>,
    pub gifter_side: Vec<u8>,
    pub gift_id: Vec<u8>,
}

/// The receiver's claim of a gift: its session and side, a count, and the
/// give record it was handed.
#[derive(Clone, Debug, PartialEq, Eq)]
pub struct DescHandoffReceive {
    pub receiving_session: Vec<u8>,
    pub receiving_side: Vec<u8>,
    pub handoff_count: u64,
    pub signed_give: DescHandoffGive,
}

/// The model of a handoff give record.
pub struct HandoffGiveModel {
    pub receiver_key: Seq<u8>,
    pub exporter_location: LocatorModel,
    pub session: Seq<u8>,
    pub gifter_side: Seq<u8>,
    pub gift_id: Seq<u8>,
}

/// The model of a handoff receive record.
pub struct HandoffReceiveModel {
    pub receiving_session: Seq<u8>,
    pub receiving_side: Seq<u8>,
    pub handoff_count: u64,
    pub signed_give: HandoffGiveModel,
}

impl View for DescHandoffGive {
    type V = HandoffGiveModel;

    open spec fn view(&self) -> HandoffGiveModel {
        HandoffGiveModel {
            receiver_key: self.receiver_key@,
            exporter_location: self.exporter_location@,
            session: self.session@,
            gifter_side: self.gifter_side@,
            gift_id: self.gift_id@,
        }
    }
}

impl View for DescHandoffReceive {
    type V = HandoffReceiveModel;

    open spec fn view(&self) -> HandoffReceiveModel {
        HandoffReceiveModel {
            receiving_session: self.receiving_session@,
            receiving_side: self.receiving_side@,
            handoff_count: self.handoff_count,
            signed_give: self.signed_give@,
        }
    }
}

/// A give record that decoding can give: a key of Ed25519 length, and each
/// hint key of the locator once.
pub open spec fn handoff_give_decodable(m: HandoffGiveModel) -> bool {
    m.receiver_key.len() == PUBLIC_KEY_LEN && hint_keys_unique(m.exporter_location.hints)
}

/// The fields of a handoff give record.
pub open spec fn handoff_give_fields(m: HandoffGiveModel) -> Seq<Tree> {
    seq![
        public_key_tree(m.receiver_key),
        locator_tree(m.exporter_location),
        Tree::Bytes(m.session),
        Tree::Bytes(m.gifter_side),
        Tree::Bytes(m.gift_id),
    ]
}

/// The token tree of a handoff give record.
pub open spec fn handoff_give_tree(m: HandoffGiveModel) -> Tree {
    record("desc:handoff-give"@, handoff_give_fields(m))
}

/// The fields of a handoff receive record.
pub open spec fn handoff_receive_fields(m: HandoffReceiveModel) -> Seq<Tree> {
    seq![
        Tree::Bytes(m.receiving_session),
        Tree::Bytes(m.receiving_side),
        Tree::Int(m.handoff_count as int),
        handoff_give_tree(m.signed_give),
    ]
}

/// The token tree of a handoff receive record.
pub open spec fn handoff_receive_tree(m: HandoffReceiveModel) -> Tree {
    record("desc:handoff-receive"@, handoff_receive_fields(m))
}

fn bytes_of(b: &Vec<u8>) -> (r: TokenTree)
    ensures
        r@ == Tree::Bytes(b@),
{
    let copy = crate::codec::copy_range(b.as_slice(), 0, b.len());
    assert(copy@ =~= b@);
    TokenTree::Bytes(copy)
}

fn take_bytes(t: TokenTree) -> (r: Option<Vec<u8>>)
    ensures
        match r {
            Some(b) => t@ == Tree::Bytes(b@),
            None => forall|b: Seq<u8>| t@ != Tree::Bytes(b),
        },
{
    match t {
        TokenTree::Bytes(b) => Some(b),
        _ => None,
    }
}

impl DescHandoffGive {
    pub fn to_tokens(&self) -> (r: TokenTree)
        ensures
            r@ == handoff_give_tree(self@),
    {
        let mut fields: Vec<TokenTree> = Vec::new();
        let key = crate::codec::copy_range(self.receiver_key.ecc.as_slice(), 0, self.receiver_key.ecc.len());
        assert(key@ =~= self.receiver_key@);
        fields.push(PublicKey { ecc: key }.to_tokens());
        fields.push(self.exporter_location.to_tokens());
        fields.push(bytes_of(&self.session));
        fields.push(bytes_of(&self.gifter_side));
        fields.push(bytes_of(&self.gift_id));
        proof {
            lemma_trees_of(fields@);
            assert(trees_of(fields@) =~= handoff_give_fields(self@));
        }
        record_of("desc:handoff-give", fields)
    }

    pub fn decode(t: TokenTree) -> (r: Result<DescHandoffGive, DecodeError>)
        ensures
            match r {
                Ok(g) => handoff_give_tree(g@) == t@ && handoff_give_decodable(g@),
                Err(_) => forall|m: HandoffGiveModel| handoff_give_decodable(m) ==> handoff_give_tree(m) != t@,
            },
    {
        let ghost tv = t@;
        assert forall|m: HandoffGiveModel| #[trigger] handoff_give_tree(m) == tv implies
            is_record_with(tv, "desc:handoff-give"@, 5) && fields_of(tv) == handoff_give_fields(m) by {
            lemma_record_shape("desc:handoff-give"@, handoff_give_fields(m));
        }
        let mut fields = open_record(t, "desc:handoff-give", 5)?;
        let f0 = next_field(&mut fields);
        let f1 = next_field(&mut fields);
        let f2 = next_field(&mut fields);
        let f3 = next_field(&mut fields);
        let f4 = next_field(&mut fields);
        let receiver_key = match PublicKey::decode(f0) {
            Ok(k) => k,
            Err(_) => {
                return Err(DecodeError { position: 1 });
            },
        };
        let exporter_location = match NodeLocator::decode(f1) {
            Ok(l) => l,
            Err(_) => {
                return Err(DecodeError { position: 2 });
            },
        };
        let (session, gifter_side, gift_id) = match (take_bytes(f2), take_bytes(f3), take_bytes(f4)) {
            (Some(a), Some(b), Some(c)) => (a, b, c),
            _ => {
                return Err(DecodeError { position: 3 });
            },
        };
        let r = DescHandoffGive { receiver_key, exporter_location, session, gifter_side, gift_id };
        proof {
            lemma_record_shape("desc:handoff-give"@, handoff_give_fields(r@));
            assert(tv->Group_1 =~= seq![Tree::Symbol("desc:handoff-give"@)] + fields_of(tv));
            assert(fields_of(tv) =~= handoff_give_fields(r@));
        }
        Ok(r)
    }
}

impl DescHandoffReceive {
    pub fn to_tokens(&self) -> (r: TokenTree)
        ensures
            r@ == handoff_receive_tree(self@),
    {
        let mut fields: Vec<TokenTree> = Vec::new();
        fields.push(bytes_of(&self.receiving_session));
        fields.push(bytes_of(&self.receiving_side));
        fields.push(TokenTree::Int(self.handoff_count as i128));
        fields.push(self.signed_give.to_tokens());
        proof {
            lemma_trees_of(fields@);
            assert(trees_of(fields@) =~= handoff_receive_fields(self@));
        }
        record_of("desc:handoff-receive", fields)
    }

    pub fn decode(t: TokenTree) -> (r: Result<DescHandoffReceive, DecodeError>)
        ensures
            match r {
                Ok(h) => handoff_receive_tree(h@) == t@ && handoff_give_decodable(h@.signed_give),
                Err(_) => forall|m: HandoffReceiveModel|
                    handoff_give_decodable(m.signed_give) ==> handoff_receive_tree(m) != t@,
            },
    {
        let ghost tv = t@;
        assert forall|m: HandoffReceiveModel| #[trigger] handoff_receive_tree(m) == tv implies
            is_record_with(tv, "desc:handoff-receive"@, 4) && fields_of(tv) == handoff_receive_fields(m) by {
            lemma_record_shape("desc:handoff-receive"@, handoff_receive_fields(m));
        }
        let mut fields = open_record(t, "desc:handoff-receive", 4)?;
        let f0 = next_field(&mut fields);
        let f1 = next_field(&mut fields);
        let f2 = next_field(&mut fields);
        let f3 = next_field(&mut fields);
        let (receiving_session, receiving_side) = match (take_bytes(f0), take_bytes(f1)) {
            (Some(a), Some(b)) => (a, b),
            _ => {
                return Err(DecodeError { position: 1 });
            },
        };
        let handoff_count = match f2 {
            TokenTree::Int(n) => {
                if n >= 0 && n <= 0xffff_ffff_ffff_ffff {
                    n as u64
                } else {
                    return Err(DecodeError { position: 3 });
                }
            },
            _ => {
                return Err(DecodeError { position: 3 });
            },
        };
        let signed_give = match DescHandoffGive::decode(f3) {
            Ok(g) => g,
            Err(_) => {
                return Err(DecodeError { position: 4 });
            },
        };
        let r = DescHandoffReceive { receiving_session, receiving_side, handoff_count, signed_give };
        proof {
            lemma_record_shape("desc:handoff-receive"@, handoff_receive_fields(r@));
            assert(tv->Group_1 =~= seq![Tree::Symbol("desc:handoff-receive"@)] + fields_of(tv));
            assert(fields_of(tv) =~= handoff_receive_fields(r@));
        }
        Ok(r)
    }
}

/// A locator changed after signing no longer has the bytes that were signed:
/// the receiver checks the signature against other bytes.
pub proof fn lemma_tampered_locator_bytes_differ(signed: LocatorModel, sent: LocatorModel)
    requires
        locator_valid(signed),
        locator_valid(sent),
        signed != sent,
    ensures
        locator_bytes(signed) != locator_bytes(sent),
{
    lemma_locator_wf(signed);
    lemma_locator_wf(sent);
    lemma_parse_enc(locator_tree(signed), Seq::empty());
    lemma_parse_enc(locator_tree(sent), Seq::empty());
    assert(enc(locator_tree(signed)) + Seq::<u8>::empty() =~= enc(locator_tree(signed)));
    assert(enc(locator_tree(sent)) + Seq::<u8>::empty() =~= enc(locator_tree(sent)));
    if locator_bytes(signed) == locator_bytes(sent) {
        lemma_locator_tree_injective(signed, sent);
    }
}

} // verus!
