//! The typed protocol messages and their token-tree schemas: each message is a
//! record with a fixed label and an ordered list of fields.
use vstd::prelude::*;
use crate::codec::{
    enc, lemma_parse_enc, lemma_trees_of, lemma_utf8_len_bound, lemma_wf_items, parse_value,
    trees_of, wf, wf_items, Group, Lexed, TokenTree, Tree,
};
use vstd::utf8::encode_utf8;

verus! {

/// Why a token tree is not the expected message: the index of the record item
/// at which it stopped matching (0 is the label).
#[derive(PartialEq, Eq, Clone, Copy, Debug, Structural)]
pub struct DecodeError {
    pub position: usize,
}

/// A reference to an object that the peer exported, by its position.
#[derive(PartialEq, Eq, Clone, Copy, Debug, Structural)]
pub struct DescExport {
    pub position: u64,
}

/// An object of ours that the peer may reach, by its position.
#[derive(PartialEq, Eq, Clone, Copy, Debug, Structural)]
pub struct DescImportObject {
    pub position: u64,
}

/// A promise of ours that the peer may resolve, by its position.
#[derive(PartialEq, Eq, Clone, Copy, Debug, Structural)]
pub struct DescImportPromise {
    pub position: u64,
}

/// An import: an object or a promise.
#[derive(PartialEq, Eq, Clone, Copy, Debug, Structural)]
pub enum DescImport {
    Object(DescImportObject),
    Promise(DescImportPromise),
}

impl DescImport {
    /// The bootstrap object, at position 0.
    pub fn bootstrap() -> (r: DescImport)
        ensures
            r == DescImport::Object(DescImportObject { position: 0 }),
    {
        DescImport::Object(DescImportObject { position: 0 })
    }

    /// The position that this import names, whatever its kind.
    pub fn position(&self) -> (r: u64)
        ensures
            r == import_position(*self),
    {
        match self {
            DescImport::Object(o) => o.position,
            DescImport::Promise(p) => p.position,
        }
    }
}

impl Default for DescImport {
    /// The bootstrap object, at position 0.
    fn default() -> (r: DescImport)
        ensures
            r == DescImport::Object(DescImportObject { position: 0 }),
    {
        DescImport::Object(DescImportObject { position: 0 })
    }
}

/// The position that an import names.
pub open spec fn import_position(d: DescImport) -> u64 {
    match d {
        DescImport::Object(o) => o.position,
        DescImport::Promise(p) => p.position,
    }
}

/// A record with a symbol label and the given fields.
pub open spec fn record(label: Seq<char>, fields: Seq<Tree>) -> Tree {
    Tree::Group(Group::Record, seq![Tree::Symbol(label)] + fields)
}

/// The token tree of an export descriptor.
pub open spec fn export_tree(d: DescExport) -> Tree {
    record("desc:export"@, seq![Tree::Int(d.position as int)])
}

/// The token tree of an imported-object descriptor.
pub open spec fn import_object_tree(d: DescImportObject) -> Tree {
    record("desc:import-object"@, seq![Tree::Int(d.position as int)])
}

/// The token tree of an imported-promise descriptor.
pub open spec fn import_promise_tree(d: DescImportPromise) -> Tree {
    record("desc:import-promise"@, seq![Tree::Int(d.position as int)])
}

/// The token tree of an import descriptor.
pub open spec fn import_tree(d: DescImport) -> Tree {
    match d {
        DescImport::Object(o) => import_object_tree(o),
        DescImport::Promise(p) => import_promise_tree(p),
    }
}

/// An answer position: the integer, or `false` when there is none.
pub open spec fn answer_tree(a: Option<u64>) -> Tree {
    match a {
        Some(n) => Tree::Int(n as int),
        None => Tree::Bool(false),
    }
}

/// Builds the symbol tree of a label.
pub(crate) fn symbol_of(label: &str) -> (r: TokenTree)
    ensures
        r@ == Tree::Symbol(label@),
{
    TokenTree::Symbol(label.to_owned())
}

/// Builds a record tree from a label and fields.
pub(crate) fn record_of(label: &str, fields: Vec<TokenTree>) -> (r: TokenTree)
    ensures
        r@ == record(label@, trees_of(fields@)),
{
    let mut items: Vec<TokenTree> = Vec::new();
    items.push(symbol_of(label));
    let mut fields = fields;
    let ghost f0 = fields@;
    items.append(&mut fields);
    proof {
        lemma_trees_of(items@);
        lemma_trees_of(f0);
        assert(trees_of(items@) =~= seq![Tree::Symbol(label@)] + trees_of(f0));
    }
    TokenTree::Group(Group::Record, items)
}

/// `t` is a record labelled `label` with `arity` fields.
pub open spec fn is_record_with(t: Tree, label: Seq<char>, arity: nat) -> bool {
    &&& t is Group
    &&& t->Group_0 == Group::Record
    &&& t->Group_1.len() == arity + 1
    &&& t->Group_1[0] == Tree::Symbol(label)
}

/// The fields of a record, after its label.
pub open spec fn fields_of(t: Tree) -> Seq<Tree> {
    t->Group_1.drop_first()
}

pub proof fn lemma_record_shape(label: Seq<char>, fields: Seq<Tree>)
    ensures
        is_record_with(record(label, fields), label, fields.len()),
        fields_of(record(label, fields)) == fields,
{
    assert((seq![Tree::Symbol(label)] + fields).drop_first() =~= fields);
}

/// Opens a record with the given label and number of fields, giving its fields.
pub(crate) fn open_record(t: TokenTree, label: &str, arity: usize) -> (r: Result<Vec<TokenTree>, DecodeError>)
    ensures
        r is Ok <==> is_record_with(t@, label@, arity as nat),
        r is Ok ==> trees_of(r->Ok_0@) == fields_of(t@),
{
    match t {
        TokenTree::Group(g, items) => {
            proof {
                lemma_trees_of(items@);
            }
            if g != Group::Record || items.len() == 0 || items.len() - 1 != arity {
                return Err(DecodeError { position: 0 });
            }
            let mut items = items;
            let ghost old_items = items@;
            let first = items.remove(0);
            proof {
                lemma_trees_of(items@);
                assert(items@ =~= old_items.drop_first());
                assert(trees_of(items@) =~= trees_of(old_items).drop_first());
            }
            match first {
                TokenTree::Symbol(s) => {
                    if s == label.to_owned() {
                        Ok(items)
                    } else {
                        Err(DecodeError { position: 0 })
                    }
                },
                _ => Err(DecodeError { position: 0 }),
            }
        },
        _ => Err(DecodeError { position: 0 }),
    }
}

/// Takes the first remaining field.
pub(crate) fn next_field(fields: &mut Vec<TokenTree>) -> (r: TokenTree)
    requires
        old(fields).len() > 0,
    ensures
        r@ == trees_of(old(fields)@)[0],
        trees_of(final(fields)@) == trees_of(old(fields)@).drop_first(),
{
    proof {
        lemma_trees_of(fields@);
    }
    let ghost before = fields@;
    let r = fields.remove(0);
    proof {
        lemma_trees_of(fields@);
        assert(fields@ =~= before.drop_first());
        assert(trees_of(fields@) =~= trees_of(before).drop_first());
    }
    r
}

fn as_u64(t: &TokenTree) -> (r: Option<u64>)
    ensures
        match r {
            Some(n) => t@ == Tree::Int(n as int),
            None => forall|n: u64| t@ != Tree::Int(n as int),
        },
{
    match t {
        TokenTree::Int(n) => {
            if *n >= 0 && *n <= 0xffff_ffff_ffff_ffff {
                Some(*n as u64)
            } else {
                None
            }
        },
        _ => None,
    }
}

/// Reads a record of one integer field that fits 64 bits.
fn decode_position(t: TokenTree, label: &str) -> (r: Result<u64, DecodeError>)
    ensures
        match r {
            Ok(n) => t@ == record(label@, seq![Tree::Int(n as int)]),
            Err(_) => forall|n: u64| t@ != record(label@, seq![Tree::Int(n as int)]),
        },
{
    let ghost tv = t@;
    assert forall|n: u64| #[trigger] record(label@, seq![Tree::Int(n as int)]) == tv implies is_record_with(tv, label@, 1) && fields_of(tv) == seq![Tree::Int(n as int)] by {
        lemma_record_shape(label@, seq![Tree::Int(n as int)]);
    }
    let mut fields = open_record(t, label, 1)?;
    let f = next_field(&mut fields);
    match as_u64(&f) {
        Some(n) => {
            assert(tv->Group_1 =~= seq![Tree::Symbol(label@)] + fields_of(tv));
            assert(fields_of(tv) =~= seq![Tree::Int(n as int)]);
            Ok(n)
        },
        None => Err(DecodeError { position: 1 }),
    }
}

fn position_record(label: &str, position: u64) -> (r: TokenTree)
    ensures
        r@ == record(label@, seq![Tree::Int(position as int)]),
{
    let mut fields: Vec<TokenTree> = Vec::new();
    fields.push(TokenTree::Int(position as i128));
    proof {
        lemma_trees_of(fields@);
        assert(trees_of(fields@) =~= seq![Tree::Int(position as int)]);
    }
    record_of(label, fields)
}

impl DescExport {
    pub fn to_tokens(&self) -> (r: TokenTree)
        ensures
            r@ == export_tree(*self),
    {
        position_record("desc:export", self.position)
    }

    pub fn decode(t: TokenTree) -> (r: Result<DescExport, DecodeError>)
        ensures
            match r {
                Ok(d) => export_tree(d) == t@,
                Err(_) => forall|d: DescExport| export_tree(d) != t@,
            },
    {
        let position = decode_position(t, "desc:export")?;
        Ok(DescExport { position })
    }
}

impl DescImportObject {
    pub fn to_tokens(&self) -> (r: TokenTree)
        ensures
            r@ == import_object_tree(*self),
    {
        position_record("desc:import-object", self.position)
    }
}

impl DescImportPromise {
    pub fn to_tokens(&self) -> (r: TokenTree)
        ensures
            r@ == import_promise_tree(*self),
    {
        position_record("desc:import-promise", self.position)
    }
}

impl DescImport {
    pub fn to_tokens(&self) -> (r: TokenTree)
        ensures
            r@ == import_tree(*self),
    {
        match self {
            DescImport::Object(o) => o.to_tokens(),
            DescImport::Promise(p) => p.to_tokens(),
        }
    }

    /// Reads an import: the record's label tells an object from a promise.
    pub fn decode(t: TokenTree) -> (r: Result<DescImport, DecodeError>)
        ensures
            match r {
                Ok(d) => import_tree(d) == t@,
                Err(_) => forall|d: DescImport| import_tree(d) != t@,
            },
    {
        let ghost tv = t@;
        proof {
            reveal_strlit("desc:import-object");
            reveal_strlit("desc:import-promise");
        }
        if is_labelled(&t, "desc:import-object") {
            let position = decode_position(t, "desc:import-object")?;
            Ok(DescImport::Object(DescImportObject { position }))
        } else {
            assert forall|d: DescImportObject| #[trigger] import_object_tree(d) != tv by {
                lemma_record_shape("desc:import-object"@, seq![Tree::Int(d.position as int)]);
            }
            let position = decode_position(t, "desc:import-promise")?;
            Ok(DescImport::Promise(DescImportPromise { position }))
        }
    }
}

/// Whether `t` is a record whose label is the symbol `label`.
fn is_labelled(t: &TokenTree, label: &str) -> (r: bool)
    ensures
        r <==> (t@ is Group && t@->Group_0 == Group::Record && t@->Group_1.len() > 0
            && t@->Group_1[0] == Tree::Symbol(label@)),
{
    match t {
        TokenTree::Group(g, items) => {
            proof {
                lemma_trees_of(items@);
            }
            if *g == Group::Record && items.len() > 0 {
                match &items[0] {
                    TokenTree::Symbol(s) => *s == label.to_owned(),
                    _ => false,
                }
            } else {
                false
            }
        },
        _ => false,
    }
}

/// A one-way delivery: the target's position and the arguments.
#[derive(Debug)]
pub struct OpDeliverOnly {
    pub to_desc: DescExport,
    pub args: Vec<TokenTree>,
}

/// A delivery that asks for an answer: the target, the arguments, an optional
/// answer position and the import through which to resolve it.
#[derive(Debug)]
pub struct OpDeliver {
    pub to_desc: DescExport,
    pub args: Vec<TokenTree>,
    pub answer_pos: Option<u64>,
    pub resolve_me_desc: DescImport,
}

/// An end to the session, with a reason.
#[derive(Clone, Debug, PartialEq, Eq)]
pub struct OpAbort {
    pub reason: String,
}

/// The operations that a session receives.
#[derive(Debug)]
pub enum Operation {
    DeliverOnly(OpDeliverOnly),
    Deliver(OpDeliver),
    Abort(OpAbort),
}

/// The model of a one-way delivery.
pub struct DeliverOnlyModel {
    pub to_desc: DescExport,
    pub args: Seq<Tree>,
}

/// The model of a delivery that asks for an answer.
pub struct DeliverModel {
    pub to_desc: DescExport,
    pub args: Seq<Tree>,
    pub answer_pos: Option<u64>,
    pub resolve_me_desc: DescImport,
}

/// The model of an operation.
pub enum OperationModel {
    DeliverOnly(DeliverOnlyModel),
    Deliver(DeliverModel),
    Abort(Seq<char>),
}

impl View for OpDeliverOnly {
    type V = DeliverOnlyModel;

    open spec fn view(&self) -> DeliverOnlyModel {
        DeliverOnlyModel { to_desc: self.to_desc, args: trees_of(self.args@) }
    }
}

impl View for OpDeliver {
    type V = DeliverModel;

    open spec fn view(&self) -> DeliverModel {
        DeliverModel {
            to_desc: self.to_desc,
            args: trees_of(self.args@),
            answer_pos: self.answer_pos,
            resolve_me_desc: self.resolve_me_desc,
        }
    }
}

impl View for OpAbort {
    type V = Seq<char>;

    open spec fn view(&self) -> Seq<char> {
        self.reason@
    }
}

impl View for Operation {
    type V = OperationModel;

    open spec fn view(&self) -> OperationModel {
        match self {
            Operation::DeliverOnly(d) => OperationModel::DeliverOnly(d@),
            Operation::Deliver(d) => OperationModel::Deliver(d@),
            Operation::Abort(a) => OperationModel::Abort(a@),
        }
    }
}

/// The token tree of a one-way delivery.
pub open spec fn deliver_only_tree(m: DeliverOnlyModel) -> Tree {
    record(
        "op:deliver-only"@,
        seq![export_tree(m.to_desc), Tree::Group(Group::List, m.args)],
    )
}

/// The token tree of a delivery that asks for an answer.
pub open spec fn deliver_tree(m: DeliverModel) -> Tree {
    record(
        "op:deliver"@,
        seq![
            export_tree(m.to_desc),
            Tree::Group(Group::List, m.args),
            answer_tree(m.answer_pos),
            import_tree(m.resolve_me_desc),
        ],
    )
}

/// The token tree of an abort with its reason.
pub open spec fn abort_tree(reason: Seq<char>) -> Tree {
    record("op:abort"@, seq![Tree::Str(reason)])
}

/// The token tree of an operation.
pub open spec fn operation_tree(m: OperationModel) -> Tree {
    match m {
        OperationModel::DeliverOnly(d) => deliver_only_tree(d),
        OperationModel::Deliver(d) => deliver_tree(d),
        OperationModel::Abort(r) => abort_tree(r),
    }
}

fn list_of(items: Vec<TokenTree>) -> (r: TokenTree)
    ensures
        r@ == Tree::Group(Group::List, trees_of(items@)),
{
    TokenTree::Group(Group::List, items)
}

fn as_list(t: TokenTree) -> (r: Option<Vec<TokenTree>>)
    ensures
        r is Some <==> (t@ is Group && t@->Group_0 == Group::List),
        r is Some ==> trees_of(r->Some_0@) == t@->Group_1,
{
    match t {
        TokenTree::Group(g, items) => {
            if g == Group::List {
                Some(items)
            } else {
                None
            }
        },
        _ => None,
    }
}

fn answer_to_tokens(a: Option<u64>) -> (r: TokenTree)
    ensures
        r@ == answer_tree(a),
{
    match a {
        Some(n) => TokenTree::Int(n as i128),
        None => TokenTree::Bool(false),
    }
}

fn decode_answer(t: &TokenTree) -> (r: Result<Option<u64>, DecodeError>)
    ensures
        match r {
            Ok(a) => answer_tree(a) == t@,
            Err(_) => forall|a: Option<u64>| answer_tree(a) != t@,
        },
{
    match t {
        TokenTree::Bool(b) => {
            if *b {
                Err(DecodeError { position: 0 })
            } else {
                Ok(None)
            }
        },
        _ => match as_u64(t) {
            Some(n) => Ok(Some(n)),
            None => Err(DecodeError { position: 0 }),
        },
    }
}

pub(crate) fn string_of(s: String) -> (r: TokenTree)
    ensures
        r@ == Tree::Str(s@),
{
    TokenTree::Str(s)
}

impl OpDeliverOnly {
    pub fn new(to_desc: DescExport, args: Vec<TokenTree>) -> (r: OpDeliverOnly)
        ensures
            r.to_desc == to_desc,
            r.args == args,
    {
        OpDeliverOnly { to_desc, args }
    }

    pub fn to_tokens(self) -> (r: TokenTree)
        ensures
            r@ == deliver_only_tree(self@),
    {
        let mut fields: Vec<TokenTree> = Vec::new();
        fields.push(self.to_desc.to_tokens());
        fields.push(list_of(self.args));
        proof {
            lemma_trees_of(fields@);
            assert(trees_of(fields@) =~= seq![export_tree(self.to_desc), Tree::Group(Group::List, self@.args)]);
        }
        record_of("op:deliver-only", fields)
    }

    pub fn decode(t: TokenTree) -> (r: Result<OpDeliverOnly, DecodeError>)
        ensures
            match r {
                Ok(d) => deliver_only_tree(d@) == t@,
                Err(_) => forall|m: DeliverOnlyModel| deliver_only_tree(m) != t@,
            },
    {
        let ghost tv = t@;
        assert forall|m: DeliverOnlyModel| #[trigger] deliver_only_tree(m) == tv implies
            is_record_with(tv, "op:deliver-only"@, 2)
            && fields_of(tv)[0] == export_tree(m.to_desc)
            && fields_of(tv)[1] == Tree::Group(Group::List, m.args) by {
            lemma_record_shape("op:deliver-only"@, seq![export_tree(m.to_desc), Tree::Group(Group::List, m.args)]);
        }
        let mut fields = open_record(t, "op:deliver-only", 2)?;
        let f0 = next_field(&mut fields);
        let f1 = next_field(&mut fields);
        let to_desc = match DescExport::decode(f0) {
            Ok(d) => d,
            Err(e) => {
                return Err(DecodeError { position: 1 });
            },
        };
        let args = match as_list(f1) {
            Some(a) => a,
            None => {
                return Err(DecodeError { position: 2 });
            },
        };
        let r = OpDeliverOnly { to_desc, args };
        proof {
            lemma_record_shape("op:deliver-only"@, seq![export_tree(to_desc), Tree::Group(Group::List, r@.args)]);
            assert(tv->Group_1 =~= seq![Tree::Symbol("op:deliver-only"@)] + fields_of(tv));
            assert(fields_of(tv) =~= seq![export_tree(to_desc), Tree::Group(Group::List, r@.args)]);
        }
        Ok(r)
    }
}

impl OpDeliver {
    pub fn new(
        to_desc: DescExport,
        args: Vec<TokenTree>,
        answer_pos: Option<u64>,
        resolve_me_desc: DescImport,
    ) -> (r: OpDeliver)
        ensures
            r.to_desc == to_desc,
            r.args == args,
            r.answer_pos == answer_pos,
            r.resolve_me_desc == resolve_me_desc,
    {
        OpDeliver { to_desc, args, answer_pos, resolve_me_desc }
    }

    pub fn to_tokens(self) -> (r: TokenTree)
        ensures
            r@ == deliver_tree(self@),
    {
        let mut fields: Vec<TokenTree> = Vec::new();
        fields.push(self.to_desc.to_tokens());
        fields.push(list_of(self.args));
        fields.push(answer_to_tokens(self.answer_pos));
        fields.push(self.resolve_me_desc.to_tokens());
        proof {
            lemma_trees_of(fields@);
            assert(trees_of(fields@) =~= seq![
                export_tree(self.to_desc),
                Tree::Group(Group::List, self@.args),
                answer_tree(self.answer_pos),
                import_tree(self.resolve_me_desc),
            ]);
        }
        record_of("op:deliver", fields)
    }

    pub fn decode(t: TokenTree) -> (r: Result<OpDeliver, DecodeError>)
        ensures
            match r {
                Ok(d) => deliver_tree(d@) == t@,
                Err(_) => forall|m: DeliverModel| deliver_tree(m) != t@,
            },
    {
        let ghost tv = t@;
        assert forall|m: DeliverModel| #[trigger] deliver_tree(m) == tv implies
            is_record_with(tv, "op:deliver"@, 4)
            && fields_of(tv)[0] == export_tree(m.to_desc)
            && fields_of(tv)[1] == Tree::Group(Group::List, m.args)
            && fields_of(tv)[2] == answer_tree(m.answer_pos)
            && fields_of(tv)[3] == import_tree(m.resolve_me_desc) by {
            lemma_record_shape("op:deliver"@, seq![
                export_tree(m.to_desc),
                Tree::Group(Group::List, m.args),
                answer_tree(m.answer_pos),
                import_tree(m.resolve_me_desc),
            ]);
        }
        let mut fields = open_record(t, "op:deliver", 4)?;
        let f0 = next_field(&mut fields);
        let f1 = next_field(&mut fields);
        let f2 = next_field(&mut fields);
        let f3 = next_field(&mut fields);
        let to_desc = match DescExport::decode(f0) {
            Ok(d) => d,
            Err(_) => {
                return Err(DecodeError { position: 1 });
            },
        };
        let args = match as_list(f1) {
            Some(a) => a,
            None => {
                return Err(DecodeError { position: 2 });
            },
        };
        let answer_pos = match decode_answer(&f2) {
            Ok(a) => a,
            Err(_) => {
                return Err(DecodeError { position: 3 });
            },
        };
        let resolve_me_desc = match DescImport::decode(f3) {
            Ok(d) => d,
            Err(_) => {
                return Err(DecodeError { position: 4 });
            },
        };
        let r = OpDeliver { to_desc, args, answer_pos, resolve_me_desc };
        proof {
            let fs = seq![
                export_tree(to_desc),
                Tree::Group(Group::List, r@.args),
                answer_tree(answer_pos),
                import_tree(resolve_me_desc),
            ];
            lemma_record_shape("op:deliver"@, fs);
            assert(tv->Group_1 =~= seq![Tree::Symbol("op:deliver"@)] + fields_of(tv));
            assert(fields_of(tv) =~= fs);
        }
        Ok(r)
    }
}

impl OpAbort {
    pub fn new(reason: String) -> (r: OpAbort)
        ensures
            r@ == reason@,
    {
        OpAbort { reason }
    }

    pub fn to_tokens(self) -> (r: TokenTree)
        ensures
            r@ == abort_tree(self@),
    {
        let mut fields: Vec<TokenTree> = Vec::new();
        fields.push(string_of(self.reason));
        proof {
            lemma_trees_of(fields@);
            assert(trees_of(fields@) =~= seq![Tree::Str(self@)]);
        }
        record_of("op:abort", fields)
    }

    pub fn decode(t: TokenTree) -> (r: Result<OpAbort, DecodeError>)
        ensures
            match r {
                Ok(a) => abort_tree(a@) == t@,
                Err(_) => forall|m: Seq<char>| abort_tree(m) != t@,
            },
    {
        let ghost tv = t@;
        assert forall|m: Seq<char>| #[trigger] abort_tree(m) == tv implies
            is_record_with(tv, "op:abort"@, 1) && fields_of(tv)[0] == Tree::Str(m) by {
            lemma_record_shape("op:abort"@, seq![Tree::Str(m)]);
        }
        let mut fields = open_record(t, "op:abort", 1)?;
        let f0 = next_field(&mut fields);
        match f0 {
            TokenTree::Str(reason) => {
                proof {
                    lemma_record_shape("op:abort"@, seq![Tree::Str(reason@)]);
                    assert(tv->Group_1 =~= seq![Tree::Symbol("op:abort"@)] + fields_of(tv));
                    assert(fields_of(tv) =~= seq![Tree::Str(reason@)]);
                }
                Ok(OpAbort { reason })
            },
            _ => Err(DecodeError { position: 1 }),
        }
    }
}

impl Operation {
    pub fn to_tokens(self) -> (r: TokenTree)
        ensures
            r@ == operation_tree(self@),
    {
        match self {
            Operation::DeliverOnly(d) => d.to_tokens(),
            Operation::Deliver(d) => d.to_tokens(),
            Operation::Abort(a) => a.to_tokens(),
        }
    }

    /// Reads an operation: the record's label picks the kind.
    pub fn decode(t: TokenTree) -> (r: Result<Operation, DecodeError>)
        ensures
            match r {
                Ok(op) => operation_tree(op@) == t@,
                Err(_) => forall|m: OperationModel| operation_tree(m) != t@,
            },
    {
        let ghost tv = t@;
        proof {
            reveal_strlit("op:deliver-only");
            reveal_strlit("op:deliver");
            reveal_strlit("op:abort");
            assert("op:deliver"@.len() != "op:abort"@.len());
            assert("op:deliver"@.len() != "op:deliver-only"@.len());
            assert("op:abort"@.len() != "op:deliver-only"@.len());
        }
        assert forall|m: OperationModel| #[trigger] operation_tree(m) == tv implies
            tv is Group && tv->Group_0 == Group::Record && tv->Group_1.len() > 0
            && tv->Group_1[0] == Tree::Symbol(match m {
                OperationModel::DeliverOnly(_) => "op:deliver-only"@,
                OperationModel::Deliver(_) => "op:deliver"@,
                OperationModel::Abort(_) => "op:abort"@,
            }) by {
            match m {
                OperationModel::DeliverOnly(d) => {
                    lemma_record_shape("op:deliver-only"@, seq![export_tree(d.to_desc), Tree::Group(Group::List, d.args)]);
                },
                OperationModel::Deliver(d) => {
                    lemma_record_shape("op:deliver"@, seq![
                        export_tree(d.to_desc),
                        Tree::Group(Group::List, d.args),
                        answer_tree(d.answer_pos),
                        import_tree(d.resolve_me_desc),
                    ]);
                },
                OperationModel::Abort(r) => {
                    lemma_record_shape("op:abort"@, seq![Tree::Str(r)]);
                },
            }
        }
        if is_labelled(&t, "op:deliver-only") {
            match OpDeliverOnly::decode(t) {
                Ok(d) => {
                    let op = Operation::DeliverOnly(d);
                    assert(operation_tree(op@) == tv);
                    Ok(op)
                },
                Err(e) => Err(e),
            }
        } else if is_labelled(&t, "op:deliver") {
            match OpDeliver::decode(t) {
                Ok(d) => {
                    let op = Operation::Deliver(d);
                    assert(operation_tree(op@) == tv);
                    Ok(op)
                },
                Err(e) => Err(e),
            }
        } else if is_labelled(&t, "op:abort") {
            match OpAbort::decode(t) {
                Ok(d) => {
                    let op = Operation::Abort(d);
                    assert(operation_tree(op@) == tv);
                    Ok(op)
                },
                Err(e) => Err(e),
            }
        } else {
            Err(DecodeError { position: 0 })
        }
    }
}

/// Reads a record whose one field is a byte string of the given length.
fn decode_bytes_record(t: TokenTree, label: &str, len: usize) -> (r: Result<Vec<u8>, DecodeError>)
    ensures
        match r {
            Ok(b) => t@ == record(label@, seq![Tree::Bytes(b@)]) && b@.len() == len,
            Err(_) => forall|b: Seq<u8>| b.len() == len ==> record(label@, seq![Tree::Bytes(b)]) != t@,
        },
{
    let ghost tv = t@;
    assert forall|b: Seq<u8>| #[trigger] record(label@, seq![Tree::Bytes(b)]) == tv implies
        is_record_with(tv, label@, 1) && fields_of(tv)[0] == Tree::Bytes(b) by {
        lemma_record_shape(label@, seq![Tree::Bytes(b)]);
    }
    let mut fields = open_record(t, label, 1)?;
    let f0 = next_field(&mut fields);
    match f0 {
        TokenTree::Bytes(b) => {
            if b.len() != len {
                return Err(DecodeError { position: 1 });
            }
            proof {
                lemma_record_shape(label@, seq![Tree::Bytes(b@)]);
                assert(tv->Group_1 =~= seq![Tree::Symbol(label@)] + fields_of(tv));
                assert(fields_of(tv) =~= seq![Tree::Bytes(b@)]);
            }
            Ok(b)
        },
        _ => Err(DecodeError { position: 1 }),
    }
}

fn bytes_record(label: &str, b: Vec<u8>) -> (r: TokenTree)
    ensures
        r@ == record(label@, seq![Tree::Bytes(b@)]),
{
    let mut fields: Vec<TokenTree> = Vec::new();
    fields.push(TokenTree::Bytes(b));
    proof {
        lemma_trees_of(fields@);
        assert(trees_of(fields@) =~= seq![Tree::Bytes(b@)]);
    }
    record_of(label, fields)
}

/// The length of an Ed25519 verifying key, in bytes.
pub const PUBLIC_KEY_LEN: usize = 32;

/// The length of an Ed25519 signature, in bytes.
pub const SIGNATURE_LEN: usize = 64;

/// An Ed25519 verifying key, as its 32 bytes.
#[derive(Clone, Debug, PartialEq, Eq)]
pub struct PublicKey {
    pub ecc: Vec<u8>,
}

/// An Ed25519 signature, as its 64 bytes.
#[derive(Clone, Debug, PartialEq, Eq)]
pub struct Signature {
    pub eddsa: Vec<u8>,
}

impl View for PublicKey {
    type V = Seq<u8>;

    open spec fn view(&self) -> Seq<u8> {
        self.ecc@
    }
}

impl View for Signature {
    type V = Seq<u8>;

    open spec fn view(&self) -> Seq<u8> {
        self.eddsa@
    }
}

/// The token tree of a verifying key.
pub open spec fn public_key_tree(k: Seq<u8>) -> Tree {
    record("public-key"@, seq![Tree::Bytes(k)])
}

/// The token tree of a signature.
pub open spec fn signature_tree(s: Seq<u8>) -> Tree {
    record("sig-val"@, seq![Tree::Bytes(s)])
}

impl PublicKey {
    pub fn to_tokens(self) -> (r: TokenTree)
        ensures
            r@ == public_key_tree(self@),
    {
        bytes_record("public-key", self.ecc)
    }

    pub fn decode(t: TokenTree) -> (r: Result<PublicKey, DecodeError>)
        ensures
            match r {
                Ok(k) => public_key_tree(k@) == t@ && k@.len() == PUBLIC_KEY_LEN,
                Err(_) => forall|k: Seq<u8>| k.len() == PUBLIC_KEY_LEN ==> public_key_tree(k) != t@,
            },
    {
        let ecc = decode_bytes_record(t, "public-key", PUBLIC_KEY_LEN)?;
        Ok(PublicKey { ecc })
    }
}

impl Signature {
    pub fn to_tokens(self) -> (r: TokenTree)
        ensures
            r@ == signature_tree(self@),
    {
        bytes_record("sig-val", self.eddsa)
    }

    pub fn decode(t: TokenTree) -> (r: Result<Signature, DecodeError>)
        ensures
            match r {
                Ok(s) => signature_tree(s@) == t@ && s@.len() == SIGNATURE_LEN,
                Err(_) => forall|s: Seq<u8>| s.len() == SIGNATURE_LEN ==> signature_tree(s) != t@,
            },
    {
        let eddsa = decode_bytes_record(t, "sig-val", SIGNATURE_LEN)?;
        Ok(Signature { eddsa })
    }
}

/// Distinct operations have distinct token trees.
pub proof fn lemma_operation_tree_injective(a: OperationModel, b: OperationModel)
    requires
        operation_tree(a) == operation_tree(b),
    ensures
        a == b,
{
    reveal_strlit("op:deliver-only");
    reveal_strlit("op:deliver");
    reveal_strlit("op:abort");
    reveal_strlit("desc:export");
    assert("op:deliver"@.len() != "op:abort"@.len());
    assert("op:deliver"@.len() != "op:deliver-only"@.len());
    assert("op:abort"@.len() != "op:deliver-only"@.len());
    let fa = operation_fields(a);
    let fb = operation_fields(b);
    lemma_record_shape(operation_label(a), fa);
    lemma_record_shape(operation_label(b), fb);
    assert(operation_tree(a) == record(operation_label(a), fa));
    assert(operation_tree(b) == record(operation_label(b), fb));
    assert(operation_label(a) == operation_label(b)) by {
        assert(record(operation_label(a), fa)->Group_1[0] == record(operation_label(b), fb)->Group_1[0]);
    }
    assert(fa == fb);
    match a {
        OperationModel::DeliverOnly(da) => {
            let db = b->DeliverOnly_0;
            lemma_export_tree_injective(da.to_desc, db.to_desc);
            assert(fa[1] == fb[1]);
        },
        OperationModel::Deliver(da) => {
            let db = b->Deliver_0;
            assert(fa[0] == fb[0]);
            assert(fa[1] == fb[1]);
            assert(fa[2] == fb[2]);
            assert(fa[3] == fb[3]);
            lemma_export_tree_injective(da.to_desc, db.to_desc);
            lemma_import_tree_injective(da.resolve_me_desc, db.resolve_me_desc);
        },
        OperationModel::Abort(ra) => {
            assert(fa[0] == fb[0]);
        },
    }
}

/// The label of an operation's record.
pub open spec fn operation_label(m: OperationModel) -> Seq<char> {
    match m {
        OperationModel::DeliverOnly(_) => "op:deliver-only"@,
        OperationModel::Deliver(_) => "op:deliver"@,
        OperationModel::Abort(_) => "op:abort"@,
    }
}

/// The fields of an operation's record.
pub open spec fn operation_fields(m: OperationModel) -> Seq<Tree> {
    match m {
        OperationModel::DeliverOnly(d) => seq![export_tree(d.to_desc), Tree::Group(Group::List, d.args)],
        OperationModel::Deliver(d) => seq![
            export_tree(d.to_desc),
            Tree::Group(Group::List, d.args),
            answer_tree(d.answer_pos),
            import_tree(d.resolve_me_desc),
        ],
        OperationModel::Abort(r) => seq![Tree::Str(r)],
    }
}

pub proof fn lemma_export_tree_injective(a: DescExport, b: DescExport)
    requires
        export_tree(a) == export_tree(b),
    ensures
        a == b,
{
    lemma_record_shape("desc:export"@, seq![Tree::Int(a.position as int)]);
    lemma_record_shape("desc:export"@, seq![Tree::Int(b.position as int)]);
    assert(fields_of(export_tree(a))[0] == fields_of(export_tree(b))[0]);
    assert(seq![Tree::Int(a.position as int)][0] == seq![Tree::Int(b.position as int)][0]);
    assert(a.position == b.position);
}

pub proof fn lemma_import_tree_injective(a: DescImport, b: DescImport)
    requires
        import_tree(a) == import_tree(b),
    ensures
        a == b,
{
    reveal_strlit("desc:import-object");
    reveal_strlit("desc:import-promise");
    let la = if a is Object { "desc:import-object"@ } else { "desc:import-promise"@ };
    let lb = if b is Object { "desc:import-object"@ } else { "desc:import-promise"@ };
    let fa = seq![Tree::Int(import_position(a) as int)];
    let fb = seq![Tree::Int(import_position(b) as int)];
    lemma_record_shape(la, fa);
    lemma_record_shape(lb, fb);
    assert(import_tree(a) == record(la, fa));
    assert(import_tree(b) == record(lb, fb));
    assert(record(la, fa)->Group_1[0] == record(lb, fb)->Group_1[0]);
    assert(fields_of(record(la, fa))[0] == fields_of(record(lb, fb))[0]);
    assert(fa[0] == fb[0]);
    assert(import_position(a) == import_position(b));
    assert("desc:import-object"@.len() != "desc:import-promise"@.len());
    assert(la == lb);
}

/// A record is well formed when its label is a short text and its fields
/// are well formed.
pub proof fn lemma_record_wf(label: Seq<char>, fields: Seq<Tree>)
    requires
        label.len() <= 64,
        forall|i: int| 0 <= i < fields.len() ==> #[trigger] wf(fields[i]),
    ensures
        wf(record(label, fields)),
{
    lemma_utf8_len_bound(label);
    let items = seq![Tree::Symbol(label)] + fields;
    assert forall|i: int| 0 <= i < items.len() implies #[trigger] wf(items[i]) by {
        if i > 0 {
            assert(items[i] == fields[i - 1]);
        }
    }
    lemma_wf_items(items);
}

/// An operation that the encoding can carry: well-formed arguments and a
/// reason of representable length.
pub open spec fn operation_valid(m: OperationModel) -> bool {
    match m {
        OperationModel::DeliverOnly(d) => wf_items(d.args),
        OperationModel::Deliver(d) => wf_items(d.args),
        OperationModel::Abort(r) => encode_utf8(r).len() <= 0xffff_ffff_ffff_ffff,
    }
}

pub proof fn lemma_export_wf(d: DescExport)
    ensures
        wf(export_tree(d)),
{
    reveal_strlit("desc:export");
    lemma_record_wf("desc:export"@, seq![Tree::Int(d.position as int)]);
}

pub proof fn lemma_import_wf(d: DescImport)
    ensures
        wf(import_tree(d)),
{
    reveal_strlit("desc:import-object");
    reveal_strlit("desc:import-promise");
    lemma_record_wf("desc:import-object"@, seq![Tree::Int(import_position(d) as int)]);
    lemma_record_wf("desc:import-promise"@, seq![Tree::Int(import_position(d) as int)]);
}

/// Every operation is read back from its encoding, whatever bytes follow it,
/// and decodes to itself: no other operation has the same token tree.
pub proof fn lemma_operation_round_trip(m: OperationModel, rest: Seq<u8>)
    requires
        operation_valid(m),
    ensures
        wf(operation_tree(m)),
        parse_value(enc(operation_tree(m)) + rest) == Lexed::Done(operation_tree(m), enc(operation_tree(m)).len()),
        forall|m2: OperationModel| #[trigger] operation_tree(m2) == operation_tree(m) ==> m2 == m,
{
    reveal_strlit("op:deliver-only");
    reveal_strlit("op:deliver");
    reveal_strlit("op:abort");
    match m {
        OperationModel::DeliverOnly(d) => {
            lemma_export_wf(d.to_desc);
            lemma_wf_items(d.args);
            let fs = seq![export_tree(d.to_desc), Tree::Group(Group::List, d.args)];
            assert forall|i: int| 0 <= i < fs.len() implies #[trigger] wf(fs[i]) by {}
            lemma_record_wf("op:deliver-only"@, fs);
        },
        OperationModel::Deliver(d) => {
            lemma_export_wf(d.to_desc);
            lemma_import_wf(d.resolve_me_desc);
            lemma_wf_items(d.args);
            let fs = seq![
                export_tree(d.to_desc),
                Tree::Group(Group::List, d.args),
                answer_tree(d.answer_pos),
                import_tree(d.resolve_me_desc),
            ];
            assert forall|i: int| 0 <= i < fs.len() implies #[trigger] wf(fs[i]) by {}
            lemma_record_wf("op:deliver"@, fs);
        },
        OperationModel::Abort(r) => {
            let fs = seq![Tree::Str(r)];
            assert forall|i: int| 0 <= i < fs.len() implies #[trigger] wf(fs[i]) by {}
            lemma_record_wf("op:abort"@, fs);
        },
    }
    lemma_parse_enc(operation_tree(m), rest);
    assert forall|m2: OperationModel| #[trigger] operation_tree(m2) == operation_tree(m) implies m2 == m by {
        lemma_operation_tree_injective(m2, m);
    }
}

} // verus!
