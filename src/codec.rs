//! The self-describing binary token encoding: a token tree model, its byte
//! encoding and a streaming tokenizer.
use vstd::prelude::*;
use vstd::utf8::*;

verus! {

/// The kind of a bracketed group of values.
#[derive(PartialEq, Eq, Clone, Copy, Debug, Structural)]
pub enum Group {
    /// `<label field ...>`: the first item is the label.
    Record,
    /// `[item ...]`
    List,
    /// `{key value ...}`: an even number of items, alternating keys and values.
    Dict,
    /// ``#item ...$`: an unordered collection
    Collection,
}

/// The mathematical model of a token tree.
pub enum Tree {
    Int(int),
    Bool(bool),
    /// The raw big-endian bytes of an IEEE float: four (single) or eight (double).
    Float(Seq<u8>),
    Bytes(Seq<u8>),
    Str(Seq<char>),
    Symbol(Seq<char>),
    Group(Group, Seq<Tree>),
}

/// A token tree: the universal value of the encoding.
#[derive(Debug)]
pub enum TokenTree {
    Int(i128),
    Bool(bool),
    Float(Vec<u8>),
    Bytes(Vec<u8>),
    Str(String),
    Symbol(String),
    Group(Group, Vec<TokenTree>),
}

/// The model of a token tree.
pub open spec fn tree_of(t: TokenTree) -> Tree
    decreases t,
{
    match t {
        TokenTree::Int(n) => Tree::Int(n as int),
        TokenTree::Bool(b) => Tree::Bool(b),
        TokenTree::Float(b) => Tree::Float(b@),
        TokenTree::Bytes(b) => Tree::Bytes(b@),
        TokenTree::Str(s) => Tree::Str(s@),
        TokenTree::Symbol(s) => Tree::Symbol(s@),
        TokenTree::Group(g, items) => Tree::Group(g, trees_of(items@)),
    }
}

/// The models of a sequence of token trees, item by item.
pub open spec fn trees_of(ts: Seq<TokenTree>) -> Seq<Tree>
    decreases ts,
{
    if ts.len() == 0 {
        Seq::empty()
    } else {
        seq![tree_of(ts[0])] + trees_of(ts.drop_first())
    }
}

impl View for TokenTree {
    type V = Tree;

    open spec fn view(&self) -> Tree {
        tree_of(*self)
    }
}

/// The byte that opens a group of the given kind.
pub open spec fn open_byte(g: Group) -> u8 {
    match g {
        Group::Record => 60,
        Group::List => 91,
        Group::Dict => 123,
        Group::Collection => 35,
    }
}

/// The byte that closes a group of the given kind.
pub open spec fn close_byte(g: Group) -> u8 {
    match g {
        Group::Record => 62,
        Group::List => 93,
        Group::Dict => 125,
        Group::Collection => 36,
    }
}

/// Whether a byte is an ASCII decimal digit.
pub open spec fn is_digit(b: u8) -> bool {
    48 <= b <= 57
}

/// The decimal digits of `n`, most significant first, without leading zeros.
pub open spec fn digits(n: nat) -> Seq<u8>
    decreases n,
{
    if n < 10 {
        seq![(n + 48) as u8]
    } else {
        digits(n / 10).push((n % 10 + 48) as u8)
    }
}

/// The number that a run of decimal digits denotes.
pub open spec fn digits_value(s: Seq<u8>) -> nat
    decreases s.len(),
{
    if s.len() == 0 {
        0
    } else {
        digits_value(s.drop_last()) * 10 + (s.last() - 48) as nat
    }
}

/// The number of decimal digits at the start of `s`.
pub open spec fn digit_run(s: Seq<u8>) -> nat
    decreases s.len(),
{
    if s.len() > 0 && is_digit(s[0]) {
        1 + digit_run(s.drop_first())
    } else {
        0
    }
}

/// The encoding of a token tree.
pub open spec fn enc(t: Tree) -> Seq<u8>
    decreases t,
{
    match t {
        Tree::Int(n) => if n >= 0 {
            digits(n as nat).push(43)
        } else {
            digits((-n) as nat).push(45)
        },
        Tree::Bool(b) => if b {
            seq![116u8]
        } else {
            seq![102u8]
        },
        Tree::Float(b) => if b.len() == 4 {
            seq![70u8] + b
        } else {
            seq![68u8] + b
        },
        Tree::Bytes(b) => digits(b.len()) + seq![58u8] + b,
        Tree::Str(cs) => digits(encode_utf8(cs).len()) + seq![34u8] + encode_utf8(cs),
        Tree::Symbol(cs) => digits(encode_utf8(cs).len()) + seq![39u8] + encode_utf8(cs),
        Tree::Group(g, items) => seq![open_byte(g)] + enc_items(items) + seq![close_byte(g)],
    }
}

/// The encodings of a sequence of token trees, one after the other.
pub open spec fn enc_items(items: Seq<Tree>) -> Seq<u8>
    decreases items,
{
    if items.len() == 0 {
        Seq::empty()
    } else {
        enc(items[0]) + enc_items(items.drop_first())
    }
}

/// A token tree that the encoding can carry: integers within 64 bits of
/// magnitude, floats of four or eight bytes, records with a label and
/// dictionaries of whole pairs.
pub open spec fn wf(t: Tree) -> bool
    decreases t,
{
    match t {
        Tree::Int(n) => -0xffff_ffff_ffff_ffff <= n <= 0xffff_ffff_ffff_ffff,
        Tree::Float(b) => b.len() == 4 || b.len() == 8,
        Tree::Bytes(b) => b.len() <= 0xffff_ffff_ffff_ffff,
        Tree::Str(cs) => encode_utf8(cs).len() <= 0xffff_ffff_ffff_ffff,
        Tree::Symbol(cs) => encode_utf8(cs).len() <= 0xffff_ffff_ffff_ffff,
        Tree::Group(g, items) => {
            &&& wf_items(items)
            &&& g == Group::Record ==> items.len() >= 1
            &&& g == Group::Dict ==> items.len() % 2 == 0
        },
        Tree::Bool(_) => true,
    }
}

/// Each of the trees is well formed.
pub open spec fn wf_items(items: Seq<Tree>) -> bool
    decreases items,
{
    items.len() == 0 || (wf(items[0]) && wf_items(items.drop_first()))
}

pub proof fn lemma_trees_of(ts: Seq<TokenTree>)
    ensures
        trees_of(ts).len() == ts.len(),
        forall|i: int| 0 <= i < ts.len() ==> #[trigger] trees_of(ts)[i] == ts[i]@,
    decreases ts.len(),
{
    if ts.len() > 0 {
        lemma_trees_of(ts.drop_first());
        assert forall|i: int| 0 <= i < ts.len() implies #[trigger] trees_of(ts)[i] == ts[i]@ by {
            if i > 0 {
                assert(ts.drop_first()[i - 1] == ts[i]);
            }
        }
    }
}

pub proof fn lemma_enc_items_append(a: Seq<Tree>, b: Seq<Tree>)
    ensures
        enc_items(a + b) == enc_items(a) + enc_items(b),
    decreases a.len(),
{
    if a.len() == 0 {
        assert(a + b =~= b);
    } else {
        lemma_enc_items_append(a.drop_first(), b);
        assert((a + b).drop_first() =~= a.drop_first() + b);
        assert(enc_items(a + b) =~= enc_items(a) + enc_items(b));
    }
}

proof fn lemma_enc_items_one(t: Tree)
    ensures
        enc_items(seq![t]) == enc(t),
{
    assert(seq![t].drop_first() =~= Seq::<Tree>::empty());
    assert(seq![t][0] == t);
    assert(enc_items(Seq::<Tree>::empty()) =~= Seq::<u8>::empty());
    assert(enc_items(seq![t]) =~= enc(t));
}

fn push_digits(n: u128, out: &mut Vec<u8>)
    ensures
        final(out)@ == old(out)@ + digits(n as nat),
    decreases n,
{
    if n >= 10 {
        push_digits(n / 10, out);
    }
    out.push((n % 10) as u8 + 48);
    proof {
        if n >= 10 {
            assert(digits(n as nat) == digits((n / 10) as nat).push((n % 10 + 48) as u8));
        }
    }
    assert(final(out)@ =~= old(out)@ + digits(n as nat));
}

fn push_slice(src: &[u8], out: &mut Vec<u8>)
    ensures
        final(out)@ == old(out)@ + src@,
{
    let mut i: usize = 0;
    while i < src.len()
        invariant
            i <= src.len(),
            out@ == old(out)@ + src@.take(i as int),
        decreases src.len() - i,
    {
        out.push(src[i]);
        i = i + 1;
        assert(out@ =~= old(out)@ + src@.take(i as int));
    }
    assert(src@.take(src.len() as int) =~= src@);
}

impl TokenTree {
    /// Appends the encoding of this tree to `out`.
    pub fn encode_into(&self, out: &mut Vec<u8>)
        ensures
            final(out)@ == old(out)@ + enc(self@),
        decreases self,
    {
        match self {
            TokenTree::Int(n) => {
                if *n >= 0 {
                    push_digits(*n as u128, out);
                    out.push(43);
                } else {
                    let m: u128 = ((-(*n + 1)) as u128) + 1;
                    push_digits(m, out);
                    out.push(45);
                }
            },
            TokenTree::Bool(b) => {
                if *b {
                    out.push(116);
                } else {
                    out.push(102);
                }
            },
            TokenTree::Float(b) => {
                if b.len() == 4 {
                    out.push(70);
                } else {
                    out.push(68);
                }
                push_slice(b.as_slice(), out);
            },
            TokenTree::Bytes(b) => {
                push_digits(b.len() as u128, out);
                out.push(58);
                push_slice(b.as_slice(), out);
            },
            TokenTree::Str(s) => {
                let bytes = s.as_str().as_bytes();
                push_digits(bytes.len() as u128, out);
                out.push(34);
                push_slice(bytes, out);
            },
            TokenTree::Symbol(s) => {
                let bytes = s.as_str().as_bytes();
                push_digits(bytes.len() as u128, out);
                out.push(39);
                push_slice(bytes, out);
            },
            TokenTree::Group(g, items) => {
                let open: u8 = match g {
                    Group::Record => 60,
                    Group::List => 91,
                    Group::Dict => 123,
                    Group::Collection => 35,
                };
                out.push(open);
                let ghost start = out@;
                proof {
                    lemma_trees_of(items@);
                }
                let mut i: usize = 0;
                while i < items.len()
                    invariant
                        i <= items.len(),
                        self is Group,
                        self->Group_1 == *items,
                        trees_of(items@).len() == items.len(),
                        forall|j: int| 0 <= j < items.len() ==> #[trigger] trees_of(items@)[j] == items@[j]@,
                        out@ == start + enc_items(trees_of(items@).take(i as int)),
                    decreases items.len() - i,
                {
                    proof {
                        vstd::std_specs::vec::axiom_vec_index_decreases(*items, i as int);
                        assert(decreases_to!(*self => self->Group_1));
                        assert(decreases_to!(*self => items[i as int]));
                    }
                    items[i].encode_into(out);
                    proof {
                        let ts = trees_of(items@);
                        assert(ts.take(i + 1) =~= ts.take(i as int) + seq![ts[i as int]]);
                        lemma_enc_items_append(ts.take(i as int), seq![ts[i as int]]);
                        lemma_enc_items_one(ts[i as int]);
                    }
                    i = i + 1;
                }
                let close: u8 = match g {
                    Group::Record => 62,
                    Group::List => 93,
                    Group::Dict => 125,
                    Group::Collection => 36,
                };
                out.push(close);
                assert(trees_of(items@).take(items.len() as int) =~= trees_of(items@));
            },
        }
        assert(final(out)@ =~= old(out)@ + enc(self@));
    }

    /// The encoding of this tree.
    pub fn encode(&self) -> (r: Vec<u8>)
        ensures
            r@ == enc(self@),
    {
        let mut out: Vec<u8> = Vec::new();
        self.encode_into(&mut out);
        assert(out@ =~= enc(self@));
        out
    }
}


/// The outcome of reading one value (or the rest of a group) from the start of
/// a byte sequence: the value and the number of bytes it took, or a need for
/// more bytes, or bytes that no continuation can make valid.
pub enum Lexed<T> {
    Done(T, nat),
    /// More bytes may complete the value; when known, how many at least.
    Incomplete(Option<nat>),
    Malformed,
}

/// An error of the tokenizer.
#[derive(PartialEq, Eq, Clone, Copy, Debug, Structural)]
pub enum LexError {
    /// The input ends inside a value: more bytes may complete it. When the
    /// value has a known length, the number of bytes still missing.
    Incomplete(Option<u64>),
    /// The input cannot start a valid encoding, whatever follows.
    Malformed,
}

/// The group that an opening byte starts, if any.
pub open spec fn group_opened_by(c: u8) -> Option<Group> {
    if c == 60 {
        Some(Group::Record)
    } else if c == 91 {
        Some(Group::List)
    } else if c == 123 {
        Some(Group::Dict)
    } else if c == 35 {
        Some(Group::Collection)
    } else {
        None
    }
}

/// `r`, with `acc` put before the items it found and `used` bytes added.
pub open spec fn prefixed(acc: Seq<Tree>, used: nat, r: Lexed<Seq<Tree>>) -> Lexed<Seq<Tree>> {
    match r {
        Lexed::Done(ts, m) => Lexed::Done(acc + ts, used + m),
        Lexed::Incomplete(x) => Lexed::Incomplete(x),
        Lexed::Malformed => Lexed::Malformed,
    }
}

/// Reading a value that starts with decimal digits: an integer or a
/// length-prefixed byte string, string or symbol.
pub open spec fn parse_prefixed(s: Seq<u8>) -> Lexed<Tree> {
    let k = digit_run(s);
    let v = digits_value(s.take(k as int));
    if k > 1 && s[0] == 48 {
        Lexed::Malformed
    } else if v > 0xffff_ffff_ffff_ffff {
        Lexed::Malformed
    } else if k == s.len() {
        Lexed::Incomplete(None)
    } else {
        let c = s[k as int];
        let end = k + 1 + v;
        if c == 43 {
            Lexed::Done(Tree::Int(v as int), k + 1)
        } else if c == 45 {
            if v == 0 {
                Lexed::Malformed
            } else {
                Lexed::Done(Tree::Int(-(v as int)), k + 1)
            }
        } else if c == 58 || c == 34 || c == 39 {
            if s.len() < end {
                Lexed::Incomplete(Some((end - s.len()) as nat))
            } else {
                let p = s.subrange(k + 1 as int, end as int);
                if c == 58 {
                    Lexed::Done(Tree::Bytes(p), end)
                } else if !valid_utf8(p) {
                    Lexed::Malformed
                } else if c == 34 {
                    Lexed::Done(Tree::Str(decode_utf8(p)), end)
                } else {
                    Lexed::Done(Tree::Symbol(decode_utf8(p)), end)
                }
            }
        } else {
            Lexed::Malformed
        }
    }
}

/// Reading one value from the start of `s`.
pub open spec fn parse_value(s: Seq<u8>) -> Lexed<Tree>
    decreases s.len(), 0nat,
{
    if s.len() == 0 {
        Lexed::Incomplete(None)
    } else {
        let c = s[0];
        if c == 116 {
            Lexed::Done(Tree::Bool(true), 1)
        } else if c == 102 {
            Lexed::Done(Tree::Bool(false), 1)
        } else if c == 70 || c == 68 {
            let w: nat = if c == 70 {
                4
            } else {
                8
            };
            if s.len() < w + 1 {
                Lexed::Incomplete(Some((w + 1 - s.len()) as nat))
            } else {
                Lexed::Done(Tree::Float(s.subrange(1, w + 1 as int)), w + 1)
            }
        } else if is_digit(c) {
            parse_prefixed(s)
        } else if let Some(g) = group_opened_by(c) {
            match parse_items(s.drop_first(), close_byte(g)) {
                Lexed::Done(items, n) => {
                    if g == Group::Record && items.len() == 0 {
                        Lexed::Malformed
                    } else if g == Group::Dict && items.len() % 2 != 0 {
                        Lexed::Malformed
                    } else {
                        Lexed::Done(Tree::Group(g, items), n + 1)
                    }
                },
                Lexed::Incomplete(x) => Lexed::Incomplete(x),
                Lexed::Malformed => Lexed::Malformed,
            }
        } else {
            Lexed::Malformed
        }
    }
}

/// Reading the items of a group up to and including its closing byte.
pub open spec fn parse_items(s: Seq<u8>, close: u8) -> Lexed<Seq<Tree>>
    decreases s.len(), 1nat,
{
    if s.len() == 0 {
        Lexed::Incomplete(None)
    } else if s[0] == close {
        Lexed::Done(Seq::empty(), 1)
    } else {
        match parse_value(s) {
            Lexed::Done(t, n) => if 0 < n <= s.len() {
                prefixed(seq![t], n, parse_items(s.skip(n as int), close))
            } else {
                Lexed::Malformed
            },
            Lexed::Incomplete(x) => Lexed::Incomplete(x),
            Lexed::Malformed => Lexed::Malformed,
        }
    }
}

/// The count of missing bytes that an executable error reports.
pub open spec fn needed_of(x: Option<nat>) -> Option<u64> {
    match x {
        Some(n) => Some(n as u64),
        None => None,
    }
}

/// An executable result agrees with a spec outcome read at `pos`.
pub open spec fn agrees<T, V>(r: Result<(T, usize), LexError>, l: Lexed<V>, pos: int, view: spec_fn(T) -> V) -> bool {
    match l {
        Lexed::Done(v, n) => r is Ok && view(r->Ok_0.0) == v && r->Ok_0.1 == pos + n,
        Lexed::Incomplete(x) => r == Err::<(T, usize), LexError>(LexError::Incomplete(needed_of(x))),
        Lexed::Malformed => r == Err::<(T, usize), LexError>(LexError::Malformed),
    }
}

/// Relies on `String::from_utf8`: it succeeds exactly on valid UTF-8, and the
/// string then holds the characters that the bytes encode.
#[verifier::external_body]
pub(crate) fn string_from_utf8(bytes: Vec<u8>) -> (r: Option<String>)
    ensures
        r is Some <==> valid_utf8(bytes@),
        r is Some ==> r->Some_0@ == decode_utf8(bytes@),
{
    String::from_utf8(bytes).ok()
}

pub(crate) fn copy_range(buf: &[u8], from: usize, to: usize) -> (r: Vec<u8>)
    requires
        from <= to <= buf.len(),
    ensures
        r@ == buf@.subrange(from as int, to as int),
{
    let mut out: Vec<u8> = Vec::new();
    let mut i: usize = from;
    while i < to
        invariant
            from <= i <= to <= buf.len(),
            out@ == buf@.subrange(from as int, i as int),
        decreases to - i,
    {
        out.push(buf[i]);
        i = i + 1;
        assert(out@ =~= buf@.subrange(from as int, i as int));
    }
    out
}

proof fn lemma_digit_run(s: Seq<u8>, k: nat)
    requires
        k <= s.len(),
        forall|j: int| 0 <= j < k ==> is_digit(#[trigger] s[j]),
        k == s.len() || !is_digit(s[k as int]),
    ensures
        digit_run(s) == k,
    decreases k,
{
    if k > 0 {
        lemma_digit_run(s.drop_first(), (k - 1) as nat);
    }
}

proof fn lemma_digits_value_monotone(s: Seq<u8>, a: nat, b: nat)
    requires
        a <= b <= s.len(),
    ensures
        digits_value(s.take(a as int)) <= digits_value(s.take(b as int)),
    decreases b,
{
    if a < b {
        lemma_digits_value_monotone(s, a, (b - 1) as nat);
        assert(s.take(b as int).drop_last() =~= s.take(b - 1));
        let x = digits_value(s.take(b - 1));
        assert(x <= x * 10) by (nonlinear_arith);
    }
}

fn lex_prefixed(buf: &[u8], pos: usize) -> (r: Result<(TokenTree, usize), LexError>)
    requires
        pos < buf.len(),
        is_digit(buf[pos as int]),
    ensures
        agrees(r, parse_prefixed(buf@.skip(pos as int)), pos as int, |t: TokenTree| t@),
        r is Ok ==> pos < r->Ok_0.1 <= buf.len(),
{
    let ghost s = buf@.skip(pos as int);
    let mut i: usize = pos;
    let mut v: u128 = 0;
    while i < buf.len() && buf[i] >= 48 && buf[i] <= 57
        invariant
            pos <= i <= buf.len(),
            s == buf@.skip(pos as int),
            forall|j: int| 0 <= j < i - pos ==> is_digit(#[trigger] s[j]),
            v == digits_value(s.take(i - pos)),
            v <= 0xffff_ffff_ffff_ffff,
        decreases buf.len() - i,
    {
        let nv: u128 = v * 10 + (buf[i] - 48) as u128;
        proof {
            assert(s.take(i + 1 - pos).drop_last() =~= s.take(i - pos));
        }
        if nv > 0xffff_ffff_ffff_ffff {
            proof {
                let k: nat = (i + 1 - pos) as nat;
                assert(forall|j: int| 0 <= j < k ==> is_digit(#[trigger] s[j]));
                // The whole run is at least as long, and its value at least as large.
                let run = digit_run(s);
                lemma_digit_run_at_least(s, k);
                lemma_digits_value_monotone(s, k, run);
            }
            return Err(LexError::Malformed);
        }
        v = nv;
        i = i + 1;
    }
    proof {
        lemma_digit_run(s, (i - pos) as nat);
    }
    let k: usize = i - pos;
    if k > 1 && buf[pos] == 48 {
        return Err(LexError::Malformed);
    }
    if i == buf.len() {
        return Err(LexError::Incomplete(None));
    }
    let c = buf[i];
    if c == 43 {
        Ok((TokenTree::Int(v as i128), i + 1))
    } else if c == 45 {
        if v == 0 {
            Err(LexError::Malformed)
        } else {
            Ok((TokenTree::Int(-(v as i128)), i + 1))
        }
    } else if c == 58 || c == 34 || c == 39 {
        let avail = (buf.len() - i - 1) as u128;
        if avail < v {
            return Err(LexError::Incomplete(Some((v - avail) as u64)));
        }
        let end: usize = i + 1 + v as usize;
        let payload = copy_range(buf, i + 1, end);
        assert(payload@ =~= s.subrange(k + 1, k + 1 + v));
        if c == 58 {
            Ok((TokenTree::Bytes(payload), end))
        } else {
            match string_from_utf8(payload) {
                None => Err(LexError::Malformed),
                Some(text) => {
                    if c == 34 {
                        Ok((TokenTree::Str(text), end))
                    } else {
                        Ok((TokenTree::Symbol(text), end))
                    }
                },
            }
        }
    } else {
        Err(LexError::Malformed)
    }
}

proof fn lemma_digit_run_at_least(s: Seq<u8>, k: nat)
    requires
        k <= s.len(),
        forall|j: int| 0 <= j < k ==> is_digit(#[trigger] s[j]),
    ensures
        k <= digit_run(s) <= s.len(),
    decreases k,
{
    if k > 0 {
        lemma_digit_run_at_least(s.drop_first(), (k - 1) as nat);
    } else {
        lemma_digit_run_le_len(s);
    }
}

proof fn lemma_digit_run_le_len(s: Seq<u8>)
    ensures
        digit_run(s) <= s.len(),
    decreases s.len(),
{
    if s.len() > 0 {
        lemma_digit_run_le_len(s.drop_first());
    }
}

fn lex_value(buf: &[u8], pos: usize) -> (r: Result<(TokenTree, usize), LexError>)
    requires
        pos <= buf.len(),
    ensures
        agrees(r, parse_value(buf@.skip(pos as int)), pos as int, |t: TokenTree| t@),
        r is Ok ==> pos < r->Ok_0.1 <= buf.len(),
    decreases buf.len() - pos, 0nat,
{
    let ghost s = buf@.skip(pos as int);
    if pos == buf.len() {
        return Err(LexError::Incomplete(None));
    }
    let c = buf[pos];
    if c == 116 {
        Ok((TokenTree::Bool(true), pos + 1))
    } else if c == 102 {
        Ok((TokenTree::Bool(false), pos + 1))
    } else if c == 70 || c == 68 {
        let w: usize = if c == 70 {
            4
        } else {
            8
        };
        if buf.len() - pos < w + 1 {
            return Err(LexError::Incomplete(Some((w + 1 - (buf.len() - pos)) as u64)));
        }
        let raw = copy_range(buf, pos + 1, pos + 1 + w);
        assert(raw@ =~= s.subrange(1, w + 1));
        Ok((TokenTree::Float(raw), pos + 1 + w))
    } else if c >= 48 && c <= 57 {
        lex_prefixed(buf, pos)
    } else {
        let group = if c == 60 {
            Group::Record
        } else if c == 91 {
            Group::List
        } else if c == 123 {
            Group::Dict
        } else if c == 35 {
            Group::Collection
        } else {
            return Err(LexError::Malformed);
        };
        let close: u8 = match group {
            Group::Record => 62,
            Group::List => 93,
            Group::Dict => 125,
            Group::Collection => 36,
        };
        assert(s.drop_first() =~= buf@.skip(pos + 1));
        match lex_items(buf, pos + 1, close) {
            Err(e) => Err(e),
            Ok((items, end)) => {
                proof {
                    lemma_trees_of(items@);
                }
                if group == Group::Record && items.len() == 0 {
                    Err(LexError::Malformed)
                } else if group == Group::Dict && items.len() % 2 != 0 {
                    Err(LexError::Malformed)
                } else {
                    Ok((TokenTree::Group(group, items), end))
                }
            },
        }
    }
}

proof fn lemma_prefixed_twice(acc: Seq<Tree>, used: nat, t: Tree, n: nat, r: Lexed<Seq<Tree>>)
    ensures
        prefixed(acc, used, prefixed(seq![t], n, r)) == prefixed(acc.push(t), used + n, r),
{
    match r {
        Lexed::Done(ts, m) => {
            assert(acc + (seq![t] + ts) =~= acc.push(t) + ts);
        },
        _ => {},
    }
}

fn lex_items(buf: &[u8], start: usize, close: u8) -> (r: Result<(Vec<TokenTree>, usize), LexError>)
    requires
        start <= buf.len(),
    ensures
        agrees(r, parse_items(buf@.skip(start as int), close), start as int, |v: Vec<TokenTree>| trees_of(v@)),
        r is Ok ==> start < r->Ok_0.1 <= buf.len(),
    decreases buf.len() - start, 1nat,
{
    let mut items: Vec<TokenTree> = Vec::new();
    let mut pos: usize = start;
    proof {
        assert(prefixed(Seq::empty(), 0, parse_items(buf@.skip(start as int), close)) =~= parse_items(buf@.skip(start as int), close)) by {
            match parse_items(buf@.skip(start as int), close) {
                Lexed::Done(ts, m) => { assert(Seq::<Tree>::empty() + ts =~= ts); },
                _ => {},
            }
        }
        lemma_trees_of(items@);
        assert(trees_of(items@) =~= Seq::<Tree>::empty());
    }
    loop
        invariant
            start <= pos <= buf.len(),
            parse_items(buf@.skip(start as int), close) == prefixed(trees_of(items@), (pos - start) as nat, parse_items(buf@.skip(pos as int), close)),
        decreases buf.len() - pos,
    {
        let ghost s = buf@.skip(pos as int);
        if pos == buf.len() {
            return Err(LexError::Incomplete(None));
        }
        if buf[pos] == close {
            proof {
                lemma_trees_of(items@);
                assert(trees_of(items@) + Seq::<Tree>::empty() =~= trees_of(items@));
            }
            return Ok((items, pos + 1));
        }
        match lex_value(buf, pos) {
            Err(e) => {
                return Err(e);
            },
            Ok((t, next)) => {
                proof {
                    let n = (next - pos) as nat;
                    assert(s.skip(n as int) =~= buf@.skip(next as int));
                    lemma_prefixed_twice(trees_of(items@), (pos - start) as nat, t@, n, parse_items(buf@.skip(next as int), close));
                    lemma_trees_of(items@);
                    lemma_trees_of(items@.push(t));
                    assert(trees_of(items@.push(t)) =~= trees_of(items@).push(t@));
                }
                items.push(t);
                pos = next;
            },
        }
    }
}

/// Reads one token tree from the start of `buf`, giving the tree and the
/// number of bytes it took. `Incomplete` means more bytes may complete the
/// value; `Malformed` means none can.
pub fn tokenize(buf: &[u8]) -> (r: Result<(TokenTree, usize), LexError>)
    ensures
        agrees(r, parse_value(buf@), 0, |t: TokenTree| t@),
        r is Ok ==> 0 < r->Ok_0.1 <= buf.len(),
        r is Ok ==> wf(r->Ok_0.0@) && buf@.take(r->Ok_0.1 as int) == enc(r->Ok_0.0@),
{
    proof {
        lemma_parse_sound(buf@);
    }
    assert(buf@.skip(0) =~= buf@);
    lex_value(buf, 0)
}

/// Whether a byte closes some group.
pub open spec fn is_close_byte(c: u8) -> bool {
    c == 62 || c == 93 || c == 125 || c == 36
}

proof fn lemma_digits(n: nat)
    ensures
        digits(n).len() >= 1,
        forall|i: int| 0 <= i < digits(n).len() ==> is_digit(#[trigger] digits(n)[i]),
        digits_value(digits(n)) == n,
        digits(n).len() > 1 ==> digits(n)[0] != 48,
        digits(n).len() > 1 <==> n >= 10,
    decreases n,
{
    if n < 10 {
        assert(digits(n).drop_last() =~= Seq::<u8>::empty());
        assert(digits_value(Seq::<u8>::empty()) == 0);
        assert(digits(n).last() == (n + 48) as u8);
    } else {
        lemma_digits(n / 10);
        let d = digits(n / 10);
        assert(digits(n) == d.push((n % 10 + 48) as u8));
        assert(digits(n).drop_last() =~= d);
        assert(digits(n).last() == (n % 10 + 48) as u8);
        assert((n / 10) * 10 + n % 10 == n);
        assert(digits(n)[0] == d[0]);
        if n / 10 < 10 {
            assert(d == seq![((n / 10) + 48) as u8]);
            assert(d[0] != 48);
        }
    }
}

pub proof fn lemma_enc_first_byte(t: Tree)
    ensures
        enc(t).len() >= 1,
        !is_close_byte(enc(t)[0]),
{
    match t {
        Tree::Int(n) => {
            if n >= 0 {
                lemma_digits(n as nat);
            } else {
                lemma_digits((-n) as nat);
            }
        },
        Tree::Bytes(b) => {
            lemma_digits(b.len());
        },
        Tree::Str(cs) => {
            lemma_digits(encode_utf8(cs).len());
        },
        Tree::Symbol(cs) => {
            lemma_digits(encode_utf8(cs).len());
        },
        _ => {},
    }
}

/// Reading a digit-prefixed value whose digits are those of `v`, followed by `c`.
proof fn lemma_prefixed_head(v: nat, c: u8, s: Seq<u8>)
    requires
        v <= 0xffff_ffff_ffff_ffff,
        !is_digit(c),
        s.len() > digits(v).len(),
        s.take(digits(v).len() as int) == digits(v),
        s[digits(v).len() as int] == c,
    ensures
        digit_run(s) == digits(v).len(),
        digits_value(s.take(digit_run(s) as int)) == v,
        !(digits(v).len() > 1 && s[0] == 48),
{
    lemma_digits(v);
    let k = digits(v).len();
    assert forall|j: int| 0 <= j < k implies is_digit(#[trigger] s[j]) by {
        assert(s.take(k as int)[j] == s[j]);
    }
    lemma_digit_run(s, k);
    assert(s.take(k as int)[0] == s[0]);
}

/// A strict prefix of the digits of `v` is read as incomplete.
proof fn lemma_digits_prefix(v: nat, s: Seq<u8>)
    requires
        v <= 0xffff_ffff_ffff_ffff,
        1 <= s.len() <= digits(v).len(),
        s == digits(v).take(s.len() as int),
    ensures
        parse_prefixed(s) is Incomplete,
{
    lemma_digits(v);
    let k = s.len();
    assert forall|j: int| 0 <= j < k implies is_digit(#[trigger] s[j]) by {
        assert(digits(v).take(k as int)[j] == digits(v)[j]);
    }
    lemma_digit_run(s, k);
    assert(s.take(k as int) =~= digits(v).take(k as int));
    lemma_digits_value_monotone(digits(v), k, digits(v).len());
    assert(digits(v).take(digits(v).len() as int) =~= digits(v));
    if k > 1 {
        assert(s[0] == digits(v)[0]);
    }
}

proof fn lemma_utf8_round_trip(cs: Seq<char>)
    ensures
        valid_utf8(encode_utf8(cs)),
        decode_utf8(encode_utf8(cs)) == cs,
{
    encode_utf8_valid_utf8(cs);
    encode_utf8_decode_utf8(cs);
}

/// The payload-carrying leaves: digits of the length, a tag byte, the payload.
proof fn lemma_parse_payload(p: Seq<u8>, tag: u8, rest: Seq<u8>)
    requires
        tag == 58 || tag == 34 || tag == 39,
        p.len() <= 0xffff_ffff_ffff_ffff,
    ensures
        ({
            let s = digits(p.len()) + seq![tag] + p + rest;
            let k = digits(p.len()).len();
            &&& digit_run(s) == k
            &&& digits_value(s.take(k as int)) == p.len()
            &&& !(k > 1 && s[0] == 48)
            &&& s[k as int] == tag
            &&& s.len() >= k + 1 + p.len()
            &&& s.subrange(k + 1 as int, k + 1 + p.len() as int) == p
        }),
{
    let s = digits(p.len()) + seq![tag] + p + rest;
    let k = digits(p.len()).len();
    assert(s.take(k as int) =~= digits(p.len()));
    lemma_prefixed_head(p.len(), tag, s);
    assert(s.subrange(k + 1 as int, k + 1 + p.len() as int) =~= p);
}

/// Every well-formed tree is read back from its encoding, whatever follows it.
pub proof fn lemma_parse_enc(t: Tree, rest: Seq<u8>)
    requires
        wf(t),
    ensures
        parse_value(enc(t) + rest) == Lexed::Done(t, enc(t).len()),
    decreases t,
{
    let s = enc(t) + rest;
    match t {
        Tree::Int(n) => {
            let v: nat = if n >= 0 { n as nat } else { (-n) as nat };
            let c: u8 = if n >= 0 { 43 } else { 45 };
            lemma_digits(v);
            assert(s.take(digits(v).len() as int) =~= digits(v));
            lemma_prefixed_head(v, c, s);
        },
        Tree::Bool(b) => {},
        Tree::Float(b) => {
            assert(s.subrange(1, b.len() + 1 as int) =~= b);
        },
        Tree::Bytes(b) => {
            lemma_parse_payload(b, 58, rest);
            assert(s =~= digits(b.len()) + seq![58u8] + b + rest);
            lemma_digits(b.len());
        },
        Tree::Str(cs) => {
            let p = encode_utf8(cs);
            lemma_parse_payload(p, 34, rest);
            lemma_utf8_round_trip(cs);
            assert(s =~= digits(p.len()) + seq![34u8] + p + rest);
            lemma_digits(p.len());
        },
        Tree::Symbol(cs) => {
            let p = encode_utf8(cs);
            lemma_parse_payload(p, 39, rest);
            lemma_utf8_round_trip(cs);
            assert(s =~= digits(p.len()) + seq![39u8] + p + rest);
            lemma_digits(p.len());
        },
        Tree::Group(g, items) => {
            lemma_parse_enc_items(items, g, rest);
            assert(s.drop_first() =~= enc_items(items) + seq![close_byte(g)] + rest);
        },
    }
}

/// The items of a group are read back from their encodings and the closing byte.
pub proof fn lemma_parse_enc_items(items: Seq<Tree>, g: Group, rest: Seq<u8>)
    requires
        wf_items(items),
    ensures
        parse_items(enc_items(items) + seq![close_byte(g)] + rest, close_byte(g))
            == Lexed::Done(items, enc_items(items).len() + 1),
    decreases items,
{
    let close = close_byte(g);
    let s = enc_items(items) + seq![close] + rest;
    if items.len() == 0 {
        assert(s[0] == close);
        assert(items =~= Seq::<Tree>::empty());
    } else {
        let t = items[0];
        let tail = items.drop_first();
        let after = enc_items(tail) + seq![close] + rest;
        assert(s =~= enc(t) + after);
        lemma_parse_enc(t, after);
        lemma_enc_first_byte(t);
        assert(s[0] == enc(t)[0]);
        assert(s.skip(enc(t).len() as int) =~= after);
        lemma_parse_enc_items(tail, g, rest);
        assert(seq![t] + tail =~= items);
    }
}

/// Every strict prefix of an encoding is read as incomplete.
pub proof fn lemma_parse_prefix(t: Tree, k: nat)
    requires
        wf(t),
        k < enc(t).len(),
    ensures
        parse_value(enc(t).take(k as int)) is Incomplete,
    decreases t,
{
    let s = enc(t).take(k as int);
    if k == 0 {
        return;
    }
    match t {
        Tree::Int(n) => {
            let v: nat = if n >= 0 { n as nat } else { (-n) as nat };
            lemma_digits(v);
            assert(s =~= digits(v).take(k as int));
            lemma_digits_prefix(v, s);
        },
        Tree::Bool(_) => {},
        Tree::Float(_) => {},
        Tree::Bytes(b) => {
            lemma_prefix_payload(b, 58, k);
        },
        Tree::Str(cs) => {
            lemma_prefix_payload(encode_utf8(cs), 34, k);
        },
        Tree::Symbol(cs) => {
            lemma_prefix_payload(encode_utf8(cs), 39, k);
        },
        Tree::Group(g, items) => {
            assert(s.drop_first() =~= (enc_items(items) + seq![close_byte(g)]).take(k - 1));
            lemma_parse_prefix_items(items, g, (k - 1) as nat);
        },
    }
}

proof fn lemma_prefix_payload(p: Seq<u8>, tag: u8, k: nat)
    requires
        tag == 58 || tag == 34 || tag == 39,
        p.len() <= 0xffff_ffff_ffff_ffff,
        1 <= k < (digits(p.len()) + seq![tag] + p).len(),
    ensures
        parse_value((digits(p.len()) + seq![tag] + p).take(k as int)) is Incomplete,
{
    let e = digits(p.len()) + seq![tag] + p;
    let s = e.take(k as int);
    let d = digits(p.len());
    lemma_digits(p.len());
    assert(s[0] == d[0]);
    if k <= d.len() {
        assert(s =~= d.take(k as int));
        lemma_digits_prefix(p.len(), s);
    } else {
        assert(s.take(d.len() as int) =~= d);
        assert(s[d.len() as int] == tag);
        lemma_prefixed_head(p.len(), tag, s);
    }
}

/// Every strict prefix of the encoded items of a group with its closing byte
/// is read as incomplete.
pub proof fn lemma_parse_prefix_items(items: Seq<Tree>, g: Group, k: nat)
    requires
        wf_items(items),
        k < enc_items(items).len() + 1,
    ensures
        parse_items((enc_items(items) + seq![close_byte(g)]).take(k as int), close_byte(g)) is Incomplete,
    decreases items,
{
    let close = close_byte(g);
    let s = (enc_items(items) + seq![close]).take(k as int);
    if k == 0 || items.len() == 0 {
        return;
    }
    let t = items[0];
    let tail = items.drop_first();
    let e = enc(t);
    lemma_enc_first_byte(t);
    assert(s[0] == e[0]);
    if k < e.len() {
        assert(s =~= e.take(k as int));
        lemma_parse_prefix(t, k);
    } else {
        let after = (enc_items(tail) + seq![close]).take(k - e.len());
        assert(s =~= e + after);
        lemma_parse_enc(t, after);
        assert(s.skip(e.len() as int) =~= after);
        lemma_parse_prefix_items(tail, g, (k - e.len()) as nat);
    }
}

/// The UTF-8 encoding of a text takes at most four bytes a character.
pub proof fn lemma_utf8_len_bound(cs: Seq<char>)
    ensures
        encode_utf8(cs).len() <= 4 * cs.len(),
    decreases cs.len(),
{
    if cs.len() > 0 {
        lemma_utf8_len_bound(cs.drop_first());
        assert(encode_scalar(cs[0] as u32).len() <= 4);
        assert(encode_utf8(cs) == encode_scalar(cs[0] as u32) + encode_utf8(cs.drop_first()));
    } else {
        assert(encode_utf8(cs) == Seq::<u8>::empty());
    }
}

/// A sequence of trees is well formed when each of them is.
pub proof fn lemma_wf_items(items: Seq<Tree>)
    ensures
        wf_items(items) <==> forall|i: int| 0 <= i < items.len() ==> #[trigger] wf(items[i]),
    decreases items.len(),
{
    if items.len() > 0 {
        lemma_wf_items(items.drop_first());
        if forall|i: int| 0 <= i < items.len() ==> #[trigger] wf(items[i]) {
            assert forall|i: int| 0 <= i < items.drop_first().len() implies #[trigger] wf(items.drop_first()[i]) by {
                assert(wf(items[i + 1]));
            }
            assert(wf_items(items.drop_first()));
            assert(wf(items[0]));
            assert(wf_items(items));
        }
        if wf_items(items) {
            assert forall|i: int| 0 <= i < items.len() implies #[trigger] wf(items[i]) by {
                if i > 0 {
                    assert(wf(items.drop_first()[i - 1]));
                }
            }
        }
    }
}

proof fn lemma_digits_value_positive(x: Seq<u8>)
    requires
        x.len() >= 1,
        forall|i: int| 0 <= i < x.len() ==> is_digit(#[trigger] x[i]),
        x[0] != 48,
    ensures
        digits_value(x) >= 1,
    decreases x.len(),
{
    if x.len() > 1 {
        assert(x.drop_last()[0] == x[0]);
        assert forall|i: int| 0 <= i < x.drop_last().len() implies is_digit(#[trigger] x.drop_last()[i]) by {
            assert(x.drop_last()[i] == x[i]);
        }
        lemma_digits_value_positive(x.drop_last());
    } else {
        assert(x.drop_last() =~= Seq::<u8>::empty());
        assert(x.last() == x[0]);
    }
}

/// A run of digits without leading zeros is the decimal form of its value.
proof fn lemma_digits_canonical(x: Seq<u8>)
    requires
        x.len() >= 1,
        forall|i: int| 0 <= i < x.len() ==> is_digit(#[trigger] x[i]),
        x.len() > 1 ==> x[0] != 48,
    ensures
        digits(digits_value(x)) == x,
    decreases x.len(),
{
    let v = digits_value(x);
    let d = (x.last() - 48) as nat;
    if x.len() == 1 {
        assert(x.drop_last() =~= Seq::<u8>::empty());
        assert(digits_value(Seq::<u8>::empty()) == 0);
        assert(v == d);
        assert(x.last() == x[0]);
        assert(digits(v) =~= x);
    } else {
        let y = x.drop_last();
        assert(y[0] == x[0]);
        assert forall|i: int| 0 <= i < y.len() implies is_digit(#[trigger] y[i]) by {
            assert(y[i] == x[i]);
        }
        lemma_digits_value_positive(y);
        lemma_digits_canonical(y);
        assert(is_digit(x[x.len() - 1]));
        assert(v == digits_value(y) * 10 + d);
        assert(v / 10 == digits_value(y) && v % 10 == d) by (nonlinear_arith)
            requires
                v == digits_value(y) * 10 + d,
                d < 10,
        ;
        assert(digits(v) == digits(v / 10).push((v % 10 + 48) as u8));
        assert(x =~= y.push(x.last()));
    }
}

/// Whatever is read from the front of a byte sequence is a well-formed tree,
/// and the bytes it took are exactly its encoding.
pub proof fn lemma_parse_sound(s: Seq<u8>)
    ensures
        match parse_value(s) {
            Lexed::Done(t, n) => wf(t) && n <= s.len() && s.take(n as int) == enc(t),
            _ => true,
        },
    decreases s.len(), 0nat,
{
    if s.len() == 0 {
        return;
    }
    let c = s[0];
    if c == 116 || c == 102 {
        assert(s.take(1) =~= seq![c]);
    } else if c == 70 || c == 68 {
        let w: nat = if c == 70 { 4 } else { 8 };
        if s.len() >= w + 1 {
            assert(s.take(w + 1 as int) =~= seq![c] + s.subrange(1, w + 1 as int));
        }
    } else if is_digit(c) {
        lemma_parse_prefixed_sound(s);
    } else if let Some(g) = group_opened_by(c) {
        lemma_parse_items_sound(s.drop_first(), g);
        match parse_items(s.drop_first(), close_byte(g)) {
            Lexed::Done(items, n) => {
                assert(open_byte(g) == c);
                assert(s.take(n + 1 as int) =~= seq![c] + s.drop_first().take(n as int));
            },
            _ => {},
        }
    }
}

proof fn lemma_parse_prefixed_sound(s: Seq<u8>)
    requires
        s.len() > 0,
        is_digit(s[0]),
    ensures
        match parse_prefixed(s) {
            Lexed::Done(t, n) => wf(t) && n <= s.len() && s.take(n as int) == enc(t),
            _ => true,
        },
{
    let k = digit_run(s);
    let v = digits_value(s.take(k as int));
    lemma_digit_run_le_len(s);
    lemma_digit_run_digits(s);
    if k > 1 && s[0] == 48 || v > 0xffff_ffff_ffff_ffff || k == s.len() {
        return;
    }
    let x = s.take(k as int);
    assert(k >= 1) by {
        if k == 0 {
            lemma_digit_run_at_least(s, 1);
        }
    }
    assert forall|i: int| 0 <= i < x.len() implies is_digit(#[trigger] x[i]) by {
        assert(x[i] == s[i]);
    }
    assert(x[0] == s[0]);
    lemma_digits_canonical(x);
    let c = s[k as int];
    if c == 43 || c == 45 {
        assert(s.take(k + 1 as int) =~= x.push(c));
    } else if c == 58 || c == 34 || c == 39 {
        let end = k + 1 + v;
        if s.len() >= end {
            let p = s.subrange(k + 1 as int, end as int);
            assert(s.take(end as int) =~= x + seq![c] + p);
            if c != 58 && valid_utf8(p) {
                decode_utf8_encode_utf8(p);
            }
        }
    }
}

proof fn lemma_digit_run_digits(s: Seq<u8>)
    ensures
        forall|i: int| 0 <= i < digit_run(s) ==> is_digit(#[trigger] s[i]),
    decreases s.len(),
{
    if s.len() > 0 && is_digit(s[0]) {
        lemma_digit_run_digits(s.drop_first());
        lemma_digit_run_le_len(s);
        assert forall|i: int| 0 <= i < digit_run(s) implies is_digit(#[trigger] s[i]) by {
            if i > 0 {
                assert(s[i] == s.drop_first()[i - 1]);
            }
        }
    }
}

proof fn lemma_parse_items_sound(s: Seq<u8>, g: Group)
    ensures
        match parse_items(s, close_byte(g)) {
            Lexed::Done(ts, n) => wf_items(ts) && n <= s.len() && s.take(n as int) == enc_items(ts) + seq![close_byte(g)],
            _ => true,
        },
    decreases s.len(), 1nat,
{
    let close = close_byte(g);
    if s.len() == 0 {
        return;
    }
    if s[0] == close {
        assert(s.take(1) =~= enc_items(Seq::<Tree>::empty()) + seq![close]);
        return;
    }
    lemma_parse_sound(s);
    match parse_value(s) {
        Lexed::Done(t, n) => {
            if 0 < n <= s.len() {
                lemma_parse_items_sound(s.skip(n as int), g);
                match parse_items(s.skip(n as int), close) {
                    Lexed::Done(ts, m) => {
                        let all = seq![t] + ts;
                        assert(all[0] == t);
                        assert(all.drop_first() =~= ts);
                        assert(s.take(n + m as int) =~= s.take(n as int) + s.skip(n as int).take(m as int));
                        assert(enc_items(all) == enc(t) + enc_items(ts));
                        assert(s.take(n + m as int) =~= enc_items(all) + seq![close]);
                    },
                    _ => {},
                }
            }
        },
        _ => {},
    }
}

} // verus!
