//! Node locators: where a peer can be reached, as a record of the encoding.
use vstd::prelude::*;
use crate::codec::{lemma_trees_of, lemma_wf_items, trees_of, wf, Group, TokenTree, Tree};
use vstd::utf8::encode_utf8;
use crate::msg::{
    fields_of, is_record_with, lemma_record_shape, lemma_record_wf, next_field, open_record,
    record, record_of, string_of, DecodeError,
};

verus! {

/// An identifier for a node: a designator within a transport's namespace, and
/// hints (such as a port) as key and value pairs in order.
#[derive(Clone, Debug, PartialEq, Eq)]
pub struct NodeLocator {
    pub designator: String,
    pub transport: String,
    pub hints: Vec<(String, String)>,
}

/// The model of a node locator.
pub struct LocatorModel {
    pub designator: Seq<char>,
    pub transport: Seq<char>,
    pub hints: Seq<(Seq<char>, Seq<char>)>,
}

impl View for NodeLocator {
    type V = LocatorModel;

    open spec fn view(&self) -> LocatorModel {
        LocatorModel {
            designator: self.designator@,
            transport: self.transport@,
            hints: self.hints@.map_values(|p: (String, String)| (p.0@, p.1@)),
        }
    }
}

/// The items of the hints dictionary: each key as a symbol, then its value as
/// a string.
pub open spec fn hint_items(h: Seq<(Seq<char>, Seq<char>)>) -> Seq<Tree> {
    Seq::new(
        2 * h.len(),
        |i: int|
            if i % 2 == 0 {
                Tree::Symbol(h[i / 2].0)
            } else {
                Tree::Str(h[i / 2].1)
            },
    )
}

/// The hints field: `false` when there are none.
pub open spec fn hints_tree(h: Seq<(Seq<char>, Seq<char>)>) -> Tree {
    if h.len() == 0 {
        Tree::Bool(false)
    } else {
        Tree::Group(Group::Dict, hint_items(h))
    }
}

/// The token tree of a node locator.
pub open spec fn locator_tree(m: LocatorModel) -> Tree {
    record(
        "ocapn-node"@,
        seq![Tree::Str(m.designator), Tree::Symbol(m.transport), hints_tree(m.hints)],
    )
}

fn hints_to_tokens(hints: &Vec<(String, String)>) -> (r: TokenTree)
    ensures
        r@ == hints_tree(hints@.map_values(|p: (String, String)| (p.0@, p.1@))),
{
    let ghost h = hints@.map_values(|p: (String, String)| (p.0@, p.1@));
    if hints.len() == 0 {
        return TokenTree::Bool(false);
    }
    let mut items: Vec<TokenTree> = Vec::new();
    let mut i: usize = 0;
    while i < hints.len()
        invariant
            i <= hints.len(),
            h.len() == hints.len(),
            h == hints@.map_values(|p: (String, String)| (p.0@, p.1@)),
            items.len() == 2 * i,
            forall|j: int| 0 <= j < 2 * i ==> #[trigger] items@[j]@ == hint_items(h)[j],
        decreases hints.len() - i,
    {
        let key = hints[i].0.clone();
        let value = hints[i].1.clone();
        items.push(TokenTree::Symbol(key));
        items.push(TokenTree::Str(value));
        i = i + 1;
    }
    proof {
        lemma_trees_of(items@);
        assert(trees_of(items@) =~= hint_items(h));
    }
    TokenTree::Group(Group::Dict, items)
}

/// Each hint's key is there once.
pub open spec fn hint_keys_unique(h: Seq<(Seq<char>, Seq<char>)>) -> bool {
    forall|i: int, j: int| 0 <= i < h.len() && 0 <= j < h.len() && i != j ==> #[trigger] h[i].0 != #[trigger] h[j].0
}

/// The position of a key among the hints, if it is there.
fn find_key(h: &Vec<(String, String)>, key: &String) -> (r: Option<usize>)
    ensures
        match r {
            Some(i) => i < h@.len() && h@[i as int].0@ == key@,
            None => forall|i: int| 0 <= i < h@.len() ==> h@[i].0@ != key@,
        },
{
    let mut i: usize = 0;
    while i < h.len()
        invariant
            i <= h@.len(),
            forall|j: int| 0 <= j < i ==> h@[j].0@ != key@,
        decreases h.len() - i,
    {
        if h[i].0 == *key {
            return Some(i);
        }
        i = i + 1;
    }
    None
}

fn decode_hints(t: TokenTree) -> (r: Result<Vec<(String, String)>, DecodeError>)
    ensures
        match r {
            Ok(h) => hints_tree(h@.map_values(|p: (String, String)| (p.0@, p.1@))) == t@
                && hint_keys_unique(h@.map_values(|p: (String, String)| (p.0@, p.1@))),
            Err(_) => forall|h: Seq<(Seq<char>, Seq<char>)>| hint_keys_unique(h) ==> hints_tree(h) != t@,
        },
{
    let ghost tv = t@;
    match t {
        TokenTree::Bool(b) => {
            if b {
                return Err(DecodeError { position: 3 });
            }
            let out: Vec<(String, String)> = Vec::new();
            assert(out@.map_values(|p: (String, String)| (p.0@, p.1@)) =~= Seq::<(Seq<char>, Seq<char>)>::empty());
            assert(hint_keys_unique(out@.map_values(|p: (String, String)| (p.0@, p.1@))));
            Ok(out)
        },
        TokenTree::Group(g, items) => {
            proof {
                lemma_trees_of(items@);
            }
            let ghost all = trees_of(items@);
            if g != Group::Dict || items.len() == 0 || items.len() % 2 != 0 {
                assert forall|h: Seq<(Seq<char>, Seq<char>)>| hints_tree(h) != tv by {
                    if h.len() != 0 {
                        assert(hint_items(h).len() == 2 * h.len());
                    }
                }
                return Err(DecodeError { position: 3 });
            }
            let mut items = items;
            let mut out: Vec<(String, String)> = Vec::new();
            let n = items.len();
            while items.len() > 0
                invariant
                    tv == t@,
                    tv == Tree::Group(Group::Dict, all),
                    n == all.len(),
                    n % 2 == 0,
                    items.len() % 2 == 0,
                    items.len() <= n,
                    out.len() * 2 + items.len() == n,
                    trees_of(items@) == all.skip(n - items.len()),
                    forall|j: int| 0 <= j < 2 * out.len() ==> #[trigger] all[j] == hint_items(out@.map_values(|p: (String, String)| (p.0@, p.1@)))[j],
                    hint_keys_unique(out@.map_values(|p: (String, String)| (p.0@, p.1@))),
                decreases items.len(),
            {
                proof {
                    lemma_trees_of(items@);
                }
                let ghost base = (n - items.len()) as int;
                let ghost t0 = trees_of(items@);
                let k = next_field(&mut items);
                proof {
                    lemma_trees_of(items@);
                }
                let v = next_field(&mut items);
                proof {
                    lemma_trees_of(items@);
                    assert(t0 == all.skip(base));
                }
                assert(k@ == all[base]);
                assert(v@ == all[base + 1]);
                match (k, v) {
                    (TokenTree::Symbol(key), TokenTree::Str(value)) => {
                        let ghost before = out@;
                        let ghost hb0 = before.map_values(|p: (String, String)| (p.0@, p.1@));
                        match find_key(&out, &key) {
                            Some(d) => {
                                proof {
                                    assert forall|h: Seq<(Seq<char>, Seq<char>)>| hint_keys_unique(h) implies hints_tree(h) != tv by {
                                        if hints_tree(h) == tv {
                                            assert(hint_items(h) == all);
                                            assert(all[base] == hint_items(h)[base]);
                                            assert(all[2 * d] == hint_items(h)[2 * d]);
                                            assert(all[2 * d] == hint_items(hb0)[2 * d]);
                                            assert(h[d as int].0 == h[base / 2].0);
                                        }
                                    }
                                }
                                return Err(DecodeError { position: 3 });
                            },
                            None => {},
                        }
                        out.push((key, value));
                        proof {
                            let hm = out@.map_values(|p: (String, String)| (p.0@, p.1@));
                            let hb = before.map_values(|p: (String, String)| (p.0@, p.1@));
                            assert forall|j: int| 0 <= j < 2 * out.len() implies #[trigger] all[j] == hint_items(hm)[j] by {
                                if j < 2 * before.len() {
                                    assert(hm[j / 2] == hb[j / 2]);
                                    assert(all[j] == hint_items(hb)[j]);
                                } else {
                                    assert(hm[j / 2] == (key@, value@));
                                }
                            }
                            assert(t0.drop_first().drop_first() =~= all.skip(n - items.len()));
                            assert forall|i: int, j: int| 0 <= i < hm.len() && 0 <= j < hm.len() && i != j implies #[trigger] hm[i].0 != #[trigger] hm[j].0 by {
                                if i < hb.len() && j < hb.len() {
                                    assert(hm[i] == hb[i] && hm[j] == hb[j]);
                                } else if i < hb.len() {
                                    assert(hm[i] == hb[i]);
                                } else if j < hb.len() {
                                    assert(hm[j] == hb[j]);
                                }
                            }
                        }
                    },
                    _ => {
                        proof {
                            assert forall|h: Seq<(Seq<char>, Seq<char>)>| hint_keys_unique(h) implies hints_tree(h) != tv by {
                                if hints_tree(h) == tv {
                                    assert(hint_items(h) == all);
                                    assert(all[base] == hint_items(h)[base]);
                                    assert(all[base + 1] == hint_items(h)[base + 1]);
                                }
                            }
                        }
                        return Err(DecodeError { position: 3 });
                    },
                }
            }
            proof {
                let hm = out@.map_values(|p: (String, String)| (p.0@, p.1@));
                assert(hint_items(hm) =~= all);
            }
            Ok(out)
        },
        _ => Err(DecodeError { position: 3 }),
    }
}

impl NodeLocator {
    /// A locator with no hints.
    pub fn new(designator: String, transport: String) -> (r: NodeLocator)
        ensures
            r@.designator == designator@,
            r@.transport == transport@,
            r@.hints.len() == 0,
    {
        NodeLocator { designator, transport, hints: Vec::new() }
    }

    pub fn to_tokens(&self) -> (r: TokenTree)
        ensures
            r@ == locator_tree(self@),
    {
        let mut fields: Vec<TokenTree> = Vec::new();
        fields.push(string_of(self.designator.clone()));
        fields.push(TokenTree::Symbol(self.transport.clone()));
        fields.push(hints_to_tokens(&self.hints));
        proof {
            lemma_trees_of(fields@);
            assert(trees_of(fields@) =~= seq![
                Tree::Str(self@.designator),
                Tree::Symbol(self@.transport),
                hints_tree(self@.hints),
            ]);
        }
        record_of("ocapn-node", fields)
    }

    pub fn decode(t: TokenTree) -> (r: Result<NodeLocator, DecodeError>)
        ensures
            match r {
                Ok(l) => locator_tree(l@) == t@ && hint_keys_unique(l@.hints),
                Err(_) => forall|m: LocatorModel| hint_keys_unique(m.hints) ==> locator_tree(m) != t@,
            },
    {
        let ghost tv = t@;
        assert forall|m: LocatorModel| #[trigger] locator_tree(m) == tv implies
            is_record_with(tv, "ocapn-node"@, 3)
            && fields_of(tv)[0] == Tree::Str(m.designator)
            && fields_of(tv)[1] == Tree::Symbol(m.transport)
            && fields_of(tv)[2] == hints_tree(m.hints) by {
            lemma_record_shape("ocapn-node"@, seq![Tree::Str(m.designator), Tree::Symbol(m.transport), hints_tree(m.hints)]);
        }
        let mut fields = open_record(t, "ocapn-node", 3)?;
        let f0 = next_field(&mut fields);
        let f1 = next_field(&mut fields);
        let f2 = next_field(&mut fields);
        let designator = match f0 {
            TokenTree::Str(s) => s,
            _ => {
                return Err(DecodeError { position: 1 });
            },
        };
        let transport = match f1 {
            TokenTree::Symbol(s) => s,
            _ => {
                return Err(DecodeError { position: 2 });
            },
        };
        let hints = decode_hints(f2)?;
        let r = NodeLocator { designator, transport, hints };
        proof {
            let fs = seq![Tree::Str(r@.designator), Tree::Symbol(r@.transport), hints_tree(r@.hints)];
            lemma_record_shape("ocapn-node"@, fs);
            assert(tv->Group_1 =~= seq![Tree::Symbol("ocapn-node"@)] + fields_of(tv));
            assert(fields_of(tv) =~= fs);
        }
        Ok(r)
    }
}

/// A locator that the encoding can carry: each text of representable length.
pub open spec fn locator_valid(l: LocatorModel) -> bool {
    &&& encode_utf8(l.designator).len() <= 0xffff_ffff_ffff_ffff
    &&& encode_utf8(l.transport).len() <= 0xffff_ffff_ffff_ffff
    &&& forall|i: int| 0 <= i < l.hints.len() ==> {
        &&& encode_utf8(#[trigger] l.hints[i].0).len() <= 0xffff_ffff_ffff_ffff
        &&& encode_utf8(l.hints[i].1).len() <= 0xffff_ffff_ffff_ffff
    }
}

pub proof fn lemma_locator_wf(l: LocatorModel)
    requires
        locator_valid(l),
    ensures
        wf(locator_tree(l)),
{
    reveal_strlit("ocapn-node");
    let items = hint_items(l.hints);
    assert forall|i: int| 0 <= i < items.len() implies #[trigger] wf(items[i]) by {
        assert(encode_utf8(l.hints[i / 2].0).len() <= 0xffff_ffff_ffff_ffff);
    }
    lemma_wf_items(items);
    let fs = seq![Tree::Str(l.designator), Tree::Symbol(l.transport), hints_tree(l.hints)];
    assert forall|i: int| 0 <= i < fs.len() implies #[trigger] wf(fs[i]) by {}
    lemma_record_wf("ocapn-node"@, fs);
}

/// Distinct locators have distinct token trees.
pub proof fn lemma_locator_tree_injective(a: LocatorModel, b: LocatorModel)
    requires
        locator_tree(a) == locator_tree(b),
    ensures
        a == b,
{
    let fa = seq![Tree::Str(a.designator), Tree::Symbol(a.transport), hints_tree(a.hints)];
    let fb = seq![Tree::Str(b.designator), Tree::Symbol(b.transport), hints_tree(b.hints)];
    lemma_record_shape("ocapn-node"@, fa);
    lemma_record_shape("ocapn-node"@, fb);
    assert(fa[0] == fb[0]);
    assert(fa[1] == fb[1]);
    assert(fa[2] == fb[2]);
    if a.hints.len() != 0 && b.hints.len() != 0 {
        let ia = hint_items(a.hints);
        let ib = hint_items(b.hints);
        assert(ia == ib);
        assert forall|i: int| 0 <= i < a.hints.len() implies a.hints[i] == b.hints[i] by {
            assert(ia[2 * i] == ib[2 * i]);
            assert(ia[2 * i + 1] == ib[2 * i + 1]);
        }
        assert(a.hints =~= b.hints);
    } else {
        assert(a.hints =~= b.hints);
    }
}

/// A reference to one object on one node: the node's locator and the
/// object's unguessable swiss number.
#[derive(Clone, Debug, PartialEq, Eq)]
pub struct SturdyRefLocator {
    pub node_locator: NodeLocator,
    pub swiss_num: Vec<u8>,
}

/// The model of a sturdy reference.
pub struct SturdyRefModel {
    pub node_locator: LocatorModel,
    pub swiss_num: Seq<u8>,
}

impl View for SturdyRefLocator {
    type V = SturdyRefModel;

    open spec fn view(&self) -> SturdyRefModel {
        SturdyRefModel { node_locator: self.node_locator@, swiss_num: self.swiss_num@ }
    }
}

/// The token tree of a sturdy reference.
pub open spec fn sturdy_ref_tree(m: SturdyRefModel) -> Tree {
    record("ocapn-sturdyref"@, seq![locator_tree(m.node_locator), Tree::Bytes(m.swiss_num)])
}

impl SturdyRefLocator {
    pub fn new(node_locator: NodeLocator, swiss_num: Vec<u8>) -> (r: SturdyRefLocator)
        ensures
            r@.node_locator == node_locator@,
            r@.swiss_num == swiss_num@,
    {
        SturdyRefLocator { node_locator, swiss_num }
    }

    pub fn to_tokens(&self) -> (r: TokenTree)
        ensures
            r@ == sturdy_ref_tree(self@),
    {
        let mut fields: Vec<TokenTree> = Vec::new();
        fields.push(self.node_locator.to_tokens());
        let swiss = crate::codec::copy_range(self.swiss_num.as_slice(), 0, self.swiss_num.len());
        assert(swiss@ =~= self.swiss_num@);
        fields.push(TokenTree::Bytes(swiss));
        proof {
            lemma_trees_of(fields@);
            assert(trees_of(fields@) =~= seq![locator_tree(self@.node_locator), Tree::Bytes(self@.swiss_num)]);
        }
        record_of("ocapn-sturdyref", fields)
    }

    pub fn decode(t: TokenTree) -> (r: Result<SturdyRefLocator, DecodeError>)
        ensures
            match r {
                Ok(s) => sturdy_ref_tree(s@) == t@ && hint_keys_unique(s@.node_locator.hints),
                Err(_) => forall|m: SturdyRefModel| hint_keys_unique(m.node_locator.hints) ==> sturdy_ref_tree(m) != t@,
            },
    {
        let ghost tv = t@;
        assert forall|m: SturdyRefModel| #[trigger] sturdy_ref_tree(m) == tv implies
            is_record_with(tv, "ocapn-sturdyref"@, 2)
            && fields_of(tv)[0] == locator_tree(m.node_locator)
            && fields_of(tv)[1] == Tree::Bytes(m.swiss_num) by {
            lemma_record_shape("ocapn-sturdyref"@, seq![locator_tree(m.node_locator), Tree::Bytes(m.swiss_num)]);
        }
        let mut fields = open_record(t, "ocapn-sturdyref", 2)?;
        let f0 = next_field(&mut fields);
        let f1 = next_field(&mut fields);
        let node_locator = match NodeLocator::decode(f0) {
            Ok(l) => l,
            Err(_) => {
                return Err(DecodeError { position: 1 });
            },
        };
        let swiss_num = match f1 {
            TokenTree::Bytes(b) => b,
            _ => {
                return Err(DecodeError { position: 2 });
            },
        };
        let r = SturdyRefLocator { node_locator, swiss_num };
        proof {
            let fs = seq![locator_tree(r@.node_locator), Tree::Bytes(r@.swiss_num)];
            lemma_record_shape("ocapn-sturdyref"@, fs);
            assert(tv->Group_1 =~= seq![Tree::Symbol("ocapn-sturdyref"@)] + fields_of(tv));
            assert(fields_of(tv) =~= fs);
        }
        Ok(r)
    }
}

} // verus!
