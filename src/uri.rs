//! Node locators as URIs: `ocapn://[userinfo@]designator.transport[:port][?k=v&...]`.
use vstd::prelude::*;
use fluent_uri::component::Scheme;
use fluent_uri::encoding::encoder::{Path, Query, RegName, Userinfo};
use fluent_uri::encoding::{EStr, EString};
use fluent_uri::{Builder, UriRef};
use vstd::string::StringExecFns;
use vstd::utf8::encode_utf8;
use crate::codec::{copy_range, is_digit, string_from_utf8};
use crate::locator::{hint_keys_unique, LocatorModel, NodeLocator, SturdyRefLocator};
use vstd::utf8::{decode_utf8, leading_bits_width_1, pop_first_scalar, valid_utf8};

verus! {

/// The parts of a URI's authority, as the URI's own (still percent-encoded)
/// bytes.
pub struct AuthorityModel {
    pub userinfo: Option<Seq<u8>>,
    pub host: Seq<u8>,
    pub port: Option<Seq<u8>>,
}

/// The parts of a URI reference, as its own bytes.
pub struct UriModel {
    pub scheme: Option<Seq<u8>>,
    pub authority: Option<AuthorityModel>,
    pub path: Seq<u8>,
    pub query: Option<Seq<u8>>,
}

/// The parts of a parsed URI reference.
pub struct UriParts {
    pub scheme: Option<Vec<u8>>,
    pub authority: Option<(Option<Vec<u8>>, Vec<u8>, Option<Vec<u8>>)>,
    pub path: Vec<u8>,
    pub query: Option<Vec<u8>>,
}

/// The model of optional bytes.
pub open spec fn opt_view(o: Option<Vec<u8>>) -> Option<Seq<u8>> {
    match o {
        Some(v) => Some(v@),
        None => None,
    }
}

impl View for UriParts {
    type V = UriModel;

    open spec fn view(&self) -> UriModel {
        UriModel {
            scheme: opt_view(self.scheme),
            authority: match self.authority {
                Some((u, h, p)) => Some(AuthorityModel { userinfo: opt_view(u), host: h@, port: opt_view(p) }),
                None => None,
            },
            path: self.path@,
            query: opt_view(self.query),
        }
    }
}

/// Every byte is ASCII.
pub open spec fn is_ascii_bytes(b: Seq<u8>) -> bool {
    forall|i: int| 0 <= i < b.len() ==> #[trigger] b[i] < 128
}

/// The parts of the URI reference that a text is, if it is one.
pub uninterp spec fn uri_components(s: Seq<char>) -> Option<UriModel>;

/// Whether a byte is a hexadecimal digit, in either case.
pub open spec fn is_hex(x: u8) -> bool {
    (48 <= x <= 57) || (65 <= x <= 70) || (97 <= x <= 102)
}

/// The value of a hexadecimal digit.
pub open spec fn hex_value(x: u8) -> nat {
    if x <= 57 {
        (x - 48) as nat
    } else if x <= 70 {
        (x - 55) as nat
    } else {
        (x - 87) as nat
    }
}

/// Percent-decoding of bytes that a component holds: each `%` with two
/// hexadecimal digits becomes the byte they denote, and every other byte
/// must be one the component allows. `None` for bytes not so encoded.
pub open spec fn pct_decode(raw: Seq<u8>, allows: spec_fn(u8) -> bool) -> Option<Seq<u8>>
    decreases raw.len(),
{
    if raw.len() == 0 {
        Some(Seq::empty())
    } else if raw[0] == 37 {
        if raw.len() >= 3 && is_hex(raw[1]) && is_hex(raw[2]) {
            match pct_decode(raw.skip(3), allows) {
                Some(rest) => Some(seq![(hex_value(raw[1]) * 16 + hex_value(raw[2])) as u8] + rest),
                None => None,
            }
        } else {
            None
        }
    } else if allows(raw[0]) {
        match pct_decode(raw.drop_first(), allows) {
            Some(rest) => Some(seq![raw[0]] + rest),
            None => None,
        }
    } else {
        None
    }
}

/// The text that percent-encoded bytes of a query decode to, if they are
/// well encoded and decode to UTF-8.
pub open spec fn pct_decoded(raw: Seq<u8>) -> Option<Seq<char>> {
    match pct_decode(raw, |x: u8| query_allows(x)) {
        Some(b) => if valid_utf8(b) {
            Some(decode_utf8(b))
        } else {
            None
        },
        None => None,
    }
}

/// Relies on `fluent_uri::UriRef::parse` (RFC 3986 URI references) and the
/// component accessors of the parsed reference.
#[verifier::external_body]
fn parse_uri(s: &str) -> (r: Option<UriParts>)
    ensures
        r is Some <==> uri_components(s@) is Some,
        r is Some ==> r->Some_0@ == uri_components(s@)->Some_0,
        r is Some && r->Some_0@.scheme is Some ==> is_ascii_bytes(r->Some_0@.scheme->Some_0),
{
    let u = fluent_uri::UriRef::parse(s).ok()?;
    let bytes = |x: &str| x.as_bytes().to_vec();
    Some(UriParts {
        scheme: u.scheme().map(|x| bytes(x.as_str())),
        authority: u.authority().map(|a| {
            (a.userinfo().map(|x| bytes(x.as_str())), bytes(a.host()), a.port().map(|x| bytes(x.as_str())))
        }),
        path: bytes(u.path().as_str()),
        query: u.query().map(|x| bytes(x.as_str())),
    })
}

/// Relies on `EStr::<Query>::new` (the query table's validation),
/// `EStr::decode` and `Decode::into_string`: percent-decoding, then UTF-8.
/// Bytes that are no valid UTF-8 hold a non-ASCII byte, which no table
/// allows, so the first check changes no outcome.
#[verifier::external_body]
fn percent_decode(raw: &[u8]) -> (r: Option<String>)
    ensures
        r is Some <==> pct_decoded(raw@) is Some,
        r is Some ==> r->Some_0@ == pct_decoded(raw@)->Some_0,
{
    let s = std::str::from_utf8(raw).ok()?;
    let decoded = EStr::<Query>::new(s)?.decode().into_string().ok()?;
    Some(decoded.into_owned())
}

/// ASCII bytes are valid UTF-8.
proof fn lemma_ascii_valid_utf8(b: Seq<u8>)
    requires
        forall|i: int| 0 <= i < b.len() ==> #[trigger] b[i] < 128,
    ensures
        valid_utf8(b),
    decreases b.len(),
{
    if b.len() > 0 {
        let x = b[0];
        assert(leading_bits_width_1(x) < 128) by (bit_vector)
            requires
                x < 128,
        ;
        let rest = pop_first_scalar(b);
        assert(rest =~= b.skip(1));
        assert forall|i: int| 0 <= i < rest.len() implies #[trigger] rest[i] < 128 by {
            assert(rest[i] == b[i + 1]);
        }
        lemma_ascii_valid_utf8(rest);
    }
}

/// Why a URI is no node locator.
#[derive(Debug)]
pub enum ParseUriError {
    /// The text is no URI reference.
    Uri,
    /// A hint is not well percent-encoded UTF-8.
    DecodeHint,
    /// The scheme is not `ocapn` (given here).
    UnrecognizedScheme(String),
    MissingAuthority,
    /// The host has no `.` between designator and transport.
    MissingTransport,
}

/// The model of a URI parse error.
pub enum UriErrorModel {
    Uri,
    DecodeHint,
    UnrecognizedScheme(Seq<char>),
    MissingAuthority,
    MissingTransport,
}

impl View for ParseUriError {
    type V = UriErrorModel;

    open spec fn view(&self) -> UriErrorModel {
        match self {
            ParseUriError::Uri => UriErrorModel::Uri,
            ParseUriError::DecodeHint => UriErrorModel::DecodeHint,
            ParseUriError::UnrecognizedScheme(s) => UriErrorModel::UnrecognizedScheme(s@),
            ParseUriError::MissingAuthority => UriErrorModel::MissingAuthority,
            ParseUriError::MissingTransport => UriErrorModel::MissingTransport,
        }
    }
}

/// A byte with ASCII upper case turned to lower case.
pub open spec fn ascii_lower(b: u8) -> u8 {
    if 65 <= b <= 90 {
        (b + 32) as u8
    } else {
        b
    }
}

/// Equality of byte strings up to ASCII case.
pub open spec fn eq_ignore_ascii_case(a: Seq<u8>, b: Seq<u8>) -> bool {
    &&& a.len() == b.len()
    &&& forall|i: int| 0 <= i < a.len() ==> #[trigger] ascii_lower(a[i]) == ascii_lower(b[i])
}

/// The bytes of the scheme `ocapn`.
pub open spec fn ocapn_scheme() -> Seq<u8> {
    seq![111u8, 99u8, 97u8, 112u8, 110u8]
}

/// The position of the first `b` in `s`.
pub open spec fn first_index(s: Seq<u8>, b: u8) -> Option<nat>
    decreases s.len(),
{
    if s.len() == 0 {
        None
    } else if s[0] == b {
        Some(0)
    } else {
        match first_index(s.drop_first(), b) {
            Some(i) => Some(i + 1),
            None => None,
        }
    }
}

/// The position of the last `b` in `s`.
pub open spec fn last_index(s: Seq<u8>, b: u8) -> Option<nat>
    decreases s.len(),
{
    if s.len() == 0 {
        None
    } else if s.last() == b {
        Some((s.len() - 1) as nat)
    } else {
        last_index(s.drop_last(), b)
    }
}

/// The `key=value` pairs of a query, in order: the query split at each `&`,
/// each part split at its first `=`; parts without `=` are left out.
pub open spec fn query_pairs(q: Seq<u8>) -> Seq<(Seq<u8>, Seq<u8>)>
    decreases q.len(),
{
    let (part, rest) = match first_index(q, 38) {
        Some(i) => (q.take(i as int), Some(q.skip(i + 1 as int))),
        None => (q, None),
    };
    let here = match first_index(part, 61) {
        Some(j) => seq![(part.take(j as int), part.skip(j + 1 as int))],
        None => Seq::empty(),
    };
    match rest {
        Some(r) => if r.len() < q.len() {
            here + query_pairs(r)
        } else {
            here
        },
        None => here,
    }
}

/// The hints with `key` set to `value`: in place of the first earlier value,
/// or last if it had none.
pub open spec fn set_hint(h: Seq<(Seq<char>, Seq<char>)>, key: Seq<char>, value: Seq<char>) -> Seq<(Seq<char>, Seq<char>)>
    decreases h.len(),
{
    if h.len() == 0 {
        seq![(key, value)]
    } else if h[0].0 == key {
        h.update(0, (key, value))
    } else {
        seq![h[0]] + set_hint(h.drop_first(), key, value)
    }
}

/// The hints after setting each decoded query pair in turn, unless one does
/// not decode.
pub open spec fn with_query_hints(h: Seq<(Seq<char>, Seq<char>)>, pairs: Seq<(Seq<u8>, Seq<u8>)>) -> Option<Seq<(Seq<char>, Seq<char>)>>
    decreases pairs.len(),
{
    if pairs.len() == 0 {
        Some(h)
    } else {
        match (pct_decoded(pairs[0].0), pct_decoded(pairs[0].1)) {
            (Some(k), Some(v)) => with_query_hints(set_hint(h, k, v), pairs.drop_first()),
            _ => None,
        }
    }
}

/// The hints that the authority's userinfo and port give.
pub open spec fn authority_hints(a: AuthorityModel) -> Option<Seq<(Seq<char>, Seq<char>)>> {
    let h0 = Seq::<(Seq<char>, Seq<char>)>::empty();
    let h1 = match a.userinfo {
        Some(u) => match pct_decoded(u) {
            Some(x) => Some(set_hint(h0, "userinfo"@, x)),
            None => None,
        },
        None => Some(h0),
    };
    match (h1, a.port) {
        (Some(h), Some(p)) => Some(set_hint(h, "port"@, decode_utf8(p))),
        _ => h1,
    }
}

/// The locator that a URI names: its scheme must be `ocapn` (in any case), its
/// host `designator.transport` split at the last dot, each part
/// percent-decoded; userinfo, port and
/// each query pair become hints.
pub open spec fn locator_of_uri(u: UriModel) -> Result<LocatorModel, UriErrorModel> {
    if u.scheme is Some && !eq_ignore_ascii_case(u.scheme->Some_0, ocapn_scheme()) {
        Err(UriErrorModel::UnrecognizedScheme(decode_utf8(u.scheme->Some_0)))
    } else if u.authority is None {
        Err(UriErrorModel::MissingAuthority)
    } else {
        let a = u.authority->Some_0;
        match last_index(a.host, 46) {
            None => Err(UriErrorModel::MissingTransport),
            Some(i) => {
                let d = a.host.take(i as int);
                let t = a.host.skip(i + 1 as int);
                if pct_decoded(d) is None || pct_decoded(t) is None || (a.port is Some && !valid_utf8(a.port->Some_0)) {
                    Err(UriErrorModel::Uri)
                } else {
                    match authority_hints(a) {
                        None => Err(UriErrorModel::DecodeHint),
                        Some(h) => {
                            let hints = match u.query {
                                Some(q) => with_query_hints(h, query_pairs(q)),
                                None => Some(h),
                            };
                            match hints {
                                None => Err(UriErrorModel::DecodeHint),
                                Some(hs) => Ok(LocatorModel {
                                    designator: pct_decoded(d)->Some_0,
                                    transport: pct_decoded(t)->Some_0,
                                    hints: hs,
                                }),
                            }
                        },
                    }
                }
            },
        }
    }
}

proof fn lemma_first_index(s: Seq<u8>, b: u8, i: nat)
    requires
        i <= s.len(),
        forall|j: int| 0 <= j < i ==> s[j] != b,
    ensures
        i < s.len() && s[i as int] == b ==> first_index(s, b) == Some(i),
        i == s.len() ==> first_index(s, b) is None,
    decreases i,
{
    if i > 0 {
        lemma_first_index(s.drop_first(), b, (i - 1) as nat);
    }
}

proof fn lemma_last_index(s: Seq<u8>, b: u8, i: nat)
    requires
        i <= s.len(),
        forall|j: int| i <= j < s.len() ==> s[j] != b,
    ensures
        i > 0 && s[i - 1] == b ==> last_index(s, b) == Some((i - 1) as nat),
        i == 0 ==> last_index(s, b) is None,
    decreases s.len() - i,
{
    if i < s.len() {
        lemma_last_index(s.drop_last(), b, i);
    }
}

fn find_first(s: &[u8], b: u8) -> (r: Option<usize>)
    ensures
        match first_index(s@, b) {
            Some(i) => r == Some(i as usize) && i < s@.len(),
            None => r is None,
        },
{
    let mut i: usize = 0;
    while i < s.len()
        invariant
            i <= s.len(),
            forall|j: int| 0 <= j < i ==> s@[j] != b,
        decreases s.len() - i,
    {
        if s[i] == b {
            proof {
                lemma_first_index(s@, b, i as nat);
            }
            return Some(i);
        }
        i = i + 1;
    }
    proof {
        lemma_first_index(s@, b, i as nat);
    }
    None
}

fn find_last(s: &[u8], b: u8) -> (r: Option<usize>)
    ensures
        match last_index(s@, b) {
            Some(i) => r == Some(i as usize) && i < s@.len(),
            None => r is None,
        },
{
    let mut i: usize = s.len();
    while i > 0
        invariant
            i <= s.len(),
            forall|j: int| i <= j < s.len() ==> s@[j] != b,
        decreases i,
    {
        if s[i - 1] == b {
            proof {
                lemma_last_index(s@, b, i as nat);
            }
            return Some(i - 1);
        }
        i = i - 1;
    }
    proof {
        lemma_last_index(s@, b, 0);
    }
    None
}

fn eq_ignore_case(a: &[u8], b: &[u8]) -> (r: bool)
    ensures
        r == eq_ignore_ascii_case(a@, b@),
{
    if a.len() != b.len() {
        return false;
    }
    let mut i: usize = 0;
    while i < a.len()
        invariant
            i <= a.len(),
            a.len() == b.len(),
            forall|j: int| 0 <= j < i ==> #[trigger] ascii_lower(a@[j]) == ascii_lower(b@[j]),
        decreases a.len() - i,
    {
        let x = if a[i] >= 65 && a[i] <= 90 { a[i] + 32 } else { a[i] };
        let y = if b[i] >= 65 && b[i] <= 90 { b[i] + 32 } else { b[i] };
        assert(x == ascii_lower(a@[i as int]));
        assert(y == ascii_lower(b@[i as int]));
        if x != y {
            return false;
        }
        i = i + 1;
    }
    true
}

/// The model of query pairs.
pub open spec fn pairs_view(v: Seq<(Vec<u8>, Vec<u8>)>) -> Seq<(Seq<u8>, Seq<u8>)> {
    v.map_values(|p: (Vec<u8>, Vec<u8>)| (p.0@, p.1@))
}

fn split_query(q: &[u8]) -> (r: Vec<(Vec<u8>, Vec<u8>)>)
    ensures
        pairs_view(r@) == query_pairs(q@),
{
    let mut pairs: Vec<(Vec<u8>, Vec<u8>)> = Vec::new();
    let mut rest: Vec<u8> = copy_range(q, 0, q.len());
    assert(rest@ =~= q@);
    assert(pairs_view(pairs@) =~= Seq::<(Seq<u8>, Seq<u8>)>::empty());
    loop
        invariant
            pairs_view(pairs@) + query_pairs(rest@) == query_pairs(q@),
        decreases rest@.len(),
    {
        let ghost r0 = rest@;
        let ghost p0 = pairs_view(pairs@);
        let amp = find_first(rest.as_slice(), 38);
        let (part, next) = match amp {
            Some(i) => (copy_range(rest.as_slice(), 0, i), Some(copy_range(rest.as_slice(), i + 1, rest.len()))),
            None => (copy_range(rest.as_slice(), 0, rest.len()), None),
        };
        proof {
            if let Some(i) = amp {
                assert(part@ =~= r0.take(i as int));
            } else {
                assert(part@ =~= r0);
            }
        }
        match find_first(part.as_slice(), 61) {
            Some(j) => {
                let key = copy_range(part.as_slice(), 0, j);
                let value = copy_range(part.as_slice(), j + 1, part.len());
                assert(key@ =~= part@.take(j as int));
                assert(value@ =~= part@.skip(j + 1 as int));
                pairs.push((key, value));
                assert(pairs_view(pairs@) =~= p0 + seq![(part@.take(j as int), part@.skip(j + 1 as int))]);
            },
            None => {
                assert(pairs_view(pairs@) =~= p0 + Seq::<(Seq<u8>, Seq<u8>)>::empty());
            },
        }
        let ghost here = match first_index(part@, 61) {
            Some(j) => seq![(part@.take(j as int), part@.skip(j + 1 as int))],
            None => Seq::<(Seq<u8>, Seq<u8>)>::empty(),
        };
        assert(pairs_view(pairs@) == p0 + here);
        match next {
            Some(n) => {
                assert(n@ =~= r0.skip(amp.unwrap() + 1 as int));
                assert(query_pairs(r0) == here + query_pairs(n@));
                assert(p0 + (here + query_pairs(n@)) =~= (p0 + here) + query_pairs(n@));
                rest = n;
            },
            None => {
                assert(query_pairs(r0) == here);
                return pairs;
            },
        }
    }
}

/// The model of hints.
pub open spec fn hints_model(h: Seq<(String, String)>) -> Seq<(Seq<char>, Seq<char>)> {
    h.map_values(|p: (String, String)| (p.0@, p.1@))
}

/// No hint has the key `x`.
pub open spec fn lacks_key(h: Seq<(Seq<char>, Seq<char>)>, x: Seq<char>) -> bool {
    forall|j: int| 0 <= j < h.len() ==> h[j].0 != x
}

/// Setting a hint keeps each key once, and brings in no key but its own.
proof fn lemma_set_hint_unique(h: Seq<(Seq<char>, Seq<char>)>, key: Seq<char>, value: Seq<char>)
    requires
        hint_keys_unique(h),
    ensures
        hint_keys_unique(set_hint(h, key, value)),
        forall|x: Seq<char>| x != key && #[trigger] lacks_key(h, x) ==> lacks_key(set_hint(h, key, value), x),
    decreases h.len(),
{
    let r = set_hint(h, key, value);
    if h.len() == 0 {
        assert(r == seq![(key, value)]);
    } else if h[0].0 == key {
        assert(r == h.update(0, (key, value)));
        assert forall|i: int, j: int| 0 <= i < r.len() && 0 <= j < r.len() && i != j implies #[trigger] r[i].0 != #[trigger] r[j].0 by {
            assert(r[i].0 == h[i].0 && r[j].0 == h[j].0);
        }
    } else {
        let t = h.drop_first();
        assert forall|i: int, j: int| 0 <= i < t.len() && 0 <= j < t.len() && i != j implies #[trigger] t[i].0 != #[trigger] t[j].0 by {
            assert(t[i] == h[i + 1] && t[j] == h[j + 1]);
        }
        lemma_set_hint_unique(t, key, value);
        let rt = set_hint(t, key, value);
        assert(r == seq![h[0]] + rt);
        assert forall|j: int| 0 <= j < t.len() implies t[j].0 != h[0].0 by {
            assert(t[j] == h[j + 1]);
        }
        assert(lacks_key(t, h[0].0));
        assert(lacks_key(rt, h[0].0));
        assert forall|i: int, j: int| 0 <= i < r.len() && 0 <= j < r.len() && i != j implies #[trigger] r[i].0 != #[trigger] r[j].0 by {
            if i > 0 && j > 0 {
                assert(r[i] == rt[i - 1] && r[j] == rt[j - 1]);
            } else if i == 0 {
                assert(r[j] == rt[j - 1]);
            } else {
                assert(r[i] == rt[i - 1]);
            }
        }
        assert forall|x: Seq<char>| x != key && #[trigger] lacks_key(h, x) implies lacks_key(r, x) by {
            assert forall|j: int| 0 <= j < t.len() implies t[j].0 != x by {
                assert(t[j] == h[j + 1]);
            }
            assert(lacks_key(t, x));
            assert forall|i: int| 0 <= i < r.len() implies r[i].0 != x by {
                if i > 0 {
                    assert(r[i] == rt[i - 1]);
                }
            }
        }
    }
}

proof fn lemma_query_hints_unique(h: Seq<(Seq<char>, Seq<char>)>, pairs: Seq<(Seq<u8>, Seq<u8>)>)
    requires
        hint_keys_unique(h),
    ensures
        with_query_hints(h, pairs) is Some ==> hint_keys_unique(with_query_hints(h, pairs)->Some_0),
    decreases pairs.len(),
{
    if pairs.len() > 0 {
        match (pct_decoded(pairs[0].0), pct_decoded(pairs[0].1)) {
            (Some(k), Some(v)) => {
                lemma_set_hint_unique(h, k, v);
                lemma_query_hints_unique(set_hint(h, k, v), pairs.drop_first());
            },
            _ => {},
        }
    }
}

/// A locator read from a URI has each hint key once.
pub proof fn lemma_locator_of_uri_unique(u: UriModel)
    ensures
        locator_of_uri(u) is Ok ==> hint_keys_unique(locator_of_uri(u)->Ok_0.hints),
{
    if u.authority is Some {
        let a = u.authority->Some_0;
        let h0 = Seq::<(Seq<char>, Seq<char>)>::empty();
        assert(hint_keys_unique(h0));
        match a.userinfo {
            Some(info) => match pct_decoded(info) {
                Some(x) => {
                    lemma_set_hint_unique(h0, "userinfo"@, x);
                    let h1 = set_hint(h0, "userinfo"@, x);
                    if a.port is Some {
                        lemma_set_hint_unique(h1, "port"@, decode_utf8(a.port->Some_0));
                    }
                },
                None => {},
            },
            None => {
                if a.port is Some {
                    lemma_set_hint_unique(h0, "port"@, decode_utf8(a.port->Some_0));
                }
            },
        }
        match authority_hints(a) {
            Some(h) => {
                if u.query is Some {
                    lemma_query_hints_unique(h, query_pairs(u.query->Some_0));
                }
            },
            None => {},
        }
    }
}

proof fn lemma_set_hint_at(h: Seq<(Seq<char>, Seq<char>)>, key: Seq<char>, value: Seq<char>, i: nat)
    requires
        i <= h.len(),
        forall|j: int| 0 <= j < i ==> h[j].0 != key,
    ensures
        i < h.len() && h[i as int].0 == key ==> set_hint(h, key, value) == h.update(i as int, (key, value)),
        i == h.len() ==> set_hint(h, key, value) == h.push((key, value)),
    decreases i,
{
    if i > 0 {
        let t = h.drop_first();
        lemma_set_hint_at(t, key, value, (i - 1) as nat);
        if i < h.len() && h[i as int].0 == key {
            assert(seq![h[0]] + t.update(i - 1, (key, value)) =~= h.update(i as int, (key, value)));
        }
        if i == h.len() {
            assert(seq![h[0]] + t.push((key, value)) =~= h.push((key, value)));
        }
    } else if h.len() > 0 && h[0].0 == key {
    } else if h.len() == 0 {
        assert(seq![(key, value)] =~= h.push((key, value)));
    }
}

fn set_hint_in(h: &mut Vec<(String, String)>, key: String, value: String)
    ensures
        hints_model(final(h)@) == set_hint(hints_model(old(h)@), key@, value@),
{
    let ghost m0 = hints_model(h@);
    let mut i: usize = 0;
    while i < h.len()
        invariant
            i <= h.len(),
            h@ == old(h)@,
            m0 == hints_model(h@),
            forall|j: int| 0 <= j < i ==> m0[j].0 != key@,
        decreases h.len() - i,
    {
        if h[i].0 == key {
            proof {
                lemma_set_hint_at(m0, key@, value@, i as nat);
            }
            let ghost k = key@;
            let ghost v = value@;
            h.set(i, (key, value));
            assert(hints_model(h@) =~= m0.update(i as int, (k, v)));
            return;
        }
        i = i + 1;
    }
    proof {
        lemma_set_hint_at(m0, key@, value@, i as nat);
    }
    let ghost k = key@;
    let ghost v = value@;
    h.push((key, value));
    assert(hints_model(h@) =~= m0.push((k, v)));
}

/// The model of a parse result.
pub open spec fn parsed_model(r: Result<NodeLocator, ParseUriError>) -> Result<LocatorModel, UriErrorModel> {
    match r {
        Ok(l) => Ok(l@),
        Err(e) => Err(e@),
    }
}

impl NodeLocator {
    /// Reads a locator from its URI.
    pub fn from_uri(s: &str) -> (r: Result<NodeLocator, ParseUriError>)
        ensures
            match uri_components(s@) {
                None => r is Err && r->Err_0 is Uri,
                Some(u) => parsed_model(r) == locator_of_uri(u),
            },
            r is Ok ==> hint_keys_unique(r->Ok_0@.hints),
    {
        proof {
            if uri_components(s@) is Some {
                lemma_locator_of_uri_unique(uri_components(s@)->Some_0);
            }
        }
        let parts = match parse_uri(s) {
            Some(p) => p,
            None => {
                return Err(ParseUriError::Uri);
            },
        };
        let ghost u = parts@;
        let ocapn: [u8; 5] = [111, 99, 97, 112, 110];
        assert(ocapn@ =~= ocapn_scheme());
        match &parts.scheme {
            Some(scheme) => {
                if !eq_ignore_case(scheme.as_slice(), &ocapn) {
                    let text = copy_range(scheme.as_slice(), 0, scheme.len());
                    assert(text@ =~= scheme@);
                    proof {
                        lemma_ascii_valid_utf8(text@);
                    }
                    return match string_from_utf8(text) {
                        Some(t) => Err(ParseUriError::UnrecognizedScheme(t)),
                        None => Err(ParseUriError::Uri),
                    };
                }
            },
            None => {},
        }
        let (userinfo, host, port) = match parts.authority {
            Some(a) => a,
            None => {
                return Err(ParseUriError::MissingAuthority);
            },
        };
        let dot = match find_last(host.as_slice(), 46) {
            Some(i) => i,
            None => {
                return Err(ParseUriError::MissingTransport);
            },
        };
        let host_len = host.len();
        assert(dot < host_len);
        let d_bytes = copy_range(host.as_slice(), 0, dot);
        let t_bytes = copy_range(host.as_slice(), dot + 1, host_len);
        assert(d_bytes@ =~= host@.take(dot as int));
        assert(t_bytes@ =~= host@.skip(dot + 1 as int));
        let designator = percent_decode(d_bytes.as_slice());
        let transport = percent_decode(t_bytes.as_slice());
        let port_text = match &port {
            Some(p) => {
                let copy = copy_range(p.as_slice(), 0, p.len());
                assert(copy@ =~= p@);
                match string_from_utf8(copy) {
                    Some(t) => Some(t),
                    None => {
                        return Err(ParseUriError::Uri);
                    },
                }
            },
            None => None,
        };
        let (designator, transport) = match (designator, transport) {
            (Some(d), Some(t)) => (d, t),
            _ => {
                return Err(ParseUriError::Uri);
            },
        };
        let mut hints: Vec<(String, String)> = Vec::new();
        assert(hints_model(hints@) =~= Seq::<(Seq<char>, Seq<char>)>::empty());
        match &userinfo {
            Some(info) => match percent_decode(info.as_slice()) {
                Some(x) => set_hint_in(&mut hints, "userinfo".to_owned(), x),
                None => {
                    return Err(ParseUriError::DecodeHint);
                },
            },
            None => {},
        }
        match port_text {
            Some(p) => set_hint_in(&mut hints, "port".to_owned(), p),
            None => {},
        }
        let ghost a = u.authority->Some_0;
        assert(authority_hints(a) == Some(hints_model(hints@)));
        match &parts.query {
            Some(q) => {
                let pairs = split_query(q.as_slice());
                let ghost all = pairs_view(pairs@);
                let ghost h0 = hints_model(hints@);
                let mut k: usize = 0;
                assert(all.skip(0) =~= all);
                assert(all == query_pairs(q@));
                assert(with_query_hints(h0, all) is None ==> locator_of_uri(u) == Err::<LocatorModel, UriErrorModel>(UriErrorModel::DecodeHint));
                while k < pairs.len()
                    invariant
                        k <= pairs.len(),
                        uri_components(s@) == Some(u),
                        with_query_hints(h0, all) is None ==> locator_of_uri(u) == Err::<LocatorModel, UriErrorModel>(UriErrorModel::DecodeHint),
                        all == pairs_view(pairs@),
                        with_query_hints(hints_model(hints@), all.skip(k as int)) == with_query_hints(h0, all),
                    decreases pairs.len() - k,
                {
                    let ghost hk = hints_model(hints@);
                    assert(all.skip(k as int).drop_first() =~= all.skip(k + 1));
                    assert(all.skip(k as int)[0] == (pairs@[k as int].0@, pairs@[k as int].1@));
                    let key = percent_decode(pairs[k].0.as_slice());
                    let value = percent_decode(pairs[k].1.as_slice());
                    match (key, value) {
                        (Some(key), Some(value)) => {
                            set_hint_in(&mut hints, key, value);
                        },
                        _ => {
                            return Err(ParseUriError::DecodeHint);
                        },
                    }
                    k = k + 1;
                }
                assert(all.skip(pairs.len() as int) =~= Seq::<(Seq<u8>, Seq<u8>)>::empty());
            },
            None => {},
        }
        let r = NodeLocator { designator, transport, hints };
        assert(r@.hints == hints_model(r.hints@));
        Ok(r)
    }
}

/// `unreserved = ALPHA / DIGIT / "-" / "." / "_" / "~"` (RFC 3986).
pub open spec fn is_unreserved(x: u8) -> bool {
    (65 <= x <= 90) || (97 <= x <= 122) || (48 <= x <= 57) || x == 45 || x == 46 || x == 95 || x == 126
}

/// `sub-delims = "!" / "$" / "&" / "'" / "(" / ")" / "*" / "+" / "," / ";" / "="`.
pub open spec fn is_sub_delim(x: u8) -> bool {
    x == 33 || x == 36 || (38 <= x <= 44) || x == 59 || x == 61
}

/// The bytes that a host name (reg-name) holds unencoded.
pub open spec fn reg_name_allows(x: u8) -> bool {
    is_unreserved(x) || is_sub_delim(x)
}

/// The bytes that userinfo holds unencoded: those of a host name and `:`.
pub open spec fn userinfo_allows(x: u8) -> bool {
    reg_name_allows(x) || x == 58
}

/// The bytes that a path holds unencoded: those of a host name and `:@/`.
pub open spec fn path_allows(x: u8) -> bool {
    reg_name_allows(x) || x == 58 || x == 64 || x == 47
}

/// The bytes that a query holds unencoded: those of a path and `?`.
pub open spec fn query_allows(x: u8) -> bool {
    path_allows(x) || x == 63
}

/// An upper-case hexadecimal digit.
pub open spec fn hex_digit(n: u8) -> char {
    if n < 10 {
        ((48 + n) as u8) as char
    } else {
        ((55 + n) as u8) as char
    }
}

/// One byte, percent-encoded unless the component holds it unencoded.
pub open spec fn pct_encode_byte(x: u8, allows: spec_fn(u8) -> bool) -> Seq<char> {
    if allows(x) {
        seq![x as char]
    } else {
        seq!['%', hex_digit(x / 16), hex_digit(x % 16)]
    }
}

/// Bytes, each percent-encoded unless the component holds it unencoded.
pub open spec fn pct_encode(b: Seq<u8>, allows: spec_fn(u8) -> bool) -> Seq<char>
    decreases b.len(),
{
    if b.len() == 0 {
        Seq::empty()
    } else {
        pct_encode(b.drop_last(), allows) + pct_encode_byte(b.last(), allows)
    }
}

/// The percent-encoding of bytes as a host name.
pub open spec fn pct_encoded_reg_name(b: Seq<u8>) -> Seq<char> {
    pct_encode(b, |x: u8| reg_name_allows(x))
}

/// The percent-encoding of bytes as a URI's userinfo.
pub open spec fn pct_encoded_userinfo(b: Seq<u8>) -> Seq<char> {
    pct_encode(b, |x: u8| userinfo_allows(x))
}

/// The percent-encoding of bytes as part of a URI's query.
pub open spec fn pct_encoded_query(b: Seq<u8>) -> Seq<char> {
    pct_encode(b, |x: u8| query_allows(x))
}

/// The percent-encoding of bytes as part of a URI's path.
pub open spec fn pct_encoded_path(b: Seq<u8>) -> Seq<char> {
    pct_encode(b, |x: u8| path_allows(x))
}

/// Every byte is an ASCII decimal digit.
pub open spec fn all_digits(b: Seq<u8>) -> bool {
    forall|i: int| 0 <= i < b.len() ==> is_digit(#[trigger] b[i])
}

/// Text that a component holds: each byte allowed, or part of `%` and two
/// hexadecimal digits.
pub open spec fn pct_valid(s: Seq<char>, allows: spec_fn(u8) -> bool) -> bool {
    pct_decode(encode_utf8(s), allows) is Some
}

/// The optional part `s` with `before` in front and `after` behind, or
/// nothing.
pub open spec fn optional_part(before: Seq<char>, s: Option<Seq<char>>, after: Seq<char>) -> Seq<char> {
    match s {
        Some(t) => before + t + after,
        None => Seq::empty(),
    }
}

/// The `ocapn` URI with the given (encoded) parts: `ocapn://`, then
/// `userinfo@`, the host, `:port`, the path and `?query`; `None` where a part
/// is not validly encoded, or the path is neither empty nor starts with `/`.
pub open spec fn ocapn_uri(
    userinfo: Option<Seq<char>>,
    host: Seq<char>,
    port: Option<Seq<char>>,
    path: Seq<char>,
    query: Option<Seq<char>>,
) -> Option<Seq<char>> {
    if (userinfo is Some && !pct_valid(userinfo->Some_0, |x: u8| userinfo_allows(x)))
        || !pct_valid(host, |x: u8| reg_name_allows(x))
        || (port is Some && !all_digits(encode_utf8(port->Some_0)))
        || !pct_valid(path, |x: u8| path_allows(x))
        || (query is Some && !pct_valid(query->Some_0, |x: u8| query_allows(x)))
        || (path.len() > 0 && path[0] != '/') {
        None
    } else {
        Some(
            seq!['o', 'c', 'a', 'p', 'n', ':', '/', '/']
                + optional_part(Seq::empty(), userinfo, seq!['@'])
                + host
                + optional_part(seq![':'], port, Seq::empty())
                + path
                + optional_part(seq!['?'], query, Seq::empty()),
        )
    }
}

/// Relies on `EString::<RegName>::encode`: each byte that the reg-name table
/// does not allow becomes `%` and two upper-case hex digits.
#[verifier::external_body]
fn encode_reg_name(b: &[u8]) -> (r: String)
    ensures
        r@ == pct_encoded_reg_name(b@),
{
    let mut e = EString::<RegName>::new();
    e.encode::<RegName>(b);
    e.into_string()
}

/// Relies on `EString::<Userinfo>::encode`: each byte that the userinfo table
/// does not allow becomes `%` and two upper-case hex digits.
#[verifier::external_body]
fn encode_userinfo(b: &[u8]) -> (r: String)
    ensures
        r@ == pct_encoded_userinfo(b@),
{
    let mut e = EString::<Userinfo>::new();
    e.encode::<Userinfo>(b);
    e.into_string()
}

/// Relies on `EString::<Query>::encode`: each byte that the query table does
/// not allow becomes `%` and two upper-case hex digits.
#[verifier::external_body]
fn encode_query(b: &[u8]) -> (r: String)
    ensures
        r@ == pct_encoded_query(b@),
{
    let mut e = EString::<Query>::new();
    e.encode::<Query>(b);
    e.into_string()
}

/// Relies on `EString::<Path>::encode`: each byte that the path table does
/// not allow becomes `%` and two upper-case hex digits.
#[verifier::external_body]
fn encode_path(b: &[u8]) -> (r: String)
    ensures
        r@ == pct_encoded_path(b@),
{
    let mut e = EString::<Path>::new();
    e.encode::<Path>(b);
    e.into_string()
}

/// Relies on `EStr::new` for each part (validation against its table: the
/// port's allows digits only) and on `fluent_uri::Builder`, which writes the
/// parts in order and refuses a path that is neither empty nor starts with
/// `/` when there is an authority.
#[verifier::external_body]
fn build_uri(userinfo: Option<&str>, host: &str, port: Option<&str>, path: &str, query: Option<&str>) -> (r: Option<String>)
    ensures
        r is Some <==> ocapn_uri(opt_str(userinfo), host@, opt_str(port), path@, opt_str(query)) is Some,
        r is Some ==> r->Some_0@ == ocapn_uri(opt_str(userinfo), host@, opt_str(port), path@, opt_str(query))->Some_0,
{
    let ui = match userinfo { Some(u) => Some(EStr::new(u)?), None => None };
    let p = match port { Some(p) => Some(EStr::new(p)?), None => None };
    let q = match query { Some(q) => Some(EStr::new(q)?), None => None };
    let h = EStr::<RegName>::new(host)?;
    UriRef::builder().scheme(Scheme::new_or_panic("ocapn"))
        .authority_with(|b| b.optional(Builder::userinfo, ui).host(h).optional(Builder::port, p))
        .path(EStr::new(path)?).optional(Builder::query, q).build().ok().map(UriRef::into_string)
}

/// The model of optional text.
pub open spec fn opt_str(o: Option<&str>) -> Option<Seq<char>> {
    match o {
        Some(s) => Some(s@),
        None => None,
    }
}

/// The value of the first hint with this key.
pub open spec fn hint_value(h: Seq<(Seq<char>, Seq<char>)>, key: Seq<char>) -> Option<Seq<char>>
    decreases h.len(),
{
    if h.len() == 0 {
        None
    } else if h[0].0 == key {
        Some(h[0].1)
    } else {
        hint_value(h.drop_first(), key)
    }
}

/// The encoded `key=value` entries of the query: every hint but the port and
/// the userinfo, which the authority carries.
pub open spec fn query_entries(h: Seq<(Seq<char>, Seq<char>)>) -> Seq<Seq<char>>
    decreases h.len(),
{
    if h.len() == 0 {
        Seq::empty()
    } else {
        let (k, v) = h.last();
        let rest = query_entries(h.drop_last());
        if k == "port"@ || k == "userinfo"@ {
            rest
        } else {
            rest.push(pct_encoded_query(encode_utf8(k)) + seq!['='] + pct_encoded_query(encode_utf8(v)))
        }
    }
}

/// Entries joined with `&`.
pub open spec fn join_entries(es: Seq<Seq<char>>) -> Seq<char>
    decreases es.len(),
{
    if es.len() == 0 {
        Seq::empty()
    } else if es.len() == 1 {
        es[0]
    } else {
        join_entries(es.drop_last()) + seq!['&'] + es.last()
    }
}

/// The query of a locator's URI, if it has one.
pub open spec fn query_of(h: Seq<(Seq<char>, Seq<char>)>) -> Option<Seq<char>> {
    if query_entries(h).len() == 0 {
        None
    } else {
        Some(join_entries(query_entries(h)))
    }
}

/// The host of a locator's URI: designator and transport, joined by a dot.
pub open spec fn host_of(l: LocatorModel) -> Seq<char> {
    pct_encoded_reg_name(encode_utf8(l.designator)) + seq!['.'] + pct_encoded_reg_name(encode_utf8(l.transport))
}

/// The userinfo of a locator's URI, if it has a `userinfo` hint.
pub open spec fn userinfo_of(l: LocatorModel) -> Option<Seq<char>> {
    match hint_value(l.hints, "userinfo"@) {
        Some(v) => Some(pct_encoded_userinfo(encode_utf8(v))),
        None => None,
    }
}

proof fn lemma_join_entries_nonempty(es: Seq<Seq<char>>, e: Seq<char>)
    ensures
        es.len() > 0 ==> join_entries(es.push(e)) == join_entries(es) + seq!['&'] + e,
        es.len() == 0 ==> join_entries(es.push(e)) == e,
{
    assert(es.push(e).drop_last() =~= es);
    if es.len() == 0 {
        assert(es.push(e)[0] == e);
    }
}

impl NodeLocator {
    /// The value of the first hint with this key.
    pub fn hint(&self, key: &str) -> (r: Option<&String>)
        ensures
            match hint_value(self@.hints, key@) {
                Some(v) => r is Some && r->Some_0@ == v,
                None => r is None,
            },
    {
        let ghost h = self@.hints;
        assert(h == hints_model(self.hints@));
        let k = key.to_owned();
        let mut i: usize = 0;
        assert(h.skip(0) =~= h);
        while i < self.hints.len()
            invariant
                i <= self.hints.len(),
                h == hints_model(self.hints@),
                k@ == key@,
                hint_value(h, key@) == hint_value(h.skip(i as int), key@),
            decreases self.hints.len() - i,
        {
            assert(h.skip(i as int).drop_first() =~= h.skip(i + 1));
            assert(h.skip(i as int)[0] == h[i as int]);
            if self.hints[i].0 == k {
                return Some(&self.hints[i].1);
            }
            i = i + 1;
        }
        assert(h.skip(i as int) =~= Seq::<(Seq<char>, Seq<char>)>::empty());
        None
    }

    /// The URI host: designator and transport, each percent-encoded, joined by
    /// a dot.
    pub fn encoded_host(&self) -> (r: String)
        ensures
            r@ == host_of(self@),
    {
        let mut host = encode_reg_name(self.designator.as_str().as_bytes());
        host.append(".");
        let transport = encode_reg_name(self.transport.as_str().as_bytes());
        host.append(transport.as_str());
        proof {
            reveal_strlit(".");
        }
        assert(host@ =~= host_of(self@));
        host
    }

    /// The URI userinfo: the `userinfo` hint, percent-encoded.
    pub fn encoded_userinfo(&self) -> (r: Option<String>)
        ensures
            match userinfo_of(self@) {
                Some(u) => r is Some && r->Some_0@ == u,
                None => r is None,
            },
    {
        match self.hint("userinfo") {
            Some(info) => Some(encode_userinfo(info.as_str().as_bytes())),
            None => None,
        }
    }

    /// The URI query: each hint but the port and the userinfo as `key=value`,
    /// percent-encoded and joined by `&`; `None` when there is none.
    pub fn encoded_query(&self) -> (r: Option<String>)
        ensures
            match query_of(self@.hints) {
                Some(q) => r is Some && r->Some_0@ == q,
                None => r is None,
            },
    {
        let ghost h = self@.hints;
        assert(h == hints_model(self.hints@));
        let mut query = String::new();
        let mut count: usize = 0;
        let mut i: usize = 0;
        proof {
            assert(h.take(0) =~= Seq::<(Seq<char>, Seq<char>)>::empty());
        }
        while i < self.hints.len()
            invariant
                i <= self.hints.len(),
                h == hints_model(self.hints@),
                query@ == join_entries(query_entries(h.take(i as int))),
                count == query_entries(h.take(i as int)).len(),
                count <= i,
            decreases self.hints.len() - i,
        {
            let ghost before = query_entries(h.take(i as int));
            assert(h.take(i + 1).drop_last() =~= h.take(i as int));
            assert(h.take(i + 1).last() == h[i as int]);
            let key = &self.hints[i].0;
            let value = &self.hints[i].1;
            proof {
                reveal_strlit("port");
                reveal_strlit("userinfo");
            }
            if *key != "port".to_owned() && *key != "userinfo".to_owned() {
                let ghost entry = pct_encoded_query(encode_utf8(key@)) + seq!['='] + pct_encoded_query(encode_utf8(value@));
                proof {
                    lemma_join_entries_nonempty(before, entry);
                }
                if count > 0 {
                    query.append("&");
                }
                let k = encode_query(key.as_str().as_bytes());
                query.append(k.as_str());
                query.append("=");
                let v = encode_query(value.as_str().as_bytes());
                query.append(v.as_str());
                proof {
                    reveal_strlit("&");
                    reveal_strlit("=");
                }
                assert(query@ =~= join_entries(before.push(entry)));
                count = count + 1;
            }
            i = i + 1;
        }
        assert(h.take(self.hints.len() as int) =~= h);
        if count == 0 {
            None
        } else {
            Some(query)
        }
    }

    /// The locator as an `ocapn` URI, if its parts make one.
    pub fn to_uri(&self) -> (r: Option<String>)
        ensures
            r is Some <==> ocapn_uri(userinfo_of(self@), host_of(self@), hint_value(self@.hints, "port"@), Seq::empty(), query_of(self@.hints)) is Some,
            r is Some ==> r->Some_0@ == ocapn_uri(userinfo_of(self@), host_of(self@), hint_value(self@.hints, "port"@), Seq::empty(), query_of(self@.hints))->Some_0,
    {
        proof {
            reveal_strlit("");
        }
        assert(""@ =~= Seq::<char>::empty());
        self.build_uri_with_path("")
    }

    fn build_uri_with_path(&self, path: &str) -> (r: Option<String>)
        ensures
            r is Some <==> ocapn_uri(userinfo_of(self@), host_of(self@), hint_value(self@.hints, "port"@), path@, query_of(self@.hints)) is Some,
            r is Some ==> r->Some_0@ == ocapn_uri(userinfo_of(self@), host_of(self@), hint_value(self@.hints, "port"@), path@, query_of(self@.hints))->Some_0,
    {
        let userinfo = self.encoded_userinfo();
        let host = self.encoded_host();
        let query = self.encoded_query();
        let port = self.hint("port");
        let ui: Option<&str> = match &userinfo {
            Some(u) => Some(u.as_str()),
            None => None,
        };
        let p: Option<&str> = match port {
            Some(p) => Some(p.as_str()),
            None => None,
        };
        let q: Option<&str> = match &query {
            Some(q) => Some(q.as_str()),
            None => None,
        };
        assert(opt_str(ui) == userinfo_of(self@));
        assert(opt_str(p) == hint_value(self@.hints, "port"@));
        assert(opt_str(q) == query_of(self@.hints));
        let hs = host.as_str();
        assert(hs@ == host_of(self@));
        let r = build_uri(ui, hs, p, path, q);
        r
    }
}

/// The bytes that percent-encoded bytes of a path decode to, if they are
/// well encoded.
pub open spec fn pct_decoded_bytes(raw: Seq<u8>) -> Option<Seq<u8>> {
    pct_decode(raw, |x: u8| path_allows(x))
}

/// Relies on `EStr::<Path>::new` (the path table's validation),
/// `EStr::decode` and `Decode::into_bytes`: percent-decoding to bytes.
#[verifier::external_body]
fn percent_decode_bytes(raw: &[u8]) -> (r: Option<Vec<u8>>)
    ensures
        r is Some <==> pct_decoded_bytes(raw@) is Some,
        r is Some ==> r->Some_0@ == pct_decoded_bytes(raw@)->Some_0,
{
    let s = std::str::from_utf8(raw).ok()?;
    Some(EStr::<Path>::new(s)?.decode().into_bytes().into_owned())
}

/// Why a URI is no sturdy reference.
#[derive(Debug)]
pub enum ParseSturdyRefUriError {
    Locator(ParseUriError),
    /// The path is empty.
    MissingPath,
    /// The path does not start with `/s/`, or is not well percent-encoded.
    InvalidPath,
}

/// The prefix of a sturdy reference's path, before the swiss number.
pub open spec fn swiss_prefix() -> Seq<u8> {
    seq![47u8, 115u8, 47u8]
}

/// The swiss number that a URI path holds after its `/s/` prefix, if it does.
pub open spec fn swiss_of_path(path: Seq<u8>) -> Option<Seq<u8>> {
    match pct_decoded_bytes(path) {
        Some(p) => if p.len() >= 3 && p.take(3) == swiss_prefix() {
            Some(p.skip(3))
        } else {
            None
        },
        None => None,
    }
}

impl SturdyRefLocator {
    /// The URI path: `/s/` and the percent-encoded swiss number.
    pub fn encoded_path(&self) -> (r: String)
        ensures
            r@ == seq!['/', 's', '/'] + pct_encoded_path(self.swiss_num@),
    {
        let mut path = "/s/".to_owned();
        let swiss = encode_path(self.swiss_num.as_slice());
        path.append(swiss.as_str());
        proof {
            reveal_strlit("/s/");
        }
        assert(path@ =~= seq!['/', 's', '/'] + pct_encoded_path(self.swiss_num@));
        path
    }

    /// The reference as an `ocapn` URI, if its parts make one.
    pub fn to_uri(&self) -> (r: Option<String>)
        ensures
            ({
                let l = self.node_locator@;
                let uri = ocapn_uri(userinfo_of(l), host_of(l), hint_value(l.hints, "port"@), seq!['/', 's', '/'] + pct_encoded_path(self.swiss_num@), query_of(l.hints));
                &&& r is Some <==> uri is Some
                &&& r is Some ==> r->Some_0@ == uri->Some_0
            }),
    {
        let path = self.encoded_path();
        self.node_locator.build_uri_with_path(path.as_str())
    }

    /// Reads a sturdy reference from its URI: a node locator whose path is
    /// `/s/` and the swiss number.
    pub fn from_uri(s: &str) -> (r: Result<SturdyRefLocator, ParseSturdyRefUriError>)
        ensures
            match uri_components(s@) {
                None => r is Err && r->Err_0 is Locator && r->Err_0->Locator_0 is Uri,
                Some(u) => match locator_of_uri(u) {
                    Err(e) => r is Err && r->Err_0 is Locator && r->Err_0->Locator_0@ == e,
                    Ok(l) => if u.path.len() == 0 {
                        r is Err && r->Err_0 is MissingPath
                    } else {
                        match swiss_of_path(u.path) {
                            None => r is Err && r->Err_0 is InvalidPath,
                            Some(swiss) => r is Ok && r->Ok_0.node_locator@ == l && r->Ok_0.swiss_num@ == swiss,
                        }
                    },
                },
            },
    {
        let node_locator = match NodeLocator::from_uri(s) {
            Ok(l) => l,
            Err(e) => {
                return Err(ParseSturdyRefUriError::Locator(e));
            },
        };
        let parts = parse_uri(s).unwrap();
        if parts.path.len() == 0 {
            return Err(ParseSturdyRefUriError::MissingPath);
        }
        let decoded = match percent_decode_bytes(parts.path.as_slice()) {
            Some(p) => p,
            None => {
                return Err(ParseSturdyRefUriError::InvalidPath);
            },
        };
        if decoded.len() < 3 || decoded[0] != 47 || decoded[1] != 115 || decoded[2] != 47 {
            proof {
                if decoded@.len() >= 3 && decoded@.take(3) == swiss_prefix() {
                    assert(decoded@.take(3)[0] == decoded@[0]);
                    assert(decoded@.take(3)[1] == decoded@[1]);
                    assert(decoded@.take(3)[2] == decoded@[2]);
                }
            }
            return Err(ParseSturdyRefUriError::InvalidPath);
        }
        assert(decoded@.take(3) =~= swiss_prefix());
        let swiss_num = copy_range(decoded.as_slice(), 3, decoded.len());
        assert(swiss_num@ =~= decoded@.skip(3));
        Ok(SturdyRefLocator { node_locator, swiss_num })
    }
}

} // verus!
