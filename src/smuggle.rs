//! Auxiliary request headers carried through the `Sec-WebSocket-Protocol`
//! negotiation field, where browsers let an application put them on a
//! WebSocket upgrade request.
use base64::Engine;
use std::collections::BTreeMap;
use vstd::prelude::*;

use crate::bytes::{bytes_eq, split_bytes, split_on, starts_with};
use crate::router::bytes_of;

verus! {

/// A header as name and value.
pub type HeaderView = (Seq<char>, Seq<char>);

/// `,`, which separates the protocol tokens of one header value.
pub const COMMA: u8 = 44;

/// ` `, placed after the comma when tokens are joined again.
pub const SPACE: u8 = 32;

/// A horizontal tab.
pub const TAB: u8 = 9;

/// The reserved prefix of a token that carries smuggled headers:
/// `encore.dev.auth_data.` in ASCII.
pub open spec fn smuggle_prefix() -> Seq<u8> {
    seq![
        101u8, 110u8, 99u8, 111u8, 114u8, 101u8, 46u8, 100u8, 101u8, 118u8, 46u8, 97u8, 117u8,
        116u8, 104u8, 95u8, 100u8, 97u8, 116u8, 97u8, 46u8,
    ]
}

fn smuggle_prefix_bytes() -> (r: Vec<u8>)
    ensures
        r@ == smuggle_prefix(),
{
    vec![
        101u8, 110u8, 99u8, 111u8, 114u8, 101u8, 46u8, 100u8, 101u8, 118u8, 46u8, 97u8, 117u8,
        116u8, 104u8, 95u8, 100u8, 97u8, 116u8, 97u8, 46u8,
    ]
}

/// What the URL-safe, unpadded base64 decoder makes of `s`; `None` where it
/// refuses the input.
pub uninterp spec fn b64url_decoded(s: Seq<u8>) -> Option<Seq<u8>>;

/// The entries, ordered by name, of the JSON object of strings that `b`
/// holds; `None` where `b` is not such an object.
pub uninterp spec fn json_string_map(b: Seq<u8>) -> Option<Seq<HeaderView>>;

#[verifier::external_type_specification]
#[verifier::external_body]
pub struct ExDecodeError(base64::DecodeError);

#[verifier::external_type_specification]
#[verifier::external_body]
pub struct ExJsonError(serde_json::Error);

/// Relies on base64's `URL_SAFE_NO_PAD` engine: `decode` is a function of
/// its input alone.
#[verifier::external_body]
fn decode_b64url(data: &[u8]) -> (r: Result<Vec<u8>, base64::DecodeError>)
    ensures
        match r {
            Ok(v) => b64url_decoded(data@) == Some(v@),
            Err(_) => b64url_decoded(data@) is None,
        },
{
    base64::engine::general_purpose::URL_SAFE_NO_PAD.decode(data)
}

/// Relies on `serde_json::from_slice` into a `BTreeMap<String, String>`: a
/// function of its input alone, whose entries come out ordered by name.
#[verifier::external_body]
fn parse_string_map(b: &[u8]) -> (r: Result<Vec<(String, String)>, serde_json::Error>)
    ensures
        match r {
            Ok(v) => json_string_map(b@) == Some(v@.map_values(|h: (String, String)| (h.0@, h.1@))),
            Err(_) => json_string_map(b@) is None,
        },
{
    serde_json::from_slice::<BTreeMap<String, String>>(b).map(|m| m.into_iter().collect())
}

/// Why the smuggled headers of an upgrade request could not be read.
#[derive(Clone, Copy, PartialEq, Eq, Debug, Structural)]
pub enum SmuggleError {
    /// A header value holds a byte that is neither visible ASCII nor a tab.
    NotVisibleAscii,
    /// A reserved token's payload is not unpadded URL-safe base64.
    BadBase64,
    /// A reserved token's payload does not decode to a JSON object of strings.
    BadJson,
    /// A reserved token smuggles a header that only the gateway may set.
    ReservedHeader,
    /// A reserved token smuggles a header whose name is not an HTTP token or
    /// whose value holds a control byte.
    InvalidHeader,
}

impl SmuggleError {
    /// Every smuggling failure is malformed input from the client: 400.
    pub fn status(&self) -> (r: u16)
        ensures
            r == 400,
    {
        400
    }
}

pub open spec fn ascii_lower(b: u8) -> u8 {
    if 65 <= b && b <= 90 {
        (b + 32) as u8
    } else {
        b
    }
}

pub open spec fn lower(s: Seq<u8>) -> Seq<u8> {
    s.map_values(|b: u8| ascii_lower(b))
}

/// `host` in ASCII.
pub open spec fn host_name() -> Seq<u8> {
    seq![104u8, 111u8, 115u8, 116u8]
}

/// `sec-websocket-protocol` in ASCII.
pub open spec fn protocol_name() -> Seq<u8> {
    seq![
        115u8, 101u8, 99u8, 45u8, 119u8, 101u8, 98u8, 115u8, 111u8, 99u8, 107u8, 101u8,
        116u8, 45u8, 112u8, 114u8, 111u8, 116u8, 111u8, 99u8, 111u8, 108u8,
    ]
}

/// `x-encore-` in ASCII: the prefix of the call-metadata headers that the
/// gateway writes itself, the caller's identity among them.
pub open spec fn meta_prefix() -> Seq<u8> {
    seq![120u8, 45u8, 101u8, 110u8, 99u8, 111u8, 114u8, 101u8, 45u8]
}

/// A header that cannot be smuggled, whatever its case: `Host`, which the
/// gateway sets to the upstream's; `Sec-WebSocket-Protocol`, which it
/// rebuilds; and the call-metadata headers, so that no caller can assert an
/// identity past the authenticator. Any other name may be smuggled.
pub open spec fn is_reserved_name(name: Seq<char>) -> bool {
    let l = lower(bytes_of(name));
    ||| l == host_name()
    ||| l == protocol_name()
    ||| (meta_prefix().len() <= l.len() && l.subrange(0, meta_prefix().len() as int) == meta_prefix())
}

/// Whether `name` is one that cannot be smuggled.
pub fn reserved_name(name: &String) -> (r: bool)
    ensures
        r == is_reserved_name(name@),
{
    let b = name.as_str().as_bytes();
    let mut l: Vec<u8> = Vec::new();
    let mut i: usize = 0;
    while i < b.len()
        invariant
            i <= b@.len(),
            l@ == lower(b@.subrange(0, i as int)),
        decreases b@.len() - i,
    {
        let c = b[i];
        let lc = if 65 <= c && c <= 90 {
            c + 32
        } else {
            c
        };
        l.push(lc);
        i = i + 1;
        assert(l@ =~= lower(b@.subrange(0, i as int)));
    }
    assert(b@.subrange(0, i as int) =~= b@);
    let host: Vec<u8> = vec![104u8, 111u8, 115u8, 116u8];
    let proto: Vec<u8> = vec![
        115u8, 101u8, 99u8, 45u8, 119u8, 101u8, 98u8, 115u8, 111u8, 99u8, 107u8, 101u8,
        116u8, 45u8, 112u8, 114u8, 111u8, 116u8, 111u8, 99u8, 111u8, 108u8,
    ];
    let meta: Vec<u8> = vec![120u8, 45u8, 101u8, 110u8, 99u8, 111u8, 114u8, 101u8, 45u8];
    bytes_eq(l.as_slice(), host.as_slice()) || bytes_eq(l.as_slice(), proto.as_slice())
        || starts_with(l.as_slice(), meta.as_slice())
}

pub open spec fn is_visible_byte(b: u8) -> bool {
    (32 <= b && b < 127) || b == TAB
}

pub open spec fn is_visible(v: Seq<u8>) -> bool {
    forall|i: int| 0 <= i < v.len() ==> is_visible_byte(#[trigger] v[i])
}

pub open spec fn is_ws(b: u8) -> bool {
    b == SPACE || b == TAB
}

pub open spec fn trim_start(s: Seq<u8>) -> Seq<u8>
    decreases s.len(),
{
    if s.len() > 0 && is_ws(s[0]) {
        trim_start(s.drop_first())
    } else {
        s
    }
}

pub open spec fn trim_end(s: Seq<u8>) -> Seq<u8>
    decreases s.len(),
{
    if s.len() > 0 && is_ws(s.last()) {
        trim_end(s.drop_last())
    } else {
        s
    }
}

/// `s` without the spaces and tabs at either end.
pub open spec fn trim(s: Seq<u8>) -> Seq<u8> {
    trim_end(trim_start(s))
}

/// `parts` joined with `, `.
pub open spec fn join(parts: Seq<Seq<u8>>) -> Seq<u8>
    decreases parts.len(),
{
    if parts.len() == 0 {
        Seq::empty()
    } else if parts.len() == 1 {
        parts[0]
    } else {
        join(parts.drop_last()) + seq![COMMA, SPACE] + parts.last()
    }
}

/// What one trimmed token contributes: the headers it smuggles, or itself as
/// a protocol to keep.
pub open spec fn token_spec(t: Seq<u8>) -> Result<(Seq<HeaderView>, Seq<Seq<u8>>), SmuggleError> {
    let p = smuggle_prefix();
    if p.len() <= t.len() && t.subrange(0, p.len() as int) == p {
        match b64url_decoded(t.subrange(p.len() as int, t.len() as int)) {
            None => Err(SmuggleError::BadBase64),
            Some(d) => match json_string_map(d) {
                None => Err(SmuggleError::BadJson),
                Some(m) => if has_invalid(m) {
                    Err(SmuggleError::InvalidHeader)
                } else if has_reserved(m) {
                    Err(SmuggleError::ReservedHeader)
                } else {
                    Ok((m, Seq::empty()))
                },
            },
        }
    } else {
        Ok((Seq::empty(), seq![t]))
    }
}

/// The headers smuggled in a run of tokens, in order, and the tokens kept;
/// the first failing token decides the error.
pub open spec fn tokens_spec(tokens: Seq<Seq<u8>>) -> Result<(Seq<HeaderView>, Seq<Seq<u8>>), SmuggleError>
    decreases tokens.len(),
{
    if tokens.len() == 0 {
        Ok((Seq::empty(), Seq::empty()))
    } else {
        match tokens_spec(tokens.drop_last()) {
            Err(e) => Err(e),
            Ok((a, k)) => match token_spec(trim(tokens.last())) {
                Err(e) => Err(e),
                Ok((a2, k2)) => Ok((a + a2, k + k2)),
            },
        }
    }
}

/// What the smuggled headers of one header value are, and the protocol
/// header that replaces it, if any token is left.
pub open spec fn value_spec(v: Seq<u8>) -> Result<(Seq<HeaderView>, Option<Seq<u8>>), SmuggleError> {
    if !is_visible(v) {
        Err(SmuggleError::NotVisibleAscii)
    } else {
        match tokens_spec(split_on(v, COMMA)) {
            Err(e) => Err(e),
            Ok((a, k)) => Ok((a, if k.len() > 0 { Some(join(k)) } else { None })),
        }
    }
}

/// The headers added and the protocol headers kept for all the
/// `Sec-WebSocket-Protocol` values of a request, value by value.
pub open spec fn values_spec(vs: Seq<Seq<u8>>) -> Result<(Seq<HeaderView>, Seq<Seq<u8>>), SmuggleError>
    decreases vs.len(),
{
    if vs.len() == 0 {
        Ok((Seq::empty(), Seq::empty()))
    } else {
        match values_spec(vs.drop_last()) {
            Err(e) => Err(e),
            Ok((a, k)) => match value_spec(vs.last()) {
                Err(e) => Err(e),
                Ok((a2, None)) => Ok((a + a2, k)),
                Ok((a2, Some(p))) => Ok((a + a2, k.push(p))),
            },
        }
    }
}

/// The rewrite of an upgrade request's protocol headers: headers to append,
/// and the `Sec-WebSocket-Protocol` values that replace the old ones.
pub struct WsRewrite {
    pub added: Vec<(String, String)>,
    pub protocols: Vec<Vec<u8>>,
}

pub open spec fn headers_view(v: Seq<(String, String)>) -> Seq<HeaderView> {
    v.map_values(|h: (String, String)| (h.0@, h.1@))
}

pub open spec fn values_view(v: Seq<Vec<u8>>) -> Seq<Seq<u8>> {
    v.map_values(|b: Vec<u8>| b@)
}

fn copy_range(s: &[u8], a: usize, b: usize) -> (r: Vec<u8>)
    requires
        a <= b <= s@.len(),
    ensures
        r@ == s@.subrange(a as int, b as int),
{
    let mut out: Vec<u8> = Vec::new();
    let mut i: usize = a;
    while i < b
        invariant
            a <= i <= b <= s@.len(),
            out@ == s@.subrange(a as int, i as int),
        decreases b - i,
    {
        out.push(s[i]);
        i = i + 1;
        assert(out@ =~= s@.subrange(a as int, i as int));
    }
    out
}

/// `s` without the spaces and tabs at either end.
pub fn trim_bytes(s: &[u8]) -> (r: Vec<u8>)
    ensures
        r@ == trim(s@),
{
    let mut start: usize = 0;
    assert(s@.subrange(0, s@.len() as int) =~= s@);
    while start < s.len() && (s[start] == SPACE || s[start] == TAB)
        invariant
            start <= s@.len(),
            trim_start(s@.subrange(start as int, s@.len() as int)) == trim_start(s@),
        decreases s@.len() - start,
    {
        assert(s@.subrange(start as int, s@.len() as int).drop_first() =~= s@.subrange(
            start + 1,
            s@.len() as int,
        ));
        start = start + 1;
    }
    let mut end: usize = s.len();
    while end > start && (s[end - 1] == SPACE || s[end - 1] == TAB)
        invariant
            start <= end <= s@.len(),
            trim_start(s@.subrange(start as int, s@.len() as int)) == trim_start(s@),
            trim_end(s@.subrange(start as int, end as int)) == trim(s@),
        decreases end,
    {
        assert(s@.subrange(start as int, end as int).drop_last() =~= s@.subrange(
            start as int,
            end - 1,
        ));
        end = end - 1;
    }
    copy_range(s, start, end)
}

/// `parts` joined with `, `.
pub fn join_protocols(parts: &Vec<Vec<u8>>) -> (r: Vec<u8>)
    ensures
        r@ == join(values_view(parts@)),
{
    let ghost pv = values_view(parts@);
    let mut out: Vec<u8> = Vec::new();
    let mut i: usize = 0;
    while i < parts.len()
        invariant
            pv == values_view(parts@),
            i <= parts@.len(),
            out@ == join(pv.subrange(0, i as int)),
        decreases parts@.len() - i,
    {
        assert(pv.subrange(0, i + 1).drop_last() =~= pv.subrange(0, i as int));
        if i > 0 {
            out.push(COMMA);
            out.push(SPACE);
        }
        let mut j: usize = 0;
        let ghost before = out@;
        while j < parts[i].len()
            invariant
                i < parts@.len(),
                j <= parts@[i as int]@.len(),
                out@ == before + parts@[i as int]@.subrange(0, j as int),
            decreases parts@[i as int]@.len() - j,
        {
            out.push(parts[i][j]);
            j = j + 1;
            assert(out@ =~= before + parts@[i as int]@.subrange(0, j as int));
        }
        assert(parts@[i as int]@.subrange(0, j as int) =~= parts@[i as int]@);
        if i == 0 {
            assert(out@ =~= join(pv.subrange(0, 1)));
        } else {
            assert(out@ =~= join(pv.subrange(0, i + 1)));
        }
        i = i + 1;
    }
    assert(pv.subrange(0, i as int) =~= pv);
    out
}

fn is_visible_exec(v: &[u8]) -> (r: bool)
    ensures
        r == is_visible(v@),
{
    let mut i: usize = 0;
    while i < v.len()
        invariant
            i <= v@.len(),
            forall|j: int| 0 <= j < i ==> is_visible_byte(#[trigger] v@[j]),
        decreases v@.len() - i,
    {
        let b = v[i];
        if !((32 <= b && b < 127) || b == TAB) {
            assert(!is_visible_byte(v@[i as int]));
            return false;
        }
        i = i + 1;
    }
    true
}

/// Some header of `m` has a name that cannot be smuggled.
pub open spec fn has_reserved(m: Seq<HeaderView>) -> bool {
    exists|x: int| 0 <= x < m.len() && is_reserved_name(#[trigger] m[x].0)
}

/// A byte that may stand in an HTTP header name.
pub open spec fn is_tchar(b: u8) -> bool {
    ||| (48 <= b && b <= 57)
    ||| (65 <= b && b <= 90)
    ||| (97 <= b && b <= 122)
    ||| b == 33 || b == 35 || b == 36 || b == 37 || b == 38 || b == 39 || b == 42 || b == 43
    ||| b == 45 || b == 46 || b == 94 || b == 95 || b == 96 || b == 124 || b == 126
}

/// An HTTP header name: a non-empty token.
pub open spec fn is_valid_name(n: Seq<char>) -> bool {
    bytes_of(n).len() > 0 && forall|i: int| 0 <= i < bytes_of(n).len() ==> is_tchar(#[trigger] bytes_of(n)[i])
}

/// An HTTP header value: no control byte but the tab.
pub open spec fn is_valid_value(v: Seq<char>) -> bool {
    forall|i: int|
        0 <= i < bytes_of(v).len() ==> ((32 <= #[trigger] bytes_of(v)[i] && bytes_of(v)[i] != 127)
            || bytes_of(v)[i] == TAB)
}

/// Some header of `m` is not a valid HTTP header.
pub open spec fn has_invalid(m: Seq<HeaderView>) -> bool {
    exists|x: int| 0 <= x < m.len() && !is_valid_header(#[trigger] m[x])
}

pub open spec fn is_valid_header(h: HeaderView) -> bool {
    is_valid_name(h.0) && is_valid_value(h.1)
}

fn valid_name(n: &String) -> (r: bool)
    ensures
        r == is_valid_name(n@),
{
    let b = n.as_str().as_bytes();
    if b.len() == 0 {
        return false;
    }
    let mut i: usize = 0;
    while i < b.len()
        invariant
            b@ == bytes_of(n@),
            i <= b@.len(),
            forall|j: int| 0 <= j < i ==> is_tchar(#[trigger] b@[j]),
        decreases b@.len() - i,
    {
        let c = b[i];
        let ok = (48 <= c && c <= 57) || (65 <= c && c <= 90) || (97 <= c && c <= 122) || c == 33
            || c == 35 || c == 36 || c == 37 || c == 38 || c == 39 || c == 42 || c == 43 || c == 45
            || c == 46 || c == 94 || c == 95 || c == 96 || c == 124 || c == 126;
        if !ok {
            assert(!is_tchar(b@[i as int]));
            return false;
        }
        i = i + 1;
    }
    true
}

fn valid_value(v: &String) -> (r: bool)
    ensures
        r == is_valid_value(v@),
{
    let b = v.as_str().as_bytes();
    let mut i: usize = 0;
    while i < b.len()
        invariant
            b@ == bytes_of(v@),
            i <= b@.len(),
            forall|j: int| 0 <= j < i ==> ((32 <= #[trigger] b@[j] && b@[j] != 127) || b@[j] == TAB),
        decreases b@.len() - i,
    {
        let c = b[i];
        if !((32 <= c && c != 127) || c == TAB) {
            return false;
        }
        i = i + 1;
    }
    true
}

/// Whether any of the headers is not a valid HTTP header.
fn any_invalid(entries: &Vec<(String, String)>) -> (r: bool)
    ensures
        r == has_invalid(headers_view(entries@)),
{
    let mut j: usize = 0;
    while j < entries.len()
        invariant
            j <= entries@.len(),
            forall|x: int| 0 <= x < j ==> is_valid_header(#[trigger] headers_view(entries@)[x]),
        decreases entries@.len() - j,
    {
        assert(headers_view(entries@)[j as int] == (entries@[j as int].0@, entries@[j as int].1@));
        if !(valid_name(&entries[j].0) && valid_value(&entries[j].1)) {
            let ghost m = headers_view(entries@);
            assert(0 <= j < m.len());
            assert(!is_valid_header(m[j as int]));
            return true;
        }
        j = j + 1;
    }
    false
}

/// Appends the headers that a reserved token smuggles, decoded: all of them,
/// in order, or none where one is not a valid HTTP header or has a name that
/// cannot be smuggled.
pub fn append_smuggled(added: &mut Vec<(String, String)>, entries: &Vec<(String, String)>) -> (r: Result<(), SmuggleError>)
    ensures
        r is Ok <==> !has_invalid(headers_view(entries@)) && !has_reserved(headers_view(entries@)),
        r is Ok ==> headers_view(final(added)@) == headers_view(old(added)@) + headers_view(entries@),
        r matches Err(e) ==> final(added)@ == old(added)@ && e == (if has_invalid(headers_view(entries@)) {
            SmuggleError::InvalidHeader
        } else {
            SmuggleError::ReservedHeader
        }),
{
    if any_invalid(entries) {
        return Err(SmuggleError::InvalidHeader);
    }
    if any_reserved(entries) {
        return Err(SmuggleError::ReservedHeader);
    }
    append_headers(added, entries);
    Ok(())
}

fn append_headers(added: &mut Vec<(String, String)>, more: &Vec<(String, String)>)
    ensures
        headers_view(final(added)@) == headers_view(old(added)@) + headers_view(more@),
{
    let ghost before = headers_view(added@);
    let mut j: usize = 0;
    while j < more.len()
        invariant
            j <= more@.len(),
            headers_view(added@) == before + headers_view(more@).subrange(0, j as int),
        decreases more@.len() - j,
    {
        let h = (more[j].0.clone(), more[j].1.clone());
        assert(headers_view(more@)[j as int] == (h.0@, h.1@));
        proof {
            assert(headers_view(added@.push(h)) =~= headers_view(added@).push((h.0@, h.1@)));
        }
        added.push(h);
        j = j + 1;
        assert(headers_view(added@) =~= before + headers_view(more@).subrange(0, j as int));
    }
    assert(headers_view(more@).subrange(0, j as int) =~= headers_view(more@));
}

/// Whether any of the headers has a name that cannot be smuggled.
fn any_reserved(entries: &Vec<(String, String)>) -> (r: bool)
    ensures
        r == has_reserved(headers_view(entries@)),
{
    let mut j: usize = 0;
    while j < entries.len()
        invariant
            j <= entries@.len(),
            forall|x: int| 0 <= x < j ==> !is_reserved_name(#[trigger] headers_view(entries@)[x].0),
        decreases entries@.len() - j,
    {
        assert(headers_view(entries@)[j as int].0 == entries@[j as int].0@);
        if reserved_name(&entries[j].0) {
            assert(is_reserved_name(headers_view(entries@)[j as int].0));
            return true;
        }
        j = j + 1;
    }
    false
}

proof fn lemma_tokens_step(tokens: Seq<Seq<u8>>, i: int)
    requires
        0 <= i < tokens.len(),
    ensures
        tokens_spec(tokens.subrange(0, i + 1)) == (match tokens_spec(tokens.subrange(0, i)) {
            Err(e) => Err(e),
            Ok((a, k)) => match token_spec(trim(tokens[i])) {
                Err(e) => Err(e),
                Ok((a2, k2)) => Ok((a + a2, k + k2)),
            },
        }),
{
    assert(tokens.subrange(0, i + 1).drop_last() =~= tokens.subrange(0, i));
}

proof fn lemma_tokens_err_sticks(s: Seq<Seq<u8>>, n: int, m: int)
    requires
        0 <= n <= m <= s.len(),
        tokens_spec(s.subrange(0, n)) is Err,
    ensures
        tokens_spec(s.subrange(0, m)) == tokens_spec(s.subrange(0, n)),
    decreases m - n,
{
    if m > n {
        lemma_tokens_err_sticks(s, n, m - 1);
        assert(s.subrange(0, m).drop_last() =~= s.subrange(0, m - 1));
    }
}

proof fn lemma_values_err_sticks(s: Seq<Seq<u8>>, n: int, m: int)
    requires
        0 <= n <= m <= s.len(),
        values_spec(s.subrange(0, n)) is Err,
    ensures
        values_spec(s.subrange(0, m)) == values_spec(s.subrange(0, n)),
    decreases m - n,
{
    if m > n {
        lemma_values_err_sticks(s, n, m - 1);
        assert(s.subrange(0, m).drop_last() =~= s.subrange(0, m - 1));
    }
}

/// A token that fails makes the whole value fail with its error.
proof fn lemma_token_fails(v: Seq<u8>, tv: Seq<Seq<u8>>, i: int, e: SmuggleError)
    requires
        tv == split_on(v, COMMA),
        is_visible(v),
        0 <= i < tv.len(),
        tokens_spec(tv.subrange(0, i)) is Ok,
        token_spec(trim(tv[i])) == Err::<(Seq<HeaderView>, Seq<Seq<u8>>), SmuggleError>(e),
    ensures
        value_spec(v) == Err::<(Seq<HeaderView>, Option<Seq<u8>>), SmuggleError>(e),
{
    lemma_tokens_step(tv, i);
    lemma_tokens_err_sticks(tv, i + 1, tv.len() as int);
    assert(tv.subrange(0, tv.len() as int) =~= tv);
}

/// Reads one `Sec-WebSocket-Protocol` value: the headers its reserved tokens
/// smuggle, in order, and the value that replaces it, made of the other
/// tokens, if any is left.
pub fn read_protocol_value(v: &[u8]) -> (r: Result<(Vec<(String, String)>, Option<Vec<u8>>), SmuggleError>)
    ensures
        match r {
            Ok((a, p)) => value_spec(v@) == Ok::<(Seq<HeaderView>, Option<Seq<u8>>), SmuggleError>(
                (headers_view(a@), match p {
                    Some(p) => Some(p@),
                    None => None,
                }),
            ),
            Err(e) => value_spec(v@) == Err::<(Seq<HeaderView>, Option<Seq<u8>>), SmuggleError>(e),
        },
{
    if !is_visible_exec(v) {
        return Err(SmuggleError::NotVisibleAscii);
    }
    let tokens = split_bytes(v, COMMA);
    let ghost tv = values_view(tokens@);
    assert(tv == split_on(v@, COMMA));
    let prefix = smuggle_prefix_bytes();
    let mut added: Vec<(String, String)> = Vec::new();
    let mut kept: Vec<Vec<u8>> = Vec::new();
    let mut i: usize = 0;
    assert(tv.subrange(0, 0) =~= Seq::<Seq<u8>>::empty());
    assert(headers_view(added@) =~= Seq::<HeaderView>::empty());
    assert(values_view(kept@) =~= Seq::<Seq<u8>>::empty());
    while i < tokens.len()
        invariant
            tv == values_view(tokens@),
            tv == split_on(v@, COMMA),
            is_visible(v@),
            prefix@ == smuggle_prefix(),
            i <= tokens@.len(),
            tokens_spec(tv.subrange(0, i as int)) == Ok::<(Seq<HeaderView>, Seq<Seq<u8>>), SmuggleError>(
                (headers_view(added@), values_view(kept@)),
            ),
        decreases tokens@.len() - i,
    {
        proof {
            lemma_tokens_step(tv, i as int);
        }
        let t = trim_bytes(tokens[i].as_slice());
        assert(t@ == trim(tv[i as int]));
        if starts_with(t.as_slice(), prefix.as_slice()) {
            let data = copy_range(t.as_slice(), prefix.len(), t.len());
            let decoded = match decode_b64url(data.as_slice()) {
                Ok(d) => d,
                Err(_) => {
                    proof {
                        assert(data@ == t@.subrange(smuggle_prefix().len() as int, t@.len() as int));
                        lemma_token_fails(v@, tv, i as int, SmuggleError::BadBase64);
                    }
                    return Err(SmuggleError::BadBase64);
                },
            };
            let entries = match parse_string_map(decoded.as_slice()) {
                Ok(m) => m,
                Err(_) => {
                    proof {
                        assert(data@ == t@.subrange(smuggle_prefix().len() as int, t@.len() as int));
                        lemma_token_fails(v@, tv, i as int, SmuggleError::BadJson);
                    }
                    return Err(SmuggleError::BadJson);
                },
            };
            match append_smuggled(&mut added, &entries) {
                Ok(()) => {},
                Err(e) => {
                    proof {
                        assert(data@ == t@.subrange(smuggle_prefix().len() as int, t@.len() as int));
                        lemma_token_fails(v@, tv, i as int, e);
                    }
                    return Err(e);
                },
            }
            assert(values_view(kept@) + Seq::<Seq<u8>>::empty() =~= values_view(kept@));
        } else {
            proof {
                assert(values_view(kept@.push(t)) =~= values_view(kept@) + seq![t@]);
                assert(headers_view(added@) + Seq::<HeaderView>::empty() =~= headers_view(added@));
            }
            kept.push(t);
        }
        i = i + 1;
    }
    assert(tv.subrange(0, i as int) =~= tv);
    if kept.len() > 0 {
        let joined = join_protocols(&kept);
        Ok((added, Some(joined)))
    } else {
        Ok((added, None))
    }
}

/// Unpacks the headers smuggled in the `Sec-WebSocket-Protocol` values of an
/// upgrade request. Each reserved token (`encore.dev.auth_data.` followed by
/// unpadded URL-safe base64 of a JSON object of strings) adds its entries as
/// headers; the other tokens of a value, if any, are joined again into one
/// value that replaces it. Malformed data, or a reserved header name, fails
/// the whole rewrite.
pub fn update_request_from_websocket_protocol(values: &Vec<Vec<u8>>) -> (r: Result<WsRewrite, SmuggleError>)
    ensures
        match r {
            Ok(w) => values_spec(values_view(values@)) == Ok::<(Seq<HeaderView>, Seq<Seq<u8>>), SmuggleError>(
                (headers_view(w.added@), values_view(w.protocols@)),
            ),
            Err(e) => values_spec(values_view(values@)) == Err::<(Seq<HeaderView>, Seq<Seq<u8>>), SmuggleError>(e),
        },
{
    let ghost vv = values_view(values@);
    let mut added: Vec<(String, String)> = Vec::new();
    let mut protocols: Vec<Vec<u8>> = Vec::new();
    let mut i: usize = 0;
    assert(vv.subrange(0, 0) =~= Seq::<Seq<u8>>::empty());
    assert(headers_view(added@) =~= Seq::<HeaderView>::empty());
    assert(values_view(protocols@) =~= Seq::<Seq<u8>>::empty());
    while i < values.len()
        invariant
            vv == values_view(values@),
            i <= values@.len(),
            values_spec(vv.subrange(0, i as int)) == Ok::<(Seq<HeaderView>, Seq<Seq<u8>>), SmuggleError>(
                (headers_view(added@), values_view(protocols@)),
            ),
        decreases values@.len() - i,
    {
        assert(vv.subrange(0, i + 1).drop_last() =~= vv.subrange(0, i as int));
        assert(vv[i as int] == values@[i as int]@);
        let (more, kept) = match read_protocol_value(values[i].as_slice()) {
            Ok(x) => x,
            Err(e) => {
                proof {
                    lemma_values_err_sticks(vv, i + 1, vv.len() as int);
                    assert(vv.subrange(0, vv.len() as int) =~= vv);
                }
                return Err(e);
            },
        };
        append_headers(&mut added, &more);
        match kept {
            Some(p) => {
                proof {
                    assert(values_view(protocols@.push(p)) =~= values_view(protocols@).push(p@));
                }
                protocols.push(p);
            },
            None => {},
        }
        i = i + 1;
    }
    assert(vv.subrange(0, i as int) =~= vv);
    Ok(WsRewrite { added, protocols })
}

/// A trimmed token that carries smuggled headers.
pub open spec fn is_smuggled(t: Seq<u8>) -> bool {
    smuggle_prefix().len() <= t.len() && t.subrange(0, smuggle_prefix().len() as int) == smuggle_prefix()
}

/// The genuine protocol tokens of a run of tokens: trimmed, in order,
/// without those that carry smuggled headers.
pub open spec fn genuine(tokens: Seq<Seq<u8>>) -> Seq<Seq<u8>>
    decreases tokens.len(),
{
    if tokens.len() == 0 {
        Seq::empty()
    } else if is_smuggled(trim(tokens.last())) {
        genuine(tokens.drop_last())
    } else {
        genuine(tokens.drop_last()).push(trim(tokens.last()))
    }
}

proof fn lemma_tokens_kept(tokens: Seq<Seq<u8>>)
    requires
        tokens_spec(tokens) is Ok,
    ensures
        tokens_spec(tokens)->Ok_0.1 == genuine(tokens),
    decreases tokens.len(),
{
    if tokens.len() > 0 {
        lemma_tokens_kept(tokens.drop_last());
        let k = tokens_spec(tokens.drop_last())->Ok_0.1;
        if !is_smuggled(trim(tokens.last())) {
            assert(k + seq![trim(tokens.last())] =~= k.push(trim(tokens.last())));
        } else {
            assert(k + Seq::<Seq<u8>>::empty() =~= k);
        }
    }
}

/// When a protocol value is read without error, the value that replaces it
/// holds exactly its genuine tokens, joined with `, `, and none that
/// carries smuggled headers; a value whose tokens were all smuggled leaves
/// no protocol value.
pub proof fn lemma_value_keeps_genuine_tokens(v: Seq<u8>)
    requires
        value_spec(v) is Ok,
    ensures
        value_spec(v)->Ok_0.1 == (if genuine(split_on(v, COMMA)).len() > 0 {
            Some(join(genuine(split_on(v, COMMA))))
        } else {
            None
        }),
        forall|i: int|
            0 <= i < genuine(split_on(v, COMMA)).len() ==> !is_smuggled(
                #[trigger] genuine(split_on(v, COMMA))[i],
            ),
{
    lemma_tokens_kept(split_on(v, COMMA));
    lemma_genuine_not_smuggled(split_on(v, COMMA));
}

proof fn lemma_genuine_not_smuggled(tokens: Seq<Seq<u8>>)
    ensures
        forall|i: int| 0 <= i < genuine(tokens).len() ==> !is_smuggled(#[trigger] genuine(tokens)[i]),
    decreases tokens.len(),
{
    if tokens.len() > 0 {
        lemma_genuine_not_smuggled(tokens.drop_last());
        let g = genuine(tokens.drop_last());
        assert forall|i: int| 0 <= i < genuine(tokens).len() implies !is_smuggled(
            #[trigger] genuine(tokens)[i],
        ) by {
            if i < g.len() {
                assert(genuine(tokens)[i] == g[i]);
            }
        }
    }
}

/// The protocol values that replace a request's `Sec-WebSocket-Protocol`
/// values: for each, in order, its genuine tokens joined with `, `, and
/// nothing for a value without genuine tokens.
pub open spec fn kept_values(vs: Seq<Seq<u8>>) -> Seq<Seq<u8>>
    decreases vs.len(),
{
    if vs.len() == 0 {
        Seq::empty()
    } else if genuine(split_on(vs.last(), COMMA)).len() > 0 {
        kept_values(vs.drop_last()).push(join(genuine(split_on(vs.last(), COMMA))))
    } else {
        kept_values(vs.drop_last())
    }
}

/// When the protocol values of a request are read without error, the values
/// that replace them are exactly their genuine tokens, value by value; no
/// token that carries smuggled headers is left, and a value whose tokens
/// were all smuggled leaves nothing.
pub proof fn lemma_values_keep_genuine_tokens(vs: Seq<Seq<u8>>)
    requires
        values_spec(vs) is Ok,
    ensures
        values_spec(vs)->Ok_0.1 == kept_values(vs),
    decreases vs.len(),
{
    if vs.len() > 0 {
        lemma_values_keep_genuine_tokens(vs.drop_last());
        lemma_value_keeps_genuine_tokens(vs.last());
    }
}

} // verus!
