//! Share links (`vless://`, `trojan://`, `hysteria2://`, `hy2://`):
//! their grammar, their query parameters and the servers they describe.
use vstd::prelude::*;
use vstd::utf8::{decode_utf8, encode_utf8, valid_utf8};
use crate::model::{Server, ServerView, with_id};
use crate::text::{
    chars_of, decimal, first_index_in, is_ascii_digit, last_index_in,
    law_u16_decimal_round_trip, lemma_decimal_digits, lemma_first_index_at, lemma_last_index_at,
    lemma_split_on_concat, lemma_split_on_single, parse_u16, parse_u16_range,
    split_on, split_once, split_once_range, string_from_range, text_starts_with,
};

verus! {

// ---------------------------------------------------------------------------
// Query parameters
// ---------------------------------------------------------------------------

/// The `key=value` pair of one `&`-separated piece of a query, if it has
/// an `=`; the value runs to the end of the piece.
pub open spec fn pair_of(piece: Seq<char>) -> Seq<(Seq<char>, Seq<char>)> {
    match split_once(piece, '=') {
        (k, Some(v)) => seq![(k, v)],
        (_, None) => seq![],
    }
}

pub open spec fn pairs_of(pieces: Seq<Seq<char>>) -> Seq<(Seq<char>, Seq<char>)>
    decreases pieces.len(),
{
    if pieces.len() == 0 {
        seq![]
    } else {
        pair_of(pieces[0]) + pairs_of(pieces.drop_first())
    }
}

/// The pairs of a query string, in order of appearance.
pub open spec fn query_pairs(query: Seq<char>) -> Seq<(Seq<char>, Seq<char>)> {
    pairs_of(split_on(query, '&'))
}

/// The value of `key`: that of its last pair, since a later pair
/// replaces an earlier one with the same key.
pub open spec fn lookup(pairs: Seq<(Seq<char>, Seq<char>)>, key: Seq<char>) -> Option<Seq<char>>
    decreases pairs.len(),
{
    if pairs.len() == 0 {
        None
    } else if pairs.last().0 == key {
        Some(pairs.last().1)
    } else {
        lookup(pairs.drop_last(), key)
    }
}

/// One `key=value` pair of a query.
pub struct QueryParam {
    pub key: String,
    pub value: String,
}

/// The parameters of a query string.
pub struct QueryParams {
    pub pairs: Vec<QueryParam>,
}

impl View for QueryParams {
    type V = Seq<(Seq<char>, Seq<char>)>;

    open spec fn view(&self) -> Seq<(Seq<char>, Seq<char>)> {
        self.pairs@.map_values(|p: QueryParam| (p.key@, p.value@))
    }
}

impl QueryParams {
    /// The value of `key`, if any pair has it.
    pub fn get(&self, key: &str) -> (res: Option<String>)
        ensures
            res.deep_view() == lookup(self@, key@),
    {
        let k = key.to_owned();
        let mut i = self.pairs.len();
        assert(self@.take(i as int) =~= self@);
        while i > 0
            invariant
                i <= self.pairs.len(),
                k@ == key@,
                lookup(self@, key@) == lookup(self@.take(i as int), key@),
            decreases i,
        {
            let p = &self.pairs[i - 1];
            assert(self@.take(i as int).last() == (p.key@, p.value@));
            assert(self@.take(i as int).drop_last() =~= self@.take(i - 1));
            if p.key == k {
                return Some(p.value.clone());
            }
            i -= 1;
        }
        None
    }
}

/// Splits a query string into its `key=value` pairs.
pub fn parse_query_params(query: &str) -> (res: QueryParams)
    ensures
        res@ == query_pairs(query@),
{
    let v = chars_of(query);
    let n = v.len();
    let mut pairs: Vec<QueryParam> = Vec::new();
    let mut pos: usize = 0;
    assert(v@.subrange(0, n as int) =~= v@);
    loop
        invariant
            pos <= n == v.len(),
            v@ == query@,
            query_pairs(query@) == pairs@.map_values(|p: QueryParam| (p.key@, p.value@))
                + pairs_of(split_on(v@.subrange(pos as int, n as int), '&')),
        decreases n - pos,
    {
        let ghost rest = v@.subrange(pos as int, n as int);
        let ghost old_pairs = pairs@.map_values(|p: QueryParam| (p.key@, p.value@));
        let amp = first_index_in(&v, pos, n, '&');
        let end = match amp {
            Some(k) => pos + k,
            None => n,
        };
        proof {
            rest.index_of_first_ensures('&');
        }
        let ghost piece = v@.subrange(pos as int, end as int);
        let eq = first_index_in(&v, pos, end, '=');
        match eq {
            Some(k) => {
                let key = string_from_range(&v, pos, pos + k);
                let value = string_from_range(&v, pos + k + 1, end);
                proof {
                    assert(piece.take(k as int) =~= key@);
                    assert(piece.skip(k + 1) =~= value@);
                }
                pairs.push(QueryParam { key, value });
            },
            None => {},
        }
        let ghost new_pairs = pairs@.map_values(|p: QueryParam| (p.key@, p.value@));
        assert(new_pairs =~= old_pairs + pair_of(piece));
        match amp {
            Some(k) => {
                proof {
                    assert(rest.take(k as int) =~= piece);
                    assert(rest.skip(k + 1) =~= v@.subrange(end + 1, n as int));
                    let segs = split_on(rest, '&');
                    assert(segs[0] == piece);
                    assert(segs.drop_first() =~= split_on(v@.subrange(end + 1, n as int), '&'));
                    assert(pairs_of(segs) == pair_of(piece) + pairs_of(segs.drop_first()));
                }
                pos = end + 1;
            },
            None => {
                proof {
                    assert(piece =~= rest);
                    let segs = split_on(rest, '&');
                    assert(segs =~= seq![rest]);
                    assert(segs.drop_first() =~= Seq::<Seq<char>>::empty());
                    assert(segs[0] == piece);
                    assert(pairs_of(segs.drop_first()) =~= Seq::<(Seq<char>, Seq<char>)>::empty());
                    assert(pairs_of(segs) =~= pair_of(piece));
                }
                return QueryParams { pairs };
            },
        }
    }
}

// ---------------------------------------------------------------------------
// Percent-decoding of the server name
// ---------------------------------------------------------------------------

pub open spec fn hex_value(b: u8) -> Option<u8> {
    if 0x30 <= b <= 0x39 {
        Some((b - 0x30) as u8)
    } else if 0x41 <= b <= 0x46 {
        Some((b - 0x41 + 10) as u8)
    } else if 0x61 <= b <= 0x66 {
        Some((b - 0x61 + 10) as u8)
    } else {
        None
    }
}

/// Percent-decoding of bytes: `%` with two hex digits becomes the byte they
/// give; any other byte, a `%` among them, stays as it is.
pub open spec fn percent_decode(b: Seq<u8>) -> Seq<u8>
    decreases b.len(),
{
    if b.len() == 0 {
        seq![]
    } else if b[0] == 0x25 && b.len() >= 3 && hex_value(b[1]) is Some && hex_value(b[2]) is Some {
        seq![(hex_value(b[1]).unwrap() * 16 + hex_value(b[2]).unwrap()) as u8] + percent_decode(
            b.skip(3),
        )
    } else if b[0] == 0x25 && b.len() >= 3 && hex_value(b[1]) is Some {
        seq![b[0], b[1]] + percent_decode(b.skip(2))
    } else {
        seq![b[0]] + percent_decode(b.skip(1))
    }
}

/// The text that `s` percent-decodes to, or `None` where the decoded bytes
/// are not UTF-8.
pub open spec fn url_decode(s: Seq<char>) -> Option<Seq<char>> {
    let b = percent_decode(encode_utf8(s));
    if valid_utf8(b) {
        Some(decode_utf8(b))
    } else {
        None
    }
}

/// `urlencoding::decode`: percent-decodes the UTF-8 bytes of `s` (a `+`
/// stays a `+`) and reads the result as UTF-8, failing where it is not.
#[verifier::external_body]
fn url_decode_text(s: &str) -> (res: Option<String>)
    ensures
        res.deep_view() == url_decode(s@),
{
    match urlencoding::decode(s) {
        Ok(d) => Some(d.into_owned()),
        Err(_) => None,
    }
}

/// The display name carried by a link's fragment: decoded where that
/// succeeds, else as written.
pub open spec fn display_name(raw: Seq<char>) -> Seq<char> {
    match url_decode(raw) {
        Some(d) => d,
        None => raw,
    }
}

/// Percent-decodes a server name, keeping it as written when the decoded
/// bytes are not UTF-8.
pub fn decode_name(name: &str) -> (res: String)
    ensures
        res@ == display_name(name@),
{
    match url_decode_text(name) {
        Some(d) => d,
        None => name.to_owned(),
    }
}

// ---------------------------------------------------------------------------
// Link grammar
// ---------------------------------------------------------------------------

/// What a link holds after its scheme:
/// `credential@address:port?query#fragment`.
pub struct LinkParts {
    pub fragment: Option<Seq<char>>,
    pub credential: Seq<char>,
    pub address: Seq<char>,
    pub port: u16,
    pub query: Seq<char>,
}

/// Reads the part of a link after its scheme. The fragment starts at the
/// first `#`, the query at the first `?` before it; the credential ends at
/// the first `@`, and the port follows the last `:` after that.
pub open spec fn link_parts(rest: Seq<char>) -> Option<LinkParts> {
    let (main, fragment) = split_once(rest, '#');
    let (head, q) = split_once(main, '?');
    let query = match q {
        Some(q) => q,
        None => seq![],
    };
    match host_parts(head) {
        None => None,
        Some((credential, address, port)) => Some(
            LinkParts {
                fragment: fragment,
                credential: credential,
                address: address,
                port: port,
                query: query,
            },
        ),
    }
}

/// Reads `credential@address:port`: the credential ends at the first `@`,
/// and the port follows the last `:` after it.
pub open spec fn host_parts(head: Seq<char>) -> Option<(Seq<char>, Seq<char>, u16)> {
    match head.index_of_first('@') {
        None => None,
        Some(at) => {
            let host_port = head.skip(at + 1);
            match host_port.index_of_last(':') {
                None => None,
                Some(colon) => match parse_u16(host_port.skip(colon + 1)) {
                    None => None,
                    Some(port) => Some((head.take(at), host_port.take(colon), port)),
                },
            }
        },
    }
}

/// The parts of a link, as text.
pub struct LinkPieces {
    pub fragment: Option<String>,
    pub credential: String,
    pub address: String,
    pub port: u16,
    pub query: String,
}

impl View for LinkPieces {
    type V = LinkParts;

    open spec fn view(&self) -> LinkParts {
        LinkParts {
            fragment: self.fragment.deep_view(),
            credential: self.credential@,
            address: self.address@,
            port: self.port,
            query: self.query@,
        }
    }
}

/// Reads `v[start..end]` as `credential@address:port`.
fn split_host(v: &Vec<char>, start: usize, end: usize) -> (res: Option<(String, String, u16)>)
    requires
        start <= end <= v.len(),
    ensures
        match res {
            Some((c, a, p)) => host_parts(v@.subrange(start as int, end as int)) == Some(
                (c@, a@, p),
            ),
            None => host_parts(v@.subrange(start as int, end as int)) is None,
        },
{
    let ghost head = v@.subrange(start as int, end as int);
    let at = match first_index_in(v, start, end, '@') {
        Some(k) => k,
        None => {
            return None;
        },
    };
    let hp_start = start + at + 1;
    let ghost host_port = v@.subrange(hp_start as int, end as int);
    assert(head.skip(at + 1) =~= host_port);
    let colon = match last_index_in(v, hp_start, end, ':') {
        Some(k) => k,
        None => {
            return None;
        },
    };
    assert(host_port.skip(colon + 1) =~= v@.subrange(hp_start + colon + 1, end as int));
    let port = match parse_u16_range(v, hp_start + colon + 1, end) {
        Some(p) => p,
        None => {
            return None;
        },
    };
    let credential = string_from_range(v, start, start + at);
    let address = string_from_range(v, hp_start, hp_start + colon);
    assert(head.take(at as int) =~= credential@);
    assert(host_port.take(colon as int) =~= address@);
    Some((credential, address, port))
}

/// Reads `v[start..]` as the part of a link after its scheme.
pub fn split_link(v: &Vec<char>, start: usize) -> (res: Option<LinkPieces>)
    requires
        start <= v.len(),
    ensures
        res is Some <==> link_parts(v@.skip(start as int)) is Some,
        res matches Some(p) ==> p@ == link_parts(v@.skip(start as int)).unwrap(),
{
    let n = v.len();
    assert(v@.skip(start as int) =~= v@.subrange(start as int, n as int));
    let (main_end, fragment) = split_once_range(v, start, n, '#');
    let (head_end, q) = split_once_range(v, start, main_end, '?');
    let query = match q {
        Some(q) => q,
        None => String::new(),
    };
    match split_host(v, start, head_end) {
        Some((credential, address, port)) => Some(
            LinkPieces { fragment, credential, address, port, query },
        ),
        None => None,
    }
}


// ---------------------------------------------------------------------------
// Servers
// ---------------------------------------------------------------------------

pub open spec fn is_lower_hex(c: char) -> bool {
    ('0' <= c && c <= '9') || ('a' <= c && c <= 'f')
}

/// The text of a random (version 4) UUID in its hyphenated lower-case form,
/// such as `1b4e28ba-2fa1-4d2f-9b3c-0a1f2e3d4c5b`.
pub open spec fn is_uuid_v4_text(s: Seq<char>) -> bool {
    &&& s.len() == 36
    &&& forall|i: int|
        0 <= i < 36 ==> if i == 8 || i == 13 || i == 18 || i == 23 {
            #[trigger] s[i] == '-'
        } else {
            is_lower_hex(s[i])
        }
    &&& s[14] == '4'
    &&& (s[19] == '8' || s[19] == '9' || s[19] == 'a' || s[19] == 'b')
}

/// A fresh identifier: `uuid::Uuid::new_v4()` as text. It is random; what
/// holds of every outcome is its shape.
#[verifier::external_body]
fn new_server_id() -> (id: String)
    ensures
        is_uuid_v4_text(id@),
{
    uuid::Uuid::new_v4().to_string()
}

/// The server a link describes, its identifier left empty.
pub open spec fn server_of(
    parts: LinkParts,
    protocol: Seq<char>,
    default_name: Seq<char>,
    flow: Option<Seq<char>>,
    public_key: Option<Seq<char>>,
    short_id: Option<Seq<char>>,
    security: Option<Seq<char>>,
    fingerprint: Option<Seq<char>>,
    net_type: Option<Seq<char>>,
) -> ServerView {
    ServerView {
        id: seq![],
        name: display_name(
            match parts.fragment {
                Some(f) => f,
                None => default_name,
            },
        ),
        address: parts.address,
        port: parts.port,
        protocol: protocol,
        uuid: parts.credential,
        flow: flow,
        sni: lookup(query_pairs(parts.query), "sni"@),
        public_key: public_key,
        short_id: short_id,
        security: security,
        fingerprint: fingerprint,
        net_type: net_type,
        ping: None,
        status: "standby"@,
    }
}

/// `vless://uuid@address:port?query#name`: every Reality/TLS parameter is
/// taken from the query.
pub open spec fn vless_server(link: Seq<char>) -> Option<ServerView> {
    match link_parts(link.skip("vless://"@.len() as int)) {
        None => None,
        Some(p) => {
            let q = query_pairs(p.query);
            Some(
                server_of(
                    p,
                    "vless"@,
                    "VLESS Server"@,
                    lookup(q, "flow"@),
                    lookup(q, "pbk"@),
                    lookup(q, "sid"@),
                    lookup(q, "security"@),
                    lookup(q, "fp"@),
                    lookup(q, "type"@),
                ),
            )
        },
    }
}

/// `trojan://password@address:port?query#name`: only `sni` and `type` are
/// taken from the query.
pub open spec fn trojan_server(link: Seq<char>) -> Option<ServerView> {
    match link_parts(link.skip("trojan://"@.len() as int)) {
        None => None,
        Some(p) => Some(
            server_of(
                p,
                "trojan"@,
                "Trojan Server"@,
                None,
                None,
                None,
                None,
                None,
                lookup(query_pairs(p.query), "type"@),
            ),
        ),
    }
}

/// The length of the scheme of a Hysteria2 link, written `hy2://` or
/// `hysteria2://`.
pub open spec fn hysteria2_scheme_len(link: Seq<char>) -> int {
    if "hy2://"@.is_prefix_of(link) {
        "hy2://"@.len() as int
    } else {
        "hysteria2://"@.len() as int
    }
}

/// `hysteria2://auth@address:port?query#name`: only `sni` is taken from
/// the query.
pub open spec fn hysteria2_server(link: Seq<char>) -> Option<ServerView> {
    match link_parts(link.skip(hysteria2_scheme_len(link))) {
        None => None,
        Some(p) => Some(
            server_of(p, "hysteria2"@, "Hysteria2 Server"@, None, None, None, None, None, None),
        ),
    }
}

/// The server a share link describes, chosen by its scheme; `None` for
/// any other scheme or a link that does not follow the grammar.
pub open spec fn share_link_server(link: Seq<char>) -> Option<ServerView> {
    if "vless://"@.is_prefix_of(link) {
        vless_server(link)
    } else if "trojan://"@.is_prefix_of(link) {
        trojan_server(link)
    } else if "hysteria2://"@.is_prefix_of(link) || "hy2://"@.is_prefix_of(link) {
        hysteria2_server(link)
    } else {
        None
    }
}

/// `res` is the server `expected` describes, under a fresh identifier.
pub open spec fn parsed_as(res: Option<Server>, expected: Option<ServerView>) -> bool {
    match expected {
        None => res is None,
        Some(sv) => res matches Some(s) && s@ == with_id(sv, s.id@) && is_uuid_v4_text(s.id@),
    }
}

/// The name a link carries, or `default_name` when it has no fragment.
fn name_or(fragment: &Option<String>, default_name: &str) -> (res: String)
    ensures
        res@ == display_name(
            match fragment.deep_view() {
                Some(f) => f,
                None => default_name@,
            },
        ),
{
    match fragment {
        Some(f) => decode_name(f.as_str()),
        None => decode_name(default_name),
    }
}

/// Reads a `vless://` link.
pub fn parse_vless(link: &str) -> (res: Option<Server>)
    requires
        "vless://"@.is_prefix_of(link@),
    ensures
        parsed_as(res, vless_server(link@)),
{
    let v = chars_of(link);
    let scheme = chars_of("vless://");
    let p = match split_link(&v, scheme.len()) {
        Some(p) => p,
        None => {
            return None;
        },
    };
    let name = name_or(&p.fragment, "VLESS Server");
    let params = parse_query_params(p.query.as_str());
    let id = new_server_id();
    Some(
        Server {
            id,
            name,
            address: p.address,
            port: p.port,
            protocol: "vless".to_owned(),
            uuid: p.credential,
            flow: params.get("flow"),
            sni: params.get("sni"),
            public_key: params.get("pbk"),
            short_id: params.get("sid"),
            security: params.get("security"),
            fingerprint: params.get("fp"),
            net_type: params.get("type"),
            ping: None,
            status: "standby".to_owned(),
        },
    )
}

/// Reads a `trojan://` link.
pub fn parse_trojan(link: &str) -> (res: Option<Server>)
    requires
        "trojan://"@.is_prefix_of(link@),
    ensures
        parsed_as(res, trojan_server(link@)),
{
    let v = chars_of(link);
    let scheme = chars_of("trojan://");
    let p = match split_link(&v, scheme.len()) {
        Some(p) => p,
        None => {
            return None;
        },
    };
    let name = name_or(&p.fragment, "Trojan Server");
    let params = parse_query_params(p.query.as_str());
    let id = new_server_id();
    Some(
        Server {
            id,
            name,
            address: p.address,
            port: p.port,
            protocol: "trojan".to_owned(),
            uuid: p.credential,
            flow: None,
            sni: params.get("sni"),
            public_key: None,
            short_id: None,
            security: None,
            fingerprint: None,
            net_type: params.get("type"),
            ping: None,
            status: "standby".to_owned(),
        },
    )
}

/// Reads a `hysteria2://` or `hy2://` link.
pub fn parse_hysteria2(link: &str) -> (res: Option<Server>)
    requires
        "hysteria2://"@.is_prefix_of(link@) || "hy2://"@.is_prefix_of(link@),
    ensures
        parsed_as(res, hysteria2_server(link@)),
{
    let v = chars_of(link);
    let scheme = if text_starts_with(link, "hy2://") {
        chars_of("hy2://")
    } else {
        chars_of("hysteria2://")
    };
    let p = match split_link(&v, scheme.len()) {
        Some(p) => p,
        None => {
            return None;
        },
    };
    let name = name_or(&p.fragment, "Hysteria2 Server");
    let params = parse_query_params(p.query.as_str());
    let id = new_server_id();
    Some(
        Server {
            id,
            name,
            address: p.address,
            port: p.port,
            protocol: "hysteria2".to_owned(),
            uuid: p.credential,
            flow: None,
            sni: params.get("sni"),
            public_key: None,
            short_id: None,
            security: None,
            fingerprint: None,
            net_type: None,
            ping: None,
            status: "standby".to_owned(),
        },
    )
}

/// Reads a share link of any supported scheme.
pub fn parse_share_link(link: &str) -> (res: Option<Server>)
    ensures
        parsed_as(res, share_link_server(link@)),
{
    if text_starts_with(link, "vless://") {
        parse_vless(link)
    } else if text_starts_with(link, "trojan://") {
        parse_trojan(link)
    } else if text_starts_with(link, "hysteria2://") || text_starts_with(link, "hy2://") {
        parse_hysteria2(link)
    } else {
        None
    }
}


proof fn lemma_pairs_of_concat(x: Seq<Seq<char>>, y: Seq<Seq<char>>)
    ensures
        pairs_of(x + y) == pairs_of(x) + pairs_of(y),
    decreases x.len(),
{
    if x.len() == 0 {
        assert(x + y =~= y);
        assert(pairs_of(x) =~= Seq::<(Seq<char>, Seq<char>)>::empty());
        assert(pairs_of(x + y) =~= pairs_of(x) + pairs_of(y));
    } else {
        assert((x + y)[0] == x[0]);
        assert((x + y).drop_first() =~= x.drop_first() + y);
        lemma_pairs_of_concat(x.drop_first(), y);
        assert(pairs_of(x + y) =~= pairs_of(x) + pairs_of(y));
    }
}

/// A later parameter wins: appending `&key=value` to a query makes `value`
/// the value of `key`, whatever came before (for a key without `=` or `&`
/// and a value without `&`).
pub proof fn law_later_parameter_wins(query: Seq<char>, key: Seq<char>, value: Seq<char>)
    requires
        forall|i: int| 0 <= i < key.len() ==> key[i] != '=' && key[i] != '&',
        forall|i: int| 0 <= i < value.len() ==> value[i] != '&',
    ensures
        lookup(query_pairs(query + seq!['&'] + key + seq!['='] + value), key) == Some(value),
{
    let kv = key + seq!['='] + value;
    assert(query + seq!['&'] + key + seq!['='] + value =~= query + seq!['&'] + kv);
    lemma_split_on_concat(query, kv, '&');
    assert forall|i: int| 0 <= i < kv.len() implies kv[i] != '&' by {
        if i < key.len() {
            assert(kv[i] == key[i]);
        } else if i > key.len() {
            assert(kv[i] == value[i - key.len() - 1]);
        }
    }
    lemma_split_on_single(kv, '&');
    assert forall|j: int| 0 <= j < key.len() implies kv[j] != '=' by {
        assert(kv[j] == key[j]);
    }
    lemma_first_index_at(kv, '=', key.len() as int);
    assert(kv.take(key.len() as int) =~= key);
    assert(kv.skip(key.len() + 1int) =~= value);
    assert(pair_of(kv) =~= seq![(key, value)]);
    let segs = split_on(kv, '&');
    assert(segs.drop_first() =~= Seq::<Seq<char>>::empty());
    assert(segs[0] == kv);
    assert(pairs_of(segs.drop_first()) =~= Seq::<(Seq<char>, Seq<char>)>::empty());
    assert(pairs_of(segs) =~= seq![(key, value)]);
    lemma_pairs_of_concat(split_on(query, '&'), split_on(kv, '&'));
    let all = pairs_of(split_on(query, '&')) + seq![(key, value)];
    assert(all.last() == (key, value));
}


/// `s` holds no `c`.
pub open spec fn lacks(s: Seq<char>, c: char) -> bool {
    forall|i: int| 0 <= i < s.len() ==> s[i] != c
}

/// The text of a link after its scheme, written from its parts:
/// `credential@address:port?query#name`.
pub open spec fn link_text(
    credential: Seq<char>,
    address: Seq<char>,
    port: u16,
    query: Seq<char>,
    name: Seq<char>,
) -> Seq<char> {
    credential + seq!['@'] + address + seq![':'] + decimal(port as nat) + seq!['?'] + query
        + seq!['#'] + name
}

/// A link written from its parts reads back as those parts, provided the
/// credential holds no `@`, `?` or `#`, the address no `?` or `#`, and the
/// query no `#` (the address may hold `:` and `@`, the name anything).
pub proof fn law_link_reads_back(
    credential: Seq<char>,
    address: Seq<char>,
    port: u16,
    query: Seq<char>,
    name: Seq<char>,
)
    requires
        lacks(credential, '@'),
        lacks(credential, '?'),
        lacks(credential, '#'),
        lacks(address, '?'),
        lacks(address, '#'),
        lacks(query, '#'),
    ensures
        link_parts(link_text(credential, address, port, query, name)) == Some(
            LinkParts {
                fragment: Some(name),
                credential: credential,
                address: address,
                port: port,
                query: query,
            },
        ),
{
    let d = decimal(port as nat);
    lemma_decimal_digits(port as nat);
    law_u16_decimal_round_trip(port);
    assert forall|i: int| 0 <= i < d.len() implies d[i] != '#' && d[i] != '?' && d[i] != ':'
        by {
        assert(is_ascii_digit(d[i]));
    }
    let host_port = address + seq![':'] + d;
    let head = credential + seq!['@'] + host_port;
    let main = head + seq!['?'] + query;
    let rest = main + seq!['#'] + name;
    assert(rest =~= link_text(credential, address, port, query, name));
    // The fragment starts after the first `#`.
    assert forall|j: int| 0 <= j < main.len() implies rest[j] != '#' by {
        assert(rest[j] == main[j]);
        if j < head.len() {
            assert(main[j] == head[j]);
            if j > credential.len() {
                assert(head[j] == host_port[j - credential.len() - 1]);
                if j - credential.len() - 1 > address.len() {
                    assert(host_port[j - credential.len() - 1] == d[j - credential.len() - 1
                        - address.len() - 1]);
                }
            }
        } else if j > head.len() {
            assert(main[j] == query[j - head.len() - 1]);
        }
    }
    lemma_first_index_at(rest, '#', main.len() as int);
    assert(rest.take(main.len() as int) =~= main);
    assert(rest.skip(main.len() + 1int) =~= name);
    // The query starts after the first `?`.
    assert forall|j: int| 0 <= j < head.len() implies main[j] != '?' by {
        assert(main[j] == head[j]);
        if j > credential.len() {
            assert(head[j] == host_port[j - credential.len() - 1]);
            if j - credential.len() - 1 > address.len() {
                assert(host_port[j - credential.len() - 1] == d[j - credential.len() - 1
                    - address.len() - 1]);
            }
        }
    }
    lemma_first_index_at(main, '?', head.len() as int);
    assert(main.take(head.len() as int) =~= head);
    assert(main.skip(head.len() + 1int) =~= query);
    // The credential ends at the first `@`.
    assert forall|j: int| 0 <= j < credential.len() implies head[j] != '@' by {
        assert(head[j] == credential[j]);
    }
    lemma_first_index_at(head, '@', credential.len() as int);
    assert(head.take(credential.len() as int) =~= credential);
    assert(head.skip(credential.len() + 1int) =~= host_port);
    // The port follows the last `:`.
    assert forall|j: int| address.len() < j < host_port.len() implies host_port[j] != ':' by {
        assert(host_port[j] == d[j - address.len() - 1]);
    }
    lemma_last_index_at(host_port, ':', address.len() as int);
    assert(host_port.take(address.len() as int) =~= address);
    assert(host_port.skip(address.len() + 1int) =~= d);
}

/// A `vless://` link written from its parts gives the server with those
/// parts: its credential as UUID, its address and port, and its name.
pub proof fn law_vless_link_reads_back(
    credential: Seq<char>,
    address: Seq<char>,
    port: u16,
    query: Seq<char>,
    name: Seq<char>,
)
    requires
        lacks(credential, '@'),
        lacks(credential, '?'),
        lacks(credential, '#'),
        lacks(address, '?'),
        lacks(address, '#'),
        lacks(query, '#'),
    ensures
        ({
            let link = "vless://"@ + link_text(credential, address, port, query, name);
            &&& share_link_server(link) is Some
            &&& share_link_server(link).unwrap().uuid == credential
            &&& share_link_server(link).unwrap().address == address
            &&& share_link_server(link).unwrap().port == port
            &&& share_link_server(link).unwrap().name == display_name(name)
            &&& share_link_server(link).unwrap().protocol == "vless"@
        }),
{
    let body = link_text(credential, address, port, query, name);
    let link = "vless://"@ + body;
    law_link_reads_back(credential, address, port, query, name);
    assert(link.skip("vless://"@.len() as int) =~= body);
    assert("vless://"@.is_prefix_of(link)) by {
        assert(link.subrange(0, "vless://"@.len() as int) =~= "vless://"@);
    }
}


/// Every server read from a link is on standby with no ping yet, and its
/// protocol follows the link's scheme; only VLESS links carry flow, public
/// key, short id, security and fingerprint, and Hysteria2 links no
/// transport type. Links of other schemes give no server.
pub proof fn law_server_fields_follow_scheme(link: Seq<char>)
    ensures
        share_link_server(link) matches Some(sv) ==> {
            &&& sv.status == "standby"@
            &&& sv.ping is None
            &&& "vless://"@.is_prefix_of(link) ==> sv.protocol == "vless"@
            &&& !"vless://"@.is_prefix_of(link) ==> {
                &&& sv.flow is None
                &&& sv.public_key is None
                &&& sv.short_id is None
                &&& sv.security is None
                &&& sv.fingerprint is None
            }
            &&& !"vless://"@.is_prefix_of(link) && "trojan://"@.is_prefix_of(link) ==> sv.protocol
                == "trojan"@
            &&& !"vless://"@.is_prefix_of(link) && !"trojan://"@.is_prefix_of(link) ==> {
                &&& sv.protocol == "hysteria2"@
                &&& sv.net_type is None
            }
        },
        !"vless://"@.is_prefix_of(link) && !"trojan://"@.is_prefix_of(link)
            && !"hysteria2://"@.is_prefix_of(link) && !"hy2://"@.is_prefix_of(link) ==> share_link_server(link) is None,
{
}


/// `scheme + body` starts with `scheme`, and what follows it is `body`.
proof fn lemma_scheme_then(scheme: Seq<char>, body: Seq<char>)
    ensures
        scheme.is_prefix_of(scheme + body),
        (scheme + body).skip(scheme.len() as int) == body,
{
    assert((scheme + body).subrange(0, scheme.len() as int) =~= scheme);
    assert((scheme + body).skip(scheme.len() as int) =~= body);
}

/// Every parameter a VLESS server carries is the value its query gives
/// that key (the last pair with the key), whatever other parameters the
/// query holds; the same for the SNI and transport type of a Trojan server.
pub proof fn law_link_parameters_come_from_query(link: Seq<char>)
    ensures
        vless_server(link) matches Some(sv) ==> {
            let q = query_pairs(link_parts(link.skip("vless://"@.len() as int)).unwrap().query);
            &&& sv.flow == lookup(q, "flow"@)
            &&& sv.sni == lookup(q, "sni"@)
            &&& sv.public_key == lookup(q, "pbk"@)
            &&& sv.short_id == lookup(q, "sid"@)
            &&& sv.security == lookup(q, "security"@)
            &&& sv.fingerprint == lookup(q, "fp"@)
            &&& sv.net_type == lookup(q, "type"@)
        },
        trojan_server(link) matches Some(sv) ==> {
            let q = query_pairs(link_parts(link.skip("trojan://"@.len() as int)).unwrap().query);
            &&& sv.sni == lookup(q, "sni"@)
            &&& sv.net_type == lookup(q, "type"@)
        },
{
}

/// A VLESS link whose query ends in `&flow=v` gives flow `v`, whatever
/// the rest of the query holds (other parameters or none).
pub proof fn law_vless_flow_is_taken(
    credential: Seq<char>,
    address: Seq<char>,
    port: u16,
    query: Seq<char>,
    flow: Seq<char>,
    name: Seq<char>,
)
    requires
        lacks(credential, '@'),
        lacks(credential, '?'),
        lacks(credential, '#'),
        lacks(address, '?'),
        lacks(address, '#'),
        lacks(query, '#'),
        lacks(flow, '&'),
        lacks(flow, '#'),
    ensures
        ({
            let q = query + seq!['&'] + "flow"@ + seq!['='] + flow;
            let link = "vless://"@ + link_text(credential, address, port, q, name);
            share_link_server(link) matches Some(sv) && sv.flow == Some(flow)
                && sv.protocol == "vless"@
        }),
{
    reveal_strlit("flow");
    let q = query + seq!['&'] + "flow"@ + seq!['='] + flow;
    assert forall|i: int| 0 <= i < q.len() implies q[i] != '#' by {
        if i < query.len() {
            assert(q[i] == query[i]);
        } else if i > query.len() + 5 {
            assert(q[i] == flow[i - query.len() - 6]);
        }
    }
    law_link_reads_back(credential, address, port, q, name);
    law_later_parameter_wins(query, "flow"@, flow);
    lemma_scheme_then("vless://"@, link_text(credential, address, port, q, name));
}

/// A Trojan link whose query ends in `&type=v` gives transport type `v`,
/// whatever the rest of the query holds (with or without an `sni`).
pub proof fn law_trojan_type_is_taken(
    credential: Seq<char>,
    address: Seq<char>,
    port: u16,
    query: Seq<char>,
    net_type: Seq<char>,
    name: Seq<char>,
)
    requires
        lacks(credential, '@'),
        lacks(credential, '?'),
        lacks(credential, '#'),
        lacks(address, '?'),
        lacks(address, '#'),
        lacks(query, '#'),
        lacks(net_type, '&'),
        lacks(net_type, '#'),
    ensures
        ({
            let q = query + seq!['&'] + "type"@ + seq!['='] + net_type;
            let link = "trojan://"@ + link_text(credential, address, port, q, name);
            share_link_server(link) matches Some(sv) && sv.net_type == Some(net_type)
                && sv.protocol == "trojan"@
        }),
{
    reveal_strlit("type");
    reveal_strlit("trojan://");
    reveal_strlit("vless://");
    let q = query + seq!['&'] + "type"@ + seq!['='] + net_type;
    assert forall|i: int| 0 <= i < q.len() implies q[i] != '#' by {
        if i < query.len() {
            assert(q[i] == query[i]);
        } else if i > query.len() + 5 {
            assert(q[i] == net_type[i - query.len() - 6]);
        }
    }
    law_link_reads_back(credential, address, port, q, name);
    law_later_parameter_wins(query, "type"@, net_type);
    let link = "trojan://"@ + link_text(credential, address, port, q, name);
    lemma_scheme_then("trojan://"@, link_text(credential, address, port, q, name));
    assert(link[0] == 't');
    assert(!"vless://"@.is_prefix_of(link)) by {
        assert("vless://"@[0] == 'v');
        if "vless://"@.is_prefix_of(link) {
            assert(link.subrange(0, 8)[0] == link[0]);
        }
    }
}

/// A link written `hysteria2://` (as well as `hy2://`) reads as the
/// Hysteria2 server it describes: for one written from its parts, a server
/// with those parts comes back.
pub proof fn law_hysteria2_links_are_read(
    credential: Seq<char>,
    address: Seq<char>,
    port: u16,
    query: Seq<char>,
    name: Seq<char>,
    short_scheme: bool,
)
    requires
        lacks(credential, '@'),
        lacks(credential, '?'),
        lacks(credential, '#'),
        lacks(address, '?'),
        lacks(address, '#'),
        lacks(query, '#'),
    ensures
        ({
            let scheme = if short_scheme {
                "hy2://"@
            } else {
                "hysteria2://"@
            };
            let link = scheme + link_text(credential, address, port, query, name);
            &&& share_link_server(link) is Some
            &&& share_link_server(link) == hysteria2_server(link)
            &&& share_link_server(link).unwrap().protocol == "hysteria2"@
            &&& share_link_server(link).unwrap().uuid == credential
            &&& share_link_server(link).unwrap().address == address
            &&& share_link_server(link).unwrap().port == port
            &&& share_link_server(link).unwrap().name == display_name(name)
        }),
{
    reveal_strlit("hy2://");
    reveal_strlit("hysteria2://");
    reveal_strlit("trojan://");
    reveal_strlit("vless://");
    let scheme = if short_scheme {
        "hy2://"@
    } else {
        "hysteria2://"@
    };
    let body = link_text(credential, address, port, query, name);
    let link = scheme + body;
    law_link_reads_back(credential, address, port, query, name);
    lemma_scheme_then(scheme, body);
    assert(link[0] == 'h');
    assert(!"vless://"@.is_prefix_of(link)) by {
        if "vless://"@.is_prefix_of(link) {
            assert(link.subrange(0, 8)[0] == link[0]);
        }
    }
    assert(!"trojan://"@.is_prefix_of(link)) by {
        if "trojan://"@.is_prefix_of(link) {
            assert(link.subrange(0, 9)[0] == link[0]);
        }
    }
    if short_scheme {
        assert(hysteria2_scheme_len(link) == 6);
    } else {
        assert(link[2] == 's');
        assert(!"hy2://"@.is_prefix_of(link)) by {
            if "hy2://"@.is_prefix_of(link) {
                assert(link.subrange(0, 6)[2] == link[2]);
            }
        }
        assert(hysteria2_scheme_len(link) == 12);
    }
}

} // verus!
