//! Subscriptions: a list of share links, one per line, possibly sent as
//! Base64.
use vstd::prelude::*;
use vstd::utf8::{decode_utf8, encode_utf8, valid_utf8};
use crate::model::{Server, ServerView, with_id};
use crate::share_link::{is_uuid_v4_text, parse_share_link, share_link_server};
use crate::text::{
    chars_of, first_index_in, is_ascii_alphanumeric, is_ascii_alphanumeric_char, is_white_space,
    is_white_space_char, lemma_split_on_concat, range_starts_with, split_on, string_from_range,
    text_from_utf8_lossy, trim, trim_bounds, trim_string, utf8_lossy,
};

verus! {

// ---------------------------------------------------------------------------
// Base64
// ---------------------------------------------------------------------------

/// A character that may occur in a Base64 subscription.
pub open spec fn is_base64_text_char(c: char) -> bool {
    is_ascii_alphanumeric(c) || c == '+' || c == '/' || c == '=' || is_white_space(c)
}

/// Content is taken for Base64 when it is longer than 50 bytes (in UTF-8)
/// and holds only Base64 characters and whitespace.
pub open spec fn is_base64_text(s: Seq<char>) -> bool {
    &&& encode_utf8(s).len() > 50
    &&& forall|i: int| 0 <= i < s.len() ==> is_base64_text_char(#[trigger] s[i])
}

/// Tells whether subscription content looks like Base64.
pub fn is_base64(s: &str) -> (res: bool)
    ensures
        res == is_base64_text(s@),
{
    if s.as_bytes().len() <= 50 {
        return false;
    }
    let v = chars_of(s);
    let mut i: usize = 0;
    while i < v.len()
        invariant
            i <= v.len(),
            v@ == s@,
            forall|k: int| 0 <= k < i ==> is_base64_text_char(#[trigger] v@[k]),
        decreases v.len() - i,
    {
        let c = v[i];
        if !(is_ascii_alphanumeric_char(c) || c == '+' || c == '/' || c == '=' || is_white_space_char(
            c,
        )) {
            assert(!is_base64_text_char(s@[i as int]));
            return false;
        }
        i += 1;
    }
    true
}

/// What the `base64` crate's `STANDARD` engine decodes `input` to (the
/// RFC 4648 alphabet with `+` and `/`, canonical `=` padding required), or
/// the text of its error.
pub uninterp spec fn base64_standard_decode(input: Seq<u8>) -> Result<Seq<u8>, Seq<char>>;

/// `base64::engine::general_purpose::STANDARD.decode`, its error given as
/// text.
#[verifier::external_body]
fn decode_base64_standard(input: &[u8]) -> (res: Result<Vec<u8>, String>)
    ensures
        match res {
            Ok(b) => base64_standard_decode(input@) == Ok::<Seq<u8>, Seq<char>>(b@),
            Err(e) => base64_standard_decode(input@) == Err::<Seq<u8>, Seq<char>>(e@),
        },
{
    base64::Engine::decode(&base64::engine::general_purpose::STANDARD, input).map_err(
        |e| e.to_string(),
    )
}

/// What decoding subscription content as Base64 gives: the trimmed text's
/// bytes are decoded, and the result read as UTF-8 (lossily where it is not
/// valid UTF-8).
pub open spec fn base64_text_decode(s: Seq<char>) -> Result<Seq<char>, Seq<char>> {
    match base64_standard_decode(encode_utf8(trim(s))) {
        Ok(b) => Ok(
            if valid_utf8(b) {
                decode_utf8(b)
            } else {
                utf8_lossy(b)
            },
        ),
        Err(e) => Err(e),
    }
}

/// Decodes Base64 subscription content into text.
pub fn base64_decode(s: &str) -> (res: Result<String, String>)
    ensures
        match res {
            Ok(t) => base64_text_decode(s@) == Ok::<Seq<char>, Seq<char>>(t@),
            Err(e) => base64_text_decode(s@) == Err::<Seq<char>, Seq<char>>(e@),
        },
{
    let trimmed = trim_string(s);
    match decode_base64_standard(trimmed.as_str().as_bytes()) {
        Ok(bytes) => Ok(text_from_utf8_lossy(bytes.as_slice())),
        Err(e) => Err(e),
    }
}

/// The text of a subscription: its Base64 decoding where it looks like
/// Base64 and decodes, else the content as it came.
pub open spec fn subscription_text(content: Seq<char>) -> Seq<char> {
    if is_base64_text(content) {
        match base64_text_decode(content) {
            Ok(t) => t,
            Err(_) => content,
        }
    } else {
        content
    }
}

/// Decodes subscription content when it looks like Base64.
pub fn decode_if_base64(content: String) -> (res: String)
    ensures
        res@ == subscription_text(content@),
{
    if is_base64(content.as_str()) {
        match base64_decode(content.as_str()) {
            Ok(t) => t,
            Err(_) => content,
        }
    } else {
        content
    }
}

// ---------------------------------------------------------------------------
// Lines
// ---------------------------------------------------------------------------

/// A trimmed line that holds a link: not empty and not a comment
/// (`#` or `//`).
pub open spec fn is_entry_line(t: Seq<char>) -> bool {
    t.len() > 0 && !seq!['#'].is_prefix_of(t) && !seq!['/', '/'].is_prefix_of(t)
}

/// The server of one line, if it is an entry line with a valid link.
pub open spec fn line_server(line: Seq<char>) -> Option<ServerView> {
    if is_entry_line(trim(line)) {
        share_link_server(trim(line))
    } else {
        None
    }
}

pub open spec fn lines_servers(lines: Seq<Seq<char>>) -> Seq<ServerView>
    decreases lines.len(),
{
    if lines.len() == 0 {
        seq![]
    } else {
        match line_server(lines[0]) {
            Some(sv) => seq![sv] + lines_servers(lines.drop_first()),
            None => lines_servers(lines.drop_first()),
        }
    }
}

/// The servers of a subscription's text, in order: one for each line that,
/// trimmed, is neither empty nor a comment and holds a valid link. (Lines
/// end at `\n`; a `\r` before it is whitespace and trimmed away.)
pub open spec fn subscription_servers(content: Seq<char>) -> Seq<ServerView> {
    lines_servers(split_on(content, '\n'))
}

/// `res` holds the servers `expected` describes, in order, each under a
/// fresh identifier.
pub open spec fn servers_match(res: Seq<Server>, expected: Seq<ServerView>) -> bool {
    &&& res.len() == expected.len()
    &&& forall|i: int|
        0 <= i < res.len() ==> #[trigger] res[i]@ == with_id(expected[i], res[i].id@)
            && is_uuid_v4_text(res[i].id@)
}

/// Reads every link of a subscription's text.
pub fn parse_subscription_content(content: &str) -> (res: Vec<Server>)
    ensures
        servers_match(res@, subscription_servers(content@)),
{
    let v = chars_of(content);
    let n = v.len();
    let hash = chars_of("#");
    let slashes = chars_of("//");
    proof {
        reveal_strlit("#");
        reveal_strlit("//");
        assert(hash@ =~= seq!['#']);
        assert(slashes@ =~= seq!['/', '/']);
    }
    let mut res: Vec<Server> = Vec::new();
    let ghost mut done: Seq<ServerView> = seq![];
    let mut pos: usize = 0;
    assert(v@.subrange(0, n as int) =~= v@);
    loop
        invariant
            pos <= n == v.len(),
            v@ == content@,
            hash@ == seq!['#'],
            slashes@ == seq!['/', '/'],
            subscription_servers(content@) == done + lines_servers(
                split_on(v@.subrange(pos as int, n as int), '\n'),
            ),
            servers_match(res@, done),
        decreases n - pos,
    {
        let ghost rest = v@.subrange(pos as int, n as int);
        let nl = first_index_in(&v, pos, n, '\n');
        let end = match nl {
            Some(k) => pos + k,
            None => n,
        };
        let ghost line = v@.subrange(pos as int, end as int);
        let (a, b) = trim_bounds(&v, pos, end);
        let ghost t = v@.subrange(a as int, b as int);
        assert(t == trim(line));
        let entry = b > a && !range_starts_with(&v, a, b, &hash) && !range_starts_with(
            &v,
            a,
            b,
            &slashes,
        );
        assert(entry == is_entry_line(t));
        let ghost old_done = done;
        if entry {
            let text = string_from_range(&v, a, b);
            match parse_share_link(text.as_str()) {
                Some(server) => {
                    proof {
                        done = done.push(share_link_server(t).unwrap());
                    }
                    res.push(server);
                },
                None => {},
            }
        }
        assert(servers_match(res@, done));
        assert(done == old_done + match line_server(line) {
            Some(sv) => seq![sv],
            None => Seq::<ServerView>::empty(),
        });
        match nl {
            Some(k) => {
                proof {
                    rest.index_of_first_ensures('\n');
                    assert(rest.take(k as int) =~= line);
                    assert(rest.skip(k + 1) =~= v@.subrange(end + 1, n as int));
                    let segs = split_on(rest, '\n');
                    assert(segs[0] == line);
                    assert(segs.drop_first() =~= split_on(v@.subrange(end + 1, n as int), '\n'));
                }
                pos = end + 1;
            },
            None => {
                proof {
                    assert(line =~= rest);
                    let segs = split_on(rest, '\n');
                    assert(segs =~= seq![rest]);
                    assert(segs.drop_first() =~= Seq::<Seq<char>>::empty());
                    assert(segs[0] == line);
                    assert(lines_servers(segs.drop_first()) =~= Seq::<ServerView>::empty());
                }
                return res;
            },
        }
    }
}


/// The servers of subscription content as it arrives: decoded from Base64
/// where it looks like Base64, then read line by line.
pub fn subscription_content_servers(content: String) -> (res: Vec<Server>)
    ensures
        servers_match(res@, subscription_servers(subscription_text(content@))),
{
    let decoded = decode_if_base64(content);
    parse_subscription_content(decoded.as_str())
}

/// The answer given when pasted content holds no server.
pub open spec fn no_servers_message() -> Seq<char> {
    "Не удалось найти ни одного сервера"@
}

/// Reads pasted subscription content, refusing content that holds no
/// server.
pub fn parse_subscription_content_string(content: String) -> (res: Result<Vec<Server>, String>)
    ensures
        match res {
            Ok(v) => v.len() > 0 && servers_match(
                v@,
                subscription_servers(subscription_text(content@)),
            ),
            Err(m) => subscription_servers(subscription_text(content@)).len() == 0 && m@
                == no_servers_message(),
        },
{
    let servers = subscription_content_servers(content);
    if servers.len() == 0 {
        return Err("Не удалось найти ни одного сервера".to_owned());
    }
    Ok(servers)
}


proof fn lemma_lines_servers_concat(x: Seq<Seq<char>>, y: Seq<Seq<char>>)
    ensures
        lines_servers(x + y) == lines_servers(x) + lines_servers(y),
    decreases x.len(),
{
    if x.len() == 0 {
        assert(x + y =~= y);
        assert(lines_servers(x) =~= Seq::<ServerView>::empty());
        assert(lines_servers(x + y) =~= lines_servers(x) + lines_servers(y));
    } else {
        assert((x + y)[0] == x[0]);
        assert((x + y).drop_first() =~= x.drop_first() + y);
        lemma_lines_servers_concat(x.drop_first(), y);
        assert(lines_servers(x + y) =~= lines_servers(x) + lines_servers(y));
    }
}

/// Subscriptions combine line by line: the servers of two texts joined by a
/// line break are those of the first, then those of the second.
pub proof fn law_subscriptions_concatenate(a: Seq<char>, b: Seq<char>)
    ensures
        subscription_servers(a + seq!['\n'] + b) == subscription_servers(a)
            + subscription_servers(b),
{
    lemma_split_on_concat(a, b, '\n');
    lemma_lines_servers_concat(split_on(a, '\n'), split_on(b, '\n'));
}


/// A character of the standard Base64 alphabet (RFC 4648): `A`-`Z`, `a`-`z`,
/// `0`-`9`, `+` and `/`.
pub open spec fn in_base64_alphabet(c: char) -> bool {
    ||| ('A' <= c && c <= 'Z')
    ||| ('a' <= c && c <= 'z')
    ||| ('0' <= c && c <= '9')
    ||| c == '+'
    ||| c == '/'
}

/// Content is detected as Base64 exactly when it is longer than 50 bytes in
/// UTF-8 and each of its characters is of the Base64 alphabet, the `=`
/// padding, or whitespace; so a standard Base64 encoding (padding included)
/// longer than 50 characters is detected.
pub proof fn law_base64_detection(s: Seq<char>)
    ensures
        is_base64_text(s) <==> encode_utf8(s).len() > 50 && forall|i: int|
            0 <= i < s.len() ==> in_base64_alphabet(#[trigger] s[i]) || s[i] == '='
                || is_white_space(s[i]),
        (forall|i: int| 0 <= i < s.len() ==> in_base64_alphabet(#[trigger] s[i]) || s[i] == '=')
            && s.len() > 50 ==> is_base64_text(s),
{
    if (forall|i: int| 0 <= i < s.len() ==> in_base64_alphabet(#[trigger] s[i]) || s[i] == '=')
        && s.len() > 50 {
        assert forall|i: int| 0 <= i < s.len() implies '\0' <= #[trigger] s[i] <= '\u{7f}' by {
            assert(in_base64_alphabet(s[i]) || s[i] == '=');
        }
        lemma_ascii_utf8_len(s);
    }
}

/// Text of ASCII characters takes one byte per character in UTF-8.
proof fn lemma_ascii_utf8_len(s: Seq<char>)
    requires
        vstd::utf8::is_ascii_chars(s),
    ensures
        encode_utf8(s).len() == s.len(),
{
    vstd::utf8::is_ascii_chars_encode_utf8(s);
}

} // verus!
