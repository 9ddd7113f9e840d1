//! The opening handshake of the feed, and the requests for historical trades.

use vstd::prelude::*;
use vstd::string::StringExecFns;
use crate::base64::base64_encode;
use crate::sha1::sha1;
use crate::text::{
    chars_of, find_chars, find_subslice, lower_chars, push_decimal, slice_chars, split_chars,
    string_of,
};

verus! {

/// What the server appends to the key before it hashes it.
pub const WS_GUID: &'static str = "258EAFA5-E914-47DA-95CA-C5AB0DC85B11";

/// Longest header that is waited for.
pub const MAX_HEADER: usize = 16384;

/// The text of bytes, with what is not UTF-8 replaced.
pub uninterp spec fn lossy(bytes: Seq<u8>) -> Seq<char>;

/// `String::from_utf8_lossy` of the standard library: the text of bytes that are UTF-8,
/// and otherwise a text with replacement characters, which depends on the bytes alone.
#[verifier::external_body]
fn text_of(bytes: &[u8]) -> (s: String)
    ensures
        s@ == lossy(bytes@),
        forall|t: Seq<char>| bytes@ == #[trigger] vstd::utf8::encode_utf8(t) ==> s@ == t,
{
    String::from_utf8_lossy(bytes).into_owned()
}

/// The text of a payload, with what is not UTF-8 replaced.
pub fn decode_text(bytes: &[u8]) -> (s: String)
    ensures
        s@ == lossy(bytes@),
        forall|t: Seq<char>| bytes@ == #[trigger] vstd::utf8::encode_utf8(t) ==> s@ == t,
{
    text_of(bytes)
}

/// The value that the server proves its handshake with.
pub open spec fn accept_of(key: Seq<char>) -> Seq<char> {
    crate::base64::encoded(crate::sha1::digest(vstd::utf8::encode_utf8(key + WS_GUID@)))
}

/// The value that the server has to answer to a key.
pub fn accept_key(key: &str) -> (r: String)
    ensures
        r@ == accept_of(key@),
{
    let mut both = String::new();
    both.append(key);
    both.append(WS_GUID);
    assert(both@ == key@ + WS_GUID@);
    let hash = sha1(both.as_str().as_bytes());
    base64_encode(hash.as_slice())
}

/// The request that opens the feed.
pub open spec fn request_of(host: Seq<char>, key: Seq<char>) -> Seq<char> {
    "GET / HTTP/1.1\r\nHost: "@ + host
        + "\r\nUpgrade: websocket\r\nConnection: Upgrade\r\nSec-WebSocket-Key: "@ + key
        + "\r\nSec-WebSocket-Version: 13\r\nOrigin: https://"@ + host + "\r\n\r\n"@
}

/// The request that opens the feed.
pub fn handshake_request(host: &str, key: &str) -> (r: String)
    ensures
        r@ == request_of(host@, key@),
{
    let mut r = String::new();
    r.append("GET / HTTP/1.1\r\nHost: ");
    r.append(host);
    r.append("\r\nUpgrade: websocket\r\nConnection: Upgrade\r\nSec-WebSocket-Key: ");
    r.append(key);
    r.append("\r\nSec-WebSocket-Version: 13\r\nOrigin: https://");
    r.append(host);
    r.append("\r\n\r\n");
    assert(r@ == request_of(host@, key@));
    r
}

/// A line without the carriage return before its line feed.
pub open spec fn without_return(line: Seq<char>) -> Seq<char> {
    if line.len() > 0 && line.last() == '\r' {
        line.drop_last()
    } else {
        line
    }
}

/// The first line of a text.
pub open spec fn first_line(s: Seq<char>) -> Seq<char> {
    match crate::text::first(s, seq!['\n']) {
        Some(i) => without_return(s.take(i)),
        None => s,
    }
}

/// The line proves the handshake: it is the accept header and holds the expected value.
pub open spec fn proves(line: Seq<char>, expected: Seq<char>) -> bool {
    crate::text::occurs_at(line, "sec-websocket-accept:"@, 0) && crate::text::first(line, expected)
        is Some
}

/// Some line of the header proves the handshake, whatever the case of its letters.
pub open spec fn accepted(headers: Seq<char>, expected: Seq<char>) -> bool {
    exists|i: int|
        0 <= i < crate::text::split(crate::text::lowered(headers), '\n').len() && proves(
            #[trigger] crate::text::split(crate::text::lowered(headers), '\n')[i],
            crate::text::lowered(expected),
        )
}

/// What the header of the server's answer says.
#[derive(Clone, Copy, Debug, PartialEq, Eq, Structural)]
pub enum Answer {
    /// The protocol is not switched.
    Refused,
    /// The protocol is switched.
    Switched {
        /// The server has proved that it saw the key.
        proved: bool,
    },
}

/// What the header of the server's answer says.
pub open spec fn answer_of(headers: Seq<char>, key: Seq<char>) -> Answer {
    if crate::text::first(first_line(headers), " 101"@) is Some {
        Answer::Switched { proved: accepted(headers, accept_of(key)) }
    } else {
        Answer::Refused
    }
}

fn first_line_of(cs: &Vec<char>) -> (r: Vec<char>)
    ensures
        r@ == first_line(cs@),
{
    let feed: Vec<char> = vec!['\n'];
    assert(feed@ == seq!['\n']);
    match find_chars(cs, &feed) {
        Some(i) => {
            assert(cs@.subrange(0, i as int) == cs@.take(i as int));
            if i > 0 && cs[i - 1] == '\r' {
                assert(cs@.subrange(0, i - 1) == cs@.take(i as int).drop_last());
                slice_chars(cs, 0, i - 1)
            } else {
                slice_chars(cs, 0, i)
            }
        },
        None => {
            assert(cs@.subrange(0, cs@.len() as int) == cs@);
            slice_chars(cs, 0, cs.len())
        },
    }
}

/// The first line of a text.
pub fn status_line(headers: &str) -> (r: String)
    ensures
        r@ == first_line(headers@),
{
    let cs = chars_of(headers);
    let line = first_line_of(&cs);
    string_of(&line)
}

fn line_proves(line: &Vec<char>, expected: &Vec<char>) -> (r: bool)
    ensures
        r == proves(line@, expected@),
{
    let name = chars_of("sec-websocket-accept:");
    let at_front: bool = match find_chars(line, &name) {
        Some(i) => i == 0,
        None => false,
    };
    proof {
        crate::text::law_first(line@, name@);
    }
    at_front && find_chars(line, expected).is_some()
}

/// Judges the header of the server's answer.
pub fn judge_answer(headers: &str, key: &str) -> (a: Answer)
    ensures
        a == answer_of(headers@, key@),
{
    let cs = chars_of(headers);
    let line = first_line_of(&cs);
    let code = chars_of(" 101");
    if find_chars(&line, &code).is_none() {
        return Answer::Refused;
    }
    let expected_text = accept_key(key);
    let expected_chars = chars_of(expected_text.as_str());
    let expected = lower_chars(&expected_chars);
    let lower = lower_chars(&cs);
    let lines = split_chars(&lower, '\n');
    let ghost all = crate::text::split(crate::text::lowered(headers@), '\n');
    let mut i: usize = 0;
    while i < lines.len()
        invariant
            i <= lines.len(),
            all == crate::text::split(crate::text::lowered(headers@), '\n'),
            crate::text::char_views(lines@) == all,
            expected@ == crate::text::lowered(accept_of(key@)),
            crate::text::first(first_line(headers@), " 101"@) is Some,
            forall|k: int| 0 <= k < i ==> !proves(#[trigger] all[k], expected@),
        decreases lines.len() - i,
    {
        assert(all[i as int] == lines@[i as int]@);
        if line_proves(&lines[i], &expected) {
            return Answer::Switched { proved: true };
        }
        i = i + 1;
    }
    Answer::Switched { proved: false }
}

proof fn lemma_lowered_line(s: Seq<char>)
    ensures
        crate::text::lowered(s).contains('\n') == s.contains('\n'),
{
    let l = crate::text::lowered(s);
    assert(forall|i: int| 0 <= i < s.len() ==> (l[i] == '\n') == (s[i] == '\n'));
    if s.contains('\n') {
        let i = choose|i: int| 0 <= i < s.len() && s[i] == '\n';
        assert(l[i] == '\n');
    }
}

/// A server that answers with the value of the key, in a line of its own behind the name of
/// the accept header, is believed: the name in any case of its letters, the line anywhere in
/// the header.
pub proof fn law_right_answer_is_proved(
    before: Seq<char>,
    name: Seq<char>,
    gap: Seq<char>,
    rest: Seq<char>,
    after: Seq<char>,
    key: Seq<char>,
)
    requires
        before.len() > 0 ==> before.last() == '\n',
        crate::text::lowered(name) == "sec-websocket-accept:"@,
        !gap.contains('\n'),
        !rest.contains('\n'),
        after.len() > 0 ==> after[0] == '\n',
    ensures
        accepted(before + (name + gap + accept_of(key) + rest) + after, accept_of(key)),
{
    let value = accept_of(key);
    let line = name + gap + value + rest;
    let headers = before + line + after;
    let low = crate::text::lowered(line);
    let expected = crate::text::lowered(value);
    let at = (name.len() + gap.len()) as int;
    crate::base64::law_base64_has_no_newline(
        crate::sha1::digest(vstd::utf8::encode_utf8(key + WS_GUID@)),
    );
    reveal_strlit("sec-websocket-accept:");
    lemma_lowered_line(name);
    assert(!name.contains('\n'));
    assert forall|i: int| 0 <= i < line.len() implies line[i] != '\n' by {
        if i < name.len() {
            assert(line[i] == name[i]);
        } else if i < at {
            assert(line[i] == gap[i - name.len()]);
        } else if i < at + value.len() {
            assert(line[i] == value[i - at]);
        } else {
            assert(line[i] == rest[i - at - value.len()]);
        }
    }
    lemma_lowered_line(line);
    assert(crate::text::lowered(headers) == crate::text::lowered(before) + low
        + crate::text::lowered(after));
    crate::text::law_split_finds_part(
        crate::text::lowered(before),
        low,
        crate::text::lowered(after),
        '\n',
    );
    assert(low.subrange(0, name.len() as int) == crate::text::lowered(name));
    assert(crate::text::occurs_at(low, "sec-websocket-accept:"@, 0));
    assert(low.subrange(at, at + expected.len()) == expected);
    assert(crate::text::occurs_at(low, expected, at));
    crate::text::law_first(low, expected);
    assert(proves(low, expected));
}

/// What to do after some bytes of the server's answer arrived.
pub enum Progress {
    /// The header is not complete.
    ReadMore,
    /// The header is too long.
    TooLarge,
    /// The server refused; the status line says why.
    Refused {
        /// The status line.
        status: String,
    },
    /// The feed is open.
    Open {
        /// Where the frames start.
        frames_at: usize,
        /// The server has proved that it saw the key.
        proved: bool,
    },
}

/// What ends the header.
pub open spec fn blank_line() -> Seq<u8> {
    seq![13u8, 10u8, 13u8, 10u8]
}

/// What arrived of the server's answer asks for `p`.
pub open spec fn progresses(buf: Seq<u8>, key: Seq<char>, p: Progress) -> bool {
    match crate::text::first(buf, blank_line()) {
        None => (p is ReadMore <==> buf.len() <= MAX_HEADER) && (p is TooLarge <==> buf.len()
            > MAX_HEADER),
        Some(pos) => match answer_of(lossy(buf.take(pos)), key) {
            Answer::Refused => p matches Progress::Refused { status } && status@ == first_line(
                lossy(buf.take(pos)),
            ),
            Answer::Switched { proved } => p == (Progress::Open {
                frames_at: (pos + 4) as usize,
                proved,
            }) && pos + 4 <= buf.len(),
        },
    }
}

/// Looks at what arrived of the server's answer.
pub fn handshake_progress(buf: &[u8], key: &str) -> (p: Progress)
    ensures
        progresses(buf@, key@, p),
{
    let blank: [u8; 4] = [13, 10, 13, 10];
    assert(blank@ == blank_line());
    match find_subslice(buf, blank.as_slice()) {
        Some(pos) => {
            let head = vstd::slice::slice_subrange(buf, 0, pos);
            assert(head@ == buf@.take(pos as int));
            let headers = decode_text(head);
            match judge_answer(headers.as_str(), key) {
                Answer::Refused => Progress::Refused { status: status_line(headers.as_str()) },
                Answer::Switched { proved } => Progress::Open { frames_at: pos + 4, proved },
            }
        },
        None => if buf.len() > MAX_HEADER {
            Progress::TooLarge
        } else {
            Progress::ReadMore
        },
    }
}

/// The message that subscribes to the trades of two pairs.
pub open spec fn subscription_of(pair: Seq<char>, ref_pair: Seq<char>) -> Seq<char> {
    "{\"event\":\"subscribe\",\"pair\":[\""@ + pair + "\",\""@ + ref_pair
        + "\"],\"subscription\":{\"name\":\"trade\"}}"@
}

/// The message that subscribes to the trades of two pairs.
pub fn subscription(pair: &str, ref_pair: &str) -> (r: String)
    ensures
        r@ == subscription_of(pair@, ref_pair@),
{
    let mut r = String::new();
    r.append("{\"event\":\"subscribe\",\"pair\":[\"");
    r.append(pair);
    r.append("\",\"");
    r.append(ref_pair);
    r.append("\"],\"subscription\":{\"name\":\"trade\"}}");
    assert(r@ == subscription_of(pair@, ref_pair@));
    r
}

/// A pair as the history knows it: without slashes.
pub open spec fn joined_pair(pair: Seq<char>) -> Seq<char>
    decreases pair.len(),
{
    if pair.len() == 0 {
        Seq::empty()
    } else if pair.last() == '/' {
        joined_pair(pair.drop_last())
    } else {
        joined_pair(pair.drop_last()).push(pair.last())
    }
}

/// The path of a page of history.
pub open spec fn history_path_of(pair: Seq<char>, since: u64) -> Seq<char> {
    "/0/public/Trades?pair="@ + joined_pair(pair) + "&since="@ + crate::text::decimal(since as nat)
}

/// The path of the page of history from a time on.
pub fn history_path(pair: &str, since: u64) -> (r: String)
    ensures
        r@ == history_path_of(pair@, since),
{
    let mut r = String::new();
    r.append("/0/public/Trades?pair=");
    let ghost head = r@;
    let cs = chars_of(pair);
    let mut i: usize = 0;
    assert(cs@.take(0) == Seq::<char>::empty());
    while i < cs.len()
        invariant
            i <= cs.len(),
            r@ == head + joined_pair(cs@.take(i as int)),
        decreases cs.len() - i,
    {
        assert(cs@.take(i + 1).drop_last() == cs@.take(i as int));
        if cs[i] != '/' {
            r.push(cs[i]);
        }
        i = i + 1;
        assert(r@ == head + joined_pair(cs@.take(i as int)));
    }
    assert(cs@.take(cs@.len() as int) == cs@);
    r.append("&since=");
    push_decimal(&mut r, since);
    assert(r@ == history_path_of(pair@, since));
    r
}

/// A request for a page.
pub open spec fn get_request_of(path: Seq<char>, host: Seq<char>) -> Seq<char> {
    "GET "@ + path + " HTTP/1.0\r\nHost: "@ + host
        + "\r\nUser-Agent: hft-engine\r\nAccept: */*\r\n\r\n"@
}

/// A request for a page.
pub fn get_request(path: &str, host: &str) -> (r: String)
    ensures
        r@ == get_request_of(path@, host@),
{
    let mut r = String::new();
    r.append("GET ");
    r.append(path);
    r.append(" HTTP/1.0\r\nHost: ");
    r.append(host);
    r.append("\r\nUser-Agent: hft-engine\r\nAccept: */*\r\n\r\n");
    assert(r@ == get_request_of(path@, host@));
    r
}

/// The body of an answer: what stands behind the first blank line, or all of it.
pub open spec fn body_of(text: Seq<char>) -> Seq<char> {
    match crate::text::first(text, "\r\n\r\n"@) {
        Some(p) => text.skip(p + 4),
        None => text,
    }
}

/// The body of an answer.
pub fn body(text: &str) -> (r: String)
    ensures
        r@ == body_of(text@),
{
    let cs = chars_of(text);
    let blank = chars_of("\r\n\r\n");
    proof {
        reveal_strlit("\r\n\r\n");
    }
    match find_chars(&cs, &blank) {
        Some(p) => {
            let rest = slice_chars(&cs, p + 4, cs.len());
            assert(rest@ == text@.skip(p + 4));
            string_of(&rest)
        },
        None => string_of(&cs),
    }
}

/// The body of an answer, from its bytes.
pub fn http_body(answer: &[u8]) -> (r: String)
    ensures
        r@ == body_of(lossy(answer@)),
{
    let text = decode_text(answer);
    body(text.as_str())
}

/// The first line of a text is what stands before its first line end, which may be a line
/// feed or a carriage return and a line feed; a text without one is its own first line.
pub proof fn law_first_line(line: Seq<char>, rest: Seq<char>)
    requires
        !line.contains('\n'),
    ensures
        first_line(line + seq!['\r', '\n'] + rest) == line,
        line.len() == 0 || line.last() != '\r' ==> first_line(line + seq!['\n'] + rest) == line,
        first_line(line) == line,
{
    let n = line.len() as int;
    let a = line + seq!['\r', '\n'] + rest;
    let b = line + seq!['\n'] + rest;
    assert forall|k: int| 0 <= k < n implies line[k] != '\n' by {
        assert(line.contains(line[k]));
    }
    assert forall|k: int| 0 <= k < n + 1 implies a[k] != '\n' by {
        if k < n {
            assert(a[k] == line[k]);
        }
    }
    crate::text::lemma_first_char(a, '\n', n + 1);
    assert(a.take(n + 1).drop_last() == line);
    crate::text::lemma_first_char(b, '\n', n);
    assert(b.take(n) == line);
    crate::text::lemma_no_char(line, '\n');
}

/// The server has switched the protocol exactly if its status line says 101.
pub proof fn law_status_decides(status: Seq<char>, rest: Seq<char>, key: Seq<char>)
    requires
        !status.contains('\n'),
    ensures
        ({
            let headers = status + seq!['\r', '\n'] + rest;
            let code = seq![' ', '1', '0', '1'];
            let switched = exists|i: int| #[trigger] crate::text::occurs_at(status, code, i);
            &&& answer_of(headers, key) is Switched <==> switched
            &&& answer_of(headers, key) is Refused <==> !switched
        }),
{
    law_first_line(status, rest);
    reveal_strlit(" 101");
    assert(" 101"@ == seq![' ', '1', '0', '1']);
    crate::text::law_first(status, " 101"@);
}

/// A server that does not answer with the value of the key is not believed: without a line
/// that begins with the name of the accept header and holds the value nothing is proved.
pub proof fn law_wrong_answer_is_not_proved(headers: Seq<char>, key: Seq<char>)
    requires
        forall|i: int, j: int|
            0 <= i < crate::text::split(crate::text::lowered(headers), '\n').len()
                ==> !crate::text::occurs_at(
                crate::text::split(crate::text::lowered(headers), '\n')[i],
                "sec-websocket-accept:"@,
                0,
            ) || !#[trigger] crate::text::occurs_at(
                crate::text::split(crate::text::lowered(headers), '\n')[i],
                crate::text::lowered(accept_of(key)),
                j,
            ),
    ensures
        !accepted(headers, accept_of(key)),
        answer_of(headers, key) != (Answer::Switched { proved: true }),
{
    let lines = crate::text::split(crate::text::lowered(headers), '\n');
    let expected = crate::text::lowered(accept_of(key));
    assert forall|i: int| 0 <= i < lines.len() implies !proves(#[trigger] lines[i], expected) by {
        crate::text::law_first(lines[i], expected);
        if proves(lines[i], expected) {
            let j = crate::text::first(lines[i], expected)->0;
            assert(crate::text::occurs_at(lines[i], expected, j));
        }
    }
}

/// A right answer opens the feed: a status line with 101 and, in any later line, the accept
/// header with the value of the key.
pub proof fn law_right_answer_opens(
    status: Seq<char>,
    name: Seq<char>,
    gap: Seq<char>,
    after: Seq<char>,
    key: Seq<char>,
    i: int,
)
    requires
        !status.contains('\n'),
        crate::text::occurs_at(status, seq![' ', '1', '0', '1'], i),
        crate::text::lowered(name) == "sec-websocket-accept:"@,
        !gap.contains('\n'),
        after.len() > 0 ==> after[0] == '\n',
    ensures
        answer_of(
            status + seq!['\r', '\n'] + (name + gap + accept_of(key) + seq!['\r']) + after,
            key,
        ) == (Answer::Switched { proved: true }),
{
    let line = name + gap + accept_of(key) + seq!['\r'];
    let before = status + seq!['\r', '\n'];
    assert(before.last() == '\n');
    assert(!seq!['\r'].contains('\n'));
    law_right_answer_is_proved(before, name, gap, seq!['\r'], after, key);
    assert(before + line + after == status + seq!['\r', '\n'] + (line + after));
    law_status_decides(status, line + after, key);
}

/// A pair is joined by leaving out its slashes, and nothing else.
pub proof fn law_pairs_lose_their_slashes(pair: Seq<char>)
    ensures
        joined_pair(pair) == pair.filter(|c: char| c != '/'),
    decreases pair.len(),
{
    reveal(Seq::filter);
    if pair.len() > 0 {
        law_pairs_lose_their_slashes(pair.drop_last());
    }
}

/// The body of an answer is all that stands behind its first blank line.
pub proof fn law_body_is_read(header: Seq<char>, body: Seq<char>)
    requires
        forall|j: int|
            0 <= j < header.len() ==> !#[trigger] crate::text::occurs_at(
                header + "\r\n\r\n"@ + body,
                "\r\n\r\n"@,
                j,
            ),
    ensures
        body_of(header + "\r\n\r\n"@ + body) == body,
{
    let mark = "\r\n\r\n"@;
    let text = header + mark + body;
    let n = header.len() as int;
    reveal_strlit("\r\n\r\n");
    assert(text.subrange(n, n + 4) == mark);
    assert(crate::text::occurs_at(text, mark, n));
    crate::text::law_first(text, mark);
    assert(text.skip(n + 4) == body);
}

/// The opening request names the host and carries the key, whatever they are: the key stands
/// in a line of its own behind the name of its header, and the request ends with a blank
/// line.
pub proof fn law_request_carries_host_and_key(host: Seq<char>, key: Seq<char>)
    ensures
        ({
            let r = request_of(host, key);
            &&& exists|a: Seq<char>, b: Seq<char>|
                r == #[trigger] (a + ("\r\nSec-WebSocket-Key: "@ + key + "\r\n"@) + b)
            &&& exists|a: Seq<char>, b: Seq<char>|
                r == #[trigger] (a + ("\r\nHost: "@ + host + "\r\n"@) + b)
            &&& r.len() >= 4
            &&& r.skip(r.len() - 4) == "\r\n\r\n"@
        }),
{
    let r = request_of(host, key);
    reveal_strlit("GET / HTTP/1.1\r\nHost: ");
    reveal_strlit("\r\nUpgrade: websocket\r\nConnection: Upgrade\r\nSec-WebSocket-Key: ");
    reveal_strlit("\r\nSec-WebSocket-Version: 13\r\nOrigin: https://");
    reveal_strlit("\r\n\r\n");
    reveal_strlit("\r\nSec-WebSocket-Key: ");
    reveal_strlit("\r\nHost: ");
    reveal_strlit("\r\n");
    let p1 = "GET / HTTP/1.1\r\nHost: "@;
    let p2 = "\r\nUpgrade: websocket\r\nConnection: Upgrade\r\nSec-WebSocket-Key: "@;
    let p3 = "\r\nSec-WebSocket-Version: 13\r\nOrigin: https://"@;
    let p4 = "\r\n\r\n"@;
    let k = "\r\nSec-WebSocket-Key: "@;
    let h = "\r\nHost: "@;
    let e = "\r\n"@;
    assert(p2.skip(p2.len() - k.len()) == k);
    assert(p1.skip(p1.len() - h.len()) == h);
    assert(p2.take(2) == e);
    assert(p3.take(2) == e);
    let a = p1 + host + p2.take(p2.len() - k.len());
    let b = p3.skip(2) + host + p4;
    assert(r == a + (k + key + e) + b);
    let c = p1.take(p1.len() - h.len());
    let d = p2.skip(2) + key + p3 + host + p4;
    assert(r == c + (h + host + e) + d);
    assert(r.skip(r.len() - 4) == p4);
}

/// The subscription names both pairs, the traded one first, in one list.
pub proof fn law_subscription_names_both_pairs(pair: Seq<char>, ref_pair: Seq<char>)
    ensures
        exists|a: Seq<char>, b: Seq<char>|
            subscription_of(pair, ref_pair) == #[trigger] (a + ("[\""@ + pair + "\",\""@ + ref_pair
                + "\"]"@) + b),
{
    reveal_strlit("{\"event\":\"subscribe\",\"pair\":[\"");
    reveal_strlit("\",\"");
    reveal_strlit("\"],\"subscription\":{\"name\":\"trade\"}}");
    reveal_strlit("[\"");
    reveal_strlit("\"]");
    let p1 = "{\"event\":\"subscribe\",\"pair\":[\""@;
    let p3 = "\"],\"subscription\":{\"name\":\"trade\"}}"@;
    let o = "[\""@;
    let c = "\"]"@;
    assert(p1.skip(p1.len() - 2) == o);
    assert(p3.take(2) == c);
    let a = p1.take(p1.len() - 2);
    let b = p3.skip(2);
    assert(subscription_of(pair, ref_pair) == a + (o + pair + "\",\""@ + ref_pair + c) + b);
}

/// The path of a page names the pair without its slashes and ends with the time from which
/// the page starts, in decimal.
pub proof fn law_history_path(pair: Seq<char>, since: u64)
    ensures
        ({
            let p = history_path_of(pair, since);
            let d = crate::text::decimal(since as nat);
            &&& p.len() >= d.len()
            &&& p.skip(p.len() - d.len()) == d
            &&& exists|a: Seq<char>, b: Seq<char>|
                p == #[trigger] (a + ("pair="@ + joined_pair(pair) + "&since="@) + b)
        }),
{
    reveal_strlit("/0/public/Trades?pair=");
    reveal_strlit("pair=");
    let p = history_path_of(pair, since);
    let d = crate::text::decimal(since as nat);
    let h = "/0/public/Trades?pair="@;
    assert(h.skip(h.len() - 5) == "pair="@);
    assert(p == h.take(h.len() - 5) + ("pair="@ + joined_pair(pair) + "&since="@) + d);
    assert(p.skip(p.len() - d.len()) == d);
}

/// A header is waited for until its blank line has come or 16,384 bytes have; a complete
/// header is judged by what stands before the blank line, and the frames start right behind
/// it.
pub proof fn law_header_is_waited_for(head: Seq<u8>, frames: Seq<u8>, key: Seq<char>, p: Progress)
    requires
        head.len() + frames.len() + 4 <= usize::MAX,
        forall|j: int|
            0 <= j < head.len() ==> !#[trigger] crate::text::occurs_at(
                head + blank_line() + frames,
                blank_line(),
                j,
            ),
        progresses(head + blank_line() + frames, key, p),
    ensures
        p is Open <==> answer_of(lossy(head), key) is Switched,
        p is Refused <==> answer_of(lossy(head), key) is Refused,
        p matches Progress::Open { frames_at, proved } ==> frames_at == head.len() + 4 && answer_of(
            lossy(head),
            key,
        ) == (Answer::Switched { proved }),
        p matches Progress::Refused { status } ==> status@ == first_line(lossy(head)),
{
    crate::text::lemma_first_mark(head, blank_line(), frames);
}

/// Without a blank line more is read, up to 16,384 bytes and no further.
pub proof fn law_long_headers(buf: Seq<u8>, key: Seq<char>, p: Progress)
    requires
        forall|j: int| !#[trigger] crate::text::occurs_at(buf, blank_line(), j),
        progresses(buf, key, p),
    ensures
        p is ReadMore <==> buf.len() <= 16_384,
        p is TooLarge <==> buf.len() > 16_384,
{
    crate::text::law_first(buf, blank_line());
}

} // verus!
