//! The HTTP CONNECT handshake: collecting the request head, and what the
//! request asks for.
use vstd::prelude::*;
use vstd::slice::slice_subrange;
use vstd::utf8::*;
use crate::server;
use crate::server::{AuthorityError, Host, HostView, HTTP_HEADER_MAX_LEN};
use crate::text;

verus! {

/// The reply to a connection that was made.
pub const ESTABLISHED: &'static str = "HTTP/1.1 200 Connection Established\r\n\r\n";

/// The reply to another method than CONNECT.
pub const METHOD_NOT_ALLOWED: &'static str =
    "HTTP/1.1 405 Method Not Allowed\r\nConnection: close\r\n\r\n";

/// The reply to a destination that is not served.
pub const FORBIDDEN: &'static str = "HTTP/1.1 403 Forbidden\r\nConnection: close\r\n\r\n";

/// The reply to a connection that could not be made.
pub const BAD_GATEWAY: &'static str = "HTTP/1.1 502 Bad Gateway\r\nConnection: close\r\n\r\n";

/// The bytes of a text.
pub fn text_bytes(s: &str) -> (r: Vec<u8>)
    ensures
        r@ == encode_utf8(s@),
{
    text::bytes_vec(s.as_bytes())
}

// ---------------------------------------------------------------------------
// The request head
// ---------------------------------------------------------------------------

/// Whether `needle` stands in `data` at position `i`.
pub open spec fn occurs_at(data: Seq<u8>, needle: Seq<u8>, i: int) -> bool {
    0 <= i && i + needle.len() <= data.len() && data.subrange(i, i + needle.len()) == needle
}

/// Whether `i` is the first position at which `needle` stands in `data`.
pub open spec fn first_at(data: Seq<u8>, needle: Seq<u8>, i: int) -> bool {
    occurs_at(data, needle, i) && forall|j: int| 0 <= j < i ==> !occurs_at(data, needle, j)
}

/// Whether `needle` stands anywhere in `data`.
pub open spec fn occurs(data: Seq<u8>, needle: Seq<u8>) -> bool {
    exists|i: int| occurs_at(data, needle, i)
}

/// Finds the first position at which `needle` stands in `data`.
pub fn find_subsequence(data: &[u8], needle: &[u8]) -> (r: Option<usize>)
    requires
        needle@.len() > 0,
    ensures
        match r {
            Some(i) => first_at(data@, needle@, i as int),
            None => !occurs(data@, needle@),
        },
{
    let n: usize = data.len();
    let m: usize = needle.len();
    if n < m {
        return None;
    }
    for i in 0..(n - m + 1)
        invariant
            n == data@.len(),
            m == needle@.len(),
            m <= n,
            forall|j: int| 0 <= j < i ==> !occurs_at(data@, needle@, j),
    {
        if text::bytes_equal(slice_subrange(data, i, i + m), needle) {
            return Some(i);
        }
    }
    None
}

/// The end of a request head: two line breaks.
pub open spec fn head_end() -> Seq<u8> {
    seq![13u8, 10u8, 13u8, 10u8]
}

/// What the next chunk of a connection leads to.
#[derive(Debug)]
pub enum HeadStep {
    /// The head is not complete yet.
    More,
    /// The head, and what came behind it.
    Complete { head: Vec<u8>, pending: Vec<u8> },
    /// The connection was closed before the head was complete.
    Closed,
    /// The head is too long.
    TooLong,
}

/// Takes the next chunk of a connection; an empty chunk means that it was
/// closed. `buffer` holds what has come so far.
pub fn read_http_head(buffer: &mut Vec<u8>, chunk: &[u8]) -> (r: HeadStep)
    ensures
        final(buffer)@ == old(buffer)@ + chunk@,
        chunk@.len() == 0 <==> r is Closed,
        chunk@.len() > 0 ==> match r {
            HeadStep::Complete { head, pending } => {
                let i = head@.len() - 4;
                &&& first_at(final(buffer)@, head_end(), i)
                &&& head@ == final(buffer)@.take(i + 4)
                &&& pending@ == final(buffer)@.skip(i + 4)
            },
            HeadStep::TooLong => !occurs(final(buffer)@, head_end()) && final(buffer)@.len()
                > HTTP_HEADER_MAX_LEN,
            HeadStep::More => !occurs(final(buffer)@, head_end()) && final(buffer)@.len()
                <= HTTP_HEADER_MAX_LEN,
            HeadStep::Closed => false,
        },
{
    text::push_bytes(buffer, chunk);
    if chunk.len() == 0 {
        return HeadStep::Closed;
    }
    let end: [u8; 4] = [13, 10, 13, 10];
    assert(end@ == head_end());
    match find_subsequence(buffer.as_slice(), end.as_slice()) {
        Some(i) => {
            let total: usize = buffer.len();
            let head = text::bytes_vec(slice_subrange(buffer.as_slice(), 0, i + 4));
            let pending = text::bytes_vec(slice_subrange(buffer.as_slice(), i + 4, total));
            HeadStep::Complete { head, pending }
        },
        None => if buffer.len() > HTTP_HEADER_MAX_LEN {
            HeadStep::TooLong
        } else {
            HeadStep::More
        },
    }
}

/// What comes behind a complete head does not change where the head ends.
pub proof fn lemma_head_stable(data: Seq<u8>, more: Seq<u8>, i: int)
    requires
        first_at(data, head_end(), i),
    ensures
        first_at(data + more, head_end(), i),
{
    let all = data + more;
    assert(all.subrange(i, i + 4) == data.subrange(i, i + 4));
    assert forall|j: int| 0 <= j < i implies !occurs_at(all, head_end(), j) by {
        assert(all.subrange(j, j + 4) == data.subrange(j, j + 4));
        assert(!occurs_at(data, head_end(), j));
    }
}

/// There is only one place where a head ends.
pub proof fn lemma_head_unique(data: Seq<u8>, i: int, j: int)
    requires
        first_at(data, head_end(), i),
        first_at(data, head_end(), j),
    ensures
        i == j,
{
    if i < j {
        assert(!occurs_at(data, head_end(), i));
    } else if j < i {
        assert(!occurs_at(data, head_end(), j));
    }
}

// ---------------------------------------------------------------------------
// The request
// ---------------------------------------------------------------------------

/// Why a request is refused.
#[derive(Debug, Clone, Copy, PartialEq, Eq, Structural)]
pub enum HttpError {
    NotUtf8,
    MissingRequestLine,
    MethodNotAllowed,
    Authority(AuthorityError),
}

/// The method that opens a tunnel.
pub const CONNECT: &'static str = "CONNECT";

/// The destination that a request asks for: the second word of the first line,
/// when the first word is the method CONNECT.
pub open spec fn request_target(head: Seq<u8>) -> Result<(HostView, u16), HttpError> {
    let request = decode_utf8(head);
    let line = text::first_line(request);
    if !valid_utf8(head) {
        Err(HttpError::NotUtf8)
    } else if request.len() == 0 {
        Err(HttpError::MissingRequestLine)
    } else if text::first_word(line) != CONNECT@ {
        Err(HttpError::MethodNotAllowed)
    } else {
        match server::authority_of(text::first_word(text::after_word(line))) {
            Ok(target) => Ok(target),
            Err(e) => Err(HttpError::Authority(e)),
        }
    }
}

/// Reads the destination out of a request head.
pub fn parse_request(head: &[u8]) -> (r: Result<(Host, u16), HttpError>)
    ensures
        server::target_view(r) == request_target(head@),
{
    let request = match text::string_from_utf8(text::bytes_vec(head)) {
        Some(s) => s,
        None => return Err(HttpError::NotUtf8),
    };
    if request.as_str().unicode_len() == 0 {
        return Err(HttpError::MissingRequestLine);
    }
    let (line, _) = text::next_line(request.as_str());
    let (method, after) = text::next_word(line);
    if !text::str_equal(method, CONNECT) {
        return Err(HttpError::MethodNotAllowed);
    }
    let (authority, _) = text::next_word(after);
    match server::parse_authority(authority) {
        Ok(target) => Ok(target),
        Err(e) => Err(HttpError::Authority(e)),
    }
}

/// The reply to a request that is refused: only another method is answered.
pub open spec fn refusal(error: HttpError) -> Seq<u8> {
    if error == HttpError::MethodNotAllowed {
        encode_utf8(METHOD_NOT_ALLOWED@)
    } else {
        Seq::empty()
    }
}

/// Builds the reply to a request that is refused.
pub fn refuse(error: HttpError) -> (r: Vec<u8>)
    ensures
        r@ == refusal(error),
{
    if error == HttpError::MethodNotAllowed {
        text_bytes(METHOD_NOT_ALLOWED)
    } else {
        Vec::new()
    }
}

/// Every request whose first line has CONNECT as its first word asks for what its
/// second word says, whatever white space stands round the two, and whatever
/// follows: the version, the headers, or nothing.
pub proof fn lemma_connect_request(
    before: Seq<char>,
    gap: Seq<char>,
    target: Seq<char>,
    more: Seq<char>,
    rest: Seq<char>,
)
    requires
        text::all_space(before),
        text::all_space(gap),
        gap.len() > 0,
        target.len() > 0,
        forall|i: int| 0 <= i < target.len() ==> !text::is_space(#[trigger] target[i]),
        more.len() == 0 || text::is_space(more[0]),
        !before.contains('\n'),
        !gap.contains('\n'),
        !more.contains('\n'),
    ensures
        ({
            let line = before + "CONNECT"@ + (gap + target + more);
            let got = request_target(encode_utf8(line + seq!['\r', '\n'] + rest));
            match server::authority_of(target) {
                Ok(asked) => got == Ok::<(HostView, u16), HttpError>(asked),
                Err(e) => got == Err::<(HostView, u16), HttpError>(HttpError::Authority(e)),
            }
        }),
{
    reveal_strlit("CONNECT");
    let method = "CONNECT"@;
    let tail = gap + target + more;
    let line = before + method + tail;
    let request = line + seq!['\r', '\n'] + rest;
    let n = before.len() + 7;
    assert forall|i: int| 0 <= i < line.len() implies line[i] != '\n' by {
        if i < before.len() {
            assert(before.contains(before[i]));
        } else if n <= i < n + gap.len() {
            assert(gap.contains(gap[i - n]));
        } else if n + gap.len() <= i < n + gap.len() + target.len() {
            assert(!text::is_space(target[i - n - gap.len()]));
        } else if i >= n + gap.len() + target.len() {
            assert(more.contains(more[i - n - gap.len() - target.len()]));
        }
    }
    assert(!line.contains('\n'));
    encode_utf8_decode_utf8(request);
    encode_utf8_valid_utf8(request);
    text::lemma_line(line, rest);
    assert(tail[0] == gap[0]);
    text::lemma_word(before, method, tail);
    text::lemma_word(gap, target, more);
}

/// Every request that begins with `CONNECT`, a host, a colon and a port asks for
/// that host and that port, whatever stands behind.
pub proof fn lemma_request(host: Seq<char>, port: u16, more: Seq<char>, rest: Seq<char>)
    requires
        host.len() == 0 || host[0] != '[',
        forall|i: int| 0 <= i < host.len() ==> !text::is_space(#[trigger] host[i]),
        more.len() == 0 || text::is_space(more[0]),
        !more.contains('\n'),
    ensures
        ({
            let line = "CONNECT "@ + (host.push(':') + text::decimal_digits(port as nat)) + more;
            request_target(encode_utf8(line + seq!['\r', '\n'] + rest)) == Ok::<
                (HostView, u16),
                HttpError,
            >((server::host_of(host), port))
        }),
{
    reveal_strlit("CONNECT ");
    reveal_strlit("CONNECT");
    let target = host.push(':') + text::decimal_digits(port as nat);
    let digits = text::decimal_digits(port as nat);
    text::lemma_decimal_round_trip(port as nat);
    assert forall|i: int| 0 <= i < target.len() implies !text::is_space(#[trigger] target[i]) by {
        if i < host.len() {
            assert(target[i] == host[i]);
        } else if i > host.len() {
            assert(text::is_digit(digits[i - host.len() - 1]));
        }
    }
    let nothing = Seq::<char>::empty();
    assert("CONNECT "@ + target + more == nothing + "CONNECT"@ + (seq![' '] + target + more));
    lemma_connect_request(nothing, seq![' '], target, more, rest);
    server::lemma_authority_round_trip(host, port);
}

/// A request with another method is refused, whatever else stands in it.
pub proof fn lemma_other_method(method: Seq<char>, more: Seq<char>, rest: Seq<char>)
    requires
        method.len() > 0,
        forall|i: int| 0 <= i < method.len() ==> !text::is_space(#[trigger] method[i]),
        method != "CONNECT"@,
        more.len() == 0 || text::is_space(more[0]),
        !more.contains('\n'),
    ensures
        request_target(encode_utf8(method + more + seq!['\r', '\n'] + rest)) == Err::<
            (HostView, u16),
            HttpError,
        >(HttpError::MethodNotAllowed),
{
    let line = method + more;
    let request = line + seq!['\r', '\n'] + rest;
    assert forall|i: int| 0 <= i < line.len() implies line[i] != '\n' by {
        if i < method.len() {
            assert(!text::is_space(method[i]));
        } else {
            assert(more.contains(more[i - method.len()]));
        }
    }
    assert(!line.contains('\n'));
    encode_utf8_decode_utf8(request);
    encode_utf8_valid_utf8(request);
    text::lemma_line(line, rest);
    let nothing = Seq::<char>::empty();
    assert(line == nothing + method + more);
    text::lemma_word(nothing, method, more);
}

/// A head that is not UTF-8 and an empty head are refused.
pub proof fn lemma_no_request(head: Seq<u8>)
    ensures
        !valid_utf8(head) ==> request_target(head) == Err::<(HostView, u16), HttpError>(
            HttpError::NotUtf8,
        ),
        valid_utf8(head) && decode_utf8(head).len() == 0 ==> request_target(head) == Err::<
            (HostView, u16),
            HttpError,
        >(HttpError::MissingRequestLine),
{
}

/// Only another method is answered, with 405; everything else that is wrong is
/// not.
pub proof fn lemma_refusals(error: HttpError)
    ensures
        refusal(HttpError::MethodNotAllowed) == encode_utf8(
            "HTTP/1.1 405 Method Not Allowed\r\nConnection: close\r\n\r\n"@,
        ),
        error != HttpError::MethodNotAllowed ==> refusal(error).len() == 0,
{
}

/// A head ends with a carriage return, a line feed, a carriage return and a line
/// feed, wherever they first stand.
pub proof fn lemma_head_end(head: Seq<u8>, rest: Seq<u8>)
    requires
        forall|i: int|
            0 <= i <= head.len() ==> !occurs_at(
                head + seq![13u8, 10, 13, 10],
                seq![13u8, 10, 13, 10],
                i,
            ) || i == head.len(),
    ensures
        first_at(head + seq![13u8, 10, 13, 10] + rest, head_end(), head.len() as int),
{
    let data = head + seq![13u8, 10, 13, 10];
    let n = head.len() as int;
    assert(data.subrange(n, n + 4) == seq![13u8, 10, 13, 10]);
    assert(occurs_at(data, head_end(), n));
    assert(first_at(data, head_end(), n));
    lemma_head_stable(data, rest, n);
}

} // verus!
