//! Framing of the wire protocol: requests are read from lines of the form
//! `"<id> <difficulty>\n"`, responses are written as one line each.
use vstd::prelude::*;
use vstd::slice::slice_subrange;
use bytes::BytesMut;
use crate::buffer::{buf_bytes, buf_extend, buf_slice, buf_split_to};
use crate::decimal::{
    decimal, is_digit, lemma_decimal_reads_back, parse_u32, push_decimal, token_value,
};

verus! {

/// How a task ended.
#[derive(Clone, Copy, Debug, PartialEq, Eq, Structural)]
pub enum Completion {
    /// The work finished within its budget, after this many milliseconds.
    Time(u64),
    /// The budget ran out first, or the work could not be run.
    OutOfTime,
}

/// One unit of work asked for by a client.
#[derive(Clone, Copy, Debug, PartialEq, Eq, Structural)]
pub struct Request {
    /// Correlation token chosen by the client.
    pub id: u32,
    /// Number of iterations of the synthetic workload.
    pub difficulty: u32,
}

/// The answer to one request.
#[derive(Clone, Copy, Debug, PartialEq, Eq, Structural)]
pub struct Response {
    /// The `id` of the request answered.
    pub id: u32,
    pub completion: Completion,
}

/// Line feed, the end of every frame.
pub const LF: u8 = 10;
/// Space, the separator between the two numbers of a request.
pub const SPACE: u8 = 32;

/// `i` is the first position of `c` in `s`.
pub open spec fn first_at(s: Seq<u8>, c: u8, i: int) -> bool {
    0 <= i < s.len() && s[i] == c && forall|k: int| 0 <= k < i ==> s[k] != c
}

/// The first position of `c` in `s`, or -1 where `s` has none.
pub open spec fn find_byte(s: Seq<u8>, c: u8) -> int {
    if exists|i: int| first_at(s, c, i) {
        choose|i: int| first_at(s, c, i)
    } else {
        -1
    }
}

/// A first position found is the one that `find_byte` names.
pub proof fn lemma_find_byte_at(s: Seq<u8>, c: u8, i: int)
    requires
        first_at(s, c, i),
    ensures
        find_byte(s, c) == i,
{
    let j = choose|j: int| first_at(s, c, j);
    assert(first_at(s, c, j));
    if j < i {
        assert(s[j] != c);
    } else if i < j {
        assert(s[i] != c);
    }
}

/// What a line body (without its line feed) holds: two tokens split at the
/// first space, each a `u32` in decimal; `None` when it does not.
pub open spec fn parse_line(line: Seq<u8>) -> Option<Request> {
    let j = find_byte(line, SPACE);
    if j < 0 {
        None
    } else {
        match (token_value(line.take(j)), token_value(line.skip(j + 1))) {
            (Some(id), Some(difficulty)) => Some(Request { id, difficulty }),
            _ => None,
        }
    }
}

/// One decoding step on the buffered bytes `b`: the request read, and the
/// bytes that stay buffered. Without a line feed nothing is consumed; otherwise
/// the first line and its line feed are consumed, whether it parses or not.
pub open spec fn decode_step(b: Seq<u8>) -> (Option<Request>, Seq<u8>) {
    let i = find_byte(b, LF);
    if i < 0 {
        (None, b)
    } else {
        (parse_line(b.take(i)), b.skip(i + 1))
    }
}

/// `" completed in "`
pub open spec fn completed_in_text() -> Seq<u8> {
    seq![32u8, 99, 111, 109, 112, 108, 101, 116, 101, 100, 32, 105, 110, 32]
}

/// `" milliseconds\n"`
pub open spec fn milliseconds_text() -> Seq<u8> {
    seq![32u8, 109, 105, 108, 108, 105, 115, 101, 99, 111, 110, 100, 115, 10]
}

/// `" ran out of time\n"`
pub open spec fn out_of_time_text() -> Seq<u8> {
    seq![32u8, 114, 97, 110, 32, 111, 117, 116, 32, 111, 102, 32, 116, 105, 109, 101, 10]
}

/// The line that a response is written as.
pub open spec fn encoding(res: Response) -> Seq<u8> {
    match res.completion {
        Completion::Time(t) => decimal(res.id as nat) + completed_in_text() + decimal(t as nat)
            + milliseconds_text(),
        Completion::OutOfTime => decimal(res.id as nat) + out_of_time_text(),
    }
}

/// The line that a client sends for a request.
pub open spec fn request_line(id: u32, difficulty: u32) -> Seq<u8> {
    decimal(id as nat) + seq![SPACE] + decimal(difficulty as nat) + seq![LF]
}

/// The first position of `c` in `s`, if any.
pub fn position(s: &[u8], c: u8) -> (r: Option<usize>)
    ensures
        match r {
            Some(i) => find_byte(s@, c) == i,
            None => find_byte(s@, c) == -1,
        },
{
    let mut i: usize = 0;
    while i < s.len()
        invariant
            i <= s@.len(),
            forall|k: int| 0 <= k < i ==> s@[k] != c,
        decreases s@.len() - i,
    {
        if s[i] == c {
            proof {
                lemma_find_byte_at(s@, c, i as int);
            }
            return Some(i);
        }
        i = i + 1;
    }
    assert(!exists|j: int| first_at(s@, c, j));
    None
}

/// Reads one request out of `buf`. With no complete line buffered, returns
/// `None` and leaves `buf` as it is. Otherwise the first line and its line
/// feed leave `buf`, and the result is the request that line holds, or `None`
/// where it is malformed (no space, or a token that is not a `u32`).
pub fn decode_frame(buf: &mut BytesMut) -> (r: Option<Request>)
    ensures
        (r, buf_bytes(*final(buf))) == decode_step(buf_bytes(*old(buf))),
{
    let found = position(buf_slice(buf), LF);
    let i = match found {
        Some(i) => i,
        None => return None,
    };
    let line = buf_split_to(buf, i);
    let _lf = buf_split_to(buf, 1);
    proof {
        assert(buf_bytes(*old(buf)).skip(i as int).skip(1) =~= buf_bytes(*old(buf)).skip(
            i + 1,
        ));
    }
    let body = buf_slice(&line);
    let j = match position(body, SPACE) {
        Some(j) => j,
        None => return None,
    };
    let id = parse_u32(slice_subrange(body, 0, j));
    let difficulty = parse_u32(slice_subrange(body, j + 1, body.len()));
    proof {
        assert(body@.subrange(0, j as int) =~= body@.take(j as int));
        assert(body@.subrange(j + 1, body@.len() as int) =~= body@.skip(j + 1));
    }
    match (id, difficulty) {
        (Some(id), Some(difficulty)) => Some(Request { id, difficulty }),
        _ => None,
    }
}

/// Appends the bytes of `s` to `out`.
fn push_all(out: &mut Vec<u8>, s: &[u8])
    ensures
        final(out)@ == old(out)@ + s@,
{
    let mut i: usize = 0;
    while i < s.len()
        invariant
            i <= s@.len(),
            out@ == old(out)@ + s@.take(i as int),
        decreases s@.len() - i,
    {
        out.push(s[i]);
        i = i + 1;
        assert(out@ =~= old(out)@ + s@.take(i as int));
    }
    assert(s@.take(i as int) =~= s@);
}

/// The line for `res`, as bytes.
pub fn render(res: Response) -> (r: Vec<u8>)
    ensures
        r@ == encoding(res),
{
    let mut out: Vec<u8> = Vec::new();
    push_decimal(&mut out, res.id as u64);
    match res.completion {
        Completion::Time(t) => {
            let completed_in: [u8; 14] = [32, 99, 111, 109, 112, 108, 101, 116, 101, 100, 32, 105, 110, 32];
            let milliseconds: [u8; 14] = [32, 109, 105, 108, 108, 105, 115, 101, 99, 111, 110, 100, 115, 10];
            push_all(&mut out, &completed_in);
            push_decimal(&mut out, t);
            push_all(&mut out, &milliseconds);
            assert(out@ =~= encoding(res));
        },
        Completion::OutOfTime => {
            let out_of_time: [u8; 17] = [32, 114, 97, 110, 32, 111, 117, 116, 32, 111, 102, 32, 116, 105, 109, 101, 10];
            push_all(&mut out, &out_of_time);
            assert(out@ =~= encoding(res));
        },
    }
    out
}

/// Appends the line for `res` to `buf`.
pub fn encode_frame(res: Response, buf: &mut BytesMut)
    requires
        buf_bytes(*old(buf)).len() + encoding(res).len() <= usize::MAX,
    ensures
        buf_bytes(*final(buf)) == buf_bytes(*old(buf)) + encoding(res),
{
    let line = render(res);
    buf_extend(buf, line.as_slice());
}

/// The codec of the protocol; it keeps no state of its own, the partial
/// input stays in the caller's buffer.
#[derive(Clone, Copy, Debug, PartialEq, Eq, Structural)]
pub struct TaskCodec;

impl TaskCodec {
    /// Reads the next request out of `buf`, as `decode_frame` does.
    pub fn decode(&mut self, buf: &mut BytesMut) -> (r: Option<Request>)
        ensures
            (r, buf_bytes(*final(buf))) == decode_step(buf_bytes(*old(buf))),
    {
        decode_frame(buf)
    }

    /// Appends the line for `res` to `buf`, as `encode_frame` does.
    pub fn encode(&mut self, res: Response, buf: &mut BytesMut)
        requires
            buf_bytes(*old(buf)).len() + encoding(res).len() <= usize::MAX,
        ensures
            buf_bytes(*final(buf)) == buf_bytes(*old(buf)) + encoding(res),
    {
        encode_frame(res, buf)
    }
}

/// The protocol as a whole: every connection is framed with a `TaskCodec`.
#[derive(Clone, Copy, Debug, PartialEq, Eq, Structural)]
pub struct TaskProto;

impl TaskProto {
    /// The codec that frames a connection of this protocol.
    pub fn codec(&self) -> (r: TaskCodec)
        ensures
            r == TaskCodec,
    {
        TaskCodec
    }
}

/// A numeral holds neither a space nor a line feed.
proof fn lemma_numeral_has_no_separator(n: nat, k: int)
    requires
        0 <= k < decimal(n).len(),
    ensures
        decimal(n)[k] != SPACE,
        decimal(n)[k] != LF,
{
    lemma_decimal_reads_back(n);
    assert(is_digit(decimal(n)[k]));
}

/// The line of a request decodes to that request, whatever follows it in the
/// buffer, and only the line is consumed; the line written for the response
/// to it begins with the same `id`, up to its first space.
pub proof fn lemma_round_trip(id: u32, difficulty: u32, completion: Completion, rest: Seq<u8>)
    ensures
        decode_step(request_line(id, difficulty) + rest) == (
        Some(Request { id, difficulty }),
        rest,
        ),
        token_value(
            encoding(Response { id, completion }).take(
                find_byte(encoding(Response { id, completion }), SPACE),
            ),
        ) == Some(id),
{
    let a = decimal(id as nat);
    let d = decimal(difficulty as nat);
    lemma_decimal_reads_back(id as nat);
    lemma_decimal_reads_back(difficulty as nat);
    let b = request_line(id, difficulty) + rest;
    let i: int = a.len() as int + 1 + d.len() as int;
    assert forall|k: int| 0 <= k < i implies b[k] != LF by {
        if k < a.len() {
            lemma_numeral_has_no_separator(id as nat, k);
        } else if k > a.len() {
            lemma_numeral_has_no_separator(difficulty as nat, k - a.len() - 1);
        }
    }
    lemma_find_byte_at(b, LF, i);
    let body = b.take(i);
    assert(body =~= a + seq![SPACE] + d);
    assert(b.skip(i + 1) =~= rest);
    assert forall|k: int| 0 <= k < a.len() implies body[k] != SPACE by {
        lemma_numeral_has_no_separator(id as nat, k);
    }
    lemma_find_byte_at(body, SPACE, a.len() as int);
    assert(body.take(a.len() as int) =~= a);
    assert(body.skip(a.len() as int + 1) =~= d);
    let e = encoding(Response { id, completion });
    let tail = match completion {
        Completion::Time(t) => completed_in_text() + decimal(t as nat) + milliseconds_text(),
        Completion::OutOfTime => out_of_time_text(),
    };
    assert(e =~= a + tail);
    assert forall|k: int| 0 <= k < a.len() implies e[k] != SPACE by {
        lemma_numeral_has_no_separator(id as nat, k);
    }
    lemma_find_byte_at(e, SPACE, a.len() as int);
    assert(e.take(a.len() as int) =~= a);
}

} // verus!
