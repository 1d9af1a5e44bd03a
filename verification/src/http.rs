//! HTTP as text: the request that is sent to the server, and what its answer
//! holds.
//!
//! The connection is closed behind the answer, so the body is what is left of it;
//! a body in chunks is put together ([`dechunk`]).
use vstd::prelude::*;
use vstd::slice::slice_subrange;
use vstd::string::*;
use vstd::utf8::encode_utf8;
use crate::text::{
    contains, dec, find, find_char, from_chars, has_prefix, index_of, lemma_find_contains,
    lemma_find_from, lines, lines_of, lower_all, occurs_at, parse_nat, pieces, position, push_chars,
    push_dec, read_nat, starts_with, to_chars, to_lower_all, tokens, tokens_of, trim, trimmed,
};
use crate::utf8::{byte_len, lemma_byte_len_grows, lemma_byte_len_step, width_of};

verus! {

/// A request: the head, an empty line, the body. Its length counts bytes.
pub open spec fn request_of(port: u16, method: Seq<char>, path: Seq<char>, body: Seq<char>) -> Seq<char> {
    method + " "@ + path + " HTTP/1.1\r\nHost: 127.0.0.1:"@ + dec(port as nat)
        + "\r\nConnection: close\r\nContent-Type: application/json\r\nContent-Length: "@ + dec(
        encode_utf8(body).len(),
    ) + "\r\n\r\n"@ + body
}

/// The text of a request to the server on this machine.
pub fn request_text(port: u16, method: &str, path: &str, body: &str) -> (r: String)
    ensures
        r@ == request_of(port, method@, path@, body@),
{
    let mut out: String = method.to_owned();
    out.append(" ");
    out.append(path);
    out.append(" HTTP/1.1\r\nHost: 127.0.0.1:");
    push_dec(&mut out, port as u64);
    out.append("\r\nConnection: close\r\nContent-Type: application/json\r\nContent-Length: ");
    push_dec(&mut out, body.as_bytes().len() as u64);
    out.append("\r\n\r\n");
    out.append(body);
    out
}

/// An answer.
#[derive(Debug, Clone, PartialEq, Eq)]
pub struct Response {
    pub status: u16,
    pub body: String,
}

// ── Chunks ───────────────────────────────────────────────────────────────

/// Whether a prefix of so many characters takes exactly so many bytes.
pub open spec fn cuts_at(s: Seq<char>, n: nat, k: int) -> bool {
    0 <= k <= s.len() && byte_len(s.take(k)) == n
}

pub open spec fn is_hex(c: char) -> bool {
    ('0' <= c <= '9') || ('a' <= c <= 'f') || ('A' <= c <= 'F')
}

pub open spec fn hex_value(c: char) -> nat {
    if '0' <= c <= '9' {
        (c as nat - '0' as nat) as nat
    } else if 'a' <= c <= 'f' {
        (c as nat - 'a' as nat + 10) as nat
    } else {
        (c as nat - 'A' as nat + 10) as nat
    }
}

pub open spec fn hex_number(s: Seq<char>) -> nat
    decreases s.len(),
{
    if s.len() == 0 {
        0
    } else {
        16 * hex_number(s.drop_last()) + hex_value(s.last())
    }
}

pub open spec fn without_plus(s: Seq<char>) -> Seq<char> {
    if s.len() > 0 && s[0] == '+' {
        s.skip(1)
    } else {
        s
    }
}

/// The number of a hexadecimal numeral, which may have a plus sign.
pub open spec fn parse_hex(s: Seq<char>) -> Option<nat> {
    let digits = without_plus(s);
    if digits.len() > 0 && (forall|i: int| 0 <= i < digits.len() ==> is_hex(#[trigger] digits[i]))
        && hex_number(digits) <= usize::MAX {
        Some(hex_number(digits))
    } else {
        None
    }
}

/// What is left behind a line break, where there is one.
pub open spec fn past_break(s: Seq<char>) -> Seq<char> {
    if starts_with(s, "\r\n"@) {
        s.skip("\r\n"@.len() as int)
    } else {
        s
    }
}

/// The size that a line gives: what stands before its first semicolon.
pub open spec fn chunk_size(line: Seq<char>) -> Option<nat> {
    parse_hex(trim(line.take(find_char(line, ';'))))
}

/// The text of a body in chunks. Where the framing is broken, or a chunk would end
/// inside a character, it is what came before; a chunk that is cut short gives what
/// there is of it.
pub open spec fn dechunked(s: Seq<char>) -> Seq<char>
    decreases s.len(),
    via dechunked_decreases
{
    match find(s, "\r\n"@) {
        None => Seq::empty(),
        Some(i) => {
            let after = s.skip(i + "\r\n"@.len());
            match chunk_size(s.take(i)) {
                None => Seq::empty(),
                Some(n) => if n == 0 {
                    Seq::empty()
                } else if byte_len(after) < n {
                    after
                } else if exists|k: int| cuts_at(after, n, k) {
                    let k = choose|k: int| cuts_at(after, n, k);
                    after.take(k) + dechunked(past_break(after.skip(k)))
                } else {
                    Seq::empty()
                },
            }
        },
    }
}

#[via_fn]
proof fn dechunked_decreases(s: Seq<char>) {
    lemma_find_from(s, "\r\n"@, 0);
    reveal_strlit("\r\n");
}

proof fn lemma_one_cut(s: Seq<char>, n: nat, a: int, b: int)
    requires
        cuts_at(s, n, a),
        cuts_at(s, n, b),
    ensures
        a == b,
{
    if a < b {
        lemma_byte_len_grows(s, a, b);
    } else if b < a {
        lemma_byte_len_grows(s, b, a);
    }
}

enum Cut {
    /// The characters that make up so many bytes.
    At(usize),
    /// There are fewer bytes.
    Short,
    /// The place is inside a character.
    Inside,
}

fn cut(c: &[char], n: usize) -> (r: Cut)
    ensures
        match r {
            Cut::At(k) => cuts_at(c@, n as nat, k as int),
            Cut::Short => byte_len(c@) < n,
            Cut::Inside => byte_len(c@) >= n && forall|k: int| !cuts_at(c@, n as nat, k),
        },
{
    let mut left: usize = n;
    let mut i: usize = 0;
    while i < c.len() && left > 0
        invariant
            i <= c@.len(),
            left <= n,
            byte_len(c@.take(i as int)) == n - left,
        decreases c.len() - i,
    {
        let w: usize = width_of(c[i]);
        proof {
            lemma_byte_len_step(c@, i as int);
        }
        if w > left {
            proof {
                assert(c@.take(c@.len() as int) =~= c@);
                lemma_byte_len_grows(c@, i + 1, c@.len() as int);
                assert forall|k: int| !cuts_at(c@, n as nat, k) by {
                    if 0 <= k <= i {
                        lemma_byte_len_grows(c@, k, i as int);
                    } else if i < k <= c@.len() {
                        lemma_byte_len_grows(c@, i + 1, k);
                    }
                }
            }
            return Cut::Inside;
        }
        left = left - w;
        i += 1;
    }
    if left == 0 {
        return Cut::At(i);
    }
    assert(c@.take(c@.len() as int) =~= c@);
    Cut::Short
}

proof fn lemma_hex_number_grows(s: Seq<char>, i: int)
    requires
        0 <= i <= s.len(),
    ensures
        hex_number(s.take(i)) <= hex_number(s),
    decreases s.len() - i,
{
    if i < s.len() {
        assert(s.take(i + 1).drop_last() =~= s.take(i));
        lemma_hex_number_grows(s, i + 1);
    } else {
        assert(s.take(i) =~= s);
    }
}

fn hex_digit(c: char) -> (r: Option<usize>)
    ensures
        match r {
            Some(d) => is_hex(c) && d == hex_value(c) && d < 16,
            None => !is_hex(c),
        },
{
    if '0' <= c && c <= '9' {
        Some((c as u32 - '0' as u32) as usize)
    } else if 'a' <= c && c <= 'f' {
        Some((c as u32 - 'a' as u32) as usize + 10)
    } else if 'A' <= c && c <= 'F' {
        Some((c as u32 - 'A' as u32) as usize + 10)
    } else {
        None
    }
}

fn read_hex(c: &[char]) -> (r: Option<usize>)
    ensures
        match r {
            Some(n) => parse_hex(c@) == Some(n as nat),
            None => parse_hex(c@) is None,
        },
{
    let n: usize = c.len();
    let from: usize = if n > 0 && c[0] == '+' {
        1
    } else {
        0
    };
    let digits = slice_subrange(c, from, n);
    assert(digits@ =~= without_plus(c@));
    if digits.len() == 0 {
        return None;
    }
    let mut v: usize = 0;
    let mut i: usize = 0;
    while i < digits.len()
        invariant
            i <= digits@.len(),
            v == hex_number(digits@.take(i as int)),
            forall|k: int| 0 <= k < i ==> is_hex(#[trigger] digits@[k]),
            digits@.len() > 0,
            digits@ == without_plus(c@),
        decreases digits.len() - i,
    {
        proof {
            assert(digits@.take(i + 1).drop_last() =~= digits@.take(i as int));
            assert(digits@.take(i + 1).last() == digits@[i as int]);
        }
        match hex_digit(digits[i]) {
            Some(d) => {
                if v > (usize::MAX - d) / 16 {
                    proof {
                        lemma_hex_number_grows(digits@, i + 1);
                    }
                    return None;
                }
                v = 16 * v + d;
            },
            None => {
                assert(!is_hex(digits@[i as int]));
                return None;
            },
        }
        i += 1;
    }
    assert(digits@.take(digits@.len() as int) =~= digits@);
    Some(v)
}

/// The text of a body in chunks.
pub fn dechunk(body: &[char]) -> (r: String)
    ensures
        r@ == dechunked(body@),
{
    let mark = to_chars("\r\n");
    let mut out: String = String::new();
    let mut rest: &[char] = body;
    proof {
        reveal_strlit("\r\n");
    }
    assert(out@ + dechunked(body@) =~= dechunked(body@));
    loop
        invariant
            mark@ == "\r\n"@,
            mark@.len() == 2,
            out@ + dechunked(rest@) == dechunked(body@),
        decreases rest@.len(),
    {
        let ghost before = out@;
        let i: usize = match index_of(rest, mark.as_slice()) {
            Some(i) => i,
            None => {
                assert(out@ + dechunked(rest@) =~= out@);
                return out;
            },
        };
        let end: usize = rest.len();
        proof {
            lemma_find_from(rest@, "\r\n"@, 0);
        }
        let line = slice_subrange(rest, 0, i);
        let after = slice_subrange(rest, i + 2, end);
        assert(line@ =~= rest@.take(i as int));
        assert(after@ =~= rest@.skip(i + "\r\n"@.len()));
        let semi: usize = position(line, ';');
        let head = slice_subrange(line, 0, semi);
        assert(head@ =~= line@.take(find_char(line@, ';')));
        let n: usize = match read_hex(trimmed(head)) {
            Some(n) => n,
            None => {
                assert(out@ + dechunked(rest@) =~= out@);
                return out;
            },
        };
        if n == 0 {
            assert(out@ + dechunked(rest@) =~= out@);
            return out;
        }
        match cut(after, n) {
            Cut::Short => {
                push_chars(&mut out, after);
                return out;
            },
            Cut::Inside => {
                assert(out@ + dechunked(rest@) =~= out@);
                return out;
            },
            Cut::At(k) => {
                let chunk = slice_subrange(after, 0, k);
                let tail = slice_subrange(after, k, after.len());
                assert(chunk@ =~= after@.take(k as int));
                assert(tail@ =~= after@.skip(k as int));
                proof {
                    let j = choose|j: int| cuts_at(after@, n as nat, j);
                    assert(cuts_at(after@, n as nat, k as int));
                    lemma_one_cut(after@, n as nat, j, k as int);
                    assert(after@.take(after@.len() as int) =~= after@);
                    lemma_byte_len_grows(after@, k as int, after@.len() as int);
                }
                push_chars(&mut out, chunk);
                let next = if has_prefix(tail, "\r\n") {
                    slice_subrange(tail, 2, tail.len())
                } else {
                    tail
                };
                proof {
                    assert(next@ =~= past_break(tail@));
                    assert(dechunked(rest@) == chunk@ + dechunked(next@));
                    assert(out@ + dechunked(next@) =~= before + dechunked(rest@));
                }
                rest = next;
            },
        }
    }
}

/// A chunk behind the line that gives its size is read whole, and what follows its
/// line break is read on.
pub proof fn law_chunk_reads_back(size: Seq<char>, chunk: Seq<char>, rest: Seq<char>)
    requires
        !size.contains('\r'),
        chunk_size(size) == Some(byte_len(chunk)),
        chunk.len() > 0,
    ensures
        dechunked(size + "\r\n"@ + chunk + "\r\n"@ + rest) == chunk + dechunked(rest),
{
    let br = "\r\n"@;
    let s = size + br + chunk + br + rest;
    reveal_strlit("\r\n");
    let at = size.len() as int;
    assert(occurs_at(s, br, at)) by {
        assert(s.subrange(at, at + br.len()) =~= br);
    }
    assert forall|k: int| 0 <= k < at implies !#[trigger] occurs_at(s, br, k) by {
        assert(s[k] == size[k]);
        assert(size.contains(size[k]));
        if occurs_at(s, br, k) {
            assert(s.subrange(k, k + br.len())[0] == br[0]);
        }
    }
    lemma_find_from(s, br, 0);
    let i = find(s, br)->0;
    assert(i == at);
    assert(s.take(at) =~= size);
    let after = s.skip(at + br.len());
    let tail = br + rest;
    assert(after =~= chunk + tail);
    let k = chunk.len() as int;
    assert(after.take(k) =~= chunk);
    assert(cuts_at(after, byte_len(chunk), k));
    let j = choose|j: int| cuts_at(after, byte_len(chunk), j);
    lemma_one_cut(after, byte_len(chunk), j, k);
    assert(after.take(after.len() as int) =~= after);
    lemma_byte_len_grows(after, k, after.len() as int);
    assert(chunk.take(0).len() == 0);
    assert(chunk.take(k) =~= chunk);
    lemma_byte_len_grows(chunk, 0, k);
    assert(after.skip(k) =~= tail);
    assert(starts_with(tail, br)) by {
        assert(tail.take(br.len() as int) =~= br);
    }
    assert(tail.skip(br.len() as int) =~= rest);
}

// ── Answers ──────────────────────────────────────────────────────────────

/// The status in the head of an answer: the second word of its first line.
pub open spec fn status_in(head: Seq<char>) -> Option<int> {
    let ls = lines(head);
    if ls.len() == 0 || tokens(ls[0]).len() < 2 {
        None
    } else {
        parse_nat(tokens(ls[0])[1], u16::MAX as int)
    }
}

/// Whether a line of a head says that the body is in chunks.
pub open spec fn says_chunked(line: Seq<char>) -> bool {
    starts_with(lower_all(line), "transfer-encoding:"@) && contains(line, "chunked"@)
}

pub open spec fn is_chunked(head: Seq<char>) -> bool {
    exists|i: int| 0 <= i < lines(head).len() && says_chunked(#[trigger] lines(head)[i])
}

/// What an answer holds, status and body, or why it cannot be read.
pub open spec fn response_in(raw: Seq<char>) -> Result<(int, Seq<char>), Seq<char>> {
    match find(raw, "\r\n\r\n"@) {
        None => Err("truncated response from llama-server"@),
        Some(i) => {
            let head = raw.take(i);
            let body = raw.skip(i + "\r\n\r\n"@.len());
            match status_in(head) {
                None => Err("unreadable status line from llama-server"@),
                Some(status) => Ok(
                    (
                        status,
                        if is_chunked(head) {
                            dechunked(body)
                        } else {
                            body
                        },
                    ),
                ),
            }
        },
    }
}

fn read_status(head: &[char]) -> (r: Option<u16>)
    ensures
        match r {
            Some(n) => status_in(head@) == Some(n as int),
            None => status_in(head@) is None,
        },
{
    let ls = lines_of(head);
    assert(pieces(ls@).len() == ls@.len());
    if ls.len() == 0 {
        return None;
    }
    assert(pieces(ls@)[0] == ls@[0]@);
    let words = tokens_of(ls[0]);
    assert(pieces(words@).len() == words@.len());
    if words.len() < 2 {
        return None;
    }
    assert(pieces(words@)[1] == words@[1]@);
    match read_nat(words[1], u16::MAX as u64) {
        Some(n) => Some(n as u16),
        None => None,
    }
}

fn chunked(head: &[char]) -> (r: bool)
    ensures
        r == is_chunked(head@),
{
    let ls = lines_of(head);
    let mark = to_chars("chunked");
    let mut i: usize = 0;
    assert(pieces(ls@).len() == ls@.len());
    while i < ls.len()
        invariant
            i <= ls.len(),
            pieces(ls@) == lines(head@),
            mark@ == "chunked"@,
            forall|k: int| 0 <= k < i ==> !says_chunked(#[trigger] lines(head@)[k]),
        decreases ls.len() - i,
    {
        assert(pieces(ls@)[i as int] == ls@[i as int]@);
        let low = to_lower_all(ls[i]);
        if has_prefix(low.as_slice(), "transfer-encoding:") && index_of(ls[i], mark.as_slice()).is_some() {
            assert(says_chunked(lines(head@)[i as int]));
            return true;
        }
        i += 1;
    }
    false
}

/// Splits an answer into its status and its body.
pub fn parse_response(raw: &str) -> (r: Result<Response, String>)
    ensures
        match r {
            Ok(res) => response_in(raw@) == Ok::<(int, Seq<char>), Seq<char>>(
                (res.status as int, res.body@),
            ),
            Err(e) => response_in(raw@) == Err::<(int, Seq<char>), Seq<char>>(e@),
        },
{
    let c = to_chars(raw);
    let mark = to_chars("\r\n\r\n");
    let n: usize = c.len();
    let i: usize = match index_of(c.as_slice(), mark.as_slice()) {
        Some(i) => i,
        None => return Err("truncated response from llama-server".to_owned()),
    };
    let head = slice_subrange(c.as_slice(), 0, i);
    let body = slice_subrange(c.as_slice(), i + mark.len(), n);
    assert(head@ =~= raw@.take(i as int));
    assert(body@ =~= raw@.skip(i + "\r\n\r\n"@.len()));
    match read_status(head) {
        Some(status) => {
            let text = if chunked(head) {
                dechunk(body)
            } else {
                from_chars(body)
            };
            Ok(Response { status, body: text })
        },
        None => Err("unreadable status line from llama-server".to_owned()),
    }
}

// ── Laws ─────────────────────────────────────────────────────────────────

/// A hexadecimal digit is a digit or one of the first six letters, small or capital, and
/// counts from 0 to 15; a numeral counts sixteen times what stands before its last digit.
pub proof fn law_hex_digits(c: char, s: Seq<char>)
    ensures
        is_hex(c) <==> ('0' <= c <= '9') || ('a' <= c <= 'f') || ('A' <= c <= 'F'),
        '0' <= c <= '9' ==> hex_value(c) == c as nat - 48,
        'a' <= c <= 'f' ==> hex_value(c) == c as nat - 97 + 10,
        'A' <= c <= 'F' ==> hex_value(c) == c as nat - 65 + 10,
        hex_number(s.push(c)) == 16 * hex_number(s) + hex_value(c),
        hex_number(Seq::empty()) == 0,
{
    assert(s.push(c).drop_last() =~= s);
}

proof fn lemma_head_ends(head: Seq<char>, body: Seq<char>)
    requires
        !contains(head, "\r\n\r\n"@),
        head.len() > 0 ==> head.last() != '\n',
    ensures
        find(head + "\r\n\r\n"@ + body, "\r\n\r\n"@) == Some(head.len() as int),
        "\r\n\r\n"@.len() == 4,
{
    reveal_strlit("\r\n\r\n");
    let br = "\r\n\r\n"@;
    let s = head + br + body;
    let at = head.len() as int;
    assert(s.subrange(at, at + 4) =~= br);
    assert(occurs_at(s, br, at));
    lemma_find_from(s, br, 0);
    let i = find(s, br)->0;
    if i < at {
        assert(occurs_at(s, br, i));
        let w = s.subrange(i, i + 4);
        assert(w[0] == s[i] && w[1] == s[i + 1] && w[2] == s[i + 2] && w[3] == s[i + 3]);
        if i + 4 <= at {
            assert(head.subrange(i, i + 4) =~= w);
            assert(occurs_at(head, br, i));
        } else {
            assert(s[at] == '\r' && s[at + 1] == '\n' && s[at + 2] == '\r');
            assert(s[at - 1] == head.last());
            assert(br[0] == '\r' && br[1] == '\n' && br[2] == '\r' && br[3] == '\n');
            if i + 1 == at {
            } else if i + 2 == at {
                assert(s[i + 1] == head.last());
            } else {
                assert(i + 3 == at);
            }
        }
    }
}

/// The body of an answer is what stands behind the first empty line, as it is or out of
/// its chunks; an answer without an empty line was cut short.
pub proof fn law_answer_has_its_body(head: Seq<char>, body: Seq<char>)
    requires
        !contains(head, "\r\n\r\n"@),
        head.len() > 0 ==> head.last() != '\n',
    ensures
        ({
            let r = response_in(head + "\r\n\r\n"@ + body);
            &&& status_in(head) is Some && !is_chunked(head) ==> r == Ok::<(int, Seq<char>), Seq<char>>(
                (status_in(head)->0, body),
            )
            &&& status_in(head) is Some && is_chunked(head) ==> r == Ok::<(int, Seq<char>), Seq<char>>(
                (status_in(head)->0, dechunked(body)),
            )
            &&& status_in(head) is None ==> r is Err
        }),
        response_in(head) is Err,
{
    lemma_head_ends(head, body);
    lemma_find_contains(head, "\r\n\r\n"@);
    let s = head + "\r\n\r\n"@ + body;
    assert(s.take(head.len() as int) =~= head);
    assert(s.skip(head.len() as int + 4) =~= body);
}

/// A request ends in its body, behind an empty line and its length in bytes.
pub proof fn law_request_ends_in_its_body(port: u16, method: Seq<char>, path: Seq<char>, body: Seq<char>)
    ensures
        ({
            let r = request_of(port, method, path, body);
            let end = "Content-Length: "@ + dec(encode_utf8(body).len()) + "\r\n\r\n"@ + body;
            let line = method + " "@ + path + " HTTP/1.1\r\n"@;
            &&& r.len() >= end.len() && r.skip(r.len() - end.len()) == end
            &&& r.len() >= line.len() && r.take(line.len() as int) == line
        }),
{
    reveal_strlit("Content-Length: ");
    reveal_strlit("\r\nConnection: close\r\nContent-Type: application/json\r\nContent-Length: ");
    reveal_strlit(" HTTP/1.1\r\nHost: 127.0.0.1:");
    reveal_strlit(" HTTP/1.1\r\n");
    let r = request_of(port, method, path, body);
    let end = "Content-Length: "@ + dec(encode_utf8(body).len()) + "\r\n\r\n"@ + body;
    let line = method + " "@ + path + " HTTP/1.1\r\n"@;
    assert(r.skip(r.len() - end.len()) =~= end);
    assert(r.take(line.len() as int) =~= line);
}

/// A head says that the body is in chunks by a line `Transfer-Encoding: chunked`, the
/// name in any case of its letters.
pub proof fn law_chunked_heads(name: Seq<char>, rest: Seq<char>)
    requires
        name.len() == 18,
        lower_all(name) == "transfer-encoding:"@,
    ensures
        contains(rest, "chunked"@) ==> says_chunked(name + rest),
        says_chunked(name + rest) ==> contains(name + rest, "chunked"@),
{
    reveal_strlit("transfer-encoding:");
    let s = name + rest;
    assert(lower_all(s).take(18) =~= lower_all(name));
    assert(lower_all(s).subrange(0, 18) =~= lower_all(name));
    if contains(rest, "chunked"@) {
        let p = "chunked"@;
        let i = choose|i: int| occurs_at(rest, p, i);
        let j = name.len() + i;
        assert(s.subrange(j, j + p.len()) =~= rest.subrange(i, i + p.len()));
        assert(occurs_at(s, p, j));
    }
}

} // verus!
