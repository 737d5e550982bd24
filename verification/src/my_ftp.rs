//! The control dialogue of a file transfer from the printer: reading the replies
//! from the byte stream, and deciding on them.

use crate::net::Ipv4Address;
use crate::numbers::{
    digits_of, digits_read_back, int_text, is_digit, number_reads_back, parse_i32, parse_unsigned, parsed,
};
use crate::text::{
    append, bytes_between, chars_of, cut, find_from, lemma_lists_marked, lemma_position, lemma_position_is, lists_marked,
    position, split, split_on, text_of, trim, trim_end, trim_start, trimmed, utf8_text, views,
};
use vstd::prelude::*;
use vstd::utf8::{decode_utf8, valid_utf8};

verus! {

/// A reply of the server.
#[derive(Debug)]
pub struct ControlResponse {
    pub code: i32,
    pub string: String,
}

/// What can go wrong with a transfer.
#[derive(Debug)]
pub enum Error {
    Connect,
    Tls,
    Usage { reason: String },
    UnexpectedEof,
    InvalidResponse,
    Ftp { response: ControlResponse },
}

/// Where the first end of a line stands in `s`, or the length of `s` where there is
/// none.
pub open spec fn line_break(s: Seq<u8>) -> int
    decreases s.len(),
{
    if s.len() < 2 {
        s.len() as int
    } else if s[0] == 13 && s[1] == 10 {
        0
    } else {
        1 + line_break(s.skip(1))
    }
}

proof fn lemma_line_break(s: Seq<u8>)
    ensures
        0 <= line_break(s) <= s.len(),
        line_break(s) < s.len() ==> line_break(s) + 2 <= s.len() && s[line_break(s)] == 13 && s[line_break(s) + 1]
            == 10,
        forall|i: int| 0 <= i < line_break(s) && i + 1 < s.len() ==> !(#[trigger] s[i] == 13 && s[i + 1] == 10),
    decreases s.len(),
{
    if s.len() >= 2 && !(s[0] == 13 && s[1] == 10) {
        lemma_line_break(s.skip(1));
        let k = line_break(s.skip(1));
        assert forall|i: int| 0 <= i < line_break(s) && i + 1 < s.len() implies !(#[trigger] s[i] == 13 && s[i + 1]
            == 10) by {
            if i > 0 {
                assert(s.skip(1)[i - 1] == s[i]);
                assert(s.skip(1)[i] == s[i + 1]);
            }
        }
        if k < s.skip(1).len() {
            assert(s.skip(1)[k] == s[k + 1]);
            assert(s.skip(1)[k + 1] == s[k + 2]);
        }
    }
}

proof fn lemma_line_break_is(s: Seq<u8>, k: int)
    requires
        0 <= k,
        k + 2 <= s.len(),
        s[k] == 13,
        s[k + 1] == 10,
        forall|i: int| 0 <= i < k ==> !(#[trigger] s[i] == 13 && s[i + 1] == 10),
    ensures
        line_break(s) == k,
{
    lemma_line_break(s);
    let b = line_break(s);
    if b < k {
        assert(!(s[b] == 13 && s[b + 1] == 10));
    }
}

/// What has come of a reply.
pub ghost enum Reply {
    /// More bytes are needed.
    Incomplete,
    /// The first line is too short to be one.
    Invalid,
    /// The reply, with the ends of its lines.
    Complete(Seq<u8>),
}

/// A line that ends a reply of several lines: it repeats the code, and a space
/// follows.
pub open spec fn ends_reply(line: Seq<u8>, code: Seq<u8>) -> bool {
    line.len() >= 4 && line.take(3) == code && line[3] == 32
}

/// The lines of `s` up to the one that ends a reply.
pub open spec fn until_end(s: Seq<u8>, code: Seq<u8>) -> Option<Seq<u8>>
    decreases s.len(),
    via until_end_shrinks
{
    let p = line_break(s);
    if p >= s.len() {
        None
    } else {
        let line = s.take(p + 2);
        if ends_reply(line, code) {
            Some(line)
        } else {
            match until_end(s.skip(p + 2), code) {
                Some(rest) => Some(line + rest),
                None => None,
            }
        }
    }
}

#[via_fn]
proof fn until_end_shrinks(s: Seq<u8>, code: Seq<u8>) {
    lemma_line_break(s);
}

/// The reply at the head of a stream. Its first line begins with a code of three
/// bytes; a dash behind the code announces further lines.
pub open spec fn reply(s: Seq<u8>) -> Reply {
    let p = line_break(s);
    if p >= s.len() {
        Reply::Incomplete
    } else {
        let line = s.take(p + 2);
        if line.len() < 4 {
            Reply::Invalid
        } else if line[3] != 45 {
            Reply::Complete(line)
        } else {
            match until_end(s.skip(p + 2), line.take(3)) {
                Some(rest) => Reply::Complete(line + rest),
                None => Reply::Incomplete,
            }
        }
    }
}

/// Reads a reply from the byte stream as it arrives.
#[derive(Debug)]
pub struct ReplyReader {
    /// The lines that are complete.
    pub lines: Vec<u8>,
    /// What has arrived of the next line.
    pub buf: Vec<u8>,
    /// The code in the first line.
    pub code: Vec<u8>,
}

impl ReplyReader {
    /// All that has arrived.
    pub open spec fn stream(self) -> Seq<u8> {
        self.lines@ + self.buf@
    }

    /// The complete lines do not end the reply, and whatever follows them decides.
    pub open spec fn wf(self) -> bool {
        self.lines@.len() > 0 ==> forall|t: Seq<u8>| #[trigger]
            reply(self.lines@ + t) == (match until_end(t, self.code@) {
                Some(rest) => Reply::Complete(self.lines@ + rest),
                None => Reply::Incomplete,
            })
    }

    /// Nothing has arrived.
    pub fn new() -> (r: Self)
        ensures
            r.wf(),
            r.stream().len() == 0,
    {
        ReplyReader { lines: Vec::new(), buf: Vec::new(), code: Vec::new() }
    }

    /// Takes the bytes that have arrived; none means that the stream has ended. Gives
    /// the reply once it is complete, however the bytes were cut up on their way.
    pub fn feed(&mut self, bytes: &[u8]) -> (r: Option<Result<Vec<u8>, Error>>)
        requires
            old(self).wf(),
        ensures
            bytes@.len() == 0 ==> (r matches Some(Err(e)) && e is UnexpectedEof),
            bytes@.len() > 0 ==> match reply(old(self).stream() + bytes@) {
                Reply::Incomplete => {
                    &&& r is None
                    &&& final(self).wf()
                    &&& final(self).stream() == old(self).stream() + bytes@
                },
                Reply::Invalid => r matches Some(Err(e)) && e is InvalidResponse,
                Reply::Complete(all) => r matches Some(Ok(got)) && got@ == all,
            },
    {
        if bytes.len() == 0 {
            return Some(Err(Error::UnexpectedEof));
        }
        let ghost whole = self.stream() + bytes@;
        self.buf.extend_from_slice(bytes);
        proof {
            assert(self.lines@ + self.buf@ =~= whole);
        }
        loop
            invariant
                bytes@.len() > 0,
                whole == old(self).stream() + bytes@,
                self.wf(),
                self.lines@ + self.buf@ == whole,
            ensures
                self.wf(),
                self.lines@ + self.buf@ == whole,
                line_break(self.buf@) >= self.buf@.len(),
            decreases self.buf@.len(),
        {
            let pos = find_line_break(&self.buf);
            proof {
                lemma_line_break(self.buf@);
            }
            if pos == self.buf.len() {
                break;
            }
            let ghost before = *self;
            let line = bytes_between(self.buf.as_slice(), 0, pos + 2);
            let rest = bytes_between(self.buf.as_slice(), pos + 2, self.buf.len());
            proof {
                assert(line@ =~= before.buf@.take(pos + 2));
                assert(rest@ =~= before.buf@.skip(pos + 2));
            }
            let first = self.lines.len() == 0;
            if first {
                proof {
                    assert(before.lines@ + before.buf@ =~= before.buf@);
                }
                if line.len() < 4 {
                    return Some(Err(Error::InvalidResponse));
                }
                self.code = bytes_between(line.as_slice(), 0, 3);
                proof {
                    assert(self.code@ =~= line@.take(3));
                }
                if line[3] != 45 {
                    return Some(Ok(line));
                }
                self.lines = line;
                self.buf = rest;
                proof {
                    lemma_first_line(self.lines@, self.code@, pos as int);
                    assert(self.lines@ + self.buf@ =~= whole);
                }
            } else {
                let is_end = line.len() >= 4 && same_bytes(&line, 3, &self.code) && line[3] == 32;
                proof {
                    assert(is_end == ends_reply(line@, self.code@));
                    assert(whole == before.lines@ + before.buf@);
                }
                self.lines.extend_from_slice(line.as_slice());
                self.buf = rest;
                proof {
                    assert(self.lines@ =~= before.lines@ + line@);
                }
                if is_end {
                    let all = bytes_between(self.lines.as_slice(), 0, self.lines.len());
                    proof {
                        assert(all@ =~= self.lines@);
                    }
                    return Some(Ok(all));
                }
                proof {
                    lemma_next_line(before.lines@, line@, self.code@, pos as int);
                    assert(self.lines@ + self.buf@ =~= whole);
                }
            }
        }
        proof {
            if self.lines@.len() == 0 {
                assert(self.lines@ + self.buf@ =~= self.buf@);
            }
        }
        None
    }
}

/// A first line that announces further lines leaves the decision to what follows.
proof fn lemma_first_line(line: Seq<u8>, code: Seq<u8>, pos: int)
    requires
        line.len() == pos + 2,
        line_break(line) == pos || forall|i: int| 0 <= i < pos ==> !(#[trigger] line[i] == 13 && line[i + 1] == 10),
        0 <= pos,
        line[pos] == 13,
        line[pos + 1] == 10,
        line.len() >= 4,
        line[3] == 45,
        code == line.take(3),
    ensures
        forall|t: Seq<u8>| #[trigger]
            reply(line + t) == (match until_end(t, code) {
                Some(rest) => Reply::Complete(line + rest),
                None => Reply::Incomplete,
            }),
{
    lemma_line_break(line);
    assert forall|t: Seq<u8>| #[trigger]
        reply(line + t) == (match until_end(t, code) {
            Some(rest) => Reply::Complete(line + rest),
            None => Reply::Incomplete,
        }) by {
        let s = line + t;
        assert forall|i: int| 0 <= i < pos implies !(#[trigger] s[i] == 13 && s[i + 1] == 10) by {
            assert(s[i] == line[i] && s[i + 1] == line[i + 1]);
        }
        lemma_line_break_is(s, pos);
        assert(s.take(pos + 2) =~= line);
        assert(s.skip(pos + 2) =~= t);
    }
}

/// A further line that does not end the reply leaves the decision to what follows.
proof fn lemma_next_line(lines: Seq<u8>, line: Seq<u8>, code: Seq<u8>, pos: int)
    requires
        forall|t: Seq<u8>| #[trigger]
            reply(lines + t) == (match until_end(t, code) {
                Some(rest) => Reply::Complete(lines + rest),
                None => Reply::Incomplete,
            }),
        line.len() == pos + 2,
        line_break(line) == pos || forall|i: int| 0 <= i < pos ==> !(#[trigger] line[i] == 13 && line[i + 1] == 10),
        0 <= pos,
        line[pos] == 13,
        line[pos + 1] == 10,
        !ends_reply(line, code),
    ensures
        forall|t: Seq<u8>| #[trigger]
            reply(lines + line + t) == (match until_end(t, code) {
                Some(rest) => Reply::Complete(lines + line + rest),
                None => Reply::Incomplete,
            }),
{
    lemma_line_break(line);
    assert forall|t: Seq<u8>| #[trigger]
        reply(lines + line + t) == (match until_end(t, code) {
            Some(rest) => Reply::Complete(lines + line + rest),
            None => Reply::Incomplete,
        }) by {
        let s = line + t;
        assert(lines + line + t =~= lines + s);
        assert forall|i: int| 0 <= i < pos implies !(#[trigger] s[i] == 13 && s[i + 1] == 10) by {
            assert(s[i] == line[i] && s[i + 1] == line[i + 1]);
        }
        lemma_line_break_is(s, pos);
        assert(s.take(pos + 2) =~= line);
        assert(s.skip(pos + 2) =~= t);
        if let Some(rest) = until_end(t, code) {
            assert(lines + (line + rest) =~= lines + line + rest);
        }
    }
}

fn find_line_break(s: &Vec<u8>) -> (r: usize)
    ensures
        r == line_break(s@),
        r <= s@.len(),
{
    let mut i: usize = 0;
    proof {
        assert(s@.skip(0) =~= s@);
    }
    while i < s.len() && !(i + 1 < s.len() && s[i] == 13 && s[i + 1] == 10)
        invariant
            i <= s@.len(),
            s@.len() == s.len(),
            line_break(s@) == i + line_break(s@.skip(i as int)),
        decreases s@.len() - i,
    {
        proof {
            assert(s@.skip(i as int).skip(1) =~= s@.skip(i + 1));
            if i + 1 == s@.len() {
                assert(line_break(s@.skip(i as int)) == 1);
            }
        }
        i += 1;
    }
    i
}

/// Whether the first `n` bytes of `a` are those of `b`, and no others.
fn same_bytes(a: &Vec<u8>, n: usize, b: &Vec<u8>) -> (r: bool)
    requires
        n <= a@.len(),
    ensures
        r == (a@.take(n as int) == b@),
{
    if b.len() != n {
        return false;
    }
    let mut i: usize = 0;
    while i < n
        invariant
            i <= n <= a@.len(),
            b@.len() == n,
            forall|j: int| 0 <= j < i ==> a@[j] == b@[j],
        decreases n - i,
    {
        if a[i] != b[i] {
            proof {
                assert(a@.take(n as int)[i as int] == a@[i as int]);
            }
            return false;
        }
        i += 1;
    }
    proof {
        assert(a@.take(n as int) =~= b@);
    }
    true
}

/// The code of a reply: the number before its first space.
pub open spec fn reply_code(text: Seq<char>) -> Option<int> {
    parsed(text.take(position(text, ' ')), i32::MIN as int, i32::MAX as int)
}

/// Takes a reply apart. It is invalid where it is not text or begins with no number.
pub fn decode_control_response(bytes: &[u8]) -> (r: Result<ControlResponse, Error>)
    ensures
        r is Ok <==> valid_utf8(bytes@) && reply_code(decode_utf8(bytes@)) is Some,
        r is Ok ==> {
            &&& r->Ok_0.string@ == decode_utf8(bytes@)
            &&& reply_code(decode_utf8(bytes@)) == Some(r->Ok_0.code as int)
        },
        r is Err ==> r->Err_0 is InvalidResponse,
{
    match utf8_text(bytes) {
        None => Err(Error::InvalidResponse),
        Some(string) => {
            let chars = chars_of(string.as_str());
            proof {
                assert(chars@.skip(0) =~= chars@);
            }
            let end = find_from(chars.as_slice(), ' ', 0);
            let word = cut(chars.as_slice(), 0, end);
            proof {
                assert(word@ =~= chars@.take(end as int));
            }
            match parse_i32(word.as_slice()) {
                Some(code) => Ok(ControlResponse { code, string }),
                None => Err(Error::InvalidResponse),
            }
        },
    }
}

/// The numbers in a list: words that are none, or too large, are passed over.
pub open spec fn numbers_in(words: Seq<Seq<char>>) -> Seq<u8>
    decreases words.len(),
{
    if words.len() == 0 {
        seq![]
    } else {
        match parsed(trimmed(words.last()), 0, 255) {
            Some(n) => numbers_in(words.drop_last()).push(n as u8),
            None => numbers_in(words.drop_last()),
        }
    }
}

/// What stands between the first opening and the first closing bracket.
pub open spec fn in_brackets(s: Seq<char>) -> Seq<char> {
    s.subrange(position(s, '(') + 1, position(s, ')'))
}

/// Both brackets are there.
pub open spec fn has_brackets(s: Seq<char>) -> bool {
    position(s, '(') < s.len() && position(s, ')') < s.len()
}

/// Reads where the server awaits the data connection: six numbers between brackets,
/// four for the address and two for the port.
pub fn parse_pasv(s: &str) -> (r: Result<(Ipv4Address, u16), Error>)
    requires
        has_brackets(s@) ==> position(s@, '(') < position(s@, ')'),
    ensures
        ({
            let n = numbers_in(split_on(in_brackets(s@), ','));
            &&& r is Ok <==> has_brackets(s@) && n.len() == 6
            &&& r is Ok ==> {
                &&& r->Ok_0.0 == (Ipv4Address { a: n[0], b: n[1], c: n[2], d: n[3] })
                &&& r->Ok_0.1 == n[4] * 256 + n[5]
            }
            &&& r is Err ==> r->Err_0 is InvalidResponse
        }),
{
    let chars = chars_of(s);
    proof {
        assert(chars@.skip(0) =~= chars@);
        lemma_position(chars@, '(');
        lemma_position(chars@, ')');
    }
    let open = find_from(chars.as_slice(), '(', 0);
    let close = find_from(chars.as_slice(), ')', 0);
    if open == chars.len() || close == chars.len() {
        return Err(Error::InvalidResponse);
    }
    let inner = cut(chars.as_slice(), open + 1, close);
    let words = split(inner.as_slice(), ',');
    let ghost all = views(words@);
    let mut parts: Vec<u8> = Vec::new();
    let mut i: usize = 0;
    proof {
        assert(numbers_in(all.take(0)).len() == 0);
    }
    while i < words.len()
        invariant
            i <= words@.len(),
            all == views(words@),
            parts@ =~= numbers_in(all.take(i as int)),
        decreases words@.len() - i,
    {
        let word = trim(words[i].as_slice());
        proof {
            assert(all[i as int] == words@[i as int]@);
            assert(all.take(i + 1).drop_last() =~= all.take(i as int));
        }
        if let Some(n) = parse_unsigned(word.as_slice(), 255) {
            parts.push(n as u8);
        }
        i += 1;
    }
    proof {
        assert(all.take(all.len() as int) =~= all);
    }
    if parts.len() != 6 {
        return Err(Error::InvalidResponse);
    }
    let ip = Ipv4Address { a: parts[0], b: parts[1], c: parts[2], d: parts[3] };
    let port = (parts[4] as u16) * 256 + (parts[5] as u16);
    Ok((ip, port))
}

/// What the name of a user or a password leads to.
#[derive(Clone, Copy, Debug, PartialEq, Eq, Structural)]
pub enum LoginStep {
    LoggedIn,
    PasswordNeeded,
}

/// The client's side of the dialogue.
#[derive(Debug)]
pub struct MyFtps {
    pub ip: Ipv4Address,
    pub port: u16,
    pub server_name: String,
    /// Whether there is a session with the server.
    pub session: bool,
}

impl MyFtps {
    /// A client for a server, without session.
    pub fn new(ip: Ipv4Address, port: u16, server_name: String) -> (r: MyFtps)
        ensures
            r == (MyFtps { ip, port, server_name, session: false }),
    {
        MyFtps { ip, port, server_name, session: false }
    }

    /// Whether replies can be read: only in a session.
    pub fn can_read(&self) -> (r: Result<(), Error>)
        ensures
            r is Ok <==> self.session,
            r is Err ==> (r->Err_0 matches Error::Usage { reason } && reason@
                == "read_control_response called w/o session"@),
    {
        if self.session {
            Ok(())
        } else {
            Err(Error::Usage { reason: "read_control_response called w/o session".to_string() })
        }
    }

    /// Goes on once the session is established, with what the server says first.
    pub fn connect(&mut self, greeting: Result<ControlResponse, Error>) -> (r: Result<(), Error>)
        ensures
            *final(self) == (MyFtps { session: true, ..*old(self) }),
            r == expected(greeting, 220),
    {
        self.session = true;
        expect(greeting, 220)
    }

    /// The command that names the user.
    pub fn user_command(user: &str) -> (r: String)
        ensures
            r@ == "USER "@ + user@ + "\r\n"@,
    {
        command("USER ", user)
    }

    /// The command that gives the password.
    pub fn pass_command(password: &str) -> (r: String)
        ensures
            r@ == "PASS "@ + password@ + "\r\n"@,
    {
        command("PASS ", password)
    }

    /// The command that asks for a file.
    pub fn retr_command(path: &str) -> (r: String)
        ensures
            r@ == "RETR "@ + path@ + "\r\n"@,
    {
        command("RETR ", path)
    }

    /// Goes on with the login once the server has answered to the user.
    pub fn login_user(code: i32) -> (r: Option<LoginStep>)
        ensures
            r == (if code == 230 {
                Some(LoginStep::LoggedIn)
            } else if code == 331 {
                Some(LoginStep::PasswordNeeded)
            } else {
                None
            }),
    {
        if code == 230 {
            Some(LoginStep::LoggedIn)
        } else if code == 331 {
            Some(LoginStep::PasswordNeeded)
        } else {
            None
        }
    }

    /// What a login comes to. The password is asked for, and `password` has the
    /// answer to it, only where the answer to the user says so; an answer to the
    /// password that is neither is reported by the answer to the user.
    pub fn login(user: Result<ControlResponse, Error>, password: Result<ControlResponse, Error>) -> (r: Result<bool, Error>)
        ensures
            match user {
                Err(e) => r == Err::<bool, Error>(e),
                Ok(u) => if u.code == 230 {
                    r == Ok::<bool, Error>(true)
                } else if u.code != 331 {
                    r == Err::<bool, Error>(Error::Ftp { response: u })
                } else {
                    match password {
                        Err(e) => r == Err::<bool, Error>(e),
                        Ok(p) => if p.code == 230 {
                            r == Ok::<bool, Error>(true)
                        } else if p.code == 530 {
                            r == Ok::<bool, Error>(false)
                        } else {
                            r == Err::<bool, Error>(Error::Ftp { response: u })
                        },
                    }
                },
            },
    {
        match user {
            Err(e) => Err(e),
            Ok(u) => match Self::login_user(u.code) {
                Some(LoginStep::LoggedIn) => Ok(true),
                None => Err(Error::Ftp { response: u }),
                Some(LoginStep::PasswordNeeded) => match password {
                    Err(e) => Err(e),
                    Ok(p) => {
                        if p.code == 230 {
                            Ok(true)
                        } else if p.code == 530 {
                            Ok(false)
                        } else {
                            Err(Error::Ftp { response: u })
                        }
                    },
                },
            },
        }
    }

    /// What taking leave comes to.
    pub fn quit(response: Result<ControlResponse, Error>) -> (r: Result<bool, Error>)
        ensures
            r == (match expected(response, 221) {
                Ok(()) => Ok::<bool, Error>(true),
                Err(e) => Err(e),
            }),
    {
        match expect(response, 221) {
            Ok(()) => Ok(true),
            Err(e) => Err(e),
        }
    }

    /// What keeping the dialogue alive comes to.
    pub fn noop(response: Result<ControlResponse, Error>) -> (r: Result<bool, Error>)
        ensures
            r == (match expected(response, 220) {
                Ok(()) => Ok::<bool, Error>(true),
                Err(e) => Err(e),
            }),
    {
        match expect(response, 220) {
            Ok(()) => Ok(true),
            Err(e) => Err(e),
        }
    }

    /// Where the data connection is to be made to, by the answer to the request for
    /// a passive one.
    pub fn start_retrieve(response: Result<ControlResponse, Error>) -> (r: Result<(Ipv4Address, u16), Error>)
        requires
            response is Ok && response->Ok_0.code == 227 && has_brackets(response->Ok_0.string@) ==> position(
                response->Ok_0.string@,
                '(',
            ) < position(response->Ok_0.string@, ')'),
        ensures
            ({
                let n = numbers_in(split_on(in_brackets(response->Ok_0.string@), ','));
                match expected(response, 227) {
                    Err(e) => r == Err::<(Ipv4Address, u16), Error>(e),
                    Ok(()) => {
                        &&& r is Ok <==> has_brackets(response->Ok_0.string@) && n.len() == 6
                        &&& r is Ok ==> {
                            &&& r->Ok_0.0 == (Ipv4Address { a: n[0], b: n[1], c: n[2], d: n[3] })
                            &&& r->Ok_0.1 == n[4] * 256 + n[5]
                        }
                        &&& r is Err ==> r->Err_0 is InvalidResponse
                    },
                }
            }),
    {
        match response {
            Err(e) => Err(e),
            Ok(response) => {
                if response.code != 227 {
                    Err(Error::Ftp { response })
                } else {
                    parse_pasv(response.string.as_str())
                }
            },
        }
    }

    /// Whether the server sends the file, by its answer to the request for it. The
    /// control session is over by then.
    pub fn retrieve_started(&mut self, response: Result<ControlResponse, Error>) -> (r: Result<(), Error>)
        ensures
            *final(self) == (MyFtps { session: false, ..*old(self) }),
            r == expected(response, 150),
    {
        self.session = false;
        expect(response, 150)
    }

    /// What a transfer comes to, by what the server says at its end.
    pub fn complete_retrieve(response: Result<ControlResponse, Error>) -> (r: Result<(), Error>)
        ensures
            r == expected(response, 226),
    {
        expect(response, 226)
    }

    /// Ends the session; says whether there was one to be closed.
    pub fn close(&mut self) -> (r: bool)
        ensures
            r == old(self).session,
            *final(self) == (MyFtps { session: false, ..*old(self) }),
    {
        let was_open = self.session;
        self.session = false;
        was_open
    }
}

/// What a reply comes to where one code is expected: any other is an error.
pub open spec fn expected(response: Result<ControlResponse, Error>, code: i32) -> Result<(), Error> {
    match response {
        Err(e) => Err(e),
        Ok(response) => if response.code == code {
            Ok(())
        } else {
            Err(Error::Ftp { response })
        },
    }
}

fn expect(response: Result<ControlResponse, Error>, code: i32) -> (r: Result<(), Error>)
    ensures
        r == expected(response, code),
{
    match response {
        Err(e) => Err(e),
        Ok(response) => {
            if response.code == code {
                Ok(())
            } else {
                Err(Error::Ftp { response })
            }
        },
    }
}

fn command(verb: &str, argument: &str) -> (r: String)
    ensures
        r@ == verb@ + argument@ + "\r\n"@,
{
    let mut chars = chars_of(verb);
    let arg = chars_of(argument);
    let end = chars_of("\r\n");
    append(&mut chars, arg.as_slice());
    append(&mut chars, end.as_slice());
    text_of(chars.as_slice())
}

/// A line ends at the first carriage return that a line feed follows.
pub proof fn first_line_end_counts(s: Seq<u8>)
    ensures
        0 <= line_break(s) <= s.len(),
        line_break(s) < s.len() ==> line_break(s) + 1 < s.len() && s[line_break(s)] == 13 && s[line_break(s) + 1] == 10,
        forall|i: int| 0 <= i < line_break(s) && i + 1 < s.len() ==> !(#[trigger] s[i] == 13 && s[i + 1] == 10),
{
    lemma_line_break(s);
}

/// A line without an end inside: no carriage return that a line feed follows, and none at
/// its end.
pub open spec fn is_line(line: Seq<u8>) -> bool {
    &&& forall|i: int| 0 <= i < line.len() - 1 ==> !(#[trigger] line[i] == 13 && line[i + 1] == 10)
    &&& line.len() > 0 ==> line.last() != 13
}

proof fn lemma_line_break_behind(line: Seq<u8>, rest: Seq<u8>)
    requires
        is_line(line),
    ensures
        line_break(line + seq![13u8, 10u8] + rest) == line.len(),
        (line + seq![13u8, 10u8] + rest).take(line.len() as int + 2) == line + seq![13u8, 10u8],
        (line + seq![13u8, 10u8] + rest).skip(line.len() as int + 2) == rest,
{
    let s = line + seq![13u8, 10u8] + rest;
    let n = line.len() as int;
    assert forall|i: int| 0 <= i < n implies !(#[trigger] s[i] == 13 && s[i + 1] == 10) by {
        assert(s[i] == line[i]);
        if i < n - 1 {
            assert(s[i + 1] == line[i + 1]);
        }
    }
    assert(s[n] == 13 && s[n + 1] == 10);
    lemma_line_break_is(s, n);
    assert(s.take(n + 2) =~= line + seq![13u8, 10u8]);
    assert(s.skip(n + 2) =~= rest);
}

/// A reply of one line is complete with the end of this line, unless a dash behind the code
/// announces more. What follows it is not part of it. A line of less than two bytes is
/// none.
pub proof fn reply_of_one_line_ends_with_it(line: Seq<u8>, rest: Seq<u8>)
    requires
        is_line(line),
    ensures
        line.len() < 2 ==> reply(line + seq![13u8, 10u8] + rest) is Invalid,
        line.len() >= 2 && (line.len() < 4 || line[3] != 45) ==> reply(line + seq![13u8, 10u8] + rest) == Reply::Complete(
            line + seq![13u8, 10u8],
        ),
        reply(line) is Incomplete,
{
    lemma_line_break_behind(line, rest);
    lemma_line_break(line);
    let b = line_break(line);
    if b < line.len() {
        assert(line[b] == 13 && line[b + 1] == 10);
    }
}

/// A reply of several lines goes on to the first line that begins with the code of the first
/// one and a blank. Any other line belongs to it and does not end it.
pub proof fn reply_of_several_lines_ends_with_its_code(first: Seq<u8>, line: Seq<u8>, rest: Seq<u8>)
    requires
        is_line(first),
        is_line(line),
        first.len() >= 4,
        first[3] == 45,
    ensures
        ({
            let end = seq![13u8, 10u8];
            let code = first.take(3);
            let last = line.len() >= 4 && line[0] == first[0] && line[1] == first[1] && line[2] == first[2] && line[3] == 32;
            &&& reply(first + end) is Incomplete
            &&& last ==> reply(first + end + (line + end + rest)) == Reply::Complete(first + end + (line + end))
            &&& !last ==> reply(first + end + (line + end + rest)) == (match until_end(rest, code) {
                Some(more) => Reply::Complete(first + end + (line + end + more)),
                None => Reply::Incomplete,
            })
        }),
{
    let end = seq![13u8, 10u8];
    let code = first.take(3);
    lemma_line_break_behind(first, line + end + rest);
    lemma_line_break_behind(first, seq![]);
    assert(first + end + seq![] =~= first + end);
    lemma_line_break_behind(line, rest);
    let head = first + end;
    assert(head.take(3) =~= code);
    assert(head[3] == 45);
    let full = line + end;
    if line.len() == 3 {
        assert(full[3] == 13);
    } else if line.len() == 2 {
        assert(full[3] == 10);
    }
    if line.len() >= 4 {
        assert(full[3] == line[3]);
        assert(full.take(3)[0] == line[0] && full.take(3)[1] == line[1] && full.take(3)[2] == line[2]);
        if line[0] == first[0] && line[1] == first[1] && line[2] == first[2] {
            assert(full.take(3) =~= code);
        } else {
            assert(code[0] == first[0] && code[1] == first[1] && code[2] == first[2]);
        }
    }
    if let Some(more) = until_end(rest, code) {
        assert(head + (full + more) =~= head + (line + end + more));
    }
    reveal_with_fuel(until_end, 2);
    let none: Seq<u8> = seq![];
    assert(line_break(none) == 0);
    assert(until_end(none, code) is None);
}

/// The code of a reply is the number before its first blank.
pub proof fn code_stands_before_the_first_blank(n: i32, rest: Seq<char>)
    ensures
        reply_code(int_text(n as int) + seq![' '] + rest) == Some(n as int),
        reply_code(int_text(n as int)) == Some(n as int),
{
    let code = int_text(n as int);
    number_reads_back(n as int);
    digits_read_back(if n < 0 {
        (-n) as nat
    } else {
        n as nat
    });
    assert forall|i: int| 0 <= i < code.len() implies code[i] != ' ' by {
        if n < 0 {
            if i > 0 {
                assert(is_digit(digits_of((-n) as nat)[i - 1]));
            }
        } else {
            assert(is_digit(digits_of(n as nat)[i]));
        }
    }
    let text = code + seq![' '] + rest;
    lemma_position_is(text, ' ', code.len() as int);
    lemma_position_is(code, ' ', code.len() as int);
    assert(text.take(code.len() as int) =~= code);
    assert(code.take(code.len() as int) =~= code);
}

/// Of the words of a list exactly those give a number, in their order, that are one up to
/// 255, whatever white space is around them.
pub proof fn words_that_are_numbers_are_taken(words: Seq<Seq<char>>) -> (at: Seq<int>)
    ensures
        lists_marked(at, Seq::new(words.len(), |i: int| parsed(trimmed(words[i]), 0, 255) is Some)),
        numbers_in(words).len() == at.len(),
        forall|k: int| 0 <= k < at.len() ==> #[trigger] numbers_in(words)[k] == parsed(trimmed(words[at[k]]), 0, 255)->0,
    decreases words.len(),
{
    let marks = Seq::new(words.len(), |i: int| parsed(trimmed(words[i]), 0, 255) is Some);
    if words.len() == 0 {
        assert(lists_marked(seq![], marks));
        seq![]
    } else {
        let less = words.drop_last();
        let before = words_that_are_numbers_are_taken(less);
        let fewer = Seq::new(less.len(), |i: int| parsed(trimmed(less[i]), 0, 255) is Some);
        let is_number = parsed(trimmed(words.last()), 0, 255) is Some;
        lemma_lists_marked(before, fewer, is_number);
        assert(fewer.push(is_number) =~= marks);
        if is_number {
            before.push(less.len() as int)
        } else {
            before
        }
    }
}

/// The address of the data connection stands between the first two brackets.
pub proof fn brackets_hold_the_address(before: Seq<char>, inner: Seq<char>, after: Seq<char>)
    requires
        !before.contains('('),
        !before.contains(')'),
        !inner.contains(')'),
    ensures
        ({
            let s = before + seq!['('] + inner + seq![')'] + after;
            &&& has_brackets(s)
            &&& in_brackets(s) == inner
            &&& position(s, '(') < position(s, ')')
        }),
        !has_brackets(before),
        !has_brackets(before + seq!['('] + inner),
{
    let s = before + seq!['('] + inner + seq![')'] + after;
    let n = before.len() as int;
    assert forall|i: int| 0 <= i < n implies before[i] != '(' && before[i] != ')' by {
        assert(before.contains(before[i]));
    }
    assert forall|i: int| 0 <= i < inner.len() implies inner[i] != ')' by {
        assert(inner.contains(inner[i]));
    }
    lemma_position_is(s, '(', n);
    assert forall|i: int| 0 <= i < n + 1 + inner.len() implies s[i] != ')' by {
        if i > n {
            assert(s[i] == inner[i - n - 1]);
        }
    }
    lemma_position_is(s, ')', n + 1 + inner.len());
    assert(s.subrange(n + 1, n + 1 + inner.len()) =~= inner);
    lemma_position_is(before, '(', n);
    let open = before + seq!['('] + inner;
    assert forall|i: int| 0 <= i < open.len() implies open[i] != ')' by {
        if i > n {
            assert(open[i] == inner[i - n - 1]);
        }
    }
    lemma_position_is(open, ')', open.len() as int);
}

/// Six numbers between brackets and commas are an address and a port, the larger part of
/// the port first.
pub proof fn six_numbers_are_address_and_port(n: Seq<u8>, words: Seq<Seq<char>>)
    requires
        n.len() == 6,
        words.len() == 6,
        forall|i: int| 0 <= i < 6 ==> #[trigger] words[i] == int_text(n[i] as int),
    ensures
        numbers_in(words) == n,
{
    let at = words_that_are_numbers_are_taken(words);
    let marks = Seq::new(words.len(), |i: int| parsed(trimmed(words[i]), 0, 255) is Some);
    assert forall|i: int| 0 <= i < 6 implies parsed(trimmed(#[trigger] words[i]), 0, 255) == Some(n[i] as int) by {
        let s = int_text(n[i] as int);
        assert(words[i] == s);
        number_reads_back(n[i] as int);
        digits_read_back(n[i] as nat);
        assert(is_digit(s[0]) && is_digit(s[s.len() - 1]));
        assert(trim_start(s) == s);
        assert(trim_end(s) == s);
    }
    assert forall|k: int| 0 <= k < 6 implies at.contains(k) by {
        assert(parsed(trimmed(words[k]), 0, 255) == Some(n[k] as int));
        assert(marks[k]);
    }
    lemma_rising_six(at);
    assert(numbers_in(words) =~= n);
}

proof fn lemma_rising_six(at: Seq<int>)
    requires
        forall|i: int| 0 <= i < at.len() ==> 0 <= #[trigger] at[i] < 6,
        forall|i: int, j: int| 0 <= i < j < at.len() ==> #[trigger] at[i] < #[trigger] at[j],
        forall|k: int| 0 <= k < 6 ==> at.contains(k),
    ensures
        at.len() == 6,
        forall|k: int| 0 <= k < 6 ==> #[trigger] at[k] == k,
{
    assert(at.contains(0) && at.contains(1) && at.contains(2) && at.contains(3) && at.contains(4) && at.contains(5));
    let p = |k: int| choose|i: int| 0 <= i < at.len() && at[i] == k;
    assert(at[p(0)] == 0 && at[p(1)] == 1 && at[p(2)] == 2 && at[p(3)] == 3 && at[p(4)] == 4 && at[p(5)] == 5);
    assert(p(0) < p(1)) by {
        if p(1) < p(0) {
            assert(at[p(1)] < at[p(0)]);
        }
    }
    assert(p(1) < p(2)) by {
        if p(2) < p(1) {
            assert(at[p(2)] < at[p(1)]);
        }
    }
    assert(p(2) < p(3)) by {
        if p(3) < p(2) {
            assert(at[p(3)] < at[p(2)]);
        }
    }
    assert(p(3) < p(4)) by {
        if p(4) < p(3) {
            assert(at[p(4)] < at[p(3)]);
        }
    }
    assert(p(4) < p(5)) by {
        if p(5) < p(4) {
            assert(at[p(5)] < at[p(4)]);
        }
    }
    if at.len() > 6 {
        assert(at[0] < at[1]);
        assert(at[1] < at[2]);
        assert(at[2] < at[3]);
        assert(at[3] < at[4]);
        assert(at[4] < at[5]);
        assert(at[5] < at[6]);
    }
    assert(at[0] < at[1]);
    assert(at[1] < at[2]);
    assert(at[2] < at[3]);
    assert(at[3] < at[4]);
    assert(at[4] < at[5]);
}

/// Only the expected code is a success; any other reply is handed on, and so is what went
/// wrong before.
pub proof fn only_the_expected_code_succeeds(response: Result<ControlResponse, Error>, code: i32)
    ensures
        expected(response, code) is Ok <==> response is Ok && response->Ok_0.code == code,
        response is Err ==> expected(response, code) == Err::<(), Error>(response->Err_0),
        response is Ok && response->Ok_0.code != code ==> expected(response, code) == Err::<(), Error>(
            Error::Ftp { response: response->Ok_0 },
        ),
{
}

} // verus!
