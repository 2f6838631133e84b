//! The JSON text of the login messages: each field as a JSON string
//! literal, the members in a fixed order, no white space.
use crate::login::{Request, RequestFields, Response};
use vstd::prelude::*;

verus! {

/// Relies on String::push: the character is appended at the end.
#[verifier::external_body]
pub(crate) fn push_char(s: &mut String, c: char)
    ensures
        final(s)@ == old(s)@.push(c),
{
    s.push(c);
}

/// The lowercase hexadecimal digit of `n`, for `n` below 16.
pub open spec fn hex_digit(n: u32) -> char {
    if n < 10 {
        ((48 + n) as u8) as char
    } else {
        ((87 + n) as u8) as char
    }
}

/// How one character is written inside a JSON string literal: the quote,
/// the backslash and the control characters are escaped, everything else
/// stands as it is.
pub open spec fn escape_char(c: char) -> Seq<char> {
    if c == '"' {
        seq!['\\', '"']
    } else if c == '\\' {
        seq!['\\', '\\']
    } else if c == '\n' {
        seq!['\\', 'n']
    } else if c == '\r' {
        seq!['\\', 'r']
    } else if c == '\t' {
        seq!['\\', 't']
    } else if c == '\x08' {
        seq!['\\', 'b']
    } else if c == '\x0c' {
        seq!['\\', 'f']
    } else if (c as u32) < 0x20 {
        seq!['\\', 'u', '0', '0', hex_digit((c as u32) / 16), hex_digit((c as u32) % 16)]
    } else {
        seq![c]
    }
}

/// The escaped form of a whole string.
pub open spec fn escape(s: Seq<char>) -> Seq<char>
    decreases s.len(),
{
    if s.len() == 0 {
        Seq::empty()
    } else {
        escape_char(s[0]) + escape(s.drop_first())
    }
}

/// A JSON string literal holding `s`.
pub open spec fn quoted(s: Seq<char>) -> Seq<char> {
    seq!['"'] + escape(s) + seq!['"']
}

/// One member of a JSON object: the quoted name, a colon, the quoted value.
pub open spec fn member(name: Seq<char>, value: Seq<char>) -> Seq<char> {
    quoted(name) + seq![':'] + quoted(value)
}

/// The JSON text of a request: its three members in the order email address,
/// password, device id, with no white space.
pub open spec fn request_text(r: RequestFields) -> Seq<char> {
    seq!['{'] + member("email_address"@, r.email_address) + seq![','] + member(
        "password"@,
        r.password,
    ) + seq![','] + member("device_id"@, r.device_id) + seq!['}']
}

/// The JSON text of a response: its one member, the token.
pub open spec fn response_text(token: Seq<char>) -> Seq<char> {
    seq!['{'] + member("token"@, token) + seq!['}']
}

proof fn lemma_escape_push(s: Seq<char>, c: char)
    ensures
        escape(s.push(c)) == escape(s) + escape_char(c),
    decreases s.len(),
{
    if s.len() == 0 {
        assert(s.push(c).drop_first() =~= Seq::<char>::empty());
        assert(s.push(c)[0] == c);
        assert(escape(Seq::<char>::empty()) == Seq::<char>::empty());
        assert(escape(s.push(c)) =~= escape_char(c));
    } else {
        lemma_escape_push(s.drop_first(), c);
        assert(s.push(c).drop_first() =~= s.drop_first().push(c));
        assert(escape(s.push(c)) =~= escape(s) + escape_char(c));
    }
}

fn hex_char(n: u32) -> (c: char)
    requires
        n < 16,
    ensures
        c == hex_digit(n),
{
    if n < 10 {
        (48 + n as u8) as char
    } else {
        (87 + n as u8) as char
    }
}

fn push_escaped_char(out: &mut String, c: char)
    ensures
        final(out)@ == old(out)@ + escape_char(c),
{
    let code = c as u32;
    if c == '"' || c == '\\' {
        push_char(out, '\\');
        push_char(out, c);
    } else if c == '\n' {
        push_char(out, '\\');
        push_char(out, 'n');
    } else if c == '\r' {
        push_char(out, '\\');
        push_char(out, 'r');
    } else if c == '\t' {
        push_char(out, '\\');
        push_char(out, 't');
    } else if c == '\x08' {
        push_char(out, '\\');
        push_char(out, 'b');
    } else if c == '\x0c' {
        push_char(out, '\\');
        push_char(out, 'f');
    } else if code < 0x20 {
        push_char(out, '\\');
        push_char(out, 'u');
        push_char(out, '0');
        push_char(out, '0');
        push_char(out, hex_char(code / 16));
        push_char(out, hex_char(code % 16));
    } else {
        push_char(out, c);
    }
    assert(final(out)@ =~= old(out)@ + escape_char(c));
}

/// Appends `s` to `out` as a JSON string literal.
fn push_quoted(out: &mut String, s: &str)
    ensures
        final(out)@ == old(out)@ + quoted(s@),
{
    push_char(out, '"');
    let ghost start = out@;
    for c in it: s.chars()
        invariant
            it.seq() == s@,
            out@ == start + escape(s@.take(it.index() as int)),
    {
        proof {
            lemma_escape_push(s@.take(it.index() as int), c);
            assert(s@.take(it.index() + 1) =~= s@.take(it.index() as int).push(c));
        }
        push_escaped_char(out, c);
    }
    assert(s@.take(s@.len() as int) =~= s@);
    push_char(out, '"');
    assert(out@ =~= old(out)@ + quoted(s@));
}

/// Appends one object member, `"name":"value"`, to `out`.
fn push_member(out: &mut String, name: &str, value: &str)
    ensures
        final(out)@ == old(out)@ + member(name@, value@),
{
    push_quoted(out, name);
    push_char(out, ':');
    push_quoted(out, value);
    assert(out@ =~= old(out)@ + member(name@, value@));
}

impl Request {
    /// The request's JSON text: an object with the keys `email_address`,
    /// `password` and `device_id`, in that order, each mapped to its field.
    pub fn to_json(&self) -> (r: String)
        ensures
            r@ == request_text(self@),
    {
        let mut out = String::new();
        push_char(&mut out, '{');
        push_member(&mut out, "email_address", self.email_address.as_str());
        push_char(&mut out, ',');
        push_member(&mut out, "password", self.password.as_str());
        push_char(&mut out, ',');
        push_member(&mut out, "device_id", self.device_id.as_str());
        push_char(&mut out, '}');
        assert(out@ =~= request_text(self@));
        out
    }
}

impl Response {
    /// The response's JSON text: an object with the one key `token`.
    pub fn to_json(&self) -> (r: String)
        ensures
            r@ == response_text(self@),
    {
        let mut out = String::new();
        push_char(&mut out, '{');
        push_member(&mut out, "token", self.token.as_str());
        push_char(&mut out, '}');
        assert(out@ =~= response_text(self@));
        out
    }
}

} // verus!
