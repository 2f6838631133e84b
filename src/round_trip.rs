//! Reading back what was written gives the same message.
use crate::decode::{
    decode_request, decode_response, empty_slots, escape_at, hex4, hex_value,
    lemma_code_char, member_at, members_from, object_slots, prefixed, request_names, skip_ws,
    slot_from, str_body, string_at,
};
use crate::encode::{
    escape, escape_char, hex_digit, member, quoted, request_text, response_text,
};
use crate::login::RequestFields;
use vstd::prelude::*;

verus! {

proof fn lemma_hex_digit(n: u32)
    requires
        n < 16,
    ensures
        hex_value(hex_digit(n)) == Some(n as int),
{
}

/// Reading one escaped character gives that character back.
proof fn lemma_str_body_char(a: Seq<char>, c: char, rest: Seq<char>)
    ensures
        str_body(a + escape_char(c) + rest, a.len() as int) == prefixed(
            seq![c],
            str_body(a + escape_char(c) + rest, (a.len() + escape_char(c).len()) as int),
        ),
{
    let s = a + escape_char(c) + rest;
    let i = a.len() as int;
    let e = escape_char(c);
    assert forall|m: int| 0 <= m < e.len() implies s[i + m] == e[m] by {
        assert(s[i + m] == (a + e)[i + m]);
    }
    if c == '"' || c == '\\' || c == '\n' || c == '\r' || c == '\t' || c == '\x08' || c == '\x0c' {
        assert(s[i] == '\\');
        assert(escape_at(s, i) == Some((c, i + 2)));
    } else if (c as u32) < 0x20 {
        let u = c as u32;
        lemma_hex_digit(u / 16);
        lemma_hex_digit(u % 16);
        assert(s[i] == '\\');
        assert(s[i + 1] == 'u');
        assert(hex_value(s[i + 2]) == Some(0int));
        assert(hex_value(s[i + 3]) == Some(0int));
        assert(hex_value(s[i + 4]) == Some((u / 16) as int));
        assert(hex_value(s[i + 5]) == Some((u % 16) as int));
        assert(hex4(s, i + 2) == Some(u as int));
        lemma_code_char(c);
        assert(escape_at(s, i) == Some((c, i + 6)));
    } else {
        assert(s[i] == c);
    }
}

/// Reading an escaped string up to its closing quote gives the string back.
proof fn lemma_str_body(a: Seq<char>, x: Seq<char>, b: Seq<char>)
    ensures
        str_body(a + escape(x) + seq!['"'] + b, a.len() as int) == Some(
            (x, (a.len() + escape(x).len() + 1) as int),
        ),
    decreases x.len(),
{
    let s = a + escape(x) + seq!['"'] + b;
    if x.len() == 0 {
        assert(s[a.len() as int] == '"');
    } else {
        let c = x[0];
        let e = escape_char(c);
        let a2 = a + e;
        lemma_str_body(a2, x.drop_first(), b);
        assert(escape(x) == e + escape(x.drop_first()));
        assert(s =~= a2 + escape(x.drop_first()) + seq!['"'] + b);
        lemma_str_body_char(a, c, escape(x.drop_first()) + seq!['"'] + b);
        assert(s =~= a + e + (escape(x.drop_first()) + seq!['"'] + b));
        assert(seq![c] + x.drop_first() =~= x);
    }
}

/// Reading a quoted string gives the string back.
proof fn lemma_string_at(a: Seq<char>, x: Seq<char>, b: Seq<char>)
    ensures
        string_at(a + quoted(x) + b, a.len() as int) == Some((x, (a.len() + quoted(x).len()) as int)),
{
    let s = a + quoted(x) + b;
    assert(s[a.len() as int] == '"');
    lemma_str_body(a + seq!['"'], x, b);
    assert(s =~= a + seq!['"'] + escape(x) + seq!['"'] + b);
}

/// Reading a member fills its slot.
proof fn lemma_member_at(
    a: Seq<char>,
    name: Seq<char>,
    value: Seq<char>,
    b: Seq<char>,
    names: Seq<Seq<char>>,
    slots: Seq<Option<Seq<char>>>,
    k: int,
)
    requires
        slot_from(names, name, 0) == Some(k),
        0 <= k < slots.len(),
        slots[k] is None,
    ensures
        member_at(a + member(name, value) + b, a.len() as int, names, slots) == Some(
            (slots.update(k, Some(value)), (a.len() + member(name, value).len()) as int),
        ),
{
    let s = a + member(name, value) + b;
    let j = (a.len() + quoted(name).len()) as int;
    lemma_string_at(a, name, seq![':'] + quoted(value) + b);
    assert(s =~= a + quoted(name) + (seq![':'] + quoted(value) + b));
    assert(s[j] == ':');
    assert(skip_ws(s, j) == j);
    let a2 = a + quoted(name) + seq![':'];
    lemma_string_at(a2, value, b);
    assert(s =~= a2 + quoted(value) + b);
    assert(s[j + 1] == '"');
    assert(skip_ws(s, j + 1) == j + 1);
}


/// Reading back the JSON text of a request gives the same request: for all
/// strings `e`, `p` and `d`, the request with those fields survives the trip.
pub proof fn lemma_request_round_trip(r: RequestFields)
    ensures
        decode_request(request_text(r)) == Some(r),
{
    reveal_strlit("email_address");
    reveal_strlit("password");
    reveal_strlit("device_id");
    let names = request_names();
    let k1 = "email_address"@;
    let k2 = "password"@;
    let k3 = "device_id"@;
    let m1 = member(k1, r.email_address);
    let m2 = member(k2, r.password);
    let m3 = member(k3, r.device_id);
    let s = request_text(r);
    let empty = empty_slots(3);
    assert(slot_from(names, k1, 0) == Some(0int));
    assert(names[0] != k2);
    assert(names[1] == k2);
    assert(slot_from(names, k2, 1) == Some(1int));
    assert(slot_from(names, k2, 0) == Some(1int));
    assert(names[0] != k3 && names[1] != k3);
    assert(names[2] == k3);
    assert(slot_from(names, k3, 2) == Some(2int));
    assert(slot_from(names, k3, 1) == Some(2int));
    assert(slot_from(names, k3, 0) == Some(2int));

    let a1 = seq!['{'];
    let a2 = a1 + m1 + seq![','];
    let a3 = a2 + m2 + seq![','];
    let b3 = seq!['}'];
    let b2 = seq![','] + m3 + b3;
    let b1 = seq![','] + m2 + b2;
    assert(s =~= a1 + m1 + b1);
    assert(s =~= a2 + m2 + b2);
    assert(s =~= a3 + m3 + b3);
    let sl1 = empty.update(0, Some(r.email_address));
    let sl2 = sl1.update(1, Some(r.password));
    let sl3 = sl2.update(2, Some(r.device_id));
    lemma_member_at(a1, k1, r.email_address, b1, names, empty, 0);
    lemma_member_at(a2, k2, r.password, b2, names, sl1, 1);
    lemma_member_at(a3, k3, r.device_id, b3, names, sl2, 2);
    let e1 = (a1.len() + m1.len()) as int;
    let e2 = (a2.len() + m2.len()) as int;
    let e3 = (a3.len() + m3.len()) as int;
    assert(s[e3] == '}');
    assert(skip_ws(s, e3) == e3);
    assert(members_from(s, a3.len() as int, names, sl2) == Some((sl3, e3 + 1)));
    assert(s[e2] == ',');
    assert(skip_ws(s, e2) == e2);
    assert(s[e2 + 1] == m3[0]);
    assert(skip_ws(s, e2 + 1) == e2 + 1);
    assert(members_from(s, a2.len() as int, names, sl1) == Some((sl3, e3 + 1)));
    assert(s[e1] == ',');
    assert(skip_ws(s, e1) == e1);
    assert(s[e1 + 1] == m2[0]);
    assert(skip_ws(s, e1 + 1) == e1 + 1);
    assert(members_from(s, 1, names, empty) == Some((sl3, e3 + 1)));
    assert(skip_ws(s, 0) == 0);
    assert(s[1] == m1[0]);
    assert(skip_ws(s, 1) == 1);
    assert(e3 + 1 == s.len());
    assert(skip_ws(s, e3 + 1) == s.len());
    assert(object_slots(s, names) == Some(sl3));
}

/// Reading back the JSON text of a response gives the same token.
pub proof fn lemma_response_round_trip(token: Seq<char>)
    ensures
        decode_response(response_text(token)) == Some(token),
{
    let names = seq!["token"@];
    let k = "token"@;
    let m = member(k, token);
    let s = response_text(token);
    let empty = empty_slots(1);
    assert(slot_from(names, k, 0) == Some(0int));
    let a = seq!['{'];
    let b = seq!['}'];
    assert(s =~= a + m + b);
    lemma_member_at(a, k, token, b, names, empty, 0);
    let sl = empty.update(0, Some(token));
    let e = (a.len() + m.len()) as int;
    assert(s[e] == '}');
    assert(skip_ws(s, e) == e);
    assert(members_from(s, 1, names, empty) == Some((sl, e + 1)));
    assert(skip_ws(s, 0) == 0);
    assert(s[1] == m[0]);
    assert(skip_ws(s, 1) == 1);
    assert(skip_ws(s, e + 1) == s.len());
    assert(object_slots(s, names) == Some(sl));
}

} // verus!
