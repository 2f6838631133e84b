//! Reading the login messages from JSON text: an object whose members may
//! come in any order, with white space between tokens; members of other
//! names may hold any JSON value and are passed over.
use crate::encode::push_char;
use crate::login::{Request, RequestFields, Response};
use vstd::prelude::*;
use vstd::string::StringExecFns;

verus! {

/// The white space that JSON allows between tokens.
pub open spec fn is_ws(c: char) -> bool {
    c == ' ' || c == '\t' || c == '\n' || c == '\r'
}

/// The first position at or after `i` that holds no white space.
pub open spec fn skip_ws(s: Seq<char>, i: int) -> int
    decreases s.len() - i,
{
    if 0 <= i < s.len() && is_ws(s[i]) {
        skip_ws(s, i + 1)
    } else {
        i
    }
}

/// The value of a hexadecimal digit, of either case.
pub open spec fn hex_value(c: char) -> Option<int> {
    let u = c as u32;
    if 48 <= u <= 57 {
        Some(u - 48)
    } else if 97 <= u <= 102 {
        Some(u - 87)
    } else if 65 <= u <= 70 {
        Some(u - 55)
    } else {
        None
    }
}

/// The number written by the four hexadecimal digits at `i`.
pub open spec fn hex4(s: Seq<char>, i: int) -> Option<int> {
    if 0 <= i && i + 4 <= s.len() && hex_value(s[i]) is Some && hex_value(s[i + 1]) is Some
        && hex_value(s[i + 2]) is Some && hex_value(s[i + 3]) is Some {
        Some(
            ((hex_value(s[i])->0 * 16 + hex_value(s[i + 1])->0) * 16 + hex_value(s[i + 2])->0)
                * 16 + hex_value(s[i + 3])->0,
        )
    } else {
        None
    }
}

/// The character whose scalar value is `u`.
pub open spec fn code_char(u: int) -> char {
    choose|c: char| #[trigger] (c as u32) == u
}

/// The escape sequence whose backslash is at `i`: the character it stands
/// for and the position after it. A `\u` escape of a high surrogate must be
/// followed by one of a low surrogate; a lone surrogate is refused.
pub open spec fn escape_at(s: Seq<char>, i: int) -> Option<(char, int)> {
    if !(0 <= i && i + 1 < s.len()) {
        None
    } else {
        let e = s[i + 1];
        if e == '"' || e == '\\' || e == '/' {
            Some((e, i + 2))
        } else if e == 'b' {
            Some(('\x08', i + 2))
        } else if e == 'f' {
            Some(('\x0c', i + 2))
        } else if e == 'n' {
            Some(('\n', i + 2))
        } else if e == 'r' {
            Some(('\r', i + 2))
        } else if e == 't' {
            Some(('\t', i + 2))
        } else if e == 'u' {
            match hex4(s, i + 2) {
                None => None,
                Some(u) => if 0xD800 <= u < 0xDC00 {
                    if i + 7 < s.len() && s[i + 6] == '\\' && s[i + 7] == 'u' {
                        match hex4(s, i + 8) {
                            Some(l) => if 0xDC00 <= l < 0xE000 {
                                Some(
                                    (
                                        code_char(0x10000 + (u - 0xD800) * 0x400 + (l - 0xDC00)),
                                        i + 12,
                                    ),
                                )
                            } else {
                                None
                            },
                            None => None,
                        }
                    } else {
                        None
                    }
                } else if 0xDC00 <= u < 0xE000 {
                    None
                } else {
                    Some((code_char(u), i + 6))
                },
            }
        } else {
            None
        }
    }
}

/// `r` with `a` put in front of the characters it read.
pub open spec fn prefixed(a: Seq<char>, r: Option<(Seq<char>, int)>) -> Option<(Seq<char>, int)> {
    match r {
        Some((t, k)) => Some((a + t, k)),
        None => None,
    }
}

/// The body of a string literal that starts at `i`, just after its opening
/// quote: the characters it stands for and the position after the closing
/// quote. Control characters must be escaped.
pub open spec fn str_body(s: Seq<char>, i: int) -> Option<(Seq<char>, int)>
    decreases s.len() - i,
{
    if i < 0 || i >= s.len() {
        None
    } else if s[i] == '"' {
        Some((Seq::empty(), i + 1))
    } else if s[i] == '\\' {
        match escape_at(s, i) {
            None => None,
            Some((c, j)) => if j <= i || j > s.len() {
                None
            } else {
                prefixed(seq![c], str_body(s, j))
            },
        }
    } else if (s[i] as u32) < 0x20 {
        None
    } else {
        prefixed(seq![s[i]], str_body(s, i + 1))
    }
}

/// The string literal whose opening quote is at `i`.
pub open spec fn string_at(s: Seq<char>, i: int) -> Option<(Seq<char>, int)> {
    if 0 <= i < s.len() && s[i] == '"' {
        str_body(s, i + 1)
    } else {
        None
    }
}

/// The first position at or after `k` where `names` holds `key`.
pub open spec fn slot_from(names: Seq<Seq<char>>, key: Seq<char>, k: int) -> Option<int>
    decreases names.len() - k,
{
    if k < 0 || k >= names.len() {
        None
    } else if names[k] == key {
        Some(k)
    } else {
        slot_from(names, key, k + 1)
    }
}

/// A decimal digit.
pub open spec fn is_digit(c: char) -> bool {
    48 <= (c as u32) <= 57
}

/// The first position at or after `i` that holds no digit.
pub open spec fn digits_end(s: Seq<char>, i: int) -> int
    decreases s.len() - i,
{
    if 0 <= i < s.len() && is_digit(s[i]) {
        digits_end(s, i + 1)
    } else {
        i
    }
}

/// The end of the JSON number that starts at `i`: an optional minus, an
/// integer part without leading zeros, an optional fraction and an
/// optional exponent, each part with at least one digit.
pub open spec fn number_end(s: Seq<char>, i: int) -> Option<int> {
    let a = if 0 <= i < s.len() && s[i] == '-' {
        i + 1
    } else {
        i
    };
    if !(0 <= a < s.len() && is_digit(s[a])) {
        None
    } else {
        let b = if s[a] == '0' {
            a + 1
        } else {
            digits_end(s, a)
        };
        let c = if 0 <= b < s.len() && s[b] == '.' {
            if digits_end(s, b + 1) > b + 1 {
                Some(digits_end(s, b + 1))
            } else {
                None
            }
        } else {
            Some(b)
        };
        match c {
            None => None,
            Some(c) => if 0 <= c < s.len() && (s[c] == 'e' || s[c] == 'E') {
                let d = if c + 1 < s.len() && (s[c + 1] == '+' || s[c + 1] == '-') {
                    c + 2
                } else {
                    c + 1
                };
                if digits_end(s, d) > d {
                    Some(digits_end(s, d))
                } else {
                    None
                }
            } else {
                Some(c)
            },
        }
    }
}

/// Whether the characters of `w` stand at `i`.
pub open spec fn word_at(s: Seq<char>, i: int, w: Seq<char>) -> bool {
    0 <= i && i + w.len() <= s.len() && forall|m: int| 0 <= m < w.len() ==> s[i + m] == w[m]
}

/// The end of a string literal that is passed over, from just after its
/// opening quote: any escape the JSON grammar allows is accepted, `\u`
/// followed by any four hexadecimal digits included.
pub open spec fn skip_str(s: Seq<char>, i: int) -> Option<int>
    decreases s.len() - i,
{
    if i < 0 || i >= s.len() {
        None
    } else if s[i] == '"' {
        Some(i + 1)
    } else if s[i] == '\\' {
        if i + 1 < s.len() && (s[i + 1] == '"' || s[i + 1] == '\\' || s[i + 1] == '/' || s[i
            + 1] == 'b' || s[i + 1] == 'f' || s[i + 1] == 'n' || s[i + 1] == 'r' || s[i + 1]
            == 't') {
            skip_str(s, i + 2)
        } else if i + 1 < s.len() && s[i + 1] == 'u' && hex4(s, i + 2) is Some {
            skip_str(s, i + 6)
        } else {
            None
        }
    } else if (s[i] as u32) < 0x20 {
        None
    } else {
        skip_str(s, i + 1)
    }
}

/// What a scan over a value that is passed over expects next: a value, the
/// name of an object member, or what follows a value (a comma, a closing
/// bracket, or the end when no bracket is open).
#[derive(Clone, Copy, PartialEq, Eq, Structural)]
pub enum SkipMode {
    Value,
    Key,
    After,
}

/// One step of that scan at `i`, with `open` the brackets still open (`true`
/// for an object): the next position, the brackets then open and the next
/// mode, or no mode where the value has ended at `i`.
pub open spec fn skip_step(s: Seq<char>, i: int, open: Seq<bool>, mode: SkipMode) -> Option<
    (int, Seq<bool>, Option<SkipMode>),
> {
    match mode {
        SkipMode::Value => if !(0 <= i < s.len()) {
            None
        } else if s[i] == '"' {
            match skip_str(s, i + 1) {
                Some(e) => Some((e, open, Some(SkipMode::After))),
                None => None,
            }
        } else if s[i] == '[' || s[i] == '{' {
            let object = s[i] == '{';
            let k = skip_ws(s, i + 1);
            if 0 <= k < s.len() && s[k] == (if object {
                '}'
            } else {
                ']'
            }) {
                Some((k + 1, open, Some(SkipMode::After)))
            } else if object {
                Some((k, open.push(true), Some(SkipMode::Key)))
            } else {
                Some((k, open.push(false), Some(SkipMode::Value)))
            }
        } else if word_at(s, i, seq!['t', 'r', 'u', 'e']) {
            Some((i + 4, open, Some(SkipMode::After)))
        } else if word_at(s, i, seq!['f', 'a', 'l', 's', 'e']) {
            Some((i + 5, open, Some(SkipMode::After)))
        } else if word_at(s, i, seq!['n', 'u', 'l', 'l']) {
            Some((i + 4, open, Some(SkipMode::After)))
        } else {
            match number_end(s, i) {
                Some(e) => Some((e, open, Some(SkipMode::After))),
                None => None,
            }
        },
        SkipMode::Key => if !(0 <= i < s.len() && s[i] == '"') {
            None
        } else {
            match skip_str(s, i + 1) {
                None => None,
                Some(j) => {
                    let c = skip_ws(s, j);
                    if 0 <= c < s.len() && s[c] == ':' {
                        Some((skip_ws(s, c + 1), open, Some(SkipMode::Value)))
                    } else {
                        None
                    }
                },
            }
        },
        SkipMode::After => if open.len() == 0 {
            Some((i, open, None))
        } else {
            let t = skip_ws(s, i);
            let object = open.last();
            if 0 <= t < s.len() && s[t] == ',' {
                Some(
                    (
                        skip_ws(s, t + 1),
                        open,
                        Some(
                            if object {
                                SkipMode::Key
                            } else {
                                SkipMode::Value
                            },
                        ),
                    ),
                )
            } else if 0 <= t < s.len() && s[t] == (if object {
                '}'
            } else {
                ']'
            }) {
                Some((t + 1, open.drop_last(), Some(SkipMode::After)))
            } else {
                None
            }
        },
    }
}

/// The scan from `i` on, up to the end of the value.
pub open spec fn skip_from(s: Seq<char>, i: int, open: Seq<bool>, mode: SkipMode) -> Option<int>
    decreases s.len() - i,
{
    match skip_step(s, i, open, mode) {
        None => None,
        Some((n, _, None)) => Some(n),
        Some((n, next_open, Some(next_mode))) => if n <= i || n > s.len() {
            None
        } else {
            skip_from(s, n, next_open, next_mode)
        },
    }
}

/// The end of the JSON value that starts at `i`: a string, a number, one of
/// `true`, `false` and `null`, or an array or object of such values, nested
/// to any depth.
pub open spec fn value_end(s: Seq<char>, i: int) -> Option<int> {
    skip_from(s, i, Seq::empty(), SkipMode::Value)
}

/// The member that starts at `i`, recorded in `slots`: a member whose name
/// is in `names` must hold a string, which fills the slot at that name's
/// position, and that slot must still be empty; a member of any other name
/// may hold any JSON value, and is passed over.
pub open spec fn member_at(
    s: Seq<char>,
    i: int,
    names: Seq<Seq<char>>,
    slots: Seq<Option<Seq<char>>>,
) -> Option<(Seq<Option<Seq<char>>>, int)> {
    match string_at(s, i) {
        None => None,
        Some((key, j)) => {
            let c = skip_ws(s, j);
            if !(0 <= c < s.len() && s[c] == ':') {
                None
            } else {
                let v = skip_ws(s, c + 1);
                match slot_from(names, key, 0) {
                    None => match value_end(s, v) {
                        None => None,
                        Some(e) => Some((slots, e)),
                    },
                    Some(k) => match string_at(s, v) {
                        None => None,
                        Some((value, e)) => if 0 <= k < slots.len() && slots[k] is None {
                            Some((slots.update(k, Some(value)), e))
                        } else {
                            None
                        },
                    },
                }
            }
        },
    }
}

/// The members from the one at `i` up to the object's closing brace, and the
/// position after that brace.
pub open spec fn members_from(
    s: Seq<char>,
    i: int,
    names: Seq<Seq<char>>,
    slots: Seq<Option<Seq<char>>>,
) -> Option<(Seq<Option<Seq<char>>>, int)>
    decreases s.len() - i,
{
    match member_at(s, i, names, slots) {
        None => None,
        Some((next, e)) => {
            let t = skip_ws(s, e);
            if 0 <= t < s.len() && s[t] == ',' {
                let n = skip_ws(s, t + 1);
                if n <= i || n > s.len() {
                    None
                } else {
                    members_from(s, n, names, next)
                }
            } else if 0 <= t < s.len() && s[t] == '}' {
                Some((next, t + 1))
            } else {
                None
            }
        },
    }
}

/// `n` empty slots.
pub open spec fn empty_slots(n: nat) -> Seq<Option<Seq<char>>> {
    Seq::new(n, |k: int| None)
}

/// The whole text read as one JSON object: for each of `names`, the string
/// value of the member of that name, if there is one.
/// White space may stand around every token.
pub open spec fn object_slots(s: Seq<char>, names: Seq<Seq<char>>) -> Option<
    Seq<Option<Seq<char>>>,
> {
    let i = skip_ws(s, 0);
    if !(0 <= i < s.len() && s[i] == '{') {
        None
    } else {
        let j = skip_ws(s, i + 1);
        let body = if 0 <= j < s.len() && s[j] == '}' {
            Some((empty_slots(names.len()), j + 1))
        } else {
            members_from(s, j, names, empty_slots(names.len()))
        };
        match body {
            Some((slots, e)) => if skip_ws(s, e) == s.len() {
                Some(slots)
            } else {
                None
            },
            None => None,
        }
    }
}

/// The names of a request's members, in their order.
pub open spec fn request_names() -> Seq<Seq<char>> {
    seq!["email_address"@, "password"@, "device_id"@]
}

/// The request that a JSON text holds: one with all three members.
pub open spec fn decode_request(s: Seq<char>) -> Option<RequestFields> {
    match object_slots(s, request_names()) {
        Some(slots) => if slots.len() == 3 && slots[0] is Some && slots[1] is Some
            && slots[2] is Some {
            Some(
                RequestFields {
                    email_address: slots[0]->0,
                    password: slots[1]->0,
                    device_id: slots[2]->0,
                },
            )
        } else {
            None
        },
        None => None,
    }
}

/// The token that a JSON text of a response holds.
pub open spec fn decode_response(s: Seq<char>) -> Option<Seq<char>> {
    match object_slots(s, seq!["token"@]) {
        Some(slots) => if slots.len() == 1 && slots[0] is Some {
            Some(slots[0]->0)
        } else {
            None
        },
        None => None,
    }
}


/// The reason a JSON text was refused: it is not one JSON object, or it lacks
/// a required member, holds one whose value is not a string, or repeats one.
#[derive(Clone, Copy, Debug, PartialEq, Eq)]
pub struct DeserializationError;

/// Relies on char::from_u32: a character exactly for each Unicode scalar
/// value, holding that value.
#[verifier::external_body]
fn char_from_code(u: u32) -> (r: Option<char>)
    ensures
        r is Some <==> (u < 0xD800 || (0xE000 <= u && u <= 0x10FFFF)),
        r matches Some(c) ==> c as u32 == u,
{
    char::from_u32(u)
}

/// The names as character sequences.
pub open spec fn names_view(names: Seq<String>) -> Seq<Seq<char>> {
    names.map_values(|n: String| n@)
}

/// The slots as character sequences.
pub open spec fn slots_view(slots: Seq<Option<String>>) -> Seq<Option<Seq<char>>> {
    slots.map_values(
        |o: Option<String>|
            match o {
                Some(x) => Some(x@),
                None => None,
            },
    )
}

fn chars_of(text: &str) -> (v: Vec<char>)
    ensures
        v@ == text@,
{
    let mut v: Vec<char> = Vec::new();
    for c in it: text.chars()
        invariant
            it.seq() == text@,
            v@ == text@.take(it.index() as int),
    {
        v.push(c);
        assert(v@ =~= text@.take(it.index() + 1));
    }
    assert(text@.take(text@.len() as int) =~= text@);
    v
}

fn skip_ws_at(s: &Vec<char>, i: usize) -> (j: usize)
    requires
        i <= s.len(),
    ensures
        j == skip_ws(s@, i as int),
        i <= j <= s.len(),
{
    let mut j = i;
    while j < s.len() && (s[j] == ' ' || s[j] == '\t' || s[j] == '\n' || s[j] == '\r')
        invariant
            i <= j <= s.len(),
            skip_ws(s@, i as int) == skip_ws(s@, j as int),
        decreases s.len() - j,
    {
        j = j + 1;
    }
    j
}

fn hex_value_of(c: char) -> (r: Option<u32>)
    ensures
        r is Some <==> hex_value(c) is Some,
        r matches Some(v) ==> hex_value(c) == Some(v as int) && v < 16,
{
    let u = c as u32;
    if 48 <= u && u <= 57 {
        Some(u - 48)
    } else if 97 <= u && u <= 102 {
        Some(u - 87)
    } else if 65 <= u && u <= 70 {
        Some(u - 55)
    } else {
        None
    }
}

fn hex4_at(s: &Vec<char>, i: usize) -> (r: Option<u32>)
    ensures
        r is Some <==> hex4(s@, i as int) is Some,
        r matches Some(v) ==> hex4(s@, i as int) == Some(v as int),
{
    if i > s.len() || s.len() - i < 4 {
        return None;
    }
    match (hex_value_of(s[i]), hex_value_of(s[i + 1]), hex_value_of(s[i + 2]), hex_value_of(s[i + 3])) {
        (Some(a), Some(b), Some(c), Some(d)) => Some(((a * 16 + b) * 16 + c) * 16 + d),
        _ => None,
    }
}

/// The character of a character's scalar value is that character.
pub(crate) proof fn lemma_code_char(c: char)
    ensures
        code_char((c as u32) as int) == c,
{
    let u = (c as u32) as int;
    assert(exists|x: char| #[trigger] (x as u32) == u) by {
        assert((c as u32) == u);
    }
    let w = code_char(u);
    assert((w as u32) == u);
}

fn escape_at_exec(s: &Vec<char>, i: usize) -> (r: Option<(char, usize)>)
    requires
        i < s.len(),
    ensures
        match r {
            Some((c, j)) => escape_at(s@, i as int) == Some((c, j as int)),
            None => escape_at(s@, i as int) is None,
        },
{
    if s.len() - i < 2 {
        return None;
    }
    let e = s[i + 1];
    if e == '"' || e == '\\' || e == '/' {
        Some((e, i + 2))
    } else if e == 'b' {
        Some(('\x08', i + 2))
    } else if e == 'f' {
        Some(('\x0c', i + 2))
    } else if e == 'n' {
        Some(('\n', i + 2))
    } else if e == 'r' {
        Some(('\r', i + 2))
    } else if e == 't' {
        Some(('\t', i + 2))
    } else if e == 'u' {
        match hex4_at(s, i + 2) {
            None => None,
            Some(u) => if 0xD800 <= u && u < 0xDC00 {
                if s.len() - i > 7 && s[i + 6] == '\\' && s[i + 7] == 'u' {
                    match hex4_at(s, i + 8) {
                        Some(l) => if 0xDC00 <= l && l < 0xE000 {
                            let code = 0x10000 + (u - 0xD800) * 0x400 + (l - 0xDC00);
                            match char_from_code(code) {
                                Some(c) => {
                                    proof {
                                        lemma_code_char(c);
                                    }
                                    Some((c, i + 12))
                                },
                                None => None,
                            }
                        } else {
                            None
                        },
                        None => None,
                    }
                } else {
                    None
                }
            } else if 0xDC00 <= u && u < 0xE000 {
                None
            } else {
                match char_from_code(u) {
                    Some(c) => {
                        proof {
                            lemma_code_char(c);
                        }
                        Some((c, i + 6))
                    },
                    None => None,
                }
            },
        }
    } else {
        None
    }
}

proof fn lemma_prefixed(a: Seq<char>, b: Seq<char>, r: Option<(Seq<char>, int)>)
    ensures
        prefixed(a, prefixed(b, r)) == prefixed(a + b, r),
{
    if let Some((t, k)) = r {
        assert(a + (b + t) =~= (a + b) + t);
    }
}

fn str_body_at(s: &Vec<char>, i: usize) -> (r: Option<(String, usize)>)
    requires
        i <= s.len(),
    ensures
        match r {
            Some((t, k)) => str_body(s@, i as int) == Some((t@, k as int)) && i < k <= s.len(),
            None => str_body(s@, i as int) is None,
        },
{
    let mut out = String::new();
    let mut p = i;
    proof {
        assert(prefixed(out@, str_body(s@, p as int)) == str_body(s@, p as int)) by {
            if let Some((t, k)) = str_body(s@, p as int) {
                assert(out@ + t =~= t);
            }
        }
    }
    while p < s.len()
        invariant
            i <= p <= s.len(),
            str_body(s@, i as int) == prefixed(out@, str_body(s@, p as int)),
        decreases s.len() - p,
    {
        let c = s[p];
        if c == '"' {
            assert(out@ + Seq::<char>::empty() =~= out@);
            return Some((out, p + 1));
        } else if c == '\\' {
            match escape_at_exec(s, p) {
                None => {
                    return None;
                },
                Some((e, j)) => {
                    proof {
                        lemma_prefixed(out@, seq![e], str_body(s@, j as int));
                        assert(out@.push(e) =~= out@ + seq![e]);
                    }
                    push_char(&mut out, e);
                    p = j;
                },
            }
        } else if (c as u32) < 0x20 {
            return None;
        } else {
            proof {
                lemma_prefixed(out@, seq![c], str_body(s@, p + 1));
                assert(out@.push(c) =~= out@ + seq![c]);
            }
            push_char(&mut out, c);
            p = p + 1;
        }
    }
    None
}

fn string_at_exec(s: &Vec<char>, i: usize) -> (r: Option<(String, usize)>)
    requires
        i <= s.len(),
    ensures
        match r {
            Some((t, k)) => string_at(s@, i as int) == Some((t@, k as int)) && i < k <= s.len(),
            None => string_at(s@, i as int) is None,
        },
{
    if i < s.len() && s[i] == '"' {
        str_body_at(s, i + 1)
    } else {
        None
    }
}

fn slot_of(names: &Vec<String>, key: &String) -> (r: Option<usize>)
    ensures
        match r {
            Some(k) => slot_from(names_view(names@), key@, 0) == Some(k as int),
            None => slot_from(names_view(names@), key@, 0) is None,
        },
{
    let mut k: usize = 0;
    while k < names.len()
        invariant
            k <= names.len(),
            slot_from(names_view(names@), key@, 0) == slot_from(names_view(names@), key@, k as int),
        decreases names.len() - k,
    {
        if names[k].eq(key) {
            return Some(k);
        }
        k = k + 1;
    }
    None
}

fn member_at_exec(
    s: &Vec<char>,
    i: usize,
    names: &Vec<String>,
    slots: &mut Vec<Option<String>>,
) -> (r: Option<usize>)
    requires
        i <= s.len(),
    ensures
        match r {
            Some(e) => member_at(s@, i as int, names_view(names@), slots_view(old(slots)@)) == Some(
                (slots_view(final(slots)@), e as int),
            ) && i < e <= s.len(),
            None => member_at(s@, i as int, names_view(names@), slots_view(old(slots)@)) is None,
        },
{
    match string_at_exec(s, i) {
        None => None,
        Some((key, j)) => {
            let c = skip_ws_at(s, j);
            if !(c < s.len() && s[c] == ':') {
                return None;
            }
            let v = skip_ws_at(s, c + 1);
            match slot_of(names, &key) {
                None => value_end_exec(s, v),
                Some(k) => match string_at_exec(s, v) {
                    None => None,
                    Some((value, e)) => if k < slots.len() && slots[k].is_none() {
                        let ghost before = slots@;
                        slots.set(k, Some(value));
                        assert(slots_view(slots@) =~= slots_view(before).update(
                            k as int,
                            Some(value@),
                        ));
                        Some(e)
                    } else {
                        None
                    },
                },
            }
        },
    }
}

fn digits_end_exec(s: &Vec<char>, i: usize) -> (j: usize)
    requires
        i <= s.len(),
    ensures
        j == digits_end(s@, i as int),
        i <= j <= s.len(),
{
    let mut j = i;
    while j < s.len() && 48 <= (s[j] as u32) && (s[j] as u32) <= 57
        invariant
            i <= j <= s.len(),
            digits_end(s@, i as int) == digits_end(s@, j as int),
        decreases s.len() - j,
    {
        j = j + 1;
    }
    j
}

fn number_end_exec(s: &Vec<char>, i: usize) -> (r: Option<usize>)
    requires
        i < s.len(),
    ensures
        match r {
            Some(e) => number_end(s@, i as int) == Some(e as int) && i < e <= s.len(),
            None => number_end(s@, i as int) is None,
        },
{
    let a = if s[i] == '-' {
        i + 1
    } else {
        i
    };
    if !(a < s.len() && 48 <= (s[a] as u32) && (s[a] as u32) <= 57) {
        return None;
    }
    let b = if s[a] == '0' {
        a + 1
    } else {
        assert(digits_end(s@, a as int) == digits_end(s@, a + 1));
        digits_end_exec(s, a + 1)
    };
    let c = if b < s.len() && s[b] == '.' {
        let f = digits_end_exec(s, b + 1);
        if f > b + 1 {
            f
        } else {
            return None;
        }
    } else {
        b
    };
    if c < s.len() && (s[c] == 'e' || s[c] == 'E') {
        let d = if s.len() - c > 1 && (s[c + 1] == '+' || s[c + 1] == '-') {
            c + 2
        } else {
            c + 1
        };
        let x = digits_end_exec(s, d);
        if x > d {
            Some(x)
        } else {
            None
        }
    } else {
        Some(c)
    }
}

fn word_at_exec(s: &Vec<char>, i: usize, w: &[char]) -> (r: bool)
    ensures
        r == word_at(s@, i as int, w@),
{
    if i > s.len() || s.len() - i < w.len() {
        return false;
    }
    let mut m: usize = 0;
    while m < w.len()
        invariant
            m <= w.len(),
            i + w.len() <= s.len(),
            forall|n: int| 0 <= n < m ==> s@[i + n] == w@[n],
        decreases w.len() - m,
    {
        if s[i + m] != w[m] {
            return false;
        }
        m = m + 1;
    }
    true
}

fn skip_str_exec(s: &Vec<char>, i: usize) -> (r: Option<usize>)
    requires
        i <= s.len(),
    ensures
        match r {
            Some(e) => skip_str(s@, i as int) == Some(e as int) && i < e <= s.len(),
            None => skip_str(s@, i as int) is None,
        },
{
    let mut p = i;
    while p < s.len()
        invariant
            i <= p <= s.len(),
            skip_str(s@, i as int) == skip_str(s@, p as int),
        decreases s.len() - p,
    {
        let c = s[p];
        if c == '"' {
            return Some(p + 1);
        } else if c == '\\' {
            if s.len() - p < 2 {
                return None;
            }
            let e = s[p + 1];
            if e == '"' || e == '\\' || e == '/' || e == 'b' || e == 'f' || e == 'n' || e == 'r'
                || e == 't' {
                p = p + 2;
            } else if e == 'u' && hex4_at(s, p + 2).is_some() {
                p = p + 6;
            } else {
                return None;
            }
        } else if (c as u32) < 0x20 {
            return None;
        } else {
            p = p + 1;
        }
    }
    None
}

fn skip_step_exec(s: &Vec<char>, i: usize, open: &mut Vec<bool>, mode: SkipMode) -> (r: Option<
    (usize, Option<SkipMode>),
>)
    requires
        i <= s.len(),
    ensures
        match r {
            Some((n, m)) => skip_step(s@, i as int, old(open)@, mode) == Some(
                (n as int, final(open)@, m),
            ) && n <= s.len() && (m is Some ==> i < n),
            None => skip_step(s@, i as int, old(open)@, mode) is None,
        },
{
    match mode {
        SkipMode::Value => {
            if i >= s.len() {
                return None;
            }
            let c = s[i];
            if c == '"' {
                match skip_str_exec(s, i + 1) {
                    Some(e) => Some((e, Some(SkipMode::After))),
                    None => None,
                }
            } else if c == '[' || c == '{' {
                let object = c == '{';
                let close = if object {
                    '}'
                } else {
                    ']'
                };
                let k = skip_ws_at(s, i + 1);
                if k < s.len() && s[k] == close {
                    Some((k + 1, Some(SkipMode::After)))
                } else if object {
                    open.push(true);
                    Some((k, Some(SkipMode::Key)))
                } else {
                    open.push(false);
                    Some((k, Some(SkipMode::Value)))
                }
            } else {
                let t = ['t', 'r', 'u', 'e'];
                let f = ['f', 'a', 'l', 's', 'e'];
                let n = ['n', 'u', 'l', 'l'];
                assert(t@ =~= seq!['t', 'r', 'u', 'e']);
                assert(f@ =~= seq!['f', 'a', 'l', 's', 'e']);
                assert(n@ =~= seq!['n', 'u', 'l', 'l']);
                if word_at_exec(s, i, &t) {
                    Some((i + 4, Some(SkipMode::After)))
                } else if word_at_exec(s, i, &f) {
                    Some((i + 5, Some(SkipMode::After)))
                } else if word_at_exec(s, i, &n) {
                    Some((i + 4, Some(SkipMode::After)))
                } else {
                    match number_end_exec(s, i) {
                        Some(e) => Some((e, Some(SkipMode::After))),
                        None => None,
                    }
                }
            }
        },
        SkipMode::Key => {
            if !(i < s.len() && s[i] == '"') {
                return None;
            }
            match skip_str_exec(s, i + 1) {
                None => None,
                Some(j) => {
                    let c = skip_ws_at(s, j);
                    if c < s.len() && s[c] == ':' {
                        Some((skip_ws_at(s, c + 1), Some(SkipMode::Value)))
                    } else {
                        None
                    }
                },
            }
        },
        SkipMode::After => {
            let depth = open.len();
            if depth == 0 {
                return Some((i, None));
            }
            let t = skip_ws_at(s, i);
            let object = open[depth - 1];
            let close = if object {
                '}'
            } else {
                ']'
            };
            if t < s.len() && s[t] == ',' {
                let next = if object {
                    SkipMode::Key
                } else {
                    SkipMode::Value
                };
                Some((skip_ws_at(s, t + 1), Some(next)))
            } else if t < s.len() && s[t] == close {
                open.pop();
                Some((t + 1, Some(SkipMode::After)))
            } else {
                None
            }
        },
    }
}

fn value_end_exec(s: &Vec<char>, i: usize) -> (r: Option<usize>)
    requires
        i <= s.len(),
    ensures
        match r {
            Some(e) => value_end(s@, i as int) == Some(e as int) && i < e <= s.len(),
            None => value_end(s@, i as int) is None,
        },
{
    let mut open: Vec<bool> = Vec::new();
    let mut mode = SkipMode::Value;
    let mut p = i;
    assert(open@ =~= Seq::<bool>::empty());
    loop
        invariant
            i <= p <= s.len(),
            p == i ==> mode == SkipMode::Value,
            value_end(s@, i as int) == skip_from(s@, p as int, open@, mode),
        decreases s.len() - p,
    {
        match skip_step_exec(s, p, &mut open, mode) {
            None => {
                return None;
            },
            Some((n, None)) => {
                return Some(n);
            },
            Some((n, Some(m))) => {
                p = n;
                mode = m;
            },
        }
    }
}

fn members_exec(
    s: &Vec<char>,
    i: usize,
    names: &Vec<String>,
    slots: &mut Vec<Option<String>>,
) -> (r: Option<usize>)
    requires
        i <= s.len(),
    ensures
        match r {
            Some(e) => members_from(s@, i as int, names_view(names@), slots_view(old(slots)@))
                == Some((slots_view(final(slots)@), e as int)) && e <= s.len(),
            None => members_from(s@, i as int, names_view(names@), slots_view(old(slots)@)) is None,
        },
{
    let ghost start = slots@;
    let mut p = i;
    loop
        invariant
            i <= p <= s.len(),
            start == old(slots)@,
            members_from(s@, i as int, names_view(names@), slots_view(start)) == members_from(
                s@,
                p as int,
                names_view(names@),
                slots_view(slots@),
            ),
        decreases s.len() - p,
    {
        let ghost before = slots@;
        match member_at_exec(s, p, names, slots) {
            None => {
                assert(members_from(s@, p as int, names_view(names@), slots_view(before)) is None);
                return None;
            },
            Some(e) => {
                let t = skip_ws_at(s, e);
                if t < s.len() && s[t] == ',' {
                    p = skip_ws_at(s, t + 1);
                } else if t < s.len() && s[t] == '}' {
                    assert(members_from(s@, p as int, names_view(names@), slots_view(before)) == Some(
                        (slots_view(slots@), t + 1),
                    ));
                    return Some(t + 1);
                } else {
                    return None;
                }
            },
        }
    }
}

fn object_slots_exec(s: &Vec<char>, names: &Vec<String>) -> (r: Option<Vec<Option<String>>>)
    ensures
        match r {
            Some(v) => object_slots(s@, names_view(names@)) == Some(slots_view(v@)),
            None => object_slots(s@, names_view(names@)) is None,
        },
{
    let mut slots: Vec<Option<String>> = Vec::new();
    let mut k: usize = 0;
    while k < names.len()
        invariant
            k <= names.len(),
            slots@.len() == k,
            forall|m: int| 0 <= m < k ==> slots@[m] is None,
        decreases names.len() - k,
    {
        slots.push(None);
        k = k + 1;
    }
    assert(names_view(names@).len() == names.len());
    assert(slots_view(slots@) =~= empty_slots(names.len() as nat));
    let i = skip_ws_at(s, 0);
    if !(i < s.len() && s[i] == '{') {
        return None;
    }
    let j = skip_ws_at(s, i + 1);
    let e = if j < s.len() && s[j] == '}' {
        j + 1
    } else {
        match members_exec(s, j, names, &mut slots) {
            Some(e) => e,
            None => {
                return None;
            },
        }
    };
    if skip_ws_at(s, e) == s.len() {
        Some(slots)
    } else {
        None
    }
}


impl Request {
    /// Reads a request from its JSON text: an object with the string members
    /// `email_address`, `password` and `device_id`, in any order; members of
    /// other names are passed over. Refused when the text is no such object,
    /// lacks one of the three or repeats one.
    pub fn from_json(text: &str) -> (r: Result<Request, DeserializationError>)
        ensures
            match r {
                Ok(q) => decode_request(text@) == Some(q@),
                Err(_) => decode_request(text@) is None,
            },
    {
        let s = chars_of(text);
        let names = vec![
            String::from_str("email_address"),
            String::from_str("password"),
            String::from_str("device_id"),
        ];
        assert(names_view(names@) =~= request_names());
        match object_slots_exec(&s, &names) {
            None => Err(DeserializationError),
            Some(mut slots) => {
                if slots.len() != 3 {
                    return Err(DeserializationError);
                }
                let device_id = slots.pop();
                let password = slots.pop();
                let email_address = slots.pop();
                match (email_address, password, device_id) {
                    (Some(Some(email_address)), Some(Some(password)), Some(Some(device_id))) => {
                        Ok(Request { email_address, password, device_id })
                    },
                    _ => Err(DeserializationError),
                }
            },
        }
    }
}

impl Response {
    /// Reads a response from its JSON text: an object with the string member
    /// `token`; members of other names are passed over. Refused when the text
    /// is no such object, lacks the token or repeats it.
    pub fn from_json(text: &str) -> (r: Result<Response, DeserializationError>)
        ensures
            match r {
                Ok(q) => decode_response(text@) == Some(q@),
                Err(_) => decode_response(text@) is None,
            },
    {
        let s = chars_of(text);
        let names = vec![String::from_str("token")];
        assert(names_view(names@) =~= seq!["token"@]);
        match object_slots_exec(&s, &names) {
            None => Err(DeserializationError),
            Some(mut slots) => {
                if slots.len() != 1 {
                    return Err(DeserializationError);
                }
                match slots.pop() {
                    Some(Some(token)) => Ok(Response { token }),
                    _ => Err(DeserializationError),
                }
            },
        }
    }
}

} // verus!
