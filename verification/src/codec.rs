//! The durable session-log line format: one JSON object per line with the
//! two members `role` and `content`, both strings. The encoder writes the
//! compact canonical form; the decoder accepts either member order and the
//! full set of JSON string escapes (scalar `\uXXXX` included), and is strict:
//! an unknown role name, a missing or repeated member, a stray character or
//! an unescaped control character all fail the decode.

use vstd::prelude::*;
use vstd::string::StrSliceExecFns;
use vstd::string::StringExecFns;

use crate::turn::{ChatGptMessage, Role, TurnView};

verus! {

/// The characters of the `role` member name.
pub open spec fn role_key() -> Seq<char> {
    seq!['r', 'o', 'l', 'e']
}

/// The characters of the `content` member name.
pub open spec fn content_key() -> Seq<char> {
    seq!['c', 'o', 'n', 't', 'e', 'n', 't']
}

/// The name of each role of the fixed, closed role set.
pub open spec fn role_chars(r: Role) -> Seq<char> {
    match r {
        Role::Assistant => seq!['a', 's', 's', 'i', 's', 't', 'a', 'n', 't'],
        Role::System => seq!['s', 'y', 's', 't', 'e', 'm'],
        Role::User => seq!['u', 's', 'e', 'r'],
    }
}

/// The role a decoded role name denotes, if any. An unknown name denotes
/// nothing: the loader must fail on it rather than coerce it.
pub open spec fn spec_role_of(s: Seq<char>) -> Option<Role> {
    if s == role_chars(Role::User) {
        Some(Role::User)
    } else if s == role_chars(Role::Assistant) {
        Some(Role::Assistant)
    } else if s == role_chars(Role::System) {
        Some(Role::System)
    } else {
        None
    }
}

/// Lower-case hexadecimal digit for a value below 16.
pub open spec fn hex_char(v: u32) -> char {
    if v == 0 {
        '0'
    } else if v == 1 {
        '1'
    } else if v == 2 {
        '2'
    } else if v == 3 {
        '3'
    } else if v == 4 {
        '4'
    } else if v == 5 {
        '5'
    } else if v == 6 {
        '6'
    } else if v == 7 {
        '7'
    } else if v == 8 {
        '8'
    } else if v == 9 {
        '9'
    } else if v == 10 {
        'a'
    } else if v == 11 {
        'b'
    } else if v == 12 {
        'c'
    } else if v == 13 {
        'd'
    } else if v == 14 {
        'e'
    } else {
        'f'
    }
}

/// Value of a hexadecimal digit character, upper or lower case.
pub open spec fn hex_val(c: char) -> Option<u32> {
    if 48 <= (c as u32) && (c as u32) <= 57 {
        Some(((c as u32) - 48) as u32)
    } else if 97 <= (c as u32) && (c as u32) <= 102 {
        Some(((c as u32) - 97 + 10) as u32)
    } else if 65 <= (c as u32) && (c as u32) <= 70 {
        Some(((c as u32) - 65 + 10) as u32)
    } else {
        None
    }
}

/// Canonical escape of one character, as the encoder writes it: the two
/// mandatory escapes, the short forms for the common control characters,
/// `\u00XX` for the remaining control characters, and everything else as is.
pub open spec fn escape_char(c: char) -> Seq<char> {
    if c == '"' {
        seq!['\\', '"']
    } else if c == '\\' {
        seq!['\\', '\\']
    } else if c == '\u{8}' {
        seq!['\\', 'b']
    } else if c == '\u{c}' {
        seq!['\\', 'f']
    } else if c == '\n' {
        seq!['\\', 'n']
    } else if c == '\r' {
        seq!['\\', 'r']
    } else if c == '\t' {
        seq!['\\', 't']
    } else if (c as u32) < 0x20 {
        seq!['\\', 'u', '0', '0', hex_char((c as u32) / 16), hex_char((c as u32) % 16)]
    } else {
        seq![c]
    }
}

/// Canonical escape of a whole string body.
pub open spec fn escape_seq(s: Seq<char>) -> Seq<char>
    decreases s.len(),
{
    if s.len() == 0 {
        Seq::empty()
    } else {
        escape_char(s[0]) + escape_seq(s.drop_first())
    }
}

/// A JSON string token: quote, escaped body, quote.
pub open spec fn quoted(s: Seq<char>) -> Seq<char> {
    seq!['"'] + escape_seq(s) + seq!['"']
}

/// The canonical encoding of one turn as one session-log line:
/// `{"role":"...","content":"..."}` with no spaces, role first.
pub open spec fn spec_encode_line(t: TurnView) -> Seq<char> {
    seq!['{'] + quoted(role_key()) + seq![':'] + quoted(role_chars(t.role)) + seq![','] + quoted(
        content_key(),
    ) + seq![':'] + quoted(t.content) + seq!['}']
}

/// A Unicode scalar value: what a `char` may hold (no surrogates).
pub open spec fn unicode_scalar(v: u32) -> bool {
    v < 0xD800 || (0xE000 <= v && v <= 0x10FFFF)
}

/// The character denoted by a single-character escape, if the escape is
/// legal.
pub open spec fn simple_unescape(e: char) -> Option<char> {
    if e == '"' {
        Some('"')
    } else if e == '\\' {
        Some('\\')
    } else if e == '/' {
        Some('/')
    } else if e == 'b' {
        Some('\u{8}')
    } else if e == 'f' {
        Some('\u{c}')
    } else if e == 'n' {
        Some('\n')
    } else if e == 'r' {
        Some('\r')
    } else if e == 't' {
        Some('\t')
    } else {
        None
    }
}

/// Value of four hexadecimal digit characters, most significant first.
pub open spec fn hex4_val(a: char, b: char, c: char, d: char) -> Option<u32> {
    match (hex_val(a), hex_val(b), hex_val(c), hex_val(d)) {
        (Some(x), Some(y), Some(z), Some(w)) => Some(
            (x * 4096 + y * 256 + z * 16 + w) as u32,
        ),
        _ => None,
    }
}

/// Prepend one decoded character to the result of parsing the remainder of
/// a string body.
pub open spec fn cons_parsed(c: char, r: Option<(Seq<char>, Seq<char>)>) -> Option<
    (Seq<char>, Seq<char>),
> {
    match r {
        Some((content, rest)) => Some((seq![c] + content, rest)),
        None => None,
    }
}

/// Parse a JSON string body up to and including its closing quote. `s` is
/// the input just after the opening quote; the result is the decoded
/// content together with the input that remains after the closing quote.
/// Unescaped control characters, bad escapes, surrogate code points and a
/// missing closing quote all fail.
pub open spec fn parse_string_body(s: Seq<char>) -> Option<(Seq<char>, Seq<char>)>
    decreases s.len(),
{
    if s.len() == 0 {
        None
    } else if s[0] == '"' {
        Some((Seq::empty(), s.drop_first()))
    } else if s[0] == '\\' {
        if s.len() < 2 {
            None
        } else if s[1] == 'u' {
            if s.len() < 6 {
                None
            } else {
                match hex4_val(s[2], s[3], s[4], s[5]) {
                    Some(v) => if unicode_scalar(v) {
                        cons_parsed(v as char, parse_string_body(s.skip(6)))
                    } else {
                        None
                    },
                    None => None,
                }
            }
        } else {
            match simple_unescape(s[1]) {
                Some(c) => cons_parsed(c, parse_string_body(s.skip(2))),
                None => None,
            }
        }
    } else if (s[0] as u32) < 0x20 {
        None
    } else {
        cons_parsed(s[0], parse_string_body(s.drop_first()))
    }
}

/// Parse a whole JSON string token, opening quote included.
pub open spec fn parse_string(s: Seq<char>) -> Option<(Seq<char>, Seq<char>)> {
    if s.len() > 0 && s[0] == '"' {
        parse_string_body(s.drop_first())
    } else {
        None
    }
}

/// Parse one `"key":"value"` member; both sides are strings.
pub open spec fn parse_member(s: Seq<char>) -> Option<((Seq<char>, Seq<char>), Seq<char>)> {
    match parse_string(s) {
        Some((k, r1)) => if r1.len() > 0 && r1[0] == ':' {
            match parse_string(r1.drop_first()) {
                Some((v, r2)) => Some(((k, v), r2)),
                None => None,
            }
        } else {
            None
        },
        None => None,
    }
}

/// The turn denoted by the two decoded members, if they are exactly `role`
/// and `content` (in either order) and the role name is known.
pub open spec fn turn_of_members(
    k1: Seq<char>,
    v1: Seq<char>,
    k2: Seq<char>,
    v2: Seq<char>,
) -> Option<TurnView> {
    if k1 == role_key() && k2 == content_key() {
        match spec_role_of(v1) {
            Some(role) => Some(TurnView { role, content: v2 }),
            None => None,
        }
    } else if k1 == content_key() && k2 == role_key() {
        match spec_role_of(v2) {
            Some(role) => Some(TurnView { role, content: v1 }),
            None => None,
        }
    } else {
        None
    }
}

/// Decode one session-log line: an object of exactly two string members,
/// `role` and `content`, with nothing before, between or after the tokens.
pub open spec fn spec_decode_line(s: Seq<char>) -> Option<TurnView> {
    if s.len() == 0 || s[0] != '{' {
        None
    } else {
        match parse_member(s.drop_first()) {
            Some(((k1, v1), r1)) => if r1.len() > 0 && r1[0] == ',' {
                match parse_member(r1.drop_first()) {
                    Some(((k2, v2), r2)) => if r2 == seq!['}'] {
                        turn_of_members(k1, v1, k2, v2)
                    } else {
                        None
                    },
                    None => None,
                }
            } else {
                None
            },
            None => None,
        }
    }
}

/// Replay a session log from line `i` on: empty lines are skipped, every
/// other line must decode, and a failure reports the first bad line.
pub open spec fn spec_load_from(lines: Seq<Seq<char>>, i: int) -> Result<Seq<TurnView>, int>
    decreases lines.len() - i,
{
    if i < 0 || i >= lines.len() {
        Ok(Seq::empty())
    } else if lines[i].len() == 0 {
        spec_load_from(lines, i + 1)
    } else {
        match spec_decode_line(lines[i]) {
            Some(t) => match spec_load_from(lines, i + 1) {
                Ok(ts) => Ok(seq![t] + ts),
                Err(j) => Err(j),
            },
            None => Err(i),
        }
    }
}

/// Replay a whole session log.
pub open spec fn spec_load(lines: Seq<Seq<char>>) -> Result<Seq<TurnView>, int> {
    spec_load_from(lines, 0)
}

/// Prepend already-replayed turns to the result of replaying the rest of a
/// session log.
pub open spec fn prepend_loaded(pre: Seq<TurnView>, r: Result<Seq<TurnView>, int>) -> Result<
    Seq<TurnView>,
    int,
> {
    match r {
        Ok(ts) => Ok(pre + ts),
        Err(j) => Err(j),
    }
}

/// Appending one character to a string appends its escape to the escaped
/// string.
proof fn lemma_escape_snoc(s: Seq<char>, c: char)
    ensures
        escape_seq(s.push(c)) == escape_seq(s) + escape_char(c),
    decreases s.len(),
{
    if s.len() == 0 {
        assert(s.push(c) =~= seq![c]);
        assert(seq![c].drop_first() =~= Seq::<char>::empty());
        assert(escape_seq(seq![c]) == escape_char(c) + escape_seq(Seq::<char>::empty()));
        assert(escape_char(c) + Seq::<char>::empty() =~= escape_char(c));
        assert(escape_seq(s) + escape_char(c) =~= escape_char(c));
    } else {
        assert(s.push(c).drop_first() =~= s.drop_first().push(c));
        lemma_escape_snoc(s.drop_first(), c);
        assert(escape_seq(s.push(c)) == escape_char(s[0]) + escape_seq(s.drop_first().push(c)));
        assert(escape_seq(s.push(c)) =~= escape_seq(s) + escape_char(c));
    }
}

/// The characters of a string slice, in order.
fn chars_of(s: &str) -> (v: Vec<char>)
    ensures
        v@ == s@,
{
    let n = s.unicode_len();
    let mut v: Vec<char> = Vec::new();
    let mut i: usize = 0;
    while i < n
        invariant
            n == s@.len(),
            i <= n,
            v@ == s@.take(i as int),
        decreases n - i,
    {
        let c = s.get_char(i);
        v.push(c);
        proof {
            assert(v@ =~= s@.take(i as int + 1));
        }
        i = i + 1;
    }
    proof {
        assert(s@.take(n as int) =~= s@);
    }
    v
}

/// Relies on `String: FromIterator<char>`: collecting characters yields the
/// string of exactly those characters in order.
#[verifier::external_body]
fn string_of(v: Vec<char>) -> (s: String)
    ensures
        s@ == v@,
{
    v.into_iter().collect()
}

/// Relies on `char::from_u32`: `Some` exactly for Unicode scalar values (not
/// a surrogate, at most 0x10FFFF), and the character has the given value.
#[verifier::external_body]
fn char_from_u32(v: u32) -> (r: Option<char>)
    ensures
        r is Some <==> unicode_scalar(v),
        r matches Some(c) ==> c as u32 == v,
{
    char::from_u32(v)
}

/// Lower-case hexadecimal digit of a value below 16.
fn hex_char_exec(v: u32) -> (c: char)
    requires
        v < 16,
    ensures
        c == hex_char(v),
{
    if v == 0 {
        '0'
    } else if v == 1 {
        '1'
    } else if v == 2 {
        '2'
    } else if v == 3 {
        '3'
    } else if v == 4 {
        '4'
    } else if v == 5 {
        '5'
    } else if v == 6 {
        '6'
    } else if v == 7 {
        '7'
    } else if v == 8 {
        '8'
    } else if v == 9 {
        '9'
    } else if v == 10 {
        'a'
    } else if v == 11 {
        'b'
    } else if v == 12 {
        'c'
    } else if v == 13 {
        'd'
    } else if v == 14 {
        'e'
    } else {
        'f'
    }
}

/// Append the canonical escape of `cs` to `out`.
fn push_escaped(out: &mut Vec<char>, cs: &Vec<char>)
    ensures
        final(out)@ == old(out)@ + escape_seq(cs@),
{
    let mut i: usize = 0;
    while i < cs.len()
        invariant
            i <= cs@.len(),
            out@ == old(out)@ + escape_seq(cs@.take(i as int)),
        decreases cs@.len() - i,
    {
        let c = cs[i];
        if c == '"' {
            out.push('\\');
            out.push('"');
        } else if c == '\\' {
            out.push('\\');
            out.push('\\');
        } else if c == '\u{8}' {
            out.push('\\');
            out.push('b');
        } else if c == '\u{c}' {
            out.push('\\');
            out.push('f');
        } else if c == '\n' {
            out.push('\\');
            out.push('n');
        } else if c == '\r' {
            out.push('\\');
            out.push('r');
        } else if c == '\t' {
            out.push('\\');
            out.push('t');
        } else {
            let u = c as u32;
            if u < 0x20 {
                out.push('\\');
                out.push('u');
                out.push('0');
                out.push('0');
                out.push(hex_char_exec(u / 16));
                out.push(hex_char_exec(u % 16));
            } else {
                out.push(c);
            }
        }
        proof {
            assert(cs@.take(i as int + 1) =~= cs@.take(i as int).push(cs@[i as int]));
            lemma_escape_snoc(cs@.take(i as int), cs@[i as int]);
            assert(out@ =~= old(out)@ + escape_seq(cs@.take(i as int + 1)));
        }
        i = i + 1;
    }
    proof {
        assert(cs@.take(cs@.len() as int) =~= cs@);
    }
}

/// Append the quoted, escaped form of `cs` to `out`.
fn push_quoted(out: &mut Vec<char>, cs: &Vec<char>)
    ensures
        final(out)@ == old(out)@ + quoted(cs@),
{
    out.push('"');
    push_escaped(out, cs);
    out.push('"');
    proof {
        assert(out@ =~= old(out)@ + quoted(cs@));
    }
}

/// The name of a role, as written in the durable log.
pub fn role_name_str(r: Role) -> (s: &'static str)
    ensures
        s@ == role_chars(r),
{
    match r {
        Role::Assistant => {
            let s = "assistant";
            proof {
                reveal_strlit("assistant");
                assert(s@ =~= role_chars(Role::Assistant));
            }
            s
        },
        Role::System => {
            let s = "system";
            proof {
                reveal_strlit("system");
                assert(s@ =~= role_chars(Role::System));
            }
            s
        },
        Role::User => {
            let s = "user";
            proof {
                reveal_strlit("user");
                assert(s@ =~= role_chars(Role::User));
            }
            s
        },
    }
}

/// Encode one turn as its canonical session-log line.
pub fn encode_line(m: &ChatGptMessage) -> (r: String)
    ensures
        r@ == spec_encode_line(m@),
{
    let mut out: Vec<char> = Vec::new();
    out.push('{');
    let rk = chars_of("role");
    proof {
        reveal_strlit("role");
        assert(rk@ =~= role_key());
    }
    push_quoted(&mut out, &rk);
    out.push(':');
    let rn = chars_of(role_name_str(m.role));
    push_quoted(&mut out, &rn);
    out.push(',');
    let ck = chars_of("content");
    proof {
        reveal_strlit("content");
        assert(ck@ =~= content_key());
    }
    push_quoted(&mut out, &ck);
    out.push(':');
    let cc = chars_of(m.content.as_str());
    push_quoted(&mut out, &cc);
    out.push('}');
    proof {
        assert(out@ =~= spec_encode_line(m@));
    }
    string_of(out)
}

/// Prepend an already-decoded prefix to the result of parsing the rest of a
/// string body.
pub open spec fn cons_all(pre: Seq<char>, r: Option<(Seq<char>, Seq<char>)>) -> Option<
    (Seq<char>, Seq<char>),
> {
    match r {
        Some((content, rest)) => Some((pre + content, rest)),
        None => None,
    }
}

proof fn lemma_cons_all_nil(r: Option<(Seq<char>, Seq<char>)>)
    ensures
        cons_all(Seq::empty(), r) == r,
{
    match r {
        Some((content, rest)) => {
            assert(Seq::<char>::empty() + content =~= content);
        },
        None => {},
    }
}

proof fn lemma_cons_all_step(pre: Seq<char>, c: char, r: Option<(Seq<char>, Seq<char>)>)
    ensures
        cons_all(pre, cons_parsed(c, r)) == cons_all(pre.push(c), r),
{
    match r {
        Some((content, rest)) => {
            assert(pre + (seq![c] + content) =~= pre.push(c) + content);
        },
        None => {},
    }
}

/// Value of a hexadecimal digit character.
fn hex_val_exec(c: char) -> (r: Option<u32>)
    ensures
        r == hex_val(c),
        r matches Some(x) ==> x < 16,
{
    let u = c as u32;
    if 48 <= u && u <= 57 {
        Some(u - 48)
    } else if 97 <= u && u <= 102 {
        Some(u - 97 + 10)
    } else if 65 <= u && u <= 70 {
        Some(u - 65 + 10)
    } else {
        None
    }
}

/// The character denoted by a single-character escape.
fn simple_unescape_exec(e: char) -> (r: Option<char>)
    ensures
        r == simple_unescape(e),
{
    if e == '"' {
        Some('"')
    } else if e == '\\' {
        Some('\\')
    } else if e == '/' {
        Some('/')
    } else if e == 'b' {
        Some('\u{8}')
    } else if e == 'f' {
        Some('\u{c}')
    } else if e == 'n' {
        Some('\n')
    } else if e == 'r' {
        Some('\r')
    } else if e == 't' {
        Some('\t')
    } else {
        None
    }
}

/// Parse the string token that starts at index `start`; on success return
/// the decoded content and the index just after the closing quote.
fn parse_string_at(v: &Vec<char>, start: usize) -> (r: Option<(Vec<char>, usize)>)
    requires
        start <= v@.len(),
    ensures
        match r {
            Some((content, j)) => start < j <= v@.len() && parse_string(v@.skip(start as int))
                == Some((content@, v@.skip(j as int))),
            None => parse_string(v@.skip(start as int)) is None,
        },
{
    let n = v.len();
    if start >= n {
        return None;
    }
    proof {
        assert(v@.skip(start as int)[0] == v@[start as int]);
    }
    if v[start] != '"' {
        return None;
    }
    proof {
        assert(v@.skip(start as int).drop_first() =~= v@.skip(start as int + 1));
        lemma_cons_all_nil(parse_string_body(v@.skip(start as int + 1)));
    }
    let mut acc: Vec<char> = Vec::new();
    let mut i: usize = start + 1;
    while i < n
        invariant
            start + 1 <= i <= n,
            n == v@.len(),
            parse_string(v@.skip(start as int)) == parse_string_body(v@.skip(start as int + 1)),
            parse_string_body(v@.skip(start as int + 1)) == cons_all(
                acc@,
                parse_string_body(v@.skip(i as int)),
            ),
        decreases n - i,
    {
        let c = v[i];
        proof {
            assert(v@.skip(i as int)[0] == v@[i as int]);
        }
        if c == '"' {
            proof {
                assert(v@.skip(i as int).drop_first() =~= v@.skip(i as int + 1));
                assert(acc@ + Seq::<char>::empty() =~= acc@);
                assert(parse_string_body(v@.skip(i as int)) == Some(
                    (Seq::<char>::empty(), v@.skip(i as int + 1)),
                ));
                assert(parse_string(v@.skip(start as int)) == parse_string_body(
                    v@.skip(start as int + 1),
                ));
                assert(parse_string_body(v@.skip(start as int + 1)) == Some(
                    (acc@, v@.skip(i as int + 1)),
                ));
            }
            return Some((acc, i + 1));
        } else if c == '\\' {
            if i + 1 >= n {
                proof {
                    assert(v@.skip(i as int).len() < 2);
                    assert(parse_string_body(v@.skip(i as int)) is None);
                    assert(parse_string(v@.skip(start as int)) is None);
                }
                return None;
            }
            let e = v[i + 1];
            proof {
                assert(v@.skip(i as int)[1] == v@[i as int + 1]);
            }
            if e == 'u' {
                if n - i < 6 {
                    return None;
                }
                proof {
                    assert(v@.skip(i as int)[2] == v@[i as int + 2]);
                    assert(v@.skip(i as int)[3] == v@[i as int + 3]);
                    assert(v@.skip(i as int)[4] == v@[i as int + 4]);
                    assert(v@.skip(i as int)[5] == v@[i as int + 5]);
                }
                let h0 = hex_val_exec(v[i + 2]);
                let h1 = hex_val_exec(v[i + 3]);
                let h2 = hex_val_exec(v[i + 4]);
                let h3 = hex_val_exec(v[i + 5]);
                match (h0, h1, h2, h3) {
                    (Some(x), Some(y), Some(z), Some(w)) => {
                        let val = x * 4096 + y * 256 + z * 16 + w;
                        if val < 0xD800 || val >= 0xE000 {
                            match char_from_u32(val) {
                                Some(c2) => {
                                    proof {
                                        vstd::utf8::char_u32_cast(c2, val);
                                        assert(v@.skip(i as int).skip(6) =~= v@.skip(
                                            i as int + 6,
                                        ));
                                        lemma_cons_all_step(
                                            acc@,
                                            c2,
                                            parse_string_body(v@.skip(i as int + 6)),
                                        );
                                    }
                                    acc.push(c2);
                                    i = i + 6;
                                },
                                None => {
                                    return None;
                                },
                            }
                        } else {
                            return None;
                        }
                    },
                    _ => {
                        return None;
                    },
                }
            } else {
                match simple_unescape_exec(e) {
                    Some(c2) => {
                        proof {
                            assert(v@.skip(i as int).skip(2) =~= v@.skip(i as int + 2));
                            lemma_cons_all_step(
                                acc@,
                                c2,
                                parse_string_body(v@.skip(i as int + 2)),
                            );
                        }
                        acc.push(c2);
                        i = i + 2;
                    },
                    None => {
                        return None;
                    },
                }
            }
        } else {
            let u = c as u32;
            if u < 0x20 {
                return None;
            }
            proof {
                assert(v@.skip(i as int).drop_first() =~= v@.skip(i as int + 1));
                lemma_cons_all_step(acc@, c, parse_string_body(v@.skip(i as int + 1)));
            }
            acc.push(c);
            i = i + 1;
        }
    }
    proof {
        assert(v@.skip(i as int).len() == 0);
    }
    None
}

/// Parse one `"key":"value"` member starting at index `start`.
fn parse_member_at(v: &Vec<char>, start: usize) -> (r: Option<((Vec<char>, Vec<char>), usize)>)
    requires
        start <= v@.len(),
    ensures
        match r {
            Some(((k, val), j)) => start < j <= v@.len() && parse_member(v@.skip(start as int))
                == Some(((k@, val@), v@.skip(j as int))),
            None => parse_member(v@.skip(start as int)) is None,
        },
{
    let n = v.len();
    let (k, j1) = match parse_string_at(v, start) {
        Some(p) => p,
        None => {
            return None;
        },
    };
    if j1 >= n {
        return None;
    }
    proof {
        assert(v@.skip(j1 as int)[0] == v@[j1 as int]);
        assert(v@.skip(j1 as int).drop_first() =~= v@.skip(j1 as int + 1));
    }
    if v[j1] != ':' {
        return None;
    }
    let (val, j2) = match parse_string_at(v, j1 + 1) {
        Some(p) => p,
        None => {
            return None;
        },
    };
    Some(((k, val), j2))
}

/// Whether a decoded member key is exactly `role`.
fn is_role_key(k: &Vec<char>) -> (b: bool)
    ensures
        b == (k@ == role_key()),
{
    let r = k.len() == 4 && k[0] == 'r' && k[1] == 'o' && k[2] == 'l' && k[3] == 'e';
    proof {
        if k@ == role_key() {
            assert(k@.len() == 4 && k@[0] == 'r' && k@[1] == 'o' && k@[2] == 'l' && k@[3] == 'e');
        }
        if r {
            assert(k@ =~= role_key());
        }
    }
    r
}

/// Whether a decoded member key is exactly `content`.
fn is_content_key(k: &Vec<char>) -> (b: bool)
    ensures
        b == (k@ == content_key()),
{
    let r = k.len() == 7 && k[0] == 'c' && k[1] == 'o' && k[2] == 'n' && k[3] == 't' && k[4] == 'e'
        && k[5] == 'n' && k[6] == 't';
    proof {
        if k@ == content_key() {
            assert(k@.len() == 7 && k@[0] == 'c' && k@[1] == 'o' && k@[2] == 'n' && k@[3] == 't'
                && k@[4] == 'e' && k@[5] == 'n' && k@[6] == 't');
        }
        if r {
            assert(k@ =~= content_key());
        }
    }
    r
}

/// The role a decoded role name denotes, if any.
fn role_of_chars(cs: &Vec<char>) -> (r: Option<Role>)
    ensures
        r == spec_role_of(cs@),
{
    if cs.len() == 4 && cs[0] == 'u' && cs[1] == 's' && cs[2] == 'e' && cs[3] == 'r' {
        proof {
            assert(cs@ =~= role_chars(Role::User));
        }
        Some(Role::User)
    } else if cs.len() == 9 && cs[0] == 'a' && cs[1] == 's' && cs[2] == 's' && cs[3] == 'i'
        && cs[4] == 's' && cs[5] == 't' && cs[6] == 'a' && cs[7] == 'n' && cs[8] == 't' {
        proof {
            assert(cs@ =~= role_chars(Role::Assistant));
        }
        Some(Role::Assistant)
    } else if cs.len() == 6 && cs[0] == 's' && cs[1] == 'y' && cs[2] == 's' && cs[3] == 't'
        && cs[4] == 'e' && cs[5] == 'm' {
        proof {
            assert(cs@ =~= role_chars(Role::System));
        }
        Some(Role::System)
    } else {
        proof {
            if cs@ == role_chars(Role::User) {
                assert(cs@.len() == 4 && cs@[0] == 'u' && cs@[1] == 's' && cs@[2] == 'e'
                    && cs@[3] == 'r');
            }
            if cs@ == role_chars(Role::Assistant) {
                assert(cs@.len() == 9 && cs@[0] == 'a' && cs@[1] == 's' && cs@[2] == 's'
                    && cs@[3] == 'i' && cs@[4] == 's' && cs@[5] == 't' && cs@[6] == 'a'
                    && cs@[7] == 'n' && cs@[8] == 't');
            }
            if cs@ == role_chars(Role::System) {
                assert(cs@.len() == 6 && cs@[0] == 's' && cs@[1] == 'y' && cs@[2] == 's'
                    && cs@[3] == 't' && cs@[4] == 'e' && cs@[5] == 'm');
            }
        }
        None
    }
}

/// Decode one session-log line, strictly: `None` on any deviation from the
/// two-member object form, an unknown role name included.
pub fn decode_line(line: &str) -> (r: Option<ChatGptMessage>)
    ensures
        match r {
            Some(m) => spec_decode_line(line@) == Some(m@),
            None => spec_decode_line(line@) is None,
        },
{
    let v = chars_of(line);
    let n = v.len();
    if n == 0 {
        return None;
    }
    if v[0] != '{' {
        return None;
    }
    proof {
        assert(v@.drop_first() =~= v@.skip(1));
    }
    let (k1, v1, j1) = match parse_member_at(&v, 1) {
        Some(((k, val), j)) => (k, val, j),
        None => {
            return None;
        },
    };
    if j1 >= n {
        return None;
    }
    proof {
        assert(v@.skip(j1 as int)[0] == v@[j1 as int]);
        assert(v@.skip(j1 as int).drop_first() =~= v@.skip(j1 as int + 1));
    }
    if v[j1] != ',' {
        return None;
    }
    let (k2, v2, j2) = match parse_member_at(&v, j1 + 1) {
        Some(((k, val), j)) => (k, val, j),
        None => {
            return None;
        },
    };
    if !(j2 < n && j2 + 1 == n) {
        proof {
            assert(v@.skip(j2 as int).len() != 1);
        }
        return None;
    }
    proof {
        assert(v@.skip(j2 as int)[0] == v@[j2 as int]);
    }
    if v[j2] != '}' {
        return None;
    }
    proof {
        assert(v@.skip(j2 as int) =~= seq!['}']);
    }
    let first_is_role = is_role_key(&k1) && is_content_key(&k2);
    let first_is_content = is_content_key(&k1) && is_role_key(&k2);
    if first_is_role {
        match role_of_chars(&v1) {
            Some(role) => {
                let content = string_of(v2);
                Some(ChatGptMessage { role, content })
            },
            None => None,
        }
    } else if first_is_content {
        match role_of_chars(&v2) {
            Some(role) => {
                let content = string_of(v1);
                Some(ChatGptMessage { role, content })
            },
            None => None,
        }
    } else {
        None
    }
}

/// The transcript form of one turn: its content followed by a blank line.
pub fn transcript_block(m: &ChatGptMessage) -> (r: String)
    ensures
        r@ == m@.content + seq!['\n', '\n'],
{
    let mut s = m.content.clone();
    s.append("\n\n");
    proof {
        reveal_strlit("\n\n");
        assert(s@ =~= m@.content + seq!['\n', '\n']);
    }
    s
}

/// A hexadecimal digit survives the round trip through its character.
proof fn lemma_hex_round_trip(x: u32)
    requires
        x < 16,
    ensures
        hex_val(hex_char(x)) == Some(x),
{
}

/// Parsing an escaped string body followed by the closing quote recovers
/// exactly the original string, whatever it holds.
proof fn lemma_parse_escape_body(c: Seq<char>, rest: Seq<char>)
    ensures
        parse_string_body(escape_seq(c) + seq!['"'] + rest) == Some((c, rest)),
    decreases c.len(),
{
    let s = escape_seq(c) + seq!['"'] + rest;
    if c.len() == 0 {
        assert(s =~= seq!['"'] + rest);
        assert(s[0] == '"');
        assert(s.drop_first() =~= rest);
        assert(c =~= Seq::<char>::empty());
    } else {
        let c0 = c[0];
        let e = escape_char(c0);
        let tail_s = escape_seq(c.drop_first()) + seq!['"'] + rest;
        assert(escape_seq(c) == e + escape_seq(c.drop_first()));
        assert(s =~= e + tail_s);
        lemma_parse_escape_body(c.drop_first(), rest);
        assert(seq![c0] + c.drop_first() =~= c);
        if c0 == '"' || c0 == '\\' || c0 == '\u{8}' || c0 == '\u{c}' || c0 == '\n' || c0 == '\r'
            || c0 == '\t' {
            assert(e.len() == 2);
            assert(s[0] == '\\');
            assert(s[1] == e[1]);
            assert(s[1] != 'u');
            assert(simple_unescape(e[1]) == Some(c0));
            assert(s.skip(2) =~= tail_s);
            assert(parse_string_body(s) == cons_parsed(c0, parse_string_body(tail_s)));
        } else if (c0 as u32) < 0x20 {
            let u = c0 as u32;
            assert(e == seq!['\\', 'u', '0', '0', hex_char(u / 16), hex_char(u % 16)]);
            assert(e.len() == 6);
            assert(s[0] == '\\');
            assert(s[1] == 'u');
            assert(s[2] == '0');
            assert(s[3] == '0');
            assert(s[4] == hex_char(u / 16));
            assert(s[5] == hex_char(u % 16));
            assert(hex_val('0') == Some(0u32));
            lemma_hex_round_trip(u / 16);
            lemma_hex_round_trip(u % 16);
            assert(hex4_val(s[2], s[3], s[4], s[5]) == Some(
                (u / 16 * 16 + u % 16) as u32,
            ));
            assert(u / 16 * 16 + u % 16 == u) by {
                vstd::arithmetic::div_mod::lemma_fundamental_div_mod(u as int, 16);
            }
            assert(unicode_scalar(u));
            vstd::utf8::char_u32_cast(c0, u);
            assert((u as char) == c0);
            assert(s.skip(6) =~= tail_s);
            assert(parse_string_body(s) == cons_parsed(c0, parse_string_body(tail_s)));
        } else {
            assert(e == seq![c0]);
            assert(s[0] == c0);
            assert(s.drop_first() =~= tail_s);
            assert(parse_string_body(s) == cons_parsed(c0, parse_string_body(tail_s)));
        }
        assert(parse_string_body(s) == Some((seq![c0] + c.drop_first(), rest)));
    }
}

/// Parsing a quoted, escaped string recovers exactly the original string.
proof fn lemma_parse_quoted(c: Seq<char>, rest: Seq<char>)
    ensures
        parse_string(quoted(c) + rest) == Some((c, rest)),
{
    let s = quoted(c) + rest;
    assert(s[0] == '"');
    assert(s.drop_first() =~= escape_seq(c) + seq!['"'] + rest);
    lemma_parse_escape_body(c, rest);
}

/// A known role name decodes back to its role.
proof fn lemma_role_round_trip(r: Role)
    ensures
        spec_role_of(role_chars(r)) == Some(r),
{
    match r {
        Role::User => {
        },
        Role::Assistant => {
            assert(role_chars(Role::Assistant).len() != role_chars(Role::User).len());
        },
        Role::System => {
            assert(role_chars(Role::System).len() != role_chars(Role::User).len());
            assert(role_chars(Role::System).len() != role_chars(Role::Assistant).len());
        },
    }
}

/// Decoding is left inverse to encoding: every turn survives the round trip
/// through its session-log line unchanged, role and content alike.
pub proof fn lemma_decode_encode(t: TurnView)
    ensures
        spec_decode_line(spec_encode_line(t)) == Some(t),
{
    let line = spec_encode_line(t);
    let after1 = seq![','] + quoted(content_key()) + seq![':'] + quoted(t.content) + seq!['}'];
    let rest_r = seq![':'] + quoted(role_chars(t.role)) + after1;
    assert(line[0] == '{');
    assert(line.drop_first() =~= quoted(role_key()) + rest_r);
    lemma_parse_quoted(role_key(), rest_r);
    assert(rest_r[0] == ':');
    assert(rest_r.drop_first() =~= quoted(role_chars(t.role)) + after1);
    lemma_parse_quoted(role_chars(t.role), after1);
    assert(parse_member(line.drop_first()) == Some(
        ((role_key(), role_chars(t.role)), after1),
    ));
    let rest_c = seq![':'] + quoted(t.content) + seq!['}'];
    assert(after1[0] == ',');
    assert(after1.drop_first() =~= quoted(content_key()) + rest_c);
    lemma_parse_quoted(content_key(), rest_c);
    assert(rest_c[0] == ':');
    assert(rest_c.drop_first() =~= quoted(t.content) + seq!['}']);
    lemma_parse_quoted(t.content, seq!['}']);
    assert(parse_member(after1.drop_first()) == Some(
        ((content_key(), t.content), seq!['}']),
    ));
    assert(role_key() != content_key());
    lemma_role_round_trip(t.role);
    assert(turn_of_members(role_key(), role_chars(t.role), content_key(), t.content) == Some(
        TurnView { role: t.role, content: t.content },
    ));
    assert(t == (TurnView { role: t.role, content: t.content }));
}

/// A line in the canonical shape whose role name is not one of the known
/// roles fails to decode: the loader never skips it or substitutes a
/// default role.
pub proof fn lemma_unknown_role_rejected(role_s: Seq<char>, content: Seq<char>)
    requires
        spec_role_of(role_s) is None,
    ensures
        spec_decode_line(
            seq!['{'] + quoted(role_key()) + seq![':'] + quoted(role_s) + seq![','] + quoted(
                content_key(),
            ) + seq![':'] + quoted(content) + seq!['}'],
        ) is None,
{
    let line = seq!['{'] + quoted(role_key()) + seq![':'] + quoted(role_s) + seq![','] + quoted(
        content_key(),
    ) + seq![':'] + quoted(content) + seq!['}'];
    let after1 = seq![','] + quoted(content_key()) + seq![':'] + quoted(content) + seq!['}'];
    let rest_r = seq![':'] + quoted(role_s) + after1;
    assert(line[0] == '{');
    assert(line.drop_first() =~= quoted(role_key()) + rest_r);
    lemma_parse_quoted(role_key(), rest_r);
    assert(rest_r[0] == ':');
    assert(rest_r.drop_first() =~= quoted(role_s) + after1);
    lemma_parse_quoted(role_s, after1);
    assert(parse_member(line.drop_first()) == Some(((role_key(), role_s), after1)));
    let rest_c = seq![':'] + quoted(content) + seq!['}'];
    assert(after1[0] == ',');
    assert(after1.drop_first() =~= quoted(content_key()) + rest_c);
    lemma_parse_quoted(content_key(), rest_c);
    assert(rest_c[0] == ':');
    assert(rest_c.drop_first() =~= quoted(content) + seq!['}']);
    lemma_parse_quoted(content, seq!['}']);
    assert(parse_member(after1.drop_first()) == Some(((content_key(), content), seq!['}'])));
    assert(role_key() != content_key());
    assert(turn_of_members(role_key(), role_s, content_key(), content) is None);
}

proof fn lemma_load_encoded_from(ts: Seq<TurnView>, lines: Seq<Seq<char>>, i: int)
    requires
        lines.len() == ts.len(),
        forall|j: int| 0 <= j < ts.len() ==> lines[j] == spec_encode_line(#[trigger] ts[j]),
        0 <= i <= ts.len(),
    ensures
        spec_load_from(lines, i) == Ok::<Seq<TurnView>, int>(ts.skip(i)),
    decreases ts.len() - i,
{
    if i == ts.len() {
        assert(ts.skip(i) =~= Seq::<TurnView>::empty());
    } else {
        lemma_load_encoded_from(ts, lines, i + 1);
        lemma_decode_encode(ts[i]);
        assert(lines[i].len() > 0);
        assert(seq![ts[i]] + ts.skip(i + 1) =~= ts.skip(i));
    }
}

/// Replay is left inverse to logging: a session log holding exactly the
/// encoded lines of a sequence of turns loads back to exactly that sequence,
/// in the same order, with the same roles and contents.
pub proof fn lemma_session_round_trip(ts: Seq<TurnView>)
    ensures
        spec_load(ts.map_values(|t: TurnView| spec_encode_line(t))) == Ok::<
            Seq<TurnView>,
            int,
        >(ts),
{
    let lines = ts.map_values(|t: TurnView| spec_encode_line(t));
    lemma_load_encoded_from(ts, lines, 0);
    assert(ts.skip(0) =~= ts);
}


/// The transcript text of a sequence of turns: each turn's content followed
/// by a blank line, no role metadata.
pub open spec fn transcript_of(ts: Seq<TurnView>) -> Seq<char>
    decreases ts.len(),
{
    if ts.len() == 0 {
        Seq::empty()
    } else {
        transcript_of(ts.drop_last()) + ts.last().content + seq!['\n', '\n']
    }
}

/// The whole transcript of a conversation, as the transcript sink writes
/// it, one block per turn in order.
pub fn transcript_text(turns: &Vec<ChatGptMessage>) -> (r: String)
    ensures
        r@ == transcript_of(turns.deep_view()),
{
    let mut text = String::new();
    let mut i: usize = 0;
    while i < turns.len()
        invariant
            i <= turns@.len(),
            text@ == transcript_of(turns.deep_view().take(i as int)),
        decreases turns@.len() - i,
    {
        let block = transcript_block(&turns[i]);
        text.append(block.as_str());
        proof {
            assert(turns.deep_view().take(i as int + 1).drop_last() =~= turns.deep_view().take(
                i as int,
            ));
            assert(turns.deep_view().take(i as int + 1).last() == turns@[i as int]@);
            assert(text@ =~= transcript_of(turns.deep_view().take(i as int + 1)));
        }
        i = i + 1;
    }
    proof {
        assert(turns.deep_view().take(turns@.len() as int) =~= turns.deep_view());
    }
    text
}

} // verus!
