//! A JSON tree, its serializer and its parser. This is the wire format the
//! library reads from the package-tracking service and writes for machine
//! consumers. Numbers are carried as their raw lexeme: no record field of
//! this library is numeric, so no numeric interpretation is needed.

use vstd::prelude::*;

use crate::strutil::push_str_chars;

verus! {

/// The mathematical content of a JSON document.
pub enum JsonV {
    Null,
    Bool(bool),
    Num(Seq<char>),
    Str(Seq<char>),
    Arr(Seq<JsonV>),
    Obj(Seq<(Seq<char>, JsonV)>),
}

/// A JSON document: null, a boolean, a number (kept as its lexeme), a
/// string, an array, or an object whose members keep document order.
#[derive(Debug, PartialEq, Eq)]
pub enum Json {
    Null,
    Bool(bool),
    Num(Vec<char>),
    Str(Vec<char>),
    Arr(Vec<Json>),
    Obj(Vec<(Vec<char>, Json)>),
}

/// The content of a `Json` tree.
pub open spec fn json_view(j: Json) -> JsonV
    decreases j,
{
    match j {
        Json::Null => JsonV::Null,
        Json::Bool(b) => JsonV::Bool(b),
        Json::Num(s) => JsonV::Num(s@),
        Json::Str(s) => JsonV::Str(s@),
        Json::Arr(items) => JsonV::Arr(json_view_seq(items@)),
        Json::Obj(members) => JsonV::Obj(json_view_members(members@)),
    }
}

/// The contents of a sequence of `Json` trees.
pub open spec fn json_view_seq(s: Seq<Json>) -> Seq<JsonV>
    decreases s,
{
    if s.len() == 0 {
        Seq::empty()
    } else {
        seq![json_view(s[0])] + json_view_seq(s.drop_first())
    }
}

/// The contents of a sequence of object members.
pub open spec fn json_view_members(s: Seq<(Vec<char>, Json)>) -> Seq<(Seq<char>, JsonV)>
    decreases s,
{
    if s.len() == 0 {
        Seq::empty()
    } else {
        seq![(s[0].0@, json_view(s[0].1))] + json_view_members(s.drop_first())
    }
}

/// Element-wise reading of `json_view_seq`.
pub proof fn lemma_json_view_seq(s: Seq<Json>)
    ensures
        json_view_seq(s).len() == s.len(),
        forall|i: int| 0 <= i < s.len() ==> json_view_seq(s)[i] == json_view(s[i]),
    decreases s.len(),
{
    if s.len() > 0 {
        lemma_json_view_seq(s.drop_first());
        assert forall|i: int| 0 <= i < s.len() implies json_view_seq(s)[i] == json_view(s[i]) by {
            if i > 0 {
                assert(s.drop_first()[i - 1] == s[i]);
                assert(json_view_seq(s)[i] == json_view_seq(s.drop_first())[i - 1]);
            }
        }
    }
}

/// Element-wise reading of `json_view_members`.
pub proof fn lemma_json_view_members(s: Seq<(Vec<char>, Json)>)
    ensures
        json_view_members(s).len() == s.len(),
        forall|i: int|
            0 <= i < s.len() ==> json_view_members(s)[i] == (s[i].0@, json_view(s[i].1)),
    decreases s.len(),
{
    if s.len() > 0 {
        lemma_json_view_members(s.drop_first());
        assert forall|i: int| 0 <= i < s.len() implies json_view_members(s)[i] == (
        s[i].0@,
        json_view(s[i].1),
        ) by {
            if i > 0 {
                assert(s.drop_first()[i - 1] == s[i]);
                assert(json_view_members(s)[i] == json_view_members(s.drop_first())[i - 1]);
            }
        }
    }
}

impl View for Json {
    type V = JsonV;

    open spec fn view(&self) -> JsonV {
        json_view(*self)
    }
}

pub open spec fn is_digit(c: char) -> bool {
    '0' <= c && c <= '9'
}

/// The characters a number lexeme may consist of.
pub open spec fn is_num_char(c: char) -> bool {
    is_digit(c) || c == '-' || c == '+' || c == '.' || c == 'e' || c == 'E'
}

/// JSON whitespace.
pub open spec fn is_ws(c: char) -> bool {
    c == ' ' || c == '\n' || c == '\t' || c == '\r'
}

/// A serializable JSON value: number lexemes are non-empty runs of number
/// characters starting as a number starts.
pub open spec fn wf_json(v: JsonV) -> bool
    decreases v,
{
    match v {
        JsonV::Null => true,
        JsonV::Bool(_) => true,
        JsonV::Num(s) => s.len() > 0 && (s[0] == '-' || is_digit(s[0])) && (forall|i: int|
            0 <= i < s.len() ==> is_num_char(#[trigger] s[i])),
        JsonV::Str(_) => true,
        JsonV::Arr(items) => forall|i: int| 0 <= i < items.len() ==> wf_json(#[trigger] items[i]),
        JsonV::Obj(ms) => forall|i: int| 0 <= i < ms.len() ==> wf_json(#[trigger] ms[i].1),
    }
}

// ---------------------------------------------------------------------------
// Serializer
// ---------------------------------------------------------------------------

/// The lower-case hexadecimal digit for a value below sixteen.
pub open spec fn hex_digit(v: int) -> char {
    if v < 10 {
        (48 + v) as char
    } else {
        (87 + v) as char
    }
}

/// The escape of one string character: quote, backslash and the named control
/// characters take their two-character escapes; other control characters take
/// a four-digit hexadecimal escape; anything else stands for itself.
pub open spec fn esc_char(c: char) -> Seq<char> {
    if c == '"' {
        seq!['\\', '"']
    } else if c == '\\' {
        seq!['\\', '\\']
    } else if c == '\n' {
        seq!['\\', 'n']
    } else if c == '\r' {
        seq!['\\', 'r']
    } else if c == '\t' {
        seq!['\\', 't']
    } else if (c as u32) < 0x20 {
        seq!['\\', 'u', '0', '0', hex_digit(((c as u32) / 16) as int), hex_digit(
            ((c as u32) % 16) as int,
        )]
    } else {
        seq![c]
    }
}

pub open spec fn ser_str_body(s: Seq<char>) -> Seq<char>
    decreases s.len(),
{
    if s.len() == 0 {
        Seq::empty()
    } else {
        esc_char(s[0]) + ser_str_body(s.drop_first())
    }
}

/// A string serialized with its quotes.
pub open spec fn ser_string(s: Seq<char>) -> Seq<char> {
    seq!['"'] + ser_str_body(s) + seq!['"']
}

/// The serialized text of a JSON value: compact, with no whitespace.
pub open spec fn ser_json(v: JsonV) -> Seq<char>
    decreases v,
{
    match v {
        JsonV::Null => seq!['n', 'u', 'l', 'l'],
        JsonV::Bool(b) => if b {
            seq!['t', 'r', 'u', 'e']
        } else {
            seq!['f', 'a', 'l', 's', 'e']
        },
        JsonV::Num(s) => s,
        JsonV::Str(s) => ser_string(s),
        JsonV::Arr(items) => seq!['['] + ser_items(items) + seq![']'],
        JsonV::Obj(ms) => seq!['{'] + ser_members(ms) + seq!['}'],
    }
}

pub open spec fn ser_items(items: Seq<JsonV>) -> Seq<char>
    decreases items,
{
    if items.len() == 0 {
        Seq::empty()
    } else if items.len() == 1 {
        ser_json(items[0])
    } else {
        ser_json(items[0]) + seq![','] + ser_items(items.drop_first())
    }
}

pub open spec fn ser_member(m: (Seq<char>, JsonV)) -> Seq<char>
    decreases m,
{
    ser_string(m.0) + seq![':'] + ser_json(m.1)
}

pub open spec fn ser_members(ms: Seq<(Seq<char>, JsonV)>) -> Seq<char>
    decreases ms,
{
    if ms.len() == 0 {
        Seq::empty()
    } else if ms.len() == 1 {
        ser_member(ms[0])
    } else {
        ser_member(ms[0]) + seq![','] + ser_members(ms.drop_first())
    }
}

/// Serializing one more item appends a comma and its text.
proof fn lemma_ser_items_snoc(s: Seq<JsonV>, x: JsonV)
    ensures
        s.len() == 0 ==> ser_items(s.push(x)) == ser_json(x),
        s.len() > 0 ==> ser_items(s.push(x)) == ser_items(s) + seq![','] + ser_json(x),
    decreases s.len(),
{
    if s.len() == 0 {
        assert(s.push(x)[0] == x);
        assert(ser_items(s.push(x)) == ser_json(x));
    } else {
        lemma_ser_items_snoc(s.drop_first(), x);
        assert(s.push(x).drop_first() =~= s.drop_first().push(x));
        assert(s.push(x)[0] == s[0]);
        if s.len() == 1 {
            assert(ser_items(s.push(x)) == ser_json(s[0]) + seq![','] + ser_items(
                s.drop_first().push(x),
            ));
            assert(ser_items(s.drop_first().push(x)) == ser_json(x));
        } else {
            assert(ser_items(s) + seq![','] + ser_json(x) =~= ser_json(s[0]) + seq![','] + (
            ser_items(s.drop_first()) + seq![','] + ser_json(x)));
        }
    }
}

/// Serializing one more member appends a comma and its text.
proof fn lemma_ser_members_snoc(s: Seq<(Seq<char>, JsonV)>, x: (Seq<char>, JsonV))
    ensures
        s.len() == 0 ==> ser_members(s.push(x)) == ser_member(x),
        s.len() > 0 ==> ser_members(s.push(x)) == ser_members(s) + seq![','] + ser_member(x),
    decreases s.len(),
{
    if s.len() == 0 {
        assert(s.push(x)[0] == x);
    } else {
        lemma_ser_members_snoc(s.drop_first(), x);
        assert(s.push(x).drop_first() =~= s.drop_first().push(x));
        assert(s.push(x)[0] == s[0]);
        if s.len() == 1 {
        } else {
            assert(ser_members(s) + seq![','] + ser_member(x) =~= ser_member(s[0]) + seq![','] + (
            ser_members(s.drop_first()) + seq![','] + ser_member(x)));
        }
    }
}

/// Writes the lower-case hexadecimal digit of a value below sixteen.
fn push_hex_digit(out: &mut Vec<char>, d: u32)
    requires
        d < 16,
    ensures
        final(out)@ == old(out)@ + seq![hex_digit(d as int)],
{
    let c: char = if d < 10 {
        (48 + d as u8) as char
    } else {
        (87 + d as u8) as char
    };
    out.push(c);
    assert(out@ =~= old(out)@ + seq![hex_digit(d as int)]);
}

/// Appends the escape of one string character.
fn push_escaped(out: &mut Vec<char>, c: char)
    ensures
        final(out)@ == old(out)@ + esc_char(c),
{
    if c == '"' {
        out.push('\\');
        out.push('"');
        assert(out@ =~= old(out)@ + esc_char(c));
    } else if c == '\\' {
        out.push('\\');
        out.push('\\');
        assert(out@ =~= old(out)@ + esc_char(c));
    } else if c == '\n' {
        out.push('\\');
        out.push('n');
        assert(out@ =~= old(out)@ + esc_char(c));
    } else if c == '\r' {
        out.push('\\');
        out.push('r');
        assert(out@ =~= old(out)@ + esc_char(c));
    } else if c == '\t' {
        out.push('\\');
        out.push('t');
        assert(out@ =~= old(out)@ + esc_char(c));
    } else if (c as u32) < 0x20 {
        out.push('\\');
        out.push('u');
        out.push('0');
        out.push('0');
        let u = c as u32;
        push_hex_digit(out, u / 16);
        push_hex_digit(out, u % 16);
        assert(out@ =~= old(out)@ + esc_char(c));
    } else {
        out.push(c);
        assert(out@ =~= old(out)@ + esc_char(c));
    }
}

/// Appends the serialization of a string, quotes included.
fn write_string(out: &mut Vec<char>, s: &[char])
    ensures
        final(out)@ == old(out)@ + ser_string(s@),
{
    out.push('"');
    let ghost base = out@;
    let mut i: usize = 0;
    while i < s.len()
        invariant
            i <= s@.len(),
            out@ == base + ser_str_body(s@.take(i as int)),
        decreases s@.len() - i,
    {
        push_escaped(out, s[i]);
        proof {
            lemma_ser_str_body_snoc(s@.take(i as int), s@[i as int]);
            assert(s@.take(i as int).push(s@[i as int]) =~= s@.take(i as int + 1));
        }
        i += 1;
    }
    out.push('"');
    proof {
        assert(s@.take(i as int) =~= s@);
        assert(out@ =~= old(out)@ + ser_string(s@));
    }
}

/// Serializing one more character appends its escape.
proof fn lemma_ser_str_body_snoc(s: Seq<char>, c: char)
    ensures
        ser_str_body(s.push(c)) == ser_str_body(s) + esc_char(c),
    decreases s.len(),
{
    reveal_with_fuel(ser_str_body, 3);
    if s.len() == 0 {
        assert(s.push(c)[0] == c);
        assert(s.push(c).drop_first() =~= Seq::<char>::empty());
        assert(ser_str_body(s.push(c)) =~= esc_char(c));
        assert(ser_str_body(s) + esc_char(c) =~= esc_char(c));
    } else {
        lemma_ser_str_body_snoc(s.drop_first(), c);
        assert(s.push(c).drop_first() =~= s.drop_first().push(c));
        assert(s.push(c)[0] == s[0]);
        assert(ser_str_body(s) + esc_char(c) =~= esc_char(s[0]) + (ser_str_body(s.drop_first())
            + esc_char(c)));
    }
}

/// Appends the compact serialization of the value.
#[verifier::loop_isolation(false)]
pub fn write_json(v: &Json, out: &mut Vec<char>)
    ensures
        final(out)@ == old(out)@ + ser_json(v@),
    decreases *v,
{
    match v {
        Json::Null => {
            proof {
                reveal_strlit("null");
            }
            push_str_chars(out, "null");
            assert(out@ =~= old(out)@ + ser_json(v@));
        },
        Json::Bool(b) => {
            if *b {
                proof {
                    reveal_strlit("true");
                }
                push_str_chars(out, "true");
            } else {
                proof {
                    reveal_strlit("false");
                }
                push_str_chars(out, "false");
            }
            assert(out@ =~= old(out)@ + ser_json(v@));
        },
        Json::Num(s) => {
            crate::strutil::push_chars(out, s.as_slice());
            assert(out@ =~= old(out)@ + ser_json(v@));
        },
        Json::Str(s) => {
            write_string(out, s.as_slice());
        },
        Json::Arr(items) => {
            out.push('[');
            let ghost base = out@;
            let ghost iv = json_view_seq(items@);
            proof {
                lemma_json_view_seq(items@);
            }
            let mut k: usize = 0;
            while k < items.len()
                invariant
                    k <= items@.len(),
                    iv == json_view_seq(items@),
                    iv.len() == items@.len(),
                    forall|i: int| 0 <= i < items@.len() ==> iv[i] == json_view(items@[i]),
                    out@ == base + ser_items(iv.take(k as int)),
                decreases items@.len() - k,
            {
                if k > 0 {
                    out.push(',');
                }
                proof {
                    broadcast use vstd::std_specs::vec::group_vec_axioms;

                    let jj = *v;
                    assert(jj->Arr_0 == *items);
                    assert(decreases_to!(jj => jj->Arr_0));
                    assert(decreases_to!(jj->Arr_0 => jj->Arr_0@));
                    assert(decreases_to!(jj->Arr_0@ => jj->Arr_0@[k as int]));
                    assert(decreases_to!(*v => items@[k as int]));
                }
                write_json(&items[k], out);
                proof {
                    lemma_ser_items_snoc(iv.take(k as int), iv[k as int]);
                    assert(iv.take(k as int).push(iv[k as int]) =~= iv.take(k as int + 1));
                    assert(out@ =~= base + ser_items(iv.take(k as int + 1)));
                }
                k += 1;
            }
            out.push(']');
            proof {
                assert(iv.take(k as int) =~= iv);
                assert(out@ =~= old(out)@ + ser_json(v@));
            }
        },
        Json::Obj(members) => {
            out.push('{');
            let ghost base = out@;
            let ghost mv = json_view_members(members@);
            proof {
                lemma_json_view_members(members@);
            }
            let mut k: usize = 0;
            while k < members.len()
                invariant
                    k <= members@.len(),
                    mv == json_view_members(members@),
                    mv.len() == members@.len(),
                    forall|i: int|
                        0 <= i < members@.len() ==> mv[i] == (
                            members@[i].0@,
                            json_view(members@[i].1),
                        ),
                    out@ == base + ser_members(mv.take(k as int)),
                decreases members@.len() - k,
            {
                if k > 0 {
                    out.push(',');
                }
                write_string(out, members[k].0.as_slice());
                out.push(':');
                proof {
                    broadcast use vstd::std_specs::vec::group_vec_axioms;

                    let jj = *v;
                    assert(jj->Obj_0 == *members);
                    assert(decreases_to!(jj => jj->Obj_0));
                    assert(decreases_to!(jj->Obj_0 => jj->Obj_0@));
                    assert(decreases_to!(jj->Obj_0@ => jj->Obj_0@[k as int]));
                    assert(decreases_to!(jj->Obj_0@[k as int] => jj->Obj_0@[k as int].1));
                    assert(decreases_to!(*v => members@[k as int].1));
                }
                write_json(&members[k].1, out);
                proof {
                    lemma_ser_members_snoc(mv.take(k as int), mv[k as int]);
                    assert(mv.take(k as int).push(mv[k as int]) =~= mv.take(k as int + 1));
                    assert(out@ =~= base + ser_members(mv.take(k as int + 1)));
                }
                k += 1;
            }
            out.push('}');
            proof {
                assert(mv.take(k as int) =~= mv);
                assert(out@ =~= old(out)@ + ser_json(v@));
            }
        },
    }
}

/// The compact serialized text of the value.
pub fn to_chars(v: &Json) -> (r: Vec<char>)
    ensures
        r@ == ser_json(v@),
{
    let mut out: Vec<char> = Vec::new();
    write_json(v, &mut out);
    assert(out@ =~= ser_json(v@));
    out
}

// ---------------------------------------------------------------------------
// Parser, specification level. The value grammar is mutually recursive, so
// the three value-level functions take a fuel bound; string, number and
// whitespace scanning recurse on the input directly.
// ---------------------------------------------------------------------------

/// The input with its leading whitespace removed.
pub open spec fn spec_skip_ws(s: Seq<char>) -> Seq<char>
    decreases s.len(),
{
    if s.len() > 0 && is_ws(s[0]) {
        spec_skip_ws(s.drop_first())
    } else {
        s
    }
}

pub open spec fn is_hex(c: char) -> bool {
    is_digit(c) || ('a' <= c && c <= 'f') || ('A' <= c && c <= 'F')
}

/// The value of one hexadecimal digit.
pub open spec fn hex_val(c: char) -> int {
    if is_digit(c) {
        c as int - 48
    } else if 'a' <= c && c <= 'f' {
        c as int - 87
    } else {
        c as int - 55
    }
}

/// The value of four hexadecimal digits.
pub open spec fn hex4(a: char, b: char, c: char, d: char) -> int {
    hex_val(a) * 4096 + hex_val(b) * 256 + hex_val(c) * 16 + hex_val(d)
}

/// The character a single-letter escape stands for.
pub open spec fn unescape_simple(c: char) -> Option<char> {
    if c == '"' {
        Some('"')
    } else if c == '\\' {
        Some('\\')
    } else if c == '/' {
        Some('/')
    } else if c == 'b' {
        Some('\u{0008}')
    } else if c == 'f' {
        Some('\u{000C}')
    } else if c == 'n' {
        Some('\n')
    } else if c == 'r' {
        Some('\r')
    } else if c == 't' {
        Some('\t')
    } else {
        None
    }
}

/// Parses the remainder of a string after its opening quote: the decoded
/// characters and the input after the closing quote. Escapes cover the
/// single-letter forms and `u` followed by four hexadecimal digits, with a
/// surrogate pair decoding to one character; an unescaped control character,
/// a lone surrogate or a missing close fails.
pub open spec fn spec_parse_string_body(s: Seq<char>) -> Option<(Seq<char>, Seq<char>)>
    decreases s.len(),
{
    if s.len() == 0 {
        None
    } else if s[0] == '"' {
        Some((Seq::empty(), s.drop_first()))
    } else if s[0] == '\\' {
        if s.len() < 2 {
            None
        } else if s[1] == 'u' {
            if s.len() < 6 || !(is_hex(s[2]) && is_hex(s[3]) && is_hex(s[4]) && is_hex(s[5])) {
                None
            } else {
                let cu = hex4(s[2], s[3], s[4], s[5]);
                if 0xD800 <= cu < 0xDC00 {
                    if s.len() < 12 || !(s[6] == '\\' && s[7] == 'u' && is_hex(s[8]) && is_hex(s[9])
                        && is_hex(s[10]) && is_hex(s[11])) {
                        None
                    } else {
                        let cl = hex4(s[8], s[9], s[10], s[11]);
                        if 0xDC00 <= cl < 0xE000 {
                            let code = 0x10000 + (cu - 0xD800) * 0x400 + (cl - 0xDC00);
                            match spec_parse_string_body(s.skip(12)) {
                                Some((t, r)) => Some((seq![code as char] + t, r)),
                                None => None,
                            }
                        } else {
                            None
                        }
                    }
                } else if 0xDC00 <= cu < 0xE000 {
                    None
                } else {
                    match spec_parse_string_body(s.skip(6)) {
                        Some((t, r)) => Some((seq![cu as char] + t, r)),
                        None => None,
                    }
                }
            }
        } else {
            match unescape_simple(s[1]) {
                None => None,
                Some(c) => match spec_parse_string_body(s.skip(2)) {
                    Some((t, r)) => Some((seq![c] + t, r)),
                    None => None,
                },
            }
        }
    } else if (s[0] as u32) < 0x20 {
        None
    } else {
        match spec_parse_string_body(s.drop_first()) {
            Some((t, r)) => Some((seq![s[0]] + t, r)),
            None => None,
        }
    }
}

/// The longest prefix of number characters, and the rest.
pub open spec fn spec_scan_num(s: Seq<char>) -> (Seq<char>, Seq<char>)
    decreases s.len(),
{
    if s.len() > 0 && is_num_char(s[0]) {
        let (l, r) = spec_scan_num(s.drop_first());
        (seq![s[0]] + l, r)
    } else {
        (Seq::empty(), s)
    }
}

/// Parses one JSON value and returns the input after it. Leading whitespace
/// is skipped; trailing input is left in place.
pub open spec fn spec_parse_value(s: Seq<char>, fuel: nat) -> Option<(JsonV, Seq<char>)>
    decreases fuel,
{
    if fuel == 0 {
        None
    } else {
        let t = spec_skip_ws(s);
        if t.len() == 0 {
            None
        } else if t[0] == 'n' {
            if t.len() >= 4 && t[1] == 'u' && t[2] == 'l' && t[3] == 'l' {
                Some((JsonV::Null, t.skip(4)))
            } else {
                None
            }
        } else if t[0] == 't' {
            if t.len() >= 4 && t[1] == 'r' && t[2] == 'u' && t[3] == 'e' {
                Some((JsonV::Bool(true), t.skip(4)))
            } else {
                None
            }
        } else if t[0] == 'f' {
            if t.len() >= 5 && t[1] == 'a' && t[2] == 'l' && t[3] == 's' && t[4] == 'e' {
                Some((JsonV::Bool(false), t.skip(5)))
            } else {
                None
            }
        } else if t[0] == '"' {
            match spec_parse_string_body(t.drop_first()) {
                Some((cs, r)) => Some((JsonV::Str(cs), r)),
                None => None,
            }
        } else if t[0] == '[' {
            let t1 = spec_skip_ws(t.drop_first());
            if t1.len() > 0 && t1[0] == ']' {
                Some((JsonV::Arr(Seq::empty()), t1.drop_first()))
            } else {
                match spec_parse_items(t1, (fuel - 1) as nat) {
                    Some((items, r)) => Some((JsonV::Arr(items), r)),
                    None => None,
                }
            }
        } else if t[0] == '{' {
            let t1 = spec_skip_ws(t.drop_first());
            if t1.len() > 0 && t1[0] == '}' {
                Some((JsonV::Obj(Seq::empty()), t1.drop_first()))
            } else {
                match spec_parse_members(t1, (fuel - 1) as nat) {
                    Some((ms, r)) => Some((JsonV::Obj(ms), r)),
                    None => None,
                }
            }
        } else if t[0] == '-' || is_digit(t[0]) {
            let (lex, r) = spec_scan_num(t);
            Some((JsonV::Num(lex), r))
        } else {
            None
        }
    }
}

/// Parses the items of a non-empty array after its opening bracket, through
/// the closing bracket.
pub open spec fn spec_parse_items(s: Seq<char>, fuel: nat) -> Option<(Seq<JsonV>, Seq<char>)>
    decreases fuel,
{
    if fuel == 0 {
        None
    } else {
        match spec_parse_value(s, (fuel - 1) as nat) {
            None => None,
            Some((v, r)) => {
                let r1 = spec_skip_ws(r);
                if r1.len() == 0 {
                    None
                } else if r1[0] == ',' {
                    match spec_parse_items(r1.drop_first(), (fuel - 1) as nat) {
                        Some((vs, r2)) => Some((seq![v] + vs, r2)),
                        None => None,
                    }
                } else if r1[0] == ']' {
                    Some((seq![v], r1.drop_first()))
                } else {
                    None
                }
            },
        }
    }
}

/// Parses the members of a non-empty object after its opening brace, through
/// the closing brace.
pub open spec fn spec_parse_members(s: Seq<char>, fuel: nat) -> Option<
    (Seq<(Seq<char>, JsonV)>, Seq<char>),
>
    decreases fuel,
{
    if fuel == 0 {
        None
    } else {
        let t = spec_skip_ws(s);
        if t.len() == 0 || t[0] != '"' {
            None
        } else {
            match spec_parse_string_body(t.drop_first()) {
                None => None,
                Some((key, r)) => {
                    let r1 = spec_skip_ws(r);
                    if r1.len() == 0 || r1[0] != ':' {
                        None
                    } else {
                        match spec_parse_value(r1.drop_first(), (fuel - 1) as nat) {
                            None => None,
                            Some((v, r2)) => {
                                let r3 = spec_skip_ws(r2);
                                if r3.len() == 0 {
                                    None
                                } else if r3[0] == ',' {
                                    match spec_parse_members(r3.drop_first(), (fuel - 1) as nat) {
                                        Some((ms, r4)) => Some((seq![(key, v)] + ms, r4)),
                                        None => None,
                                    }
                                } else if r3[0] == '}' {
                                    Some((seq![(key, v)], r3.drop_first()))
                                } else {
                                    None
                                }
                            },
                        }
                    }
                },
            }
        }
    }
}

/// Parses a whole document: one value with nothing but whitespace after it.
pub open spec fn spec_parse_json(s: Seq<char>) -> Option<JsonV> {
    match spec_parse_value(s, 2 * s.len() + 3) {
        Some((v, r)) => if spec_skip_ws(r).len() == 0 {
            Some(v)
        } else {
            None
        },
        None => None,
    }
}

// ---------------------------------------------------------------------------
// Parser, executable level. Each function mirrors its specification.
// ---------------------------------------------------------------------------

fn is_ws_exec(c: char) -> (r: bool)
    ensures
        r == is_ws(c),
{
    c == ' ' || c == '\n' || c == '\t' || c == '\r'
}

fn is_digit_exec(c: char) -> (r: bool)
    ensures
        r == is_digit(c),
{
    '0' <= c && c <= '9'
}

fn is_num_char_exec(c: char) -> (r: bool)
    ensures
        r == is_num_char(c),
{
    is_digit_exec(c) || c == '-' || c == '+' || c == '.' || c == 'e' || c == 'E'
}

fn is_hex_exec(c: char) -> (r: bool)
    ensures
        r == is_hex(c),
{
    is_digit_exec(c) || ('a' <= c && c <= 'f') || ('A' <= c && c <= 'F')
}

fn hex_val_exec(c: char) -> (r: u32)
    requires
        is_hex(c),
    ensures
        r == hex_val(c),
        r < 16,
{
    if '0' <= c && c <= '9' {
        c as u32 - 48
    } else if 'a' <= c && c <= 'f' {
        c as u32 - 87
    } else {
        c as u32 - 55
    }
}

/// Relies on `char::from_u32`: it returns the character with the given code
/// exactly for Unicode scalar values, and nothing otherwise.
#[verifier::external_body]
fn char_from_u32(u: u32) -> (r: Option<char>)
    ensures
        r == (if u < 0xD800 || (0xE000 <= u && u <= 0x10FFFF) {
            Some(u as char)
        } else {
            None::<char>
        }),
{
    char::from_u32(u)
}

/// Returns the input after its leading whitespace.
fn skip_ws(s: &[char]) -> (r: &[char])
    ensures
        r@ == spec_skip_ws(s@),
        r@.len() <= s@.len(),
{
    let mut i: usize = 0;
    proof {
        assert(s@.skip(0) =~= s@);
    }
    while i < s.len() && is_ws_exec(s[i])
        invariant
            i <= s@.len(),
            spec_skip_ws(s@) == spec_skip_ws(s@.skip(i as int)),
        decreases s@.len() - i,
    {
        proof {
            assert(s@.skip(i as int)[0] == s@[i as int]);
            assert(s@.skip(i as int).drop_first() =~= s@.skip(i as int + 1));
        }
        i += 1;
    }
    let r: &[char] = &s[i..s.len()];
    proof {
        assert(r@ =~= s@.skip(i as int));
    }
    r
}

/// Copies a range of the slice.
fn vec_from_range(s: &[char], from: usize, to: usize) -> (r: Vec<char>)
    requires
        from <= to <= s@.len(),
    ensures
        r@ == s@.subrange(from as int, to as int),
{
    let mut r: Vec<char> = Vec::new();
    let mut i: usize = from;
    while i < to
        invariant
            from <= i <= to <= s@.len(),
            r@ == s@.subrange(from as int, i as int),
        decreases to - i,
    {
        r.push(s[i]);
        i += 1;
        assert(r@ =~= s@.subrange(from as int, i as int));
    }
    r
}

/// Parses the remainder of a string after its opening quote.
#[verifier::loop_isolation(false)]
#[verifier::rlimit(100)]
fn parse_string_body(s: &[char]) -> (r: Option<(Vec<char>, &[char])>)
    ensures
        r is Some ==> (r->0).1@.len() < s@.len(),
        (match spec_parse_string_body(s@) {
            Some((t, rem)) => r is Some && (r->0).0@ == t && (r->0).1@ == rem,
            None => r is None,
        }),
{
    let mut acc: Vec<char> = Vec::new();
    let mut i: usize = 0;
    proof {
        assert(s@.skip(0) =~= s@);
    }
    loop
        invariant
            i <= s@.len(),
            (match spec_parse_string_body(s@.skip(i as int)) {
                Some((t, rem)) => spec_parse_string_body(s@) == Some((acc@ + t, rem)),
                None => spec_parse_string_body(s@) is None,
            }),
        decreases s@.len() - i,
    {
        let ghost cur = s@.skip(i as int);
        if i >= s.len() {
            return None;
        }
        let c = s[i];
        proof {
            assert(cur[0] == s@[i as int]);
            assert(cur.drop_first() =~= s@.skip(i as int + 1));
        }
        if c == '"' {
            let rest: &[char] = &s[i + 1..s.len()];
            proof {
                assert(rest@ =~= s@.skip(i as int + 1));
                assert(acc@ + Seq::<char>::empty() =~= acc@);
            }
            return Some((acc, rest));
        } else if c == '\\' {
            if s.len() - i < 2 {
                proof {
                    assert(cur.len() < 2);
                }
                return None;
            }
            let e = s[i + 1];
            proof {
                assert(cur[1] == s@[i as int + 1]);
            }
            if e == 'u' {
                if s.len() - i < 6 {
                    return None;
                }
                proof {
                    assert(cur[2] == s@[i as int + 2]);
                    assert(cur[3] == s@[i as int + 3]);
                    assert(cur[4] == s@[i as int + 4]);
                    assert(cur[5] == s@[i as int + 5]);
                }
                if !(is_hex_exec(s[i + 2]) && is_hex_exec(s[i + 3]) && is_hex_exec(s[i + 4])
                    && is_hex_exec(s[i + 5])) {
                    return None;
                }
                let cu: u32 = hex_val_exec(s[i + 2]) * 4096 + hex_val_exec(s[i + 3]) * 256
                    + hex_val_exec(s[i + 4]) * 16 + hex_val_exec(s[i + 5]);
                if 0xD800 <= cu && cu < 0xDC00 {
                    if s.len() - i < 12 {
                        return None;
                    }
                    proof {
                        assert(cur[6] == s@[i as int + 6]);
                        assert(cur[7] == s@[i as int + 7]);
                        assert(cur[8] == s@[i as int + 8]);
                        assert(cur[9] == s@[i as int + 9]);
                        assert(cur[10] == s@[i as int + 10]);
                        assert(cur[11] == s@[i as int + 11]);
                    }
                    if !(s[i + 6] == '\\' && s[i + 7] == 'u' && is_hex_exec(s[i + 8]) && is_hex_exec(
                        s[i + 9],
                    ) && is_hex_exec(s[i + 10]) && is_hex_exec(s[i + 11])) {
                        return None;
                    }
                    let cl: u32 = hex_val_exec(s[i + 8]) * 4096 + hex_val_exec(s[i + 9]) * 256
                        + hex_val_exec(s[i + 10]) * 16 + hex_val_exec(s[i + 11]);
                    if !(0xDC00 <= cl && cl < 0xE000) {
                        return None;
                    }
                    let code: u32 = 0x10000 + (cu - 0xD800) * 0x400 + (cl - 0xDC00);
                    match char_from_u32(code) {
                        Some(ch) => {
                            acc.push(ch);
                            proof {
                                assert(cur.skip(12) =~= s@.skip(i as int + 12));
                            }
                            i += 12;
                        },
                        None => {
                            proof {
                                assert(false);
                            }
                        },
                    }
                } else if 0xDC00 <= cu && cu < 0xE000 {
                    return None;
                } else {
                    match char_from_u32(cu) {
                        Some(ch) => {
                            acc.push(ch);
                            proof {
                                assert(cur.skip(6) =~= s@.skip(i as int + 6));
                            }
                            i += 6;
                        },
                        None => {
                            proof {
                                assert(false);
                            }
                        },
                    }
                }
            } else {
                let dec: Option<char> = if e == '"' {
                    Some('"')
                } else if e == '\\' {
                    Some('\\')
                } else if e == '/' {
                    Some('/')
                } else if e == 'b' {
                    Some('\u{0008}')
                } else if e == 'f' {
                    Some('\u{000C}')
                } else if e == 'n' {
                    Some('\n')
                } else if e == 'r' {
                    Some('\r')
                } else if e == 't' {
                    Some('\t')
                } else {
                    None
                };
                assert(dec == unescape_simple(e));
                match dec {
                    Some(ch) => {
                        acc.push(ch);
                        proof {
                            assert(cur.skip(2) =~= s@.skip(i as int + 2));
                        }
                        i += 2;
                    },
                    None => {
                        return None;
                    },
                }
            }
        } else if (c as u32) < 0x20 {
            return None;
        } else {
            acc.push(c);
            i += 1;
        }
    }
}

/// Scans the longest prefix of number characters.
fn scan_num(s: &[char]) -> (r: (Vec<char>, &[char]))
    ensures
        r.0@ == spec_scan_num(s@).0,
        r.1@ == spec_scan_num(s@).1,
        r.0@.len() + r.1@.len() == s@.len(),
{
    let mut i: usize = 0;
    proof {
        assert(s@.skip(0) =~= s@);
    }
    while i < s.len() && is_num_char_exec(s[i])
        invariant
            i <= s@.len(),
            forall|k: int| 0 <= k < i ==> is_num_char(#[trigger] s@[k]),
            spec_scan_num(s@) == (s@.subrange(0, i as int) + spec_scan_num(s@.skip(i as int)).0,
            spec_scan_num(s@.skip(i as int)).1),
        decreases s@.len() - i,
    {
        proof {
            assert(s@.skip(i as int)[0] == s@[i as int]);
            assert(s@.skip(i as int).drop_first() =~= s@.skip(i as int + 1));
            assert(s@.subrange(0, i as int) + seq![s@[i as int]] =~= s@.subrange(0, i as int + 1));
            assert(s@.subrange(0, i as int) + (seq![s@[i as int]] + spec_scan_num(
                s@.skip(i as int + 1),
            ).0) =~= s@.subrange(0, i as int + 1) + spec_scan_num(s@.skip(i as int + 1)).0);
        }
        i += 1;
    }
    let lex = vec_from_range(s, 0, i);
    let rest: &[char] = &s[i..s.len()];
    proof {
        assert(rest@ =~= s@.skip(i as int));
        assert(s@.subrange(0, i as int) + Seq::<char>::empty() =~= s@.subrange(0, i as int));
    }
    (lex, rest)
}

/// Parses one JSON value; the contract matches `spec_parse_value` at every
/// sufficient fuel.
#[verifier::rlimit(100)]
pub fn parse_value(s: &[char]) -> (r: Option<(Json, &[char])>)
    ensures
        r is Some ==> (r->0).1@.len() < s@.len(),
        forall|fuel: nat|
            fuel > 2 * s@.len() + 1 ==> #[trigger] spec_parse_value(s@, fuel) == (match r {
                Some((j, rem)) => Some((j@, rem@)),
                None => None,
            }),
    decreases s@.len(), 0nat,
{
    let t = skip_ws(s);
    if t.len() == 0 {
        return None;
    }
    let c = t[0];
    if c == 'n' {
        if t.len() >= 4 && t[1] == 'u' && t[2] == 'l' && t[3] == 'l' {
            let rest: &[char] = &t[4..t.len()];
            proof {
                assert(rest@ =~= t@.skip(4));
            }
            Some((Json::Null, rest))
        } else {
            None
        }
    } else if c == 't' {
        if t.len() >= 4 && t[1] == 'r' && t[2] == 'u' && t[3] == 'e' {
            let rest: &[char] = &t[4..t.len()];
            proof {
                assert(rest@ =~= t@.skip(4));
            }
            Some((Json::Bool(true), rest))
        } else {
            None
        }
    } else if c == 'f' {
        if t.len() >= 5 && t[1] == 'a' && t[2] == 'l' && t[3] == 's' && t[4] == 'e' {
            let rest: &[char] = &t[5..t.len()];
            proof {
                assert(rest@ =~= t@.skip(5));
            }
            Some((Json::Bool(false), rest))
        } else {
            None
        }
    } else if c == '"' {
        let tt: &[char] = &t[1..t.len()];
        proof {
            assert(tt@ =~= t@.drop_first());
        }
        match parse_string_body(tt) {
            Some((cs, rem)) => Some((Json::Str(cs), rem)),
            None => None,
        }
    } else if c == '[' {
        let tt: &[char] = &t[1..t.len()];
        proof {
            assert(tt@ =~= t@.drop_first());
        }
        let t1 = skip_ws(tt);
        if t1.len() > 0 && t1[0] == ']' {
            let rest: &[char] = &t1[1..t1.len()];
            proof {
                assert(rest@ =~= t1@.drop_first());
                assert(json_view_seq(Seq::<Json>::empty()) =~= Seq::<JsonV>::empty());
            }
            Some((Json::Arr(Vec::new()), rest))
        } else {
            match parse_items(t1) {
                Some((items, rem)) => {
                    proof {
                        assert forall|fuel: nat| fuel > 2 * s@.len() + 1 implies #[trigger] spec_parse_value(
                            s@,
                            fuel,
                        ) == Some((JsonV::Arr(json_view_seq(items@)), rem@)) by {
                            assert((fuel - 1) as nat > 2 * t1@.len() + 2);
                            assert(spec_parse_items(t1@, (fuel - 1) as nat) == Some(
                                (json_view_seq(items@), rem@),
                            ));
                        }
                    }
                    Some((Json::Arr(items), rem))
                },
                None => {
                    proof {
                        assert forall|fuel: nat| fuel > 2 * s@.len() + 1 implies #[trigger] spec_parse_value(
                            s@,
                            fuel,
                        ) == None::<(JsonV, Seq<char>)> by {
                            assert((fuel - 1) as nat > 2 * t1@.len() + 2);
                            assert(spec_parse_items(t1@, (fuel - 1) as nat) == None::<
                                (Seq<JsonV>, Seq<char>),
                            >);
                        }
                    }
                    None
                },
            }
        }
    } else if c == '{' {
        let tt: &[char] = &t[1..t.len()];
        proof {
            assert(tt@ =~= t@.drop_first());
        }
        let t1 = skip_ws(tt);
        if t1.len() > 0 && t1[0] == '}' {
            let rest: &[char] = &t1[1..t1.len()];
            proof {
                assert(rest@ =~= t1@.drop_first());
                assert(json_view_members(Seq::<(Vec<char>, Json)>::empty())
                    =~= Seq::<(Seq<char>, JsonV)>::empty());
            }
            Some((Json::Obj(Vec::new()), rest))
        } else {
            match parse_members(t1) {
                Some((ms, rem)) => {
                    proof {
                        assert forall|fuel: nat| fuel > 2 * s@.len() + 1 implies #[trigger] spec_parse_value(
                            s@,
                            fuel,
                        ) == Some((JsonV::Obj(json_view_members(ms@)), rem@)) by {
                            assert((fuel - 1) as nat > 2 * t1@.len() + 2);
                            assert(spec_parse_members(t1@, (fuel - 1) as nat) == Some(
                                (json_view_members(ms@), rem@),
                            ));
                        }
                    }
                    Some((Json::Obj(ms), rem))
                },
                None => {
                    proof {
                        assert forall|fuel: nat| fuel > 2 * s@.len() + 1 implies #[trigger] spec_parse_value(
                            s@,
                            fuel,
                        ) == None::<(JsonV, Seq<char>)> by {
                            assert((fuel - 1) as nat > 2 * t1@.len() + 2);
                            assert(spec_parse_members(t1@, (fuel - 1) as nat) == None::<
                                (Seq<(Seq<char>, JsonV)>, Seq<char>),
                            >);
                        }
                    }
                    None
                },
            }
        }
    } else if c == '-' || is_digit_exec(c) {
        let (lex, rest) = scan_num(t);
        proof {
            assert(spec_scan_num(t@).0.len() > 0);
        }
        Some((Json::Num(lex), rest))
    } else {
        None
    }
}

/// Parses the items of a non-empty array through the closing bracket.
#[verifier::rlimit(100)]
fn parse_items(s: &[char]) -> (r: Option<(Vec<Json>, &[char])>)
    ensures
        r is Some ==> (r->0).1@.len() < s@.len(),
        forall|fuel: nat|
            fuel > 2 * s@.len() + 2 ==> #[trigger] spec_parse_items(s@, fuel) == (match r {
                Some((vs, rem)) => Some((json_view_seq(vs@), rem@)),
                None => None,
            }),
    decreases s@.len(), 1nat,
{
    match parse_value(s) {
        None => {
            proof {
                assert forall|fuel: nat| fuel > 2 * s@.len() + 2 implies #[trigger] spec_parse_items(
                    s@,
                    fuel,
                ) == None::<(Seq<JsonV>, Seq<char>)> by {
                    assert((fuel - 1) as nat > 2 * s@.len() + 1);
                    assert(spec_parse_value(s@, (fuel - 1) as nat) == None::<(JsonV, Seq<char>)>);
                }
            }
            None
        },
        Some((v, rest)) => {
            let r1 = skip_ws(rest);
            if r1.len() == 0 {
                proof {
                    assert forall|fuel: nat| fuel > 2 * s@.len() + 2 implies #[trigger] spec_parse_items(
                        s@,
                        fuel,
                    ) == None::<(Seq<JsonV>, Seq<char>)> by {
                        assert((fuel - 1) as nat > 2 * s@.len() + 1);
                        assert(spec_parse_value(s@, (fuel - 1) as nat) == Some((v@, rest@)));
                    }
                }
                None
            } else if r1[0] == ',' {
                let rr: &[char] = &r1[1..r1.len()];
                proof {
                    assert(rr@ =~= r1@.drop_first());
                }
                match parse_items(rr) {
                    Some((mut vs, rem)) => {
                        let ghost pre = vs@;
                        vs.insert(0, v);
                        proof {
                            assert(vs@ =~= seq![v] + pre);
                            assert(vs@.drop_first() =~= pre);
                            assert(json_view_seq(vs@) =~= seq![json_view(v)] + json_view_seq(pre));
                            assert forall|fuel: nat| fuel > 2 * s@.len() + 2 implies #[trigger] spec_parse_items(
                                s@,
                                fuel,
                            ) == Some((json_view_seq(vs@), rem@)) by {
                                assert((fuel - 1) as nat > 2 * s@.len() + 1);
                                assert(spec_parse_value(s@, (fuel - 1) as nat) == Some((v@, rest@)));
                                assert((fuel - 1) as nat > 2 * rr@.len() + 2);
                                assert(spec_parse_items(rr@, (fuel - 1) as nat) == Some(
                                    (json_view_seq(pre), rem@),
                                ));
                                assert(seq![v@] + json_view_seq(pre) =~= json_view_seq(vs@));
                            }
                        }
                        Some((vs, rem))
                    },
                    None => {
                        proof {
                            assert forall|fuel: nat| fuel > 2 * s@.len() + 2 implies #[trigger] spec_parse_items(
                                s@,
                                fuel,
                            ) == None::<(Seq<JsonV>, Seq<char>)> by {
                                assert((fuel - 1) as nat > 2 * s@.len() + 1);
                                assert(spec_parse_value(s@, (fuel - 1) as nat) == Some((v@, rest@)));
                                assert((fuel - 1) as nat > 2 * rr@.len() + 2);
                                assert(spec_parse_items(rr@, (fuel - 1) as nat) == None::<
                                    (Seq<JsonV>, Seq<char>),
                                >);
                            }
                        }
                        None
                    },
                }
            } else if r1[0] == ']' {
                let rem: &[char] = &r1[1..r1.len()];
                let mut vs: Vec<Json> = Vec::new();
                vs.push(v);
                proof {
                    reveal_with_fuel(json_view_seq, 2);
                    assert(rem@ =~= r1@.drop_first());
                    assert(vs@.drop_first() =~= Seq::<Json>::empty());
                    assert(json_view_seq(vs@) =~= seq![json_view(v)]);
                    assert forall|fuel: nat| fuel > 2 * s@.len() + 2 implies #[trigger] spec_parse_items(
                        s@,
                        fuel,
                    ) == Some((json_view_seq(vs@), rem@)) by {
                        assert((fuel - 1) as nat > 2 * s@.len() + 1);
                        assert(spec_parse_value(s@, (fuel - 1) as nat) == Some((v@, rest@)));
                        assert(seq![v@] =~= json_view_seq(vs@));
                    }
                }
                Some((vs, rem))
            } else {
                proof {
                    assert forall|fuel: nat| fuel > 2 * s@.len() + 2 implies #[trigger] spec_parse_items(
                        s@,
                        fuel,
                    ) == None::<(Seq<JsonV>, Seq<char>)> by {
                        assert((fuel - 1) as nat > 2 * s@.len() + 1);
                        assert(spec_parse_value(s@, (fuel - 1) as nat) == Some((v@, rest@)));
                    }
                }
                None
            }
        },
    }
}

/// Parses the members of a non-empty object through the closing brace.
#[verifier::rlimit(100)]
fn parse_members(s: &[char]) -> (r: Option<(Vec<(Vec<char>, Json)>, &[char])>)
    ensures
        r is Some ==> (r->0).1@.len() < s@.len(),
        forall|fuel: nat|
            fuel > 2 * s@.len() + 2 ==> #[trigger] spec_parse_members(s@, fuel) == (match r {
                Some((ms, rem)) => Some((json_view_members(ms@), rem@)),
                None => None,
            }),
    decreases s@.len(), 1nat,
{
    let t = skip_ws(s);
    if t.len() == 0 {
        return None;
    }
    if t[0] != '"' {
        return None;
    }
    let tt: &[char] = &t[1..t.len()];
    proof {
        assert(tt@ =~= t@.drop_first());
    }
    match parse_string_body(tt) {
        None => None,
        Some((key, rest)) => {
            let r1 = skip_ws(rest);
            if r1.len() == 0 {
                return None;
            }
            if r1[0] != ':' {
                return None;
            }
            let rr: &[char] = &r1[1..r1.len()];
            proof {
                assert(rr@ =~= r1@.drop_first());
            }
            match parse_value(rr) {
                None => {
                    proof {
                        assert forall|fuel: nat| fuel > 2 * s@.len() + 2 implies #[trigger] spec_parse_members(
                            s@,
                            fuel,
                        ) == None::<(Seq<(Seq<char>, JsonV)>, Seq<char>)> by {
                            assert((fuel - 1) as nat > 2 * rr@.len() + 1);
                            assert(spec_parse_value(rr@, (fuel - 1) as nat) == None::<
                                (JsonV, Seq<char>),
                            >);
                        }
                    }
                    None
                },
                Some((v, rest2)) => {
                    let r3 = skip_ws(rest2);
                    if r3.len() == 0 {
                        proof {
                            assert forall|fuel: nat| fuel > 2 * s@.len() + 2 implies #[trigger] spec_parse_members(
                                s@,
                                fuel,
                            ) == None::<(Seq<(Seq<char>, JsonV)>, Seq<char>)> by {
                                assert((fuel - 1) as nat > 2 * rr@.len() + 1);
                                assert(spec_parse_value(rr@, (fuel - 1) as nat) == Some(
                                    (v@, rest2@),
                                ));
                            }
                        }
                        None
                    } else if r3[0] == ',' {
                        let rm: &[char] = &r3[1..r3.len()];
                        proof {
                            assert(rm@ =~= r3@.drop_first());
                        }
                        match parse_members(rm) {
                            Some((mut ms, rem)) => {
                                let ghost pre = ms@;
                                ms.insert(0, (key, v));
                                proof {
                                    assert(ms@ =~= seq![(key, v)] + pre);
                                    assert(ms@.drop_first() =~= pre);
                                    assert(json_view_members(ms@) =~= seq![(key@, json_view(v))]
                                        + json_view_members(pre));
                                    assert forall|fuel: nat| fuel > 2 * s@.len() + 2 implies #[trigger] spec_parse_members(
                                        s@,
                                        fuel,
                                    ) == Some((json_view_members(ms@), rem@)) by {
                                        assert((fuel - 1) as nat > 2 * rr@.len() + 1);
                                        assert(spec_parse_value(rr@, (fuel - 1) as nat) == Some(
                                            (v@, rest2@),
                                        ));
                                        assert((fuel - 1) as nat > 2 * rm@.len() + 2);
                                        assert(spec_parse_members(rm@, (fuel - 1) as nat) == Some(
                                            (json_view_members(pre), rem@),
                                        ));
                                        assert(seq![(key@, v@)] + json_view_members(pre)
                                            =~= json_view_members(ms@));
                                    }
                                }
                                Some((ms, rem))
                            },
                            None => {
                                proof {
                                    assert forall|fuel: nat| fuel > 2 * s@.len() + 2 implies #[trigger] spec_parse_members(
                                        s@,
                                        fuel,
                                    ) == None::<(Seq<(Seq<char>, JsonV)>, Seq<char>)> by {
                                        assert((fuel - 1) as nat > 2 * rr@.len() + 1);
                                        assert(spec_parse_value(rr@, (fuel - 1) as nat) == Some(
                                            (v@, rest2@),
                                        ));
                                        assert((fuel - 1) as nat > 2 * rm@.len() + 2);
                                        assert(spec_parse_members(rm@, (fuel - 1) as nat) == None::<
                                            (Seq<(Seq<char>, JsonV)>, Seq<char>),
                                        >);
                                    }
                                }
                                None
                            },
                        }
                    } else if r3[0] == '}' {
                        let rem: &[char] = &r3[1..r3.len()];
                        let mut ms: Vec<(Vec<char>, Json)> = Vec::new();
                        ms.push((key, v));
                        proof {
                            reveal_with_fuel(json_view_members, 2);
                            assert(rem@ =~= r3@.drop_first());
                            assert(ms@.drop_first() =~= Seq::<(Vec<char>, Json)>::empty());
                            assert(json_view_members(ms@) =~= seq![(key@, json_view(v))]);
                            assert forall|fuel: nat| fuel > 2 * s@.len() + 2 implies #[trigger] spec_parse_members(
                                s@,
                                fuel,
                            ) == Some((json_view_members(ms@), rem@)) by {
                                assert((fuel - 1) as nat > 2 * rr@.len() + 1);
                                assert(spec_parse_value(rr@, (fuel - 1) as nat) == Some(
                                    (v@, rest2@),
                                ));
                                assert(seq![(key@, v@)] =~= json_view_members(ms@));
                            }
                        }
                        Some((ms, rem))
                    } else {
                        proof {
                            assert forall|fuel: nat| fuel > 2 * s@.len() + 2 implies #[trigger] spec_parse_members(
                                s@,
                                fuel,
                            ) == None::<(Seq<(Seq<char>, JsonV)>, Seq<char>)> by {
                                assert((fuel - 1) as nat > 2 * rr@.len() + 1);
                                assert(spec_parse_value(rr@, (fuel - 1) as nat) == Some(
                                    (v@, rest2@),
                                ));
                            }
                        }
                        None
                    }
                },
            }
        },
    }
}

// ---------------------------------------------------------------------------
// Round trip: parsing serialized output recovers the value.
// ---------------------------------------------------------------------------

/// Skipping whitespace does nothing when the input starts with none.
proof fn lemma_skip_ws_id(s: Seq<char>)
    requires
        s.len() == 0 || !is_ws(s[0]),
    ensures
        spec_skip_ws(s) == s,
{
}

/// The hexadecimal digit of a value reads back as that value.
proof fn lemma_hex_digit_val(v: int)
    requires
        0 <= v < 16,
    ensures
        is_hex(hex_digit(v)),
        hex_val(hex_digit(v)) == v,
        hex_digit(v) != '"',
        hex_digit(v) != '\\',
{
}

/// Parsing the serialization of a string body consumes it exactly, through
/// the closing quote, and recovers the characters.
proof fn lemma_parse_string_body_ser(cs: Seq<char>, rest: Seq<char>)
    ensures
        spec_parse_string_body(ser_str_body(cs) + seq!['"'] + rest) == Some((cs, rest)),
    decreases cs.len(),
{
    let u = ser_str_body(cs) + seq!['"'] + rest;
    if cs.len() == 0 {
        assert(u =~= seq!['"'] + rest);
        assert(u[0] == '"');
        assert(u.drop_first() =~= rest);
        assert(Seq::<char>::empty() =~= cs);
    } else {
        let c = cs[0];
        let e = esc_char(c);
        let tail = ser_str_body(cs.drop_first()) + seq!['"'] + rest;
        assert(u =~= e + tail);
        lemma_parse_string_body_ser(cs.drop_first(), rest);
        if c == '"' || c == '\\' || c == '\n' || c == '\r' || c == '\t' {
            assert(e.len() == 2);
            assert(u[0] == '\\');
            assert(u[1] == e[1]);
            assert(u.len() >= 2);
            assert(u[1] != 'u');
            assert(unescape_simple(u[1]) == Some(c));
            assert(u.skip(2) =~= tail);
            assert(seq![c] + cs.drop_first() =~= cs);
        } else if (c as u32) < 0x20 {
            assert(e.len() == 6);
            assert(u[0] == '\\');
            assert(u[1] == 'u');
            assert(u[2] == '0');
            assert(u[3] == '0');
            assert(u[4] == hex_digit(((c as u32) / 16) as int));
            assert(u[5] == hex_digit(((c as u32) % 16) as int));
            lemma_hex_digit_val(((c as u32) / 16) as int);
            lemma_hex_digit_val(((c as u32) % 16) as int);
            assert(is_hex('0')) by {
                assert(is_digit('0'));
            }
            assert(hex_val('0') == 0);
            let cu = hex4(u[2], u[3], u[4], u[5]);
            assert(cu == ((c as u32) / 16) as int * 16 + ((c as u32) % 16) as int);
            assert(cu == (c as u32) as int);
            assert(0 <= cu < 0x20);
            assert(cu as char == (c as u32) as char);
            vstd::utf8::char_u32_cast(c, c as u32);
            assert(cu as char == c);
            assert(u.skip(6) =~= tail);
            assert(seq![c] + cs.drop_first() =~= cs);
        } else {
            assert(e =~= seq![c]);
            assert(u[0] == c);
            assert(c != '"' && c != '\\');
            assert(!((c as u32) < 0x20));
            assert(u.drop_first() =~= tail);
            assert(seq![c] + cs.drop_first() =~= cs);
        }
    }
}

/// Scanning a number lexeme followed by a delimiter stops at the delimiter.
proof fn lemma_scan_num_exact(lex: Seq<char>, rest: Seq<char>)
    requires
        forall|i: int| 0 <= i < lex.len() ==> is_num_char(#[trigger] lex[i]),
        rest.len() == 0 || !is_num_char(rest[0]),
    ensures
        spec_scan_num(lex + rest) == (lex, rest),
    decreases lex.len(),
{
    let u = lex + rest;
    if lex.len() == 0 {
        assert(u =~= rest);
        assert(Seq::<char>::empty() =~= lex);
    } else {
        assert(u[0] == lex[0]);
        assert(u.drop_first() =~= lex.drop_first() + rest);
        lemma_scan_num_exact(lex.drop_first(), rest);
        assert(seq![lex[0]] + lex.drop_first() =~= lex);
    }
}

/// Every serialized value is non-empty and starts with one of the value
/// head characters, never whitespace and never a delimiter.
proof fn lemma_ser_head(v: JsonV)
    requires
        wf_json(v),
    ensures
        ser_json(v).len() >= 1,
        ser_json(v)[0] == 'n' || ser_json(v)[0] == 't' || ser_json(v)[0] == 'f' || ser_json(v)[0]
            == '"' || ser_json(v)[0] == '[' || ser_json(v)[0] == '{' || ser_json(v)[0] == '-'
            || is_digit(ser_json(v)[0]),
{
    match v {
        JsonV::Null => {},
        JsonV::Bool(b) => {},
        JsonV::Num(s) => {
            assert(ser_json(v)[0] == s[0]);
        },
        JsonV::Str(s) => {
            assert(ser_json(v)[0] == '"');
        },
        JsonV::Arr(items) => {
            assert(ser_json(v)[0] == '[');
        },
        JsonV::Obj(ms) => {
            assert(ser_json(v)[0] == '{');
        },
    }
}

/// Parsing the serialization of a well-formed value, before any suffix that
/// does not extend a trailing number, recovers the value exactly.
#[verifier::rlimit(100)]
proof fn lemma_parse_value_ser(v: JsonV, rest: Seq<char>, fuel: nat)
    requires
        wf_json(v),
        fuel > 2 * ser_json(v).len() + 1,
        rest.len() == 0 || !is_num_char(rest[0]),
    ensures
        spec_parse_value(ser_json(v) + rest, fuel) == Some((v, rest)),
    decreases v,
{
    let u = ser_json(v) + rest;
    lemma_ser_head(v);
    assert(u[0] == ser_json(v)[0]);
    lemma_skip_ws_id(u);
    match v {
        JsonV::Null => {
            assert(u.len() >= 4 && u[0] == 'n' && u[1] == 'u' && u[2] == 'l' && u[3] == 'l');
            assert(u.skip(4) =~= rest);
        },
        JsonV::Bool(b) => {
            if b {
                assert(u.len() >= 4 && u[0] == 't' && u[1] == 'r' && u[2] == 'u' && u[3] == 'e');
                assert(u.skip(4) =~= rest);
            } else {
                assert(u.len() >= 5 && u[0] == 'f' && u[1] == 'a' && u[2] == 'l' && u[3] == 's'
                    && u[4] == 'e');
                assert(u.skip(5) =~= rest);
            }
        },
        JsonV::Num(lex) => {
            assert(u[0] == lex[0]);
            lemma_scan_num_exact(lex, rest);
            assert(lex + rest =~= u);
        },
        JsonV::Str(cs) => {
            assert(u[0] == '"');
            assert(u =~= seq!['"'] + (ser_str_body(cs) + seq!['"'] + rest));
            assert(u.drop_first() =~= ser_str_body(cs) + seq!['"'] + rest);
            lemma_parse_string_body_ser(cs, rest);
        },
        JsonV::Arr(items) => {
            assert(u[0] == '[');
            if items.len() == 0 {
                assert(u.drop_first() =~= seq![']'] + rest);
                lemma_skip_ws_id(u.drop_first());
                assert(u.drop_first()[0] == ']');
                assert(u.drop_first().drop_first() =~= rest);
                assert(Seq::<JsonV>::empty() =~= items);
            } else {
                let inner = ser_items(items) + seq![']'] + rest;
                assert(u.drop_first() =~= inner);
                assert(wf_json(items[0]));
                lemma_ser_head(items[0]);
                assert(ser_items(items)[0] == ser_json(items[0])[0]);
                assert(inner[0] == ser_items(items)[0]);
                lemma_skip_ws_id(inner);
                assert(inner[0] != ']');
                lemma_parse_items_ser(items, rest, (fuel - 1) as nat);
            }
        },
        JsonV::Obj(ms) => {
            assert(u[0] == '{');
            if ms.len() == 0 {
                assert(u.drop_first() =~= seq!['}'] + rest);
                lemma_skip_ws_id(u.drop_first());
                assert(u.drop_first()[0] == '}');
                assert(u.drop_first().drop_first() =~= rest);
                assert(Seq::<(Seq<char>, JsonV)>::empty() =~= ms);
            } else {
                let inner = ser_members(ms) + seq!['}'] + rest;
                assert(u.drop_first() =~= inner);
                assert(ser_members(ms)[0] == ser_member(ms[0])[0]);
                assert(ser_member(ms[0])[0] == '"');
                assert(inner[0] == '"');
                lemma_skip_ws_id(inner);
                assert(inner[0] != '}');
                lemma_parse_members_ser(ms, rest, (fuel - 1) as nat);
            }
        },
    }
}

/// Parsing the serialization of one or more array items, followed by the
/// closing bracket, recovers the items exactly.
#[verifier::rlimit(100)]
proof fn lemma_parse_items_ser(items: Seq<JsonV>, rest: Seq<char>, fuel: nat)
    requires
        items.len() >= 1,
        forall|i: int| 0 <= i < items.len() ==> wf_json(#[trigger] items[i]),
        fuel > 2 * ser_items(items).len() + 4,
    ensures
        spec_parse_items(ser_items(items) + seq![']'] + rest, fuel) == Some((items, rest)),
    decreases items,
{
    let u = ser_items(items) + seq![']'] + rest;
    assert(wf_json(items[0]));
    lemma_ser_head(items[0]);
    if items.len() == 1 {
        let rest1 = seq![']'] + rest;
        assert(u =~= ser_json(items[0]) + rest1);
        lemma_parse_value_ser(items[0], rest1, (fuel - 1) as nat);
        assert(rest1[0] == ']');
        lemma_skip_ws_id(rest1);
        assert(rest1.drop_first() =~= rest);
        assert(seq![items[0]] =~= items);
    } else {
        let tail_items = items.drop_first();
        let rest1 = seq![','] + ser_items(tail_items) + seq![']'] + rest;
        assert(u =~= ser_json(items[0]) + rest1);
        lemma_parse_value_ser(items[0], rest1, (fuel - 1) as nat);
        assert(rest1[0] == ',');
        lemma_skip_ws_id(rest1);
        assert(rest1.drop_first() =~= ser_items(tail_items) + seq![']'] + rest);
        assert(forall|i: int|
            0 <= i < tail_items.len() ==> wf_json(#[trigger] tail_items[i])) by {
            assert(forall|i: int|
                0 <= i < tail_items.len() ==> tail_items[i] == items[i + 1]);
        }
        assert(ser_json(items[0]).len() >= 1);
        lemma_parse_items_ser(tail_items, rest, (fuel - 1) as nat);
        assert(seq![items[0]] + tail_items =~= items);
    }
}

/// Parsing the serialization of one or more object members, followed by the
/// closing brace, recovers the members exactly.
#[verifier::rlimit(100)]
proof fn lemma_parse_members_ser(ms: Seq<(Seq<char>, JsonV)>, rest: Seq<char>, fuel: nat)
    requires
        ms.len() >= 1,
        forall|i: int| 0 <= i < ms.len() ==> wf_json(#[trigger] ms[i].1),
        fuel > 2 * ser_members(ms).len() + 4,
    ensures
        spec_parse_members(ser_members(ms) + seq!['}'] + rest, fuel) == Some((ms, rest)),
    decreases ms,
{
    let u = ser_members(ms) + seq!['}'] + rest;
    let key = ms[0].0;
    let v0 = ms[0].1;
    assert(wf_json(v0));
    lemma_ser_head(v0);
    let rest2 = if ms.len() == 1 {
        seq!['}'] + rest
    } else {
        seq![','] + ser_members(ms.drop_first()) + seq!['}'] + rest
    };
    let sm = ser_member(ms[0]);
    if ms.len() == 1 {
        assert(u =~= sm + rest2);
    } else {
        assert(u =~= sm + rest2);
    }
    let after_key = seq![':'] + (ser_json(v0) + rest2);
    assert(sm + rest2 =~= seq!['"'] + (ser_str_body(key) + seq!['"'] + after_key));
    assert(u =~= seq!['"'] + (ser_str_body(key) + seq!['"'] + after_key));
    assert(u[0] == '"');
    lemma_skip_ws_id(u);
    assert(u.drop_first() =~= ser_str_body(key) + seq!['"'] + after_key);
    lemma_parse_string_body_ser(key, after_key);
    assert(after_key[0] == ':');
    lemma_skip_ws_id(after_key);
    assert(after_key.drop_first() =~= ser_json(v0) + rest2);
    assert(rest2[0] == '}' || rest2[0] == ',');
    lemma_parse_value_ser(v0, rest2, (fuel - 1) as nat);
    lemma_skip_ws_id(rest2);
    if ms.len() == 1 {
        assert(rest2[0] == '}');
        assert(rest2.drop_first() =~= rest);
        assert(seq![(key, v0)] =~= ms);
        assert((key, v0) == ms[0]);
    } else {
        let tail_ms = ms.drop_first();
        assert(rest2[0] == ',');
        assert(rest2.drop_first() =~= ser_members(tail_ms) + seq!['}'] + rest);
        assert(forall|i: int| 0 <= i < tail_ms.len() ==> wf_json(#[trigger] tail_ms[i].1)) by {
            assert(forall|i: int| 0 <= i < tail_ms.len() ==> tail_ms[i] == ms[i + 1]);
        }
        lemma_parse_members_ser(tail_ms, rest, (fuel - 1) as nat);
        assert(seq![(key, v0)] + tail_ms =~= ms);
        assert((key, v0) == ms[0]);
    }
}

/// The round trip: parsing the compact serialization of any well-formed
/// value yields that value back.
pub proof fn lemma_json_round_trip(v: JsonV)
    requires
        wf_json(v),
    ensures
        spec_parse_json(ser_json(v)) == Some(v),
{
    let s = ser_json(v);
    lemma_parse_value_ser(v, Seq::empty(), 2 * s.len() + 3);
    assert(s + Seq::<char>::empty() =~= s);
    assert(spec_skip_ws(Seq::<char>::empty()).len() == 0);
}

/// Parses a whole document: one value with nothing but whitespace after it.
pub fn parse_json(s: &[char]) -> (r: Option<Json>)
    ensures
        (match spec_parse_json(s@) {
            Some(v) => r is Some && r->0@ == v,
            None => r is None,
        }),
{
    match parse_value(s) {
        None => None,
        Some((j, rest)) => {
            let r1 = skip_ws(rest);
            if r1.len() == 0 {
                Some(j)
            } else {
                None
            }
        },
    }
}

} // verus!
