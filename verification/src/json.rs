//! JSON values and the wire grammar of the control-plane protocol.
//!
//! Requests and responses travel as one JSON object per line, so the codec
//! needs a JSON value type, a printer and a parser.
//!
//! A deliberate wire-format decision: numbers are signed 64-bit integers.
//! Everything this protocol carries — timestamps, token counts, row data —
//! is integral, and the store holds nothing else, so the grammar here
//! admits no fraction or exponent and no value outside the `i64` range;
//! such a line is answered as malformed rather than carried as a value the
//! library could neither store nor reason about.  A client that needs to
//! ship a non-integral quantity sends it as a string.

use vstd::prelude::*;

verus! {

/// A JSON value.  Object members keep their textual order, and duplicate
/// keys are kept as written; lookups resolve duplicates by taking the last
/// occurrence.
#[derive(Debug)]
pub enum Json {
    Null,
    Bool(bool),
    Int(i64),
    Str(String),
    Arr(Vec<Json>),
    Obj(Vec<(String, Json)>),
}

/// The mathematical model of a [`Json`] value.
pub ghost enum JsonV {
    Null,
    Bool(bool),
    Int(int),
    Str(Seq<char>),
    Arr(Seq<JsonV>),
    Obj(Seq<(Seq<char>, JsonV)>),
}

/// The model of a [`Json`] value; the body of `View::view` for [`Json`].
pub open spec fn jsonv_of(j: Json) -> JsonV
    decreases j, 1int,
{
    match j {
        Json::Null => JsonV::Null,
        Json::Bool(b) => JsonV::Bool(b),
        Json::Int(i) => JsonV::Int(i as int),
        Json::Str(s) => JsonV::Str(s@),
        Json::Arr(v) => {
            proof {
                assert(decreases_to!(j => v));
                assert(decreases_to!(v => v@));
            }
            JsonV::Arr(jsonv_of_list(v@))
        },
        Json::Obj(v) => {
            proof {
                assert(decreases_to!(j => v));
                assert(decreases_to!(v => v@));
            }
            JsonV::Obj(jsonv_of_pairs(v@))
        },
    }
}

/// The models of a sequence of values, elementwise.
pub open spec fn jsonv_of_list(s: Seq<Json>) -> Seq<JsonV>
    decreases s, 0int,
{
    if s.len() == 0 {
        Seq::empty()
    } else {
        proof {
            assert(decreases_to!(s => s[0]));
        }
        jsonv_of_list(s.drop_first()).insert(0, jsonv_of(s[0]))
    }
}

/// The models of a sequence of object members, elementwise.
pub open spec fn jsonv_of_pairs(s: Seq<(String, Json)>) -> Seq<(Seq<char>, JsonV)>
    decreases s, 0int,
{
    if s.len() == 0 {
        Seq::empty()
    } else {
        proof {
            assert(decreases_to!(s => s[0]));
            assert(decreases_to!(s[0] => s[0].1));
        }
        jsonv_of_pairs(s.drop_first()).insert(0, (s[0].0@, jsonv_of(s[0].1)))
    }
}

impl View for Json {
    type V = JsonV;

    open spec fn view(&self) -> JsonV {
        jsonv_of(*self)
    }
}

/// Elementwise reading of [`jsonv_of_list`].
pub proof fn lemma_jsonv_of_list(s: Seq<Json>)
    ensures
        jsonv_of_list(s).len() == s.len(),
        forall|i: int| 0 <= i < s.len() ==> jsonv_of_list(s)[i] == jsonv_of(#[trigger] s[i]),
    decreases s.len(),
{
    if s.len() > 0 {
        lemma_jsonv_of_list(s.drop_first());
        assert forall|i: int| 0 <= i < s.len() implies jsonv_of_list(s)[i] == jsonv_of(
            #[trigger] s[i],
        ) by {
            if i > 0 {
                assert(s.drop_first()[i - 1] == s[i]);
                assert(jsonv_of_list(s)[i] == jsonv_of_list(s.drop_first())[i - 1]);
            }
        }
    }
}

/// Elementwise reading of [`jsonv_of_pairs`].
pub proof fn lemma_jsonv_of_pairs(s: Seq<(String, Json)>)
    ensures
        jsonv_of_pairs(s).len() == s.len(),
        forall|i: int|
            0 <= i < s.len() ==> jsonv_of_pairs(s)[i] == ((#[trigger] s[i]).0@, jsonv_of(s[i].1)),
    decreases s.len(),
{
    if s.len() > 0 {
        lemma_jsonv_of_pairs(s.drop_first());
        assert forall|i: int|
            0 <= i < s.len() implies jsonv_of_pairs(s)[i] == ((#[trigger] s[i]).0@, jsonv_of(
            s[i].1,
        )) by {
            if i > 0 {
                assert(s.drop_first()[i - 1] == s[i]);
                assert(jsonv_of_pairs(s)[i] == jsonv_of_pairs(s.drop_first())[i - 1]);
            }
        }
    }
}

/// The characters the grammar treats as insignificant whitespace.
pub open spec fn is_ws(c: char) -> bool {
    c == ' ' || c == '\t' || c == '\n' || c == '\r'
}

pub open spec fn is_digit(c: char) -> bool {
    '0' as u32 <= c as u32 <= '9' as u32
}

pub open spec fn digit_val(c: char) -> int {
    c as u32 - '0' as u32
}

/// The decimal (or low hexadecimal) digit character for `d`.
pub open spec fn digit_char(d: int) -> char {
    if d == 0 { '0' }
    else if d == 1 { '1' }
    else if d == 2 { '2' }
    else if d == 3 { '3' }
    else if d == 4 { '4' }
    else if d == 5 { '5' }
    else if d == 6 { '6' }
    else if d == 7 { '7' }
    else if d == 8 { '8' }
    else if d == 9 { '9' }
    else if d == 10 { 'a' }
    else if d == 11 { 'b' }
    else if d == 12 { 'c' }
    else if d == 13 { 'd' }
    else if d == 14 { 'e' }
    else { 'f' }
}

/// Decimal digits of `n`, most significant first.
pub open spec fn dec_digits(n: nat) -> Seq<char>
    decreases n,
{
    if n < 10 {
        seq![digit_char(n as int)]
    } else {
        dec_digits(n / 10).push(digit_char((n % 10) as int))
    }
}

/// The canonical decimal text of `i`.
pub open spec fn print_int(i: int) -> Seq<char> {
    if i < 0 {
        seq!['-'] + dec_digits((-i) as nat)
    } else {
        dec_digits(i as nat)
    }
}

/// How one character is written inside a JSON string literal.
pub open spec fn esc_char(c: char) -> Seq<char> {
    if c == '"' {
        seq!['\\', '"']
    } else if c == '\\' {
        seq!['\\', '\\']
    } else if c == '\n' {
        seq!['\\', 'n']
    } else if c == '\r' {
        seq!['\\', 'r']
    } else if c == '\t' {
        seq!['\\', 't']
    } else if (c as u32) < 0x20 {
        seq!['\\', 'u', '0', '0', digit_char(c as u32 as int / 16), digit_char(c as u32 as int % 16)]
    } else {
        seq![c]
    }
}

/// The body of a string literal from position `i` on, without the quotes.
pub open spec fn print_str_from(s: Seq<char>, i: int) -> Seq<char>
    decreases s.len() - i,
{
    if 0 <= i < s.len() {
        esc_char(s[i]) + print_str_from(s, i + 1)
    } else {
        Seq::empty()
    }
}

/// The printed form of a value.
pub open spec fn print_json(v: JsonV) -> Seq<char>
    decreases v, 0int,
{
    match v {
        JsonV::Null => seq!['n', 'u', 'l', 'l'],
        JsonV::Bool(b) => if b {
            seq!['t', 'r', 'u', 'e']
        } else {
            seq!['f', 'a', 'l', 's', 'e']
        },
        JsonV::Int(i) => print_int(i),
        JsonV::Str(s) => seq!['"'] + print_str_from(s, 0) + seq!['"'],
        JsonV::Arr(elems) => seq!['['] + print_elems_from(elems, 0) + seq![']'],
        JsonV::Obj(pairs) => seq!['{'] + print_pairs_from(pairs, 0) + seq!['}'],
    }
}

/// Array elements from index `i` on, comma-separated.
pub open spec fn print_elems_from(elems: Seq<JsonV>, i: int) -> Seq<char>
    decreases elems, elems.len() - i,
{
    if 0 <= i < elems.len() {
        let sep: Seq<char> = if i > 0 {
            seq![',']
        } else {
            Seq::empty()
        };
        sep + print_json(elems[i]) + print_elems_from(elems, i + 1)
    } else {
        Seq::empty()
    }
}

/// Object members from index `i` on, comma-separated.
pub open spec fn print_pairs_from(pairs: Seq<(Seq<char>, JsonV)>, i: int) -> Seq<char>
    decreases pairs, pairs.len() - i,
{
    if 0 <= i < pairs.len() {
        let sep: Seq<char> = if i > 0 {
            seq![',']
        } else {
            Seq::empty()
        };
        sep + seq!['"'] + print_str_from(pairs[i].0, 0) + seq!['"', ':'] + print_json(pairs[i].1)
            + print_pairs_from(pairs, i + 1)
    } else {
        Seq::empty()
    }
}

fn digit_char_x(d: u32) -> (c: char)
    requires
        d < 16,
    ensures
        c == digit_char(d as int),
{
    if d == 0 { '0' }
    else if d == 1 { '1' }
    else if d == 2 { '2' }
    else if d == 3 { '3' }
    else if d == 4 { '4' }
    else if d == 5 { '5' }
    else if d == 6 { '6' }
    else if d == 7 { '7' }
    else if d == 8 { '8' }
    else if d == 9 { '9' }
    else if d == 10 { 'a' }
    else if d == 11 { 'b' }
    else if d == 12 { 'c' }
    else if d == 13 { 'd' }
    else if d == 14 { 'e' }
    else { 'f' }
}

fn enc_u64(n: u64, out: &mut Vec<char>)
    ensures
        final(out)@ == old(out)@ + dec_digits(n as nat),
    decreases n,
{
    if n < 10 {
        out.push(digit_char_x(n as u32));
        assert(out@ =~= old(out)@ + dec_digits(n as nat));
    } else {
        enc_u64(n / 10, out);
        out.push(digit_char_x((n % 10) as u32));
        assert(out@ =~= old(out)@ + dec_digits(n as nat));
    }
}

fn enc_i64(i: i64, out: &mut Vec<char>)
    ensures
        final(out)@ == old(out)@ + print_int(i as int),
{
    if i < 0 {
        out.push('-');
        let mag: u64 = if i == i64::MIN {
            9223372036854775808u64
        } else {
            (-i) as u64
        };
        assert(mag as nat == (-(i as int)) as nat);
        enc_u64(mag, out);
        assert(out@ =~= old(out)@ + print_int(i as int));
    } else {
        enc_u64(i as u64, out);
    }
}

/// Appends the escaped body of a string literal, without the quotes.
fn enc_str_body(s: &Vec<char>, out: &mut Vec<char>)
    ensures
        final(out)@ == old(out)@ + print_str_from(s@, 0),
{
    let n = s.len();
    let mut i: usize = 0;
    while i < n
        invariant
            n == s@.len(),
            i <= n,
            out@ + print_str_from(s@, i as int) == old(out)@ + print_str_from(s@, 0),
        decreases n - i,
    {
        let ghost pre = out@;
        let c = s[i];
        if c == '"' {
            out.push('\\');
            out.push('"');
        } else if c == '\\' {
            out.push('\\');
            out.push('\\');
        } else if c == '\n' {
            out.push('\\');
            out.push('n');
        } else if c == '\r' {
            out.push('\\');
            out.push('r');
        } else if c == '\t' {
            out.push('\\');
            out.push('t');
        } else if (c as u32) < 0x20 {
            out.push('\\');
            out.push('u');
            out.push('0');
            out.push('0');
            out.push(digit_char_x(c as u32 / 16));
            out.push(digit_char_x(c as u32 % 16));
        } else {
            out.push(c);
        }
        assert(out@ =~= pre + esc_char(s@[i as int]));
        assert(pre + esc_char(s@[i as int]) + print_str_from(s@, i + 1) =~= pre + print_str_from(
            s@,
            i as int,
        ));
        i = i + 1;
    }
}

/// Appends the printed form of `j`.
#[verifier::loop_isolation(false)]
#[verifier::rlimit(80)]
fn enc_value(j: &Json, out: &mut Vec<char>)
    ensures
        final(out)@ == old(out)@ + print_json(j@),
    decreases j,
{
    match j {
        Json::Null => {
            out.push('n');
            out.push('u');
            out.push('l');
            out.push('l');
            assert(out@ =~= old(out)@ + print_json(j@));
        },
        Json::Bool(b) => {
            if *b {
                out.push('t');
                out.push('r');
                out.push('u');
                out.push('e');
            } else {
                out.push('f');
                out.push('a');
                out.push('l');
                out.push('s');
                out.push('e');
            }
            assert(out@ =~= old(out)@ + print_json(j@));
        },
        Json::Int(i) => {
            enc_i64(*i, out);
        },
        Json::Str(s) => {
            let cs = crate::ext::str_to_chars(s.as_str());
            out.push('"');
            enc_str_body(&cs, out);
            out.push('"');
            assert(out@ =~= old(out)@ + print_json(j@));
        },
        Json::Arr(elems) => {
            let ghost ev = jsonv_of_list(elems@);
            proof {
                lemma_jsonv_of_list(elems@);
            }
            out.push('[');
            let n = elems.len();
            let mut i: usize = 0;
            while i < n
                invariant
                    n == elems@.len(),
                    ev == jsonv_of_list(elems@),
                    ev.len() == n,
                    forall|k: int| 0 <= k < n ==> ev[k] == jsonv_of(#[trigger] elems@[k]),
                    i <= n,
                    out@ + print_elems_from(ev, i as int) == old(out)@ + seq!['[']
                        + print_elems_from(ev, 0),
                decreases n - i,
            {
                let ghost pre = out@;
                if i > 0 {
                    out.push(',');
                }
                proof {
                    assert(decreases_to!(*j => *elems));
                    assert(decreases_to!(*elems => elems@[i as int]));
                }
                enc_value(&elems[i], out);
                proof {
                    let sep: Seq<char> = if i > 0 {
                        seq![',']
                    } else {
                        Seq::empty()
                    };
                    assert(out@ =~= pre + sep + print_json(ev[i as int]));
                    assert(pre + sep + print_json(ev[i as int]) + print_elems_from(ev, i + 1)
                        =~= pre + print_elems_from(ev, i as int));
                }
                i = i + 1;
            }
            out.push(']');
            assert(out@ =~= old(out)@ + print_json(j@));
        },
        Json::Obj(pairs) => {
            let ghost pv = jsonv_of_pairs(pairs@);
            proof {
                lemma_jsonv_of_pairs(pairs@);
            }
            out.push('{');
            let n = pairs.len();
            let mut i: usize = 0;
            while i < n
                invariant
                    n == pairs@.len(),
                    pv == jsonv_of_pairs(pairs@),
                    pv.len() == n,
                    forall|k: int|
                        0 <= k < n ==> pv[k] == ((#[trigger] pairs@[k]).0@, jsonv_of(pairs@[k].1)),
                    i <= n,
                    out@ + print_pairs_from(pv, i as int) == old(out)@ + seq!['{']
                        + print_pairs_from(pv, 0),
                decreases n - i,
            {
                let ghost pre = out@;
                if i > 0 {
                    out.push(',');
                }
                let cs = crate::ext::str_to_chars(pairs[i].0.as_str());
                out.push('"');
                enc_str_body(&cs, out);
                out.push('"');
                out.push(':');
                proof {
                    assert(decreases_to!(*j => *pairs));
                    assert(decreases_to!(*pairs => pairs@[i as int]));
                    assert(decreases_to!(pairs@[i as int] => pairs@[i as int].1));
                }
                enc_value(&pairs[i].1, out);
                proof {
                    let sep: Seq<char> = if i > 0 {
                        seq![',']
                    } else {
                        Seq::empty()
                    };
                    assert(out@ =~= pre + sep + seq!['"'] + print_str_from(pv[i as int].0, 0)
                        + seq!['"', ':'] + print_json(pv[i as int].1));
                    assert(pre + sep + seq!['"'] + print_str_from(pv[i as int].0, 0) + seq![
                        '"',
                        ':',
                    ] + print_json(pv[i as int].1) + print_pairs_from(pv, i + 1) =~= pre
                        + print_pairs_from(pv, i as int));
                }
                i = i + 1;
            }
            out.push('}');
            assert(out@ =~= old(out)@ + print_json(j@));
        },
    }
}

/// Prints `j` as one compact JSON text.
pub fn encode_json(j: &Json) -> (s: String)
    ensures
        s@ == print_json(j@),
{
    let mut out: Vec<char> = Vec::new();
    enc_value(j, &mut out);
    crate::ext::chars_to_string(&out)
}

/// The character with code point `cp`; meaningful for Unicode scalar values.
pub open spec fn char_of(cp: int) -> char {
    (cp as u32) as char
}

/// The position of the first non-whitespace character at or after `i`.
pub open spec fn sp_ws(s: Seq<char>, i: int) -> int
    decreases s.len() - i,
{
    if 0 <= i < s.len() && is_ws(s[i]) {
        sp_ws(s, i + 1)
    } else {
        i
    }
}

pub proof fn lemma_sp_ws_bounds(s: Seq<char>, i: int)
    requires
        0 <= i <= s.len(),
    ensures
        i <= sp_ws(s, i) <= s.len(),
        sp_ws(s, i) < s.len() ==> !is_ws(s[sp_ws(s, i)]),
    decreases s.len() - i,
{
    if i < s.len() && is_ws(s[i]) {
        lemma_sp_ws_bounds(s, i + 1);
    }
}

/// The position just past the run of decimal digits starting at `i`.
pub open spec fn sp_digits_end(s: Seq<char>, i: int) -> int
    decreases s.len() - i,
{
    if 0 <= i < s.len() && is_digit(s[i]) {
        sp_digits_end(s, i + 1)
    } else {
        i
    }
}

pub proof fn lemma_sp_digits_end(s: Seq<char>, i: int)
    requires
        0 <= i <= s.len(),
    ensures
        i <= sp_digits_end(s, i) <= s.len(),
        forall|k: int| i <= k < sp_digits_end(s, i) ==> is_digit(s[k]),
        sp_digits_end(s, i) < s.len() ==> !is_digit(s[sp_digits_end(s, i)]),
    decreases s.len() - i,
{
    if i < s.len() && is_digit(s[i]) {
        lemma_sp_digits_end(s, i + 1);
    }
}

/// The value of the decimal digits `s[i..j]`.
pub open spec fn digits_val(s: Seq<char>, i: int, j: int) -> int
    decreases j - i,
{
    if i < j {
        digits_val(s, i, j - 1) * 10 + digit_val(s[j - 1])
    } else {
        0
    }
}

pub proof fn lemma_digits_val_nonneg(s: Seq<char>, i: int, j: int)
    requires
        forall|k: int| i <= k < j ==> is_digit(s[k]),
    ensures
        digits_val(s, i, j) >= 0,
    decreases j - i,
{
    if i < j {
        lemma_digits_val_nonneg(s, i, j - 1);
    }
}

/// More digits never shrink the value.
pub proof fn lemma_digits_val_nondec(s: Seq<char>, i: int, p: int, q: int)
    requires
        i <= p <= q,
        forall|k: int| i <= k < q ==> is_digit(s[k]),
    ensures
        digits_val(s, i, p) <= digits_val(s, i, q),
    decreases q - p,
{
    if p < q {
        lemma_digits_val_nondec(s, i, p, q - 1);
        lemma_digits_val_nonneg(s, i, q - 1);
    }
}

/// A parsed number: an optional sign, then at least one digit, with the
/// value restricted to the `i64` range.
pub open spec fn sp_number(s: Seq<char>, i: int) -> Option<(JsonV, int)> {
    let neg = 0 <= i < s.len() && s[i] == '-';
    let d0 = if neg {
        i + 1
    } else {
        i
    };
    let dend = sp_digits_end(s, d0);
    if dend == d0 {
        None
    } else {
        let n = digits_val(s, d0, dend);
        if neg {
            if n <= 0x8000_0000_0000_0000 {
                Some((JsonV::Int(-n), dend))
            } else {
                None
            }
        } else {
            if n < 0x8000_0000_0000_0000 {
                Some((JsonV::Int(n), dend))
            } else {
                None
            }
        }
    }
}

/// The value of a hexadecimal digit, or -1.
pub open spec fn hexv(c: char) -> int {
    if is_digit(c) {
        digit_val(c)
    } else if 'a' as u32 <= c as u32 <= 'f' as u32 {
        c as u32 - 'a' as u32 + 10
    } else if 'A' as u32 <= c as u32 <= 'F' as u32 {
        c as u32 - 'A' as u32 + 10
    } else {
        -1
    }
}

/// The value of the four hex digits `s[i..i+4]`, or -1 if absent or invalid.
pub open spec fn sp_hex4(s: Seq<char>, i: int) -> int {
    if 0 <= i && i + 4 <= s.len() && hexv(s[i]) >= 0 && hexv(s[i + 1]) >= 0 && hexv(s[i + 2]) >= 0
        && hexv(s[i + 3]) >= 0 {
        ((hexv(s[i]) * 16 + hexv(s[i + 1])) * 16 + hexv(s[i + 2])) * 16 + hexv(s[i + 3])
    } else {
        -1
    }
}

/// The body of a string literal starting at `i` (just past the opening
/// quote): the decoded characters and the position after the closing quote.
/// Escapes follow the JSON grammar, including surrogate pairs.
pub open spec fn sp_str_body(s: Seq<char>, i: int) -> Option<(Seq<char>, int)>
    decreases s.len() - i,
{
    if !(0 <= i < s.len()) {
        None
    } else {
        let c = s[i];
        if c == '"' {
            Some((Seq::empty(), i + 1))
        } else if c == '\\' {
            if i + 1 < s.len() {
                let e = s[i + 1];
                if e == 'u' {
                    let h = sp_hex4(s, i + 2);
                    if h < 0 {
                        None
                    } else if 0xD800 <= h < 0xDC00 {
                        if i + 12 <= s.len() && s[i + 6] == '\\' && s[i + 7] == 'u' {
                            let h2 = sp_hex4(s, i + 8);
                            if 0xDC00 <= h2 < 0xE000 {
                                let cp = 0x10000 + (h - 0xD800) * 0x400 + (h2 - 0xDC00);
                                match sp_str_body(s, i + 12) {
                                    Some((rest, j)) => Some((seq![char_of(cp)] + rest, j)),
                                    None => None,
                                }
                            } else {
                                None
                            }
                        } else {
                            None
                        }
                    } else if 0xDC00 <= h < 0xE000 {
                        None
                    } else {
                        match sp_str_body(s, i + 6) {
                            Some((rest, j)) => Some((seq![char_of(h)] + rest, j)),
                            None => None,
                        }
                    }
                } else if e == '"' || e == '\\' || e == '/' || e == 'b' || e == 'f' || e == 'n'
                    || e == 'r' || e == 't' {
                    let ec = if e == '"' {
                        '"'
                    } else if e == '\\' {
                        '\\'
                    } else if e == '/' {
                        '/'
                    } else if e == 'b' {
                        '\u{8}'
                    } else if e == 'f' {
                        '\u{c}'
                    } else if e == 'n' {
                        '\n'
                    } else if e == 'r' {
                        '\r'
                    } else {
                        '\t'
                    };
                    match sp_str_body(s, i + 2) {
                        Some((rest, j)) => Some((seq![ec] + rest, j)),
                        None => None,
                    }
                } else {
                    None
                }
            } else {
                None
            }
        } else if (c as u32) < 0x20 {
            None
        } else {
            match sp_str_body(s, i + 1) {
                Some((rest, j)) => Some((seq![c] + rest, j)),
                None => None,
            }
        }
    }
}

pub proof fn lemma_sp_str_body_bounds(s: Seq<char>, i: int)
    ensures
        match sp_str_body(s, i) {
            Some((cs, j)) => i < j <= s.len(),
            None => true,
        },
    decreases s.len() - i,
{
    if 0 <= i < s.len() {
        lemma_sp_str_body_bounds(s, i + 1);
        if i + 2 <= s.len() {
            lemma_sp_str_body_bounds(s, i + 2);
        }
        if i + 6 <= s.len() {
            lemma_sp_str_body_bounds(s, i + 6);
        }
        if i + 12 <= s.len() {
            lemma_sp_str_body_bounds(s, i + 12);
        }
    }
}

/// A complete JSON value starting exactly at `i`, and the position after it.
pub open spec fn sp_value(s: Seq<char>, i: int) -> Option<(JsonV, int)>
    decreases s.len() - i, 1int,
{
    if !(0 <= i < s.len()) {
        None
    } else {
        let c = s[i];
        if c == 'n' {
            if i + 4 <= s.len() && s[i + 1] == 'u' && s[i + 2] == 'l' && s[i + 3] == 'l' {
                Some((JsonV::Null, i + 4))
            } else {
                None
            }
        } else if c == 't' {
            if i + 4 <= s.len() && s[i + 1] == 'r' && s[i + 2] == 'u' && s[i + 3] == 'e' {
                Some((JsonV::Bool(true), i + 4))
            } else {
                None
            }
        } else if c == 'f' {
            if i + 5 <= s.len() && s[i + 1] == 'a' && s[i + 2] == 'l' && s[i + 3] == 's' && s[i + 4]
                == 'e' {
                Some((JsonV::Bool(false), i + 5))
            } else {
                None
            }
        } else if c == '-' || is_digit(c) {
            sp_number(s, i)
        } else if c == '"' {
            match sp_str_body(s, i + 1) {
                Some((cs, j)) => Some((JsonV::Str(cs), j)),
                None => None,
            }
        } else if c == '[' {
            let j = sp_ws(s, i + 1);
            if j < s.len() && s[j] == ']' {
                Some((JsonV::Arr(Seq::empty()), j + 1))
            } else if i + 1 <= j <= s.len() {
                match sp_elems(s, j) {
                    Some((es, k)) => Some((JsonV::Arr(es), k)),
                    None => None,
                }
            } else {
                None
            }
        } else if c == '{' {
            let j = sp_ws(s, i + 1);
            if j < s.len() && s[j] == '}' {
                Some((JsonV::Obj(Seq::empty()), j + 1))
            } else if i + 1 <= j <= s.len() {
                match sp_pairs(s, j) {
                    Some((ps, k)) => Some((JsonV::Obj(ps), k)),
                    None => None,
                }
            } else {
                None
            }
        } else {
            None
        }
    }
}

/// One or more array elements starting at `i`, up to and including the
/// closing bracket.
pub open spec fn sp_elems(s: Seq<char>, i: int) -> Option<(Seq<JsonV>, int)>
    decreases s.len() - i, 2int,
{
    if !(0 <= i <= s.len()) {
        None
    } else {
        match sp_value(s, i) {
            None => None,
            Some((v, j)) => {
                let k = sp_ws(s, j);
                if 0 <= k < s.len() && s[k] == ']' {
                    Some((seq![v], k + 1))
                } else if 0 <= k < s.len() && s[k] == ',' {
                    let m = sp_ws(s, k + 1);
                    if i < m && m <= s.len() {
                        match sp_elems(s, m) {
                            Some((rest, e)) => Some((seq![v] + rest, e)),
                            None => None,
                        }
                    } else {
                        None
                    }
                } else {
                    None
                }
            },
        }
    }
}

/// One or more object members starting at `i`, up to and including the
/// closing brace.
pub open spec fn sp_pairs(s: Seq<char>, i: int) -> Option<(Seq<(Seq<char>, JsonV)>, int)>
    decreases s.len() - i, 2int,
{
    if !(0 <= i < s.len() && s[i] == '"') {
        None
    } else {
        match sp_str_body(s, i + 1) {
            None => None,
            Some((key, j)) => {
                let k = sp_ws(s, j);
                if 0 <= k < s.len() && s[k] == ':' {
                    let m = sp_ws(s, k + 1);
                    if i < m && m <= s.len() {
                        match sp_value(s, m) {
                            None => None,
                            Some((v, e)) => {
                                let k2 = sp_ws(s, e);
                                if 0 <= k2 < s.len() && s[k2] == '}' {
                                    Some((seq![(key, v)], k2 + 1))
                                } else if 0 <= k2 < s.len() && s[k2] == ',' {
                                    let m2 = sp_ws(s, k2 + 1);
                                    if i < m2 && m2 <= s.len() {
                                        match sp_pairs(s, m2) {
                                            Some((rest, e2)) => Some(
                                                (seq![(key, v)] + rest, e2),
                                            ),
                                            None => None,
                                        }
                                    } else {
                                        None
                                    }
                                } else {
                                    None
                                }
                            },
                        }
                    } else {
                        None
                    }
                } else {
                    None
                }
            },
        }
    }
}

/// A whole line of input: one value, optionally surrounded by whitespace.
pub open spec fn sp_json(s: Seq<char>) -> Option<JsonV> {
    let i = sp_ws(s, 0);
    match sp_value(s, i) {
        None => None,
        Some((v, j)) => {
            if 0 <= j <= s.len() && sp_ws(s, j) == s.len() {
                Some(v)
            } else {
                None
            }
        },
    }
}

/// [`jsonv_of_list`] commutes with `push`.
pub proof fn lemma_jsonv_of_list_push(s: Seq<Json>, x: Json)
    ensures
        jsonv_of_list(s.push(x)) == jsonv_of_list(s).push(jsonv_of(x)),
{
    lemma_jsonv_of_list(s.push(x));
    lemma_jsonv_of_list(s);
    assert forall|i: int|
        0 <= i < s.len() + 1 implies #[trigger] jsonv_of_list(s.push(x))[i] == jsonv_of_list(
        s,
    ).push(jsonv_of(x))[i] by {
        if i < s.len() {
            assert(s.push(x)[i] == s[i]);
        } else {
            assert(s.push(x)[i] == x);
        }
    }
    assert(jsonv_of_list(s.push(x)) =~= jsonv_of_list(s).push(jsonv_of(x)));
}

/// [`jsonv_of_pairs`] commutes with `push`.
pub proof fn lemma_jsonv_of_pairs_push(s: Seq<(String, Json)>, x: (String, Json))
    ensures
        jsonv_of_pairs(s.push(x)) == jsonv_of_pairs(s).push((x.0@, jsonv_of(x.1))),
{
    lemma_jsonv_of_pairs(s.push(x));
    lemma_jsonv_of_pairs(s);
    assert forall|i: int|
        0 <= i < s.len() + 1 implies #[trigger] jsonv_of_pairs(s.push(x))[i] == jsonv_of_pairs(
        s,
    ).push((x.0@, jsonv_of(x.1)))[i] by {
        if i < s.len() {
            assert(s.push(x)[i] == s[i]);
        } else {
            assert(s.push(x)[i] == x);
        }
    }
    assert(jsonv_of_pairs(s.push(x)) =~= jsonv_of_pairs(s).push((x.0@, jsonv_of(x.1))));
}

/// Every successful parse ends strictly past where it began and inside the
/// input.
pub proof fn lemma_sp_value_bounds(s: Seq<char>, i: int)
    ensures
        match sp_value(s, i) {
            Some((v, j)) => i < j <= s.len(),
            None => true,
        },
        match sp_elems(s, i) {
            Some((es, j)) => i < j <= s.len(),
            None => true,
        },
        match sp_pairs(s, i) {
            Some((ps, j)) => i < j <= s.len(),
            None => true,
        },
    decreases s.len() - i, 3int,
{
    if 0 <= i <= s.len() {
        // bounds for the pieces a value can start with
        lemma_sp_str_body_bounds(s, i + 1);
        lemma_sp_ws_bounds(s, i);
        if i < s.len() {
            let c = s[i];
            if c == '-' || is_digit(c) {
                let neg = s[i] == '-';
                let d0 = if neg {
                    i + 1
                } else {
                    i
                };
                lemma_sp_digits_end(s, d0);
            }
            if c == '[' || c == '{' {
                lemma_sp_ws_bounds(s, i + 1);
                let j = sp_ws(s, i + 1);
                if i + 1 <= j <= s.len() {
                    lemma_sp_value_bounds(s, j);
                }
            }
        }
        // elems: value at i, then recursion further right
        match sp_value(s, i) {
            Some((v, j)) => {
                if i < j <= s.len() {
                    lemma_sp_ws_bounds(s, j);
                    let k = sp_ws(s, j);
                    if 0 <= k < s.len() && s[k] == ',' {
                        lemma_sp_ws_bounds(s, k + 1);
                        let m = sp_ws(s, k + 1);
                        if i < m && m <= s.len() {
                            lemma_sp_value_bounds(s, m);
                        }
                    }
                }
            },
            None => {},
        }
        // pairs: key at i, then value, then recursion further right
        if i < s.len() && s[i] == '"' {
            match sp_str_body(s, i + 1) {
                Some((key, j)) => {
                    lemma_sp_ws_bounds(s, j);
                    let k = sp_ws(s, j);
                    if 0 <= k < s.len() && s[k] == ':' {
                        lemma_sp_ws_bounds(s, k + 1);
                        let m = sp_ws(s, k + 1);
                        if i < m && m <= s.len() {
                            lemma_sp_value_bounds(s, m);
                            match sp_value(s, m) {
                                Some((v, e)) => {
                                    lemma_sp_ws_bounds(s, e);
                                    let k2 = sp_ws(s, e);
                                    if 0 <= k2 < s.len() && s[k2] == ',' {
                                        lemma_sp_ws_bounds(s, k2 + 1);
                                        let m2 = sp_ws(s, k2 + 1);
                                        if i < m2 && m2 <= s.len() {
                                            lemma_sp_value_bounds(s, m2);
                                        }
                                    }
                                },
                                None => {},
                            }
                        }
                    }
                },
                None => {},
            }
        }
    }
}

/// The model of an exec parse result.
pub open spec fn lift_parsed(r: Option<(Json, usize)>) -> Option<(JsonV, int)> {
    match r {
        Some((v, j)) => Some((jsonv_of(v), j as int)),
        None => None,
    }
}

/// One decoding step: prepending the same decoded characters on both sides
/// of a parse equation.
proof fn lemma_chain_step<T>(
    pre: Seq<T>,
    one: Seq<T>,
    a: Option<(Seq<T>, int)>,
    b: Option<(Seq<T>, int)>,
)
    requires
        a == (match b {
            Some(p) => Some((one + p.0, p.1)),
            None => None,
        }),
    ensures
        (match a {
            Some(p) => Some((pre + p.0, p.1)),
            None => None::<(Seq<T>, int)>,
        }) == (match b {
            Some(p) => Some(((pre + one) + p.0, p.1)),
            None => None::<(Seq<T>, int)>,
        }),
{
    match b {
        Some(p) => {
            assert(pre + (one + p.0) =~= (pre + one) + p.0);
        },
        None => {},
    }
}

fn p_ws(s: &Vec<char>, i: usize) -> (r: usize)
    requires
        i <= s@.len(),
    ensures
        r as int == sp_ws(s@, i as int),
        i <= r <= s@.len(),
{
    let n = s.len();
    let mut cur = i;
    while cur < n && (s[cur] == ' ' || s[cur] == '\t' || s[cur] == '\n' || s[cur] == '\r')
        invariant
            i <= cur <= n,
            n == s@.len(),
            sp_ws(s@, i as int) == sp_ws(s@, cur as int),
        decreases n - cur,
    {
        cur = cur + 1;
    }
    cur
}

fn hexv_x(c: char) -> (r: Option<u32>)
    ensures
        match r {
            Some(h) => hexv(c) == h as int && h < 16,
            None => hexv(c) == -1,
        },
{
    let u = c as u32;
    if 48 <= u && u <= 57 {
        Some(u - 48)
    } else if 97 <= u && u <= 102 {
        Some(u - 97 + 10)
    } else if 65 <= u && u <= 70 {
        Some(u - 65 + 10)
    } else {
        None
    }
}

fn p_hex4(s: &Vec<char>, i: usize) -> (r: Option<u32>)
    requires
        i <= s@.len(),
    ensures
        match r {
            Some(h) => sp_hex4(s@, i as int) == h as int && h < 0x10000,
            None => sp_hex4(s@, i as int) == -1,
        },
{
    let n = s.len();
    if n - i < 4 {
        return None;
    }
    let h0 = hexv_x(s[i]);
    let h1 = hexv_x(s[i + 1]);
    let h2 = hexv_x(s[i + 2]);
    let h3 = hexv_x(s[i + 3]);
    match (h0, h1, h2, h3) {
        (Some(a), Some(b), Some(c), Some(d)) => Some(((a * 16 + b) * 16 + c) * 16 + d),
        _ => None,
    }
}

/// Parses the body of a string literal (the opening quote already consumed)
/// into `out`, returning the position after the closing quote.
#[verifier::loop_isolation(false)]
#[verifier::rlimit(80)]
fn p_str_body(s: &Vec<char>, i: usize, out: &mut Vec<char>) -> (r: Option<usize>)
    requires
        i <= s@.len(),
        old(out)@.len() == 0,
    ensures
        match r {
            Some(j) => sp_str_body(s@, i as int) == Some((final(out)@, j as int)) && i < j <= s@.len(),
            None => sp_str_body(s@, i as int) is None,
        },
{
    let n = s.len();
    let mut cur = i;
    loop
        invariant
            i <= cur <= n,
            sp_str_body(s@, i as int) == (match sp_str_body(s@, cur as int) {
                Some(p) => Some((out@ + p.0, p.1)),
                None => None::<(Seq<char>, int)>,
            }),
        decreases n - cur,
    {
        if cur >= n {
            return None;
        }
        let ghost pre = out@;
        let ghost cur0 = cur as int;
        let c = s[cur];
        if c == '"' {
            proof {
                assert(pre + Seq::<char>::empty() =~= pre);
            }
            return Some(cur + 1);
        } else if c == '\\' {
            if n - cur < 2 {
                return None;
            }
            let e = s[cur + 1];
            if e == 'u' {
                match p_hex4(s, cur + 2) {
                    None => {
                        return None;
                    },
                    Some(h) => {
                        if 0xD800 <= h && h < 0xDC00 {
                            // high surrogate: a low surrogate escape must follow
                            if n - cur >= 12 && s[cur + 6] == '\\' && s[cur + 7] == 'u' {
                                match p_hex4(s, cur + 8) {
                                    Some(h2) if 0xDC00 <= h2 && h2 < 0xE000 => {
                                        let cp: u32 = 0x10000 + (h - 0xD800) * 0x400 + (h2 - 0xDC00);
                                        let dc = match crate::ext::char_from_u32(cp) {
                                            Some(dc) => dc,
                                            None => {
                                                proof {
                                                    assert(false);
                                                }
                                                return None;
                                            },
                                        };
                                        proof {
                                            vstd::utf8::char_u32_cast(dc, cp);
                                            assert(char_of(cp as int) == dc);
                                        }
                                        out.push(dc);
                                        cur = cur + 12;
                                        proof {
                                            lemma_chain_step(
                                                pre,
                                                seq![dc],
                                                sp_str_body(s@, cur0),
                                                sp_str_body(s@, cur as int),
                                            );
                                        }
                                    },
                                    _ => {
                                        return None;
                                    },
                                }
                            } else {
                                return None;
                            }
                        } else if 0xDC00 <= h && h < 0xE000 {
                            return None;
                        } else {
                            let dc = match crate::ext::char_from_u32(h) {
                                Some(dc) => dc,
                                None => {
                                    proof {
                                        assert(false);
                                    }
                                    return None;
                                },
                            };
                            proof {
                                vstd::utf8::char_u32_cast(dc, h);
                                assert(char_of(h as int) == dc);
                            }
                            out.push(dc);
                            cur = cur + 6;
                            proof {
                                lemma_chain_step(
                                    pre,
                                    seq![dc],
                                    sp_str_body(s@, cur0),
                                    sp_str_body(s@, cur as int),
                                );
                            }
                        }
                    },
                }
            } else if e == '"' || e == '\\' || e == '/' || e == 'b' || e == 'f' || e == 'n' || e
                == 'r' || e == 't' {
                let dc = if e == '"' {
                    '"'
                } else if e == '\\' {
                    '\\'
                } else if e == '/' {
                    '/'
                } else if e == 'b' {
                    '\u{8}'
                } else if e == 'f' {
                    '\u{c}'
                } else if e == 'n' {
                    '\n'
                } else if e == 'r' {
                    '\r'
                } else {
                    '\t'
                };
                out.push(dc);
                cur = cur + 2;
                proof {
                    lemma_chain_step(
                        pre,
                        seq![dc],
                        sp_str_body(s@, cur0),
                        sp_str_body(s@, cur as int),
                    );
                }
            } else {
                return None;
            }
        } else if (c as u32) < 0x20 {
            return None;
        } else {
            out.push(c);
            cur = cur + 1;
            proof {
                lemma_chain_step(pre, seq![c], sp_str_body(s@, cur0), sp_str_body(s@, cur as int));
            }
        }
    }
}

/// Parses a signed decimal integer starting at `i`.
#[verifier::loop_isolation(false)]
fn p_number(s: &Vec<char>, i: usize) -> (r: Option<(Json, usize)>)
    requires
        i < s@.len(),
        s@[i as int] == '-' || is_digit(s@[i as int]),
    ensures
        lift_parsed(r) == sp_number(s@, i as int),
        r matches Some(p) ==> i < p.1 <= s@.len(),
{
    let n = s.len();
    let c = s[i];
    let neg = c == '-';
    let d0: usize = if neg {
        i + 1
    } else {
        i
    };
    // find the end of the digit run
    let mut e: usize = d0;
    while e < n && '0' as u32 <= s[e] as u32 && s[e] as u32 <= '9' as u32
        invariant
            d0 <= e <= n,
            sp_digits_end(s@, d0 as int) == sp_digits_end(s@, e as int),
        decreases n - e,
    {
        e = e + 1;
    }
    assert(sp_digits_end(s@, d0 as int) == e as int);
    if e == d0 {
        return None;
    }
    proof {
        lemma_sp_digits_end(s@, d0 as int);
    }
    // accumulate the value, noting when it leaves the i64 range for good
    let mut acc: u128 = 0;
    let mut over: bool = false;
    let mut p: usize = d0;
    while p < e
        invariant
            d0 <= p <= e,
            !over ==> acc as int == digits_val(s@, d0 as int, p as int) && acc
                <= 0x8000_0000_0000_0000,
            over ==> digits_val(s@, d0 as int, p as int) > 0x8000_0000_0000_0000,
        decreases e - p,
    {
        let d: u32 = s[p] as u32 - 48;
        proof {
            lemma_digits_val_nonneg(s@, d0 as int, p as int);
        }
        if !over {
            let na: u128 = acc * 10 + d as u128;
            if na > 0x8000_0000_0000_0000 {
                over = true;
            } else {
                acc = na;
            }
        }
        p = p + 1;
    }
    if over {
        proof {
            lemma_digits_val_nondec(s@, d0 as int, p as int, e as int);
        }
        return None;
    }
    if neg {
        let v: i64 = if acc == 0x8000_0000_0000_0000 {
            i64::MIN
        } else {
            -(acc as i64)
        };
        Some((Json::Int(v), e))
    } else {
        if acc == 0x8000_0000_0000_0000 {
            None
        } else {
            Some((Json::Int(acc as i64), e))
        }
    }
}

/// Parses the elements of a non-empty array, starting at the first element
/// and ending just past the closing bracket.
#[verifier::loop_isolation(false)]
#[verifier::rlimit(60)]
fn p_elems(s: &Vec<char>, start: usize) -> (r: Option<(Vec<Json>, usize)>)
    requires
        start <= s@.len(),
    ensures
        match r {
            Some(p) => sp_elems(s@, start as int) == Some((jsonv_of_list(p.0@), p.1 as int))
                && start < p.1 <= s@.len(),
            None => sp_elems(s@, start as int) is None,
        },
    decreases s@.len() - start, 2int,
{
    proof {
        lemma_sp_value_bounds(s@, start as int);
    }
    let n = s.len();
    let mut elems: Vec<Json> = Vec::new();
    let mut cur = start;
    loop
        invariant
            start <= cur <= n,
            sp_elems(s@, start as int) == (match sp_elems(s@, cur as int) {
                Some(p) => Some((jsonv_of_list(elems@) + p.0, p.1)),
                None => None::<(Seq<JsonV>, int)>,
            }),
        decreases n - cur,
    {
        let ghost cur0 = cur as int;
        let ghost evs = jsonv_of_list(elems@);
        proof {
            lemma_sp_value_bounds(s@, cur0);
        }
        match p_value(s, cur) {
            None => {
                return None;
            },
            Some((v, j)) => {
                proof {
                    lemma_sp_ws_bounds(s@, j as int);
                    lemma_jsonv_of_list_push(elems@, v);
                    assert(evs + seq![v@] =~= evs.push(v@));
                }
                let k = p_ws(s, j);
                elems.push(v);
                if k < n && s[k] == ']' {
                    proof {
                        assert(sp_elems(s@, cur0) == Some((seq![v@], k + 1)));
                        assert(evs + seq![v@] == jsonv_of_list(elems@));
                    }
                    return Some((elems, k + 1));
                } else if k < n && s[k] == ',' {
                    let m = p_ws(s, k + 1);
                    proof {
                        lemma_chain_step(evs, seq![v@], sp_elems(s@, cur0), sp_elems(s@, m as int));
                    }
                    cur = m;
                } else {
                    return None;
                }
            },
        }
    }
}

/// Parses the members of a non-empty object, starting at the first key and
/// ending just past the closing brace.
#[verifier::loop_isolation(false)]
#[verifier::rlimit(60)]
fn p_pairs(s: &Vec<char>, start: usize) -> (r: Option<(Vec<(String, Json)>, usize)>)
    requires
        start <= s@.len(),
    ensures
        match r {
            Some(p) => sp_pairs(s@, start as int) == Some((jsonv_of_pairs(p.0@), p.1 as int))
                && start < p.1 <= s@.len(),
            None => sp_pairs(s@, start as int) is None,
        },
    decreases s@.len() - start, 2int,
{
    proof {
        lemma_sp_value_bounds(s@, start as int);
    }
    let n = s.len();
    let mut pairs: Vec<(String, Json)> = Vec::new();
    let mut cur = start;
    loop
        invariant
            start <= cur <= n,
            sp_pairs(s@, start as int) == (match sp_pairs(s@, cur as int) {
                Some(p) => Some((jsonv_of_pairs(pairs@) + p.0, p.1)),
                None => None::<(Seq<(Seq<char>, JsonV)>, int)>,
            }),
        decreases n - cur,
    {
        let ghost cur0 = cur as int;
        let ghost pvs = jsonv_of_pairs(pairs@);
        proof {
            lemma_sp_value_bounds(s@, cur0);
        }
        if cur >= n || !(s[cur] == '"') {
            return None;
        }
        let mut kb: Vec<char> = Vec::new();
        match p_str_body(s, cur + 1, &mut kb) {
            None => {
                return None;
            },
            Some(j) => {
                let key = crate::ext::chars_to_string(&kb);
                let k = p_ws(s, j);
                if !(k < n && s[k] == ':') {
                    return None;
                }
                let m = p_ws(s, k + 1);
                proof {
                    lemma_sp_value_bounds(s@, m as int);
                }
                match p_value(s, m) {
                    None => {
                        return None;
                    },
                    Some((v, e)) => {
                        proof {
                            lemma_sp_ws_bounds(s@, e as int);
                            lemma_jsonv_of_pairs_push(pairs@, (key, v));
                            assert(pvs + seq![(key@, v@)] =~= pvs.push((key@, v@)));
                        }
                        let k2 = p_ws(s, e);
                        pairs.push((key, v));
                        if k2 < n && s[k2] == '}' {
                            proof {
                                assert(sp_pairs(s@, cur0) == Some((seq![(key@, v@)], k2 + 1)));
                                assert(pvs + seq![(key@, v@)] == jsonv_of_pairs(pairs@));
                            }
                            return Some((pairs, k2 + 1));
                        } else if k2 < n && s[k2] == ',' {
                            let m2 = p_ws(s, k2 + 1);
                            proof {
                                lemma_chain_step(
                                    pvs,
                                    seq![(key@, v@)],
                                    sp_pairs(s@, cur0),
                                    sp_pairs(s@, m2 as int),
                                );
                            }
                            cur = m2;
                        } else {
                            return None;
                        }
                    },
                }
            },
        }
    }
}

/// Parses one JSON value starting exactly at `i`.
#[verifier::loop_isolation(false)]
#[verifier::rlimit(60)]
fn p_value(s: &Vec<char>, i: usize) -> (r: Option<(Json, usize)>)
    requires
        i <= s@.len(),
    ensures
        lift_parsed(r) == sp_value(s@, i as int),
        r matches Some(p) ==> i < p.1 <= s@.len(),
    decreases s@.len() - i, 1int,
{
    proof {
        lemma_sp_value_bounds(s@, i as int);
    }
    let n = s.len();
    if i >= n {
        return None;
    }
    let c = s[i];
    if c == 'n' {
        if n - i >= 4 && s[i + 1] == 'u' && s[i + 2] == 'l' && s[i + 3] == 'l' {
            Some((Json::Null, i + 4))
        } else {
            None
        }
    } else if c == 't' {
        if n - i >= 4 && s[i + 1] == 'r' && s[i + 2] == 'u' && s[i + 3] == 'e' {
            Some((Json::Bool(true), i + 4))
        } else {
            None
        }
    } else if c == 'f' {
        if n - i >= 5 && s[i + 1] == 'a' && s[i + 2] == 'l' && s[i + 3] == 's' && s[i + 4] == 'e' {
            Some((Json::Bool(false), i + 5))
        } else {
            None
        }
    } else if c == '-' || ('0' as u32 <= c as u32 && c as u32 <= '9' as u32) {
        p_number(s, i)
    } else if c == '"' {
        let mut buf: Vec<char> = Vec::new();
        match p_str_body(s, i + 1, &mut buf) {
            Some(j) => Some((Json::Str(crate::ext::chars_to_string(&buf)), j)),
            None => None,
        }
    } else if c == '[' {
        let j0 = p_ws(s, i + 1);
        if j0 < n && s[j0] == ']' {
            let elems: Vec<Json> = Vec::new();
            return Some((Json::Arr(elems), j0 + 1));
        }
        match p_elems(s, j0) {
            Some((elems, k)) => Some((Json::Arr(elems), k)),
            None => None,
        }
    } else if c == '{' {
        let j0 = p_ws(s, i + 1);
        if j0 < n && s[j0] == '}' {
            let pairs: Vec<(String, Json)> = Vec::new();
            return Some((Json::Obj(pairs), j0 + 1));
        }
        match p_pairs(s, j0) {
            Some((pairs, k)) => Some((Json::Obj(pairs), k)),
            None => None,
        }
    } else {
        None
    }
}

/// Parses one line of input as a JSON value: whitespace around one value,
/// and nothing else.  `None` is a malformed line.
pub fn decode_json(s: &str) -> (r: Option<Json>)
    ensures
        match r {
            Some(j) => sp_json(s@) == Some(j@),
            None => sp_json(s@) is None,
        },
{
    let cs = crate::ext::str_to_chars(s);
    let i = p_ws(&cs, 0);
    match p_value(&cs, i) {
        Some((v, j)) => {
            let e = p_ws(&cs, j);
            if e == cs.len() {
                Some(v)
            } else {
                None
            }
        },
        None => None,
    }
}

/// Values whose integers fit the wire's number range; every decoded or
/// encodable value satisfies this.
pub open spec fn wf_jsonv(v: JsonV) -> bool
    decreases v, 1int,
{
    match v {
        JsonV::Null => true,
        JsonV::Bool(_) => true,
        JsonV::Int(i) => i64::MIN as int <= i <= i64::MAX as int,
        JsonV::Str(_) => true,
        JsonV::Arr(elems) => wf_jsonv_list(elems),
        JsonV::Obj(pairs) => wf_jsonv_pairs(pairs),
    }
}

pub open spec fn wf_jsonv_list(elems: Seq<JsonV>) -> bool
    decreases elems, 0int,
{
    forall|k: int|
        0 <= k < elems.len() ==> {
            proof {
                assert(decreases_to!(elems => elems[k]));
            }
            wf_jsonv(#[trigger] elems[k])
        }
}

pub open spec fn wf_jsonv_pairs(pairs: Seq<(Seq<char>, JsonV)>) -> bool
    decreases pairs, 0int,
{
    forall|k: int|
        0 <= k < pairs.len() ==> {
            proof {
                assert(decreases_to!(pairs => pairs[k]));
                assert(decreases_to!(pairs[k] => pairs[k].1));
            }
            wf_jsonv(#[trigger] pairs[k].1)
        }
}

/// Position `e` cannot extend a number ending there.
pub open spec fn delimits(s: Seq<char>, e: int) -> bool {
    e == s.len() || !is_digit(s[e])
}

proof fn lemma_digit_char_val(d: int)
    requires
        0 <= d < 10,
    ensures
        is_digit(digit_char(d)),
        digit_val(digit_char(d)) == d,
{
}

/// The decimal digits of `n` are digits, start with one, and read back as
/// `n`.
proof fn lemma_dec_digits_shape(n: nat)
    ensures
        dec_digits(n).len() >= 1,
        forall|k: int| 0 <= k < dec_digits(n).len() ==> is_digit(#[trigger] dec_digits(n)[k]),
    decreases n,
{
    if n < 10 {
        lemma_digit_char_val(n as int);
    } else {
        lemma_dec_digits_shape(n / 10);
        lemma_digit_char_val((n % 10) as int);
        assert forall|k: int| 0 <= k < dec_digits(n).len() implies is_digit(
            #[trigger] dec_digits(n)[k],
        ) by {
            if k < dec_digits(n).len() - 1 {
                assert(dec_digits(n)[k] == dec_digits(n / 10)[k]);
            }
        }
    }
}

/// Reading the printed digits of `n` from a surrounding text gives `n`.
proof fn lemma_digits_val_of_print(s: Seq<char>, i: int, n: nat)
    requires
        0 <= i,
        i + dec_digits(n).len() <= s.len(),
        s.subrange(i, i + dec_digits(n).len() as int) == dec_digits(n),
    ensures
        digits_val(s, i, i + dec_digits(n).len() as int) == n,
    decreases n,
{
    let len = dec_digits(n).len() as int;
    assert forall|k: int| 0 <= k < len implies s[i + k] == #[trigger] dec_digits(n)[k] by {
        assert(s.subrange(i, i + len)[k] == s[i + k]);
    }
    if n < 10 {
        lemma_digit_char_val(n as int);
        assert(s[i + 0] == dec_digits(n)[0]);
        assert(digits_val(s, i, i) == 0);
        assert(digits_val(s, i, i + 1) == digits_val(s, i, i) * 10 + digit_val(s[i + 1 - 1]));
    } else {
        lemma_dec_digits_shape(n / 10);
        lemma_digit_char_val((n % 10) as int);
        assert(s.subrange(i, i + len - 1) =~= dec_digits(n / 10)) by {
            assert forall|k: int|
                0 <= k < len - 1 implies s.subrange(i, i + len - 1)[k] == #[trigger] dec_digits(
                n / 10,
            )[k] by {
                assert(s.subrange(i, i + len - 1)[k] == s[i + k]);
                assert(dec_digits(n)[k] == dec_digits(n / 10)[k]);
            }
        }
        lemma_digits_val_of_print(s, i, n / 10);
        assert(s[i + (len - 1)] == dec_digits(n)[len - 1]);
        assert(digit_val(s[i + (len - 1)]) == n % 10);
    }
}

/// A run of digits followed by a delimiter scans to exactly the delimiter.
proof fn lemma_digits_end_of_run(s: Seq<char>, i: int, e: int)
    requires
        0 <= i <= e <= s.len(),
        forall|k: int| i <= k < e ==> is_digit(#[trigger] s[k]),
        delimits(s, e),
    ensures
        sp_digits_end(s, i) == e,
    decreases e - i,
{
    if i < e {
        lemma_digits_end_of_run(s, i + 1, e);
    }
}

/// Whitespace skipping does nothing where no whitespace stands.
proof fn lemma_ws_noskip(s: Seq<char>, i: int)
    requires
        i >= s.len() || !is_ws(s[i]),
    ensures
        sp_ws(s, i) == i,
{
}

/// Parsing the printed form of an integer from a surrounding text yields
/// exactly that integer.
proof fn lemma_parse_print_int(s: Seq<char>, i: int, n: int)
    requires
        i64::MIN as int <= n <= i64::MAX as int,
        0 <= i,
        i + print_int(n).len() <= s.len(),
        s.subrange(i, i + print_int(n).len() as int) == print_int(n),
        delimits(s, i + print_int(n).len() as int),
    ensures
        sp_number(s, i) == Some((JsonV::Int(n), i + print_int(n).len() as int)),
{
    let len = print_int(n).len() as int;
    assert forall|k: int| 0 <= k < len implies s[i + k] == #[trigger] print_int(n)[k] by {
        assert(s.subrange(i, i + len)[k] == s[i + k]);
    }
    if n >= 0 {
        lemma_dec_digits_shape(n as nat);
        assert(s[i + 0] == print_int(n)[0]);
        assert(is_digit(s[i]));
        assert(s[i] != '-') by {
            assert(('0' as u32) > ('-' as u32));
        }
        assert forall|k: int| i <= k < i + len implies is_digit(#[trigger] s[k]) by {
            assert(s[k] == print_int(n)[k - i]);
        }
        lemma_digits_end_of_run(s, i, i + len);
        assert(s.subrange(i, i + len) =~= dec_digits(n as nat));
        lemma_digits_val_of_print(s, i, n as nat);
    } else {
        let mag = (-n) as nat;
        lemma_dec_digits_shape(mag);
        assert(s[i + 0] == print_int(n)[0]);
        assert(s[i] == '-');
        assert(forall|k: int|
            0 <= k < len - 1 ==> #[trigger] print_int(n)[k + 1] == dec_digits(mag)[k]);
        assert forall|k: int| i + 1 <= k < i + len implies is_digit(#[trigger] s[k]) by {
            assert(s[k] == print_int(n)[k - i]);
            assert(print_int(n)[(k - i - 1) + 1] == dec_digits(mag)[k - i - 1]);
        }
        lemma_digits_end_of_run(s, i + 1, i + len);
        assert(s.subrange(i + 1, i + len) =~= dec_digits(mag)) by {
            assert forall|k: int|
                0 <= k < len - 1 implies s.subrange(i + 1, i + len)[k] == #[trigger] dec_digits(
                mag,
            )[k] by {
                assert(s.subrange(i + 1, i + len)[k] == s[i + 1 + k]);
                assert(s[i + 1 + k] == print_int(n)[k + 1]);
            }
        }
        lemma_digits_val_of_print(s, i + 1, mag);
        assert(!is_digit('-')) by {
            assert(('0' as u32) > ('-' as u32));
        }
    }
}

/// The hex digits the printer writes read back as their value.
proof fn lemma_hexv_digit(d: int)
    requires
        0 <= d < 16,
    ensures
        hexv(digit_char(d)) == d,
{
}

/// Parsing the printed body of a string from position `k` on yields
/// exactly the remaining characters.
proof fn lemma_parse_print_str(s: Seq<char>, i: int, cs: Seq<char>, k: int)
    requires
        0 <= k <= cs.len(),
        0 <= i,
        i + print_str_from(cs, k).len() + 1 <= s.len(),
        s.subrange(i, i + print_str_from(cs, k).len() as int) == print_str_from(cs, k),
        s[i + print_str_from(cs, k).len() as int] == '"',
    ensures
        sp_str_body(s, i) == Some((cs.skip(k), i + print_str_from(cs, k).len() + 1)),
    decreases cs.len() - k,
{
    let plen = print_str_from(cs, k).len() as int;
    assert forall|t: int| 0 <= t < plen implies s[i + t] == #[trigger] print_str_from(cs, k)[t] by {
        assert(s.subrange(i, i + plen)[t] == s[i + t]);
    }
    if k == cs.len() {
        assert(cs.skip(k) =~= Seq::<char>::empty());
    } else {
        let c = cs[k];
        let ec = esc_char(c);
        let rest = print_str_from(cs, k + 1);
        let rlen = rest.len() as int;
        assert(print_str_from(cs, k) == ec + rest);
        assert(forall|t: int| 0 <= t < ec.len() ==> #[trigger] print_str_from(cs, k)[t] == ec[t]);
        assert(forall|t: int|
            0 <= t < rlen ==> #[trigger] print_str_from(cs, k)[ec.len() + t] == rest[t]);
        let j = i + ec.len() as int;
        assert(s.subrange(j, j + rlen) =~= rest) by {
            assert forall|t: int| 0 <= t < rlen implies s.subrange(j, j + rlen)[t] == #[trigger] rest[t] by {
                assert(s.subrange(j, j + rlen)[t] == s[j + t]);
                assert(s[j + t] == print_str_from(cs, k)[ec.len() + t]);
            }
        }
        assert(s[j + rlen] == '"');
        lemma_parse_print_str(s, j, cs, k + 1);
        assert(seq![c] + cs.skip(k + 1) =~= cs.skip(k));
        assert(s[i + 0] == print_str_from(cs, k)[0]);
        if ec.len() >= 2 {
            assert(s[i + 1] == print_str_from(cs, k)[1]);
        }
        if ec.len() == 6 {
            assert(s[i + 2] == print_str_from(cs, k)[2]);
            assert(s[i + 3] == print_str_from(cs, k)[3]);
            assert(s[i + 4] == print_str_from(cs, k)[4]);
            assert(s[i + 5] == print_str_from(cs, k)[5]);
        }
        if c == '"' || c == '\\' || c == '\n' || c == '\r' || c == '\t' {
            assert(s[i] == '\\');
        } else if (c as u32) < 0x20 {
            assert(s[i] == '\\' && s[i + 1] == 'u' && s[i + 2] == '0' && s[i + 3] == '0');
            let hi = c as u32 as int / 16;
            let lo = c as u32 as int % 16;
            lemma_hexv_digit(hi);
            lemma_hexv_digit(lo);
            assert(s[i + 4] == digit_char(hi) && s[i + 5] == digit_char(lo));
            assert(sp_hex4(s, i + 2) == c as u32 as int) by {
                assert(hexv(s[i + 2]) == 0 && hexv(s[i + 3]) == 0);
            }
            assert(char_of(c as u32 as int) == c) by {
                vstd::utf8::char_u32_cast(c, c as u32);
            }
        } else {
            assert(s[i] == c);
        }
    }
}

/// Printed values are at least one character long and never start with
/// whitespace.
proof fn lemma_print_head(v: JsonV)
    ensures
        print_json(v).len() >= 1,
        !is_ws(print_json(v)[0]),
{
    match v {
        JsonV::Int(i) => {
            if i >= 0 {
                lemma_dec_digits_shape(i as nat);
                assert(print_json(v)[0] == dec_digits(i as nat)[0]);
            } else {
                lemma_dec_digits_shape((-i) as nat);
                assert(print_json(v)[0] == '-');
            }
        },
        JsonV::Str(cs) => {
            assert(print_json(v)[0] == '"');
        },
        JsonV::Arr(elems) => {
            assert(print_json(v)[0] == '[');
        },
        JsonV::Obj(pairs) => {
            assert(print_json(v)[0] == '{');
        },
        _ => {},
    }
}

/// Parsing the printed form of a value out of a surrounding text yields
/// exactly that value, ending right after it.
#[verifier::rlimit(100)]
#[verifier::spinoff_prover]
proof fn lemma_parse_print(v: JsonV, s: Seq<char>, i: int)
    requires
        wf_jsonv(v),
        0 <= i,
        i + print_json(v).len() <= s.len(),
        s.subrange(i, i + print_json(v).len() as int) == print_json(v),
        delimits(s, i + print_json(v).len() as int),
    ensures
        sp_value(s, i) == Some((v, i + print_json(v).len() as int)),
    decreases v, 0int,
{
    let p = print_json(v);
    let plen = p.len() as int;
    lemma_print_head(v);
    assert forall|t: int| 0 <= t < plen implies s[i + t] == #[trigger] p[t] by {
        assert(s.subrange(i, i + plen)[t] == s[i + t]);
    }
    assert(s[i + 0] == p[0]);
    match v {
        JsonV::Null => {
            assert(s[i + 1] == p[1] && s[i + 2] == p[2] && s[i + 3] == p[3]);
            assert(s[i] == 'n' && s[i + 1] == 'u' && s[i + 2] == 'l' && s[i + 3] == 'l');
        },
        JsonV::Bool(b) => {
            if b {
                assert(s[i + 1] == p[1] && s[i + 2] == p[2] && s[i + 3] == p[3]);
                assert(s[i] == 't' && s[i + 1] == 'r' && s[i + 2] == 'u' && s[i + 3] == 'e');
            } else {
                assert(s[i + 1] == p[1] && s[i + 2] == p[2] && s[i + 3] == p[3] && s[i + 4]
                    == p[4]);
                assert(s[i] == 'f' && s[i + 1] == 'a' && s[i + 2] == 'l' && s[i + 3] == 's' && s[i
                    + 4] == 'e');
            }
        },
        JsonV::Int(n) => {
            lemma_parse_print_int(s, i, n);
            if n >= 0 {
                lemma_dec_digits_shape(n as nat);
                assert(is_digit(s[i]));
            } else {
                assert(s[i] == '-');
            }
        },
        JsonV::Str(cs) => {
            assert(s[i] == '"');
            let body = print_str_from(cs, 0);
            let blen = body.len() as int;
            assert(forall|t: int| 0 <= t < blen ==> p[1 + t] == #[trigger] body[t]);
            assert(s.subrange(i + 1, i + 1 + blen) =~= body) by {
                assert forall|t: int|
                    0 <= t < blen implies s.subrange(i + 1, i + 1 + blen)[t]
                    == #[trigger] body[t] by {
                    assert(s.subrange(i + 1, i + 1 + blen)[t] == s[i + 1 + t]);
                    assert(s[i + 1 + t] == p[1 + t]);
                }
            }
            assert(s[i + (1 + blen)] == p[1 + blen]);
            assert(p[1 + blen] == '"');
            lemma_parse_print_str(s, i + 1, cs, 0);
            assert(cs.skip(0) =~= cs);
        },
        JsonV::Arr(elems) => {
            lemma_parse_print_arr(elems, s, i);
        },
        JsonV::Obj(pairs) => {
            lemma_parse_print_obj(pairs, s, i);
        },
    }
}

/// The array case of [`lemma_parse_print`].
#[verifier::rlimit(100)]
#[verifier::spinoff_prover]
proof fn lemma_parse_print_arr(elems: Seq<JsonV>, s: Seq<char>, i: int)
    requires
        wf_jsonv(JsonV::Arr(elems)),
        0 <= i,
        i + print_json(JsonV::Arr(elems)).len() <= s.len(),
        s.subrange(i, i + print_json(JsonV::Arr(elems)).len() as int) == print_json(
            JsonV::Arr(elems),
        ),
        delimits(s, i + print_json(JsonV::Arr(elems)).len() as int),
    ensures
        sp_value(s, i) == Some(
            (JsonV::Arr(elems), i + print_json(JsonV::Arr(elems)).len() as int),
        ),
    decreases elems, elems.len() + 1,
{
    let v = JsonV::Arr(elems);
    let p = print_json(v);
    let plen = p.len() as int;
    assert forall|t: int| 0 <= t < plen implies s[i + t] == #[trigger] p[t] by {
        assert(s.subrange(i, i + plen)[t] == s[i + t]);
    }
    assert(s[i + 0] == p[0]);
    assert(s[i] == '[');
    let inner = print_elems_from(elems, 0);
    let ilen = inner.len() as int;
    assert(forall|t: int| 0 <= t < ilen ==> p[1 + t] == #[trigger] inner[t]);
    assert(s[i + (1 + ilen)] == p[1 + ilen]);
    assert(p[1 + ilen] == ']');
    if elems.len() == 0 {
        assert(ilen == 0);
        assert(s[i + 1] == ']');
        lemma_ws_noskip(s, i + 1);
        assert(elems =~= Seq::<JsonV>::empty());
    } else {
        assert(decreases_to!(elems => elems[0]));
        lemma_print_head(elems[0]);
        assert(inner[0] == print_json(elems[0])[0]);
        assert(s[i + 1] == inner[0]);
        lemma_ws_noskip(s, i + 1);
        assert(s[i + 1] != ']') by {
            lemma_parse_print_arr_head(elems[0]);
        }
        assert(inner =~= print_json(elems[0]) + print_elems_from(elems, 1));
        assert(s.subrange(i + 1, i + 1 + ilen + 1) =~= print_json(elems[0]) + print_elems_from(
            elems,
            1,
        ) + seq![']']) by {
            assert forall|t: int|
                0 <= t < ilen + 1 implies #[trigger] s.subrange(i + 1, i + 1 + ilen + 1)[t] == (
            print_json(elems[0]) + print_elems_from(elems, 1) + seq![']'])[t] by {
                assert(s.subrange(i + 1, i + 1 + ilen + 1)[t] == s[i + 1 + t]);
                if t < ilen {
                    assert(s[i + (1 + t)] == p[1 + t]);
                } else {
                    assert(s[i + (1 + ilen)] == ']');
                }
            }
        }
        lemma_parse_print_elems(elems, 0, s, i + 1);
        assert(elems.skip(0) =~= elems);
    }
}

/// The object case of [`lemma_parse_print`].
#[verifier::rlimit(100)]
#[verifier::spinoff_prover]
proof fn lemma_parse_print_obj(pairs: Seq<(Seq<char>, JsonV)>, s: Seq<char>, i: int)
    requires
        wf_jsonv(JsonV::Obj(pairs)),
        0 <= i,
        i + print_json(JsonV::Obj(pairs)).len() <= s.len(),
        s.subrange(i, i + print_json(JsonV::Obj(pairs)).len() as int) == print_json(
            JsonV::Obj(pairs),
        ),
        delimits(s, i + print_json(JsonV::Obj(pairs)).len() as int),
    ensures
        sp_value(s, i) == Some(
            (JsonV::Obj(pairs), i + print_json(JsonV::Obj(pairs)).len() as int),
        ),
    decreases pairs, pairs.len() + 1,
{
    let v = JsonV::Obj(pairs);
    let p = print_json(v);
    let plen = p.len() as int;
    assert forall|t: int| 0 <= t < plen implies s[i + t] == #[trigger] p[t] by {
        assert(s.subrange(i, i + plen)[t] == s[i + t]);
    }
    assert(s[i + 0] == p[0]);
    assert(s[i] == '{');
    let inner = print_pairs_from(pairs, 0);
    let ilen = inner.len() as int;
    assert(forall|t: int| 0 <= t < ilen ==> p[1 + t] == #[trigger] inner[t]);
    assert(s[i + (1 + ilen)] == p[1 + ilen]);
    assert(p[1 + ilen] == '}');
    if pairs.len() == 0 {
        assert(ilen == 0);
        assert(s[i + 1] == '}');
        lemma_ws_noskip(s, i + 1);
        assert(pairs =~= Seq::<(Seq<char>, JsonV)>::empty());
    } else {
        assert(inner[0] == '"');
        assert(s[i + 1] == inner[0]);
        lemma_ws_noskip(s, i + 1);
        assert(inner =~= seq!['"'] + print_str_from(pairs[0].0, 0) + seq!['"', ':'] + print_json(
            pairs[0].1,
        ) + print_pairs_from(pairs, 1));
        assert(s.subrange(i + 1, i + 1 + ilen + 1) =~= seq!['"'] + print_str_from(pairs[0].0, 0)
            + seq!['"', ':'] + print_json(pairs[0].1) + print_pairs_from(pairs, 1) + seq![
            '}'
        ]) by {
            assert forall|t: int|
                0 <= t < ilen + 1 implies #[trigger] s.subrange(i + 1, i + 1 + ilen + 1)[t] == (
            seq!['"'] + print_str_from(pairs[0].0, 0) + seq!['"', ':'] + print_json(pairs[0].1)
                + print_pairs_from(pairs, 1) + seq!['}'])[t] by {
                assert(s.subrange(i + 1, i + 1 + ilen + 1)[t] == s[i + 1 + t]);
                if t < ilen {
                    assert(s[i + (1 + t)] == p[1 + t]);
                } else {
                    assert(s[i + (1 + ilen)] == '}');
                }
            }
        }
        lemma_parse_print_pairs(pairs, 0, s, i + 1);
        assert(pairs.skip(0) =~= pairs);
    }
}

/// No printed value starts with a closing bracket.
proof fn lemma_parse_print_arr_head(v: JsonV)
    ensures
        print_json(v)[0] != ']',
        print_json(v)[0] != '}',
        print_json(v)[0] != ',',
{
    lemma_print_head(v);
    match v {
        JsonV::Int(i) => {
            if i >= 0 {
                lemma_dec_digits_shape(i as nat);
                assert(print_json(v)[0] == dec_digits(i as nat)[0]);
                assert(is_digit(print_json(v)[0]));
            } else {
                assert(print_json(v)[0] == '-');
            }
        },
        JsonV::Str(_) => {
            assert(print_json(v)[0] == '"');
        },
        JsonV::Arr(_) => {
            assert(print_json(v)[0] == '[');
        },
        JsonV::Obj(_) => {
            assert(print_json(v)[0] == '{');
        },
        _ => {},
    }
}

/// Parsing the printed elements `k..` of an array, with the closing
/// bracket behind them, yields exactly those elements.
#[verifier::rlimit(100)]
#[verifier::spinoff_prover]
proof fn lemma_parse_print_elems(elems: Seq<JsonV>, k: int, s: Seq<char>, i: int)
    requires
        wf_jsonv_list(elems),
        0 <= k < elems.len(),
        0 <= i,
        i + print_json(elems[k]).len() + print_elems_from(elems, k + 1).len() + 1 <= s.len(),
        s.subrange(
            i,
            i + print_json(elems[k]).len() + print_elems_from(elems, k + 1).len() + 1,
        ) == print_json(elems[k]) + print_elems_from(elems, k + 1) + seq![']'],
        delimits(s, i + print_json(elems[k]).len() + print_elems_from(elems, k + 1).len() + 1),
    ensures
        sp_elems(s, i) == Some(
            (
                elems.skip(k),
                i + print_json(elems[k]).len() + print_elems_from(elems, k + 1).len() + 1,
            ),
        ),
    decreases elems, elems.len() - k,
{
    let pv = print_json(elems[k]);
    let vlen = pv.len() as int;
    let rest = print_elems_from(elems, k + 1);
    let rlen = rest.len() as int;
    let total = vlen + rlen + 1;
    let whole = pv + rest + seq![']'];
    assert forall|t: int| 0 <= t < total implies s[i + t] == #[trigger] whole[t] by {
        assert(s.subrange(i, i + total)[t] == s[i + t]);
    }
    // the value itself
    assert(s.subrange(i, i + vlen) =~= pv) by {
        assert forall|t: int| 0 <= t < vlen implies s.subrange(i, i + vlen)[t]
            == #[trigger] pv[t] by {
            assert(s.subrange(i, i + vlen)[t] == s[i + t]);
            assert(whole[t] == pv[t]);
        }
    }
    assert(s[i + vlen] == whole[vlen]);
    if k + 1 < elems.len() {
        assert(rest[0] == ',') by {
            assert(rest == seq![','] + print_json(elems[k + 1]) + print_elems_from(elems, k + 2));
        }
        assert(whole[vlen] == ',');
        assert(delimits(s, i + vlen)) by {
            assert(!is_digit(','));
        }
        assert(decreases_to!(elems => elems[k]));
        lemma_parse_print(elems[k], s, i);
        lemma_ws_noskip(s, i + vlen);
        // step over the comma to the next element's text
        let m = i + vlen + 1;
        let rest2 = print_elems_from(elems, k + 2);
        assert(rest =~= seq![','] + print_json(elems[k + 1]) + rest2);
        lemma_print_head(elems[k + 1]);
        assert(s[m + 0] == whole[vlen + 1]);
        assert(whole[vlen + 1] == rest[1]);
        assert(rest[1] == print_json(elems[k + 1])[0]);
        lemma_ws_noskip(s, m);
        assert(s.subrange(m, m + print_json(elems[k + 1]).len() + rest2.len() + 1) =~= print_json(
            elems[k + 1],
        ) + rest2 + seq![']']) by {
            assert forall|t: int|
                0 <= t < print_json(elems[k + 1]).len() + rest2.len() + 1 implies #[trigger] s.subrange(
                m,
                m + print_json(elems[k + 1]).len() + rest2.len() + 1,
            )[t] == (print_json(elems[k + 1]) + rest2 + seq![']'])[t] by {
                assert(s.subrange(m, m + print_json(elems[k + 1]).len() + rest2.len() + 1)[t] == s[
                    m + t
                ]);
                assert(s[m + t] == whole[vlen + 1 + t]);
                if t < print_json(elems[k + 1]).len() {
                    assert(whole[vlen + 1 + t] == rest[1 + t]);
                    assert(rest[1 + t] == print_json(elems[k + 1])[t]);
                } else if t < print_json(elems[k + 1]).len() + rest2.len() {
                    assert(whole[vlen + 1 + t] == rest[1 + t]);
                    assert(rest[1 + t] == rest2[t - print_json(elems[k + 1]).len()]);
                } else {
                    assert(whole[vlen + 1 + t] == ']');
                }
            }
        }
        lemma_parse_print_elems(elems, k + 1, s, m);
        assert(seq![elems[k]] + elems.skip(k + 1) =~= elems.skip(k));
    } else {
        assert(rlen == 0);
        assert(whole[vlen] == ']');
        assert(delimits(s, i + vlen)) by {
            assert(!is_digit(']'));
        }
        assert(decreases_to!(elems => elems[k]));
        lemma_parse_print(elems[k], s, i);
        lemma_ws_noskip(s, i + vlen);
        assert(seq![elems[k]] =~= elems.skip(k));
    }
}

/// Parsing the printed members `k..` of an object, with the closing brace
/// behind them, yields exactly those members.
#[verifier::rlimit(100)]
#[verifier::spinoff_prover]
proof fn lemma_parse_print_pairs(pairs: Seq<(Seq<char>, JsonV)>, k: int, s: Seq<char>, i: int)
    requires
        wf_jsonv_pairs(pairs),
        0 <= k < pairs.len(),
        0 <= i,
        i + 3 + print_str_from(pairs[k].0, 0).len() + print_json(pairs[k].1).len()
            + print_pairs_from(pairs, k + 1).len() + 1 <= s.len(),
        s.subrange(
            i,
            i + 3 + print_str_from(pairs[k].0, 0).len() + print_json(pairs[k].1).len()
                + print_pairs_from(pairs, k + 1).len() + 1,
        ) == seq!['"'] + print_str_from(pairs[k].0, 0) + seq!['"', ':'] + print_json(pairs[k].1)
            + print_pairs_from(pairs, k + 1) + seq!['}'],
        delimits(
            s,
            i + 3 + print_str_from(pairs[k].0, 0).len() + print_json(pairs[k].1).len()
                + print_pairs_from(pairs, k + 1).len() + 1,
        ),
    ensures
        sp_pairs(s, i) == Some(
            (
                pairs.skip(k),
                i + 3 + print_str_from(pairs[k].0, 0).len() + print_json(pairs[k].1).len()
                    + print_pairs_from(pairs, k + 1).len() + 1,
            ),
        ),
    decreases pairs, pairs.len() - k,
{
    let key = pairs[k].0;
    let kb = print_str_from(key, 0);
    let klen = kb.len() as int;
    let pv = print_json(pairs[k].1);
    let vlen = pv.len() as int;
    let rest = print_pairs_from(pairs, k + 1);
    let rlen = rest.len() as int;
    let total = 3 + klen + vlen + rlen + 1;
    let whole = seq!['"'] + kb + seq!['"', ':'] + pv + rest + seq!['}'];
    assert forall|t: int| 0 <= t < total implies s[i + t] == #[trigger] whole[t] by {
        assert(s.subrange(i, i + total)[t] == s[i + t]);
    }
    assert(s[i + 0] == whole[0]);
    assert(whole[0] == '"');
    // the key string
    assert(s.subrange(i + 1, i + 1 + klen) =~= kb) by {
        assert forall|t: int| 0 <= t < klen implies s.subrange(i + 1, i + 1 + klen)[t]
            == #[trigger] kb[t] by {
            assert(s.subrange(i + 1, i + 1 + klen)[t] == s[i + 1 + t]);
            assert(whole[1 + t] == kb[t]);
        }
    }
    assert(s[i + (1 + klen)] == whole[1 + klen]);
    assert(whole[1 + klen] == '"');
    lemma_parse_print_str(s, i + 1, key, 0);
    assert(key.skip(0) =~= key);
    // the colon, then the value
    let colon = i + 2 + klen;
    assert(s[i + (2 + klen)] == whole[2 + klen]);
    assert(whole[2 + klen] == ':');
    lemma_ws_noskip(s, colon);
    let vstart = i + 3 + klen;
    lemma_print_head(pairs[k].1);
    assert(s[i + (3 + klen)] == whole[3 + klen]);
    assert(whole[3 + klen] == pv[0]);
    lemma_ws_noskip(s, vstart);
    assert(s.subrange(vstart, vstart + vlen) =~= pv) by {
        assert forall|t: int| 0 <= t < vlen implies s.subrange(vstart, vstart + vlen)[t]
            == #[trigger] pv[t] by {
            assert(s.subrange(vstart, vstart + vlen)[t] == s[vstart + t]);
            assert(s[i + (3 + klen + t)] == whole[3 + klen + t]);
            assert(whole[3 + klen + t] == pv[t]);
        }
    }
    let vend = vstart + vlen;
    assert(s[i + (3 + klen + vlen)] == whole[3 + klen + vlen]);
    assert(decreases_to!(pairs => pairs[k]));
    assert(decreases_to!(pairs[k] => pairs[k].1));
    if k + 1 < pairs.len() {
        assert(rest[0] == ',') by {
            assert(rest == seq![','] + seq!['"'] + print_str_from(pairs[k + 1].0, 0) + seq![
                '"',
                ':',
            ] + print_json(pairs[k + 1].1) + print_pairs_from(pairs, k + 2));
        }
        assert(whole[3 + klen + vlen] == ',');
        assert(delimits(s, vend)) by {
            assert(!is_digit(','));
        }
        lemma_parse_print(pairs[k].1, s, vstart);
        lemma_ws_noskip(s, vend);
        let m = vend + 1;
        let kb2 = print_str_from(pairs[k + 1].0, 0);
        let pv2 = print_json(pairs[k + 1].1);
        let rest2 = print_pairs_from(pairs, k + 2);
        assert(rest =~= seq![','] + seq!['"'] + kb2 + seq!['"', ':'] + pv2 + rest2);
        assert(s[m + 0] == whole[3 + klen + vlen + 1]);
        assert(whole[3 + klen + vlen + 1] == rest[1]);
        assert(rest[1] == '"');
        lemma_ws_noskip(s, m);
        let total2 = 3 + kb2.len() as int + pv2.len() as int + rest2.len() as int + 1;
        assert(s.subrange(m, m + total2) =~= seq!['"'] + kb2 + seq!['"', ':'] + pv2 + rest2 + seq![
            '}'
        ]) by {
            assert forall|t: int|
                0 <= t < total2 implies s.subrange(m, m + total2)[t] == (seq!['"'] + kb2 + seq![
                '"',
                ':',
            ] + pv2 + rest2 + seq!['}'])[t] by {
                assert(s.subrange(m, m + total2)[t] == s[m + t]);
                assert(s[i + (3 + klen + vlen + 1 + t)] == whole[3 + klen + vlen + 1 + t]);
                if t < total2 - 1 {
                    assert(whole[3 + klen + vlen + 1 + t] == rest[1 + t]);
                } else {
                    assert(whole[3 + klen + vlen + 1 + t] == '}');
                }
            }
        }
        lemma_parse_print_pairs(pairs, k + 1, s, m);
        assert(seq![pairs[k]] + pairs.skip(k + 1) =~= pairs.skip(k));
    } else {
        assert(rlen == 0);
        assert(whole[3 + klen + vlen] == '}');
        assert(delimits(s, vend)) by {
            assert(!is_digit('}'));
        }
        lemma_parse_print(pairs[k].1, s, vstart);
        lemma_ws_noskip(s, vend);
        assert(seq![pairs[k]] =~= pairs.skip(k));
    }
}

/// Printing a value and parsing the text back yields the value: the
/// codec's round trip at the grammar level.
pub proof fn lemma_json_round_trip(v: JsonV)
    requires
        wf_jsonv(v),
    ensures
        sp_json(print_json(v)) == Some(v),
{
    let s = print_json(v);
    lemma_print_head(v);
    lemma_ws_noskip(s, 0);
    assert(s.subrange(0, s.len() as int) =~= s);
    lemma_parse_print(v, s, 0);
    lemma_ws_noskip(s, s.len() as int);
}

} // verus!
