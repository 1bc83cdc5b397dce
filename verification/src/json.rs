use vstd::prelude::*;

use crate::ip::{
    lemma_dec_digit_roundtrip, lemma_dec_roundtrip, lemma_hex_digit_roundtrip, push_dec,
    spec_dec, spec_dec_val, spec_hex_digit, spec_hex_val, spec_is_digit, spec_is_hex,
};

verus! {

/// The abstract value of a piece of persisted text: an unsigned number, a
/// string, an array, or an object held as its ordered member list.
///
/// This is the grammar the persisted flow table uses; it has no null,
/// boolean, fraction or exponent, which the persisted schema never carries.
pub enum JsonV {
    Num(u64),
    Str(Seq<char>),
    Arr(Seq<JsonV>),
    Obj(Seq<(Seq<char>, JsonV)>),
}

/// A piece of persisted structure, as executable data; its abstract value
/// is a [`JsonV`].
pub enum Json {
    Num(u64),
    Str(Vec<char>),
    Arr(Vec<Json>),
    Obj(Vec<(Vec<char>, Json)>),
}

/// The abstract value of executable persisted structure.
pub open spec fn json_view(j: Json) -> JsonV
    decreases j,
{
    match j {
        Json::Num(n) => JsonV::Num(n),
        Json::Str(s) => JsonV::Str(s@),
        Json::Arr(es) => JsonV::Arr(json_view_elems(es@)),
        Json::Obj(ms) => JsonV::Obj(json_view_members(ms@)),
    }
}

/// The abstract values of executable array elements.
pub open spec fn json_view_elems(es: Seq<Json>) -> Seq<JsonV>
    decreases es,
{
    if es.len() == 0 {
        Seq::empty()
    } else {
        json_view_elems(es.drop_last()).push(json_view(es.last()))
    }
}

/// The abstract values of executable object members.
pub open spec fn json_view_members(ms: Seq<(Vec<char>, Json)>) -> Seq<(Seq<char>, JsonV)>
    decreases ms,
{
    if ms.len() == 0 {
        Seq::empty()
    } else {
        json_view_members(ms.drop_last()).push((ms.last().0@, json_view(ms.last().1)))
    }
}

impl View for Json {
    type V = JsonV;

    open spec fn view(&self) -> JsonV {
        json_view(*self)
    }
}

/// The printed form of one string character: quotes and backslashes are
/// escaped, control characters become a `\u` escape, everything else
/// stands as itself.
pub open spec fn spec_escape_char(c: char) -> Seq<char> {
    if c == '"' {
        seq!['\\', '"']
    } else if c == '\\' {
        seq!['\\', '\\']
    } else if (c as u32) < 32 {
        seq!['\\', 'u', '0', '0', spec_hex_digit((c as u32 / 16) as int), spec_hex_digit((c as u32 % 16) as int)]
    } else {
        seq![c]
    }
}

/// The printed form of string contents.
pub open spec fn spec_escape(s: Seq<char>) -> Seq<char>
    decreases s.len(),
{
    if s.len() == 0 {
        Seq::empty()
    } else {
        spec_escape_char(s[0]) + spec_escape(s.drop_first())
    }
}

/// The printed form of a value: compact, without any whitespace.
pub open spec fn spec_print(j: JsonV) -> Seq<char>
    decreases j,
{
    match j {
        JsonV::Num(n) => spec_dec(n as int),
        JsonV::Str(s) => seq!['"'] + spec_escape(s) + seq!['"'],
        JsonV::Arr(es) => seq!['['] + spec_print_elems(es, 0) + seq![']'],
        JsonV::Obj(ms) => seq!['{'] + spec_print_members(ms, 0) + seq!['}'],
    }
}

/// The printed form of the array elements from position `i` on, comma
/// separated.
pub open spec fn spec_print_elems(es: Seq<JsonV>, i: int) -> Seq<char>
    decreases es, es.len() - i,
    when 0 <= i
{
    if i >= es.len() {
        Seq::empty()
    } else {
        (if i > 0 {
            seq![',']
        } else {
            Seq::empty()
        }) + spec_print(es[i]) + spec_print_elems(es, i + 1)
    }
}

/// The printed form of the object members from position `i` on, comma
/// separated, each a quoted key, a colon and a value.
pub open spec fn spec_print_members(ms: Seq<(Seq<char>, JsonV)>, i: int) -> Seq<char>
    decreases ms, ms.len() - i,
    when 0 <= i
{
    if i >= ms.len() {
        Seq::empty()
    } else {
        (if i > 0 {
            seq![',']
        } else {
            Seq::empty()
        }) + seq!['"'] + spec_escape(ms[i].0) + seq!['"', ':'] + spec_print(ms[i].1)
            + spec_print_members(ms, i + 1)
    }
}

/// Append the printed form of one string character.
fn push_escape_char(out: &mut Vec<char>, c: char)
    ensures
        final(out)@ == old(out)@ + spec_escape_char(c),
{
    if c == '"' {
        out.push('\\');
        out.push('"');
    } else if c == '\\' {
        out.push('\\');
        out.push('\\');
    } else if (c as u32) < 32 {
        out.push('\\');
        out.push('u');
        out.push('0');
        out.push('0');
        crate::ip::push_hex(out, c as u32 / 16);
        crate::ip::push_hex(out, c as u32 % 16);
    } else {
        out.push(c);
    }
    proof {
        assert(out@ =~= old(out)@ + spec_escape_char(c));
    }
}

/// Append the printed form of string contents.
fn push_escaped(out: &mut Vec<char>, s: &Vec<char>)
    ensures
        final(out)@ == old(out)@ + spec_escape(s@),
{
    let mut i: usize = 0;
    proof {
        assert(s@.skip(0) =~= s@);
    }
    while i < s.len()
        invariant
            0 <= i <= s@.len(),
            out@ + spec_escape(s@.skip(i as int)) == old(out)@ + spec_escape(s@),
        decreases s@.len() - i,
    {
        let ghost prev = out@;
        push_escape_char(out, s[i]);
        proof {
            assert(s@.skip(i as int).drop_first() =~= s@.skip(i as int + 1));
            assert(s@.skip(i as int)[0] == s@[i as int]);
            assert(out@ + spec_escape(s@.skip(i as int + 1)) =~= prev + (spec_escape_char(
                s@[i as int],
            ) + spec_escape(s@.skip(i as int + 1))));
            assert(prev + spec_escape(s@.skip(i as int)) =~= prev + (spec_escape_char(
                s@[i as int],
            ) + spec_escape(s@.skip(i as int + 1))));
        }
        i = i + 1;
    }
    proof {
        assert(s@.skip(s@.len() as int) =~= Seq::<char>::empty());
        assert(out@ + spec_escape(Seq::<char>::empty()) =~= out@);
    }
}


/// The views of array elements have the elements' views, pointwise.
pub proof fn lemma_json_view_elems_index(es: Seq<Json>)
    ensures
        json_view_elems(es).len() == es.len(),
        forall|i: int|
            0 <= i < es.len() ==> #[trigger] json_view_elems(es)[i] == json_view(es[i]),
    decreases es.len(),
{
    if es.len() > 0 {
        lemma_json_view_elems_index(es.drop_last());
    }
}

/// The views of object members have the members' views, pointwise.
pub proof fn lemma_json_view_members_index(ms: Seq<(Vec<char>, Json)>)
    ensures
        json_view_members(ms).len() == ms.len(),
        forall|i: int|
            0 <= i < ms.len() ==> #[trigger] json_view_members(ms)[i] == (ms[i].0@, json_view(
                ms[i].1,
            )),
    decreases ms.len(),
{
    if ms.len() > 0 {
        lemma_json_view_members_index(ms.drop_last());
    }
}

/// Append the printed form of a value.
#[verifier::loop_isolation(false)]
pub fn push_json(out: &mut Vec<char>, j: &Json)
    ensures
        final(out)@ == old(out)@ + spec_print(j@),
    decreases *j,
{
    match j {
        Json::Num(n) => {
            push_dec(out, *n);
        },
        Json::Str(s) => {
            out.push('"');
            push_escaped(out, s);
            out.push('"');
            proof {
                assert(out@ =~= old(out)@ + spec_print(j@));
            }
        },
        Json::Arr(es) => {
            proof {
                lemma_json_view_elems_index(es@);
            }
            let ghost ves = json_view_elems(es@);
            out.push('[');
            let ghost base = out@;
            let mut i: usize = 0;
            while i < es.len()
                invariant
                    0 <= i <= es@.len(),
                    ves == json_view_elems(es@),
                    ves.len() == es@.len(),
                    forall|k: int| 0 <= k < es@.len() ==> #[trigger] ves[k] == json_view(es@[k]),
                    base + spec_print_elems(ves, 0) == out@ + spec_print_elems(ves, i as int),
                decreases es@.len() - i,
            {
                let ghost out_old = out@;
                let ghost sep: Seq<char> = if i > 0 {
                    seq![',']
                } else {
                    Seq::<char>::empty()
                };
                if i > 0 {
                    out.push(',');
                }
                proof {
                    assert(*j == Json::Arr(*es));
                    assert(decreases_to!(Json::Arr(*es) => *es));
                    assert(decreases_to!(*es => es@));
                    assert(decreases_to!(es@ => es@[i as int]));
                }
                push_json(out, &es[i]);
                proof {
                    assert(out@ =~= out_old + sep + spec_print(ves[i as int]));
                    assert(out_old + spec_print_elems(ves, i as int) =~= out@
                        + spec_print_elems(ves, i + 1));
                }
                i = i + 1;
            }
            out.push(']');
            proof {
                assert(out@ =~= old(out)@ + spec_print(j@));
            }
        },
        Json::Obj(ms) => {
            proof {
                lemma_json_view_members_index(ms@);
            }
            let ghost vms = json_view_members(ms@);
            out.push('{');
            let ghost base = out@;
            let mut i: usize = 0;
            while i < ms.len()
                invariant
                    0 <= i <= ms@.len(),
                    vms == json_view_members(ms@),
                    vms.len() == ms@.len(),
                    forall|k: int|
                        0 <= k < ms@.len() ==> #[trigger] vms[k] == (ms@[k].0@, json_view(
                            ms@[k].1,
                        )),
                    base + spec_print_members(vms, 0) == out@ + spec_print_members(
                        vms,
                        i as int,
                    ),
                decreases ms@.len() - i,
            {
                let ghost out_old = out@;
                let ghost sep: Seq<char> = if i > 0 {
                    seq![',']
                } else {
                    Seq::<char>::empty()
                };
                if i > 0 {
                    out.push(',');
                }
                out.push('"');
                push_escaped(out, &ms[i].0);
                out.push('"');
                out.push(':');
                proof {
                    assert(*j == Json::Obj(*ms));
                    assert(decreases_to!(Json::Obj(*ms) => *ms));
                    assert(decreases_to!(*ms => ms@));
                    assert(decreases_to!(ms@ => ms@[i as int]));
                    assert(decreases_to!(ms@[i as int] => ms@[i as int].1));
                }
                push_json(out, &ms[i].1);
                proof {
                    assert(out@ =~= out_old + sep + seq!['"'] + spec_escape(vms[i as int].0)
                        + seq!['"', ':'] + spec_print(vms[i as int].1));
                    assert(out_old + spec_print_members(vms, i as int) =~= out@
                        + spec_print_members(vms, i + 1));
                }
                i = i + 1;
            }
            out.push('}');
            proof {
                assert(out@ =~= old(out)@ + spec_print(j@));
            }
        },
    }
}

/// The printed form of a value, as a character vector.
pub fn print_json(j: &Json) -> (r: Vec<char>)
    ensures
        r@ == spec_print(j@),
{
    let mut out: Vec<char> = Vec::new();
    push_json(&mut out, j);
    proof {
        assert(out@ =~= spec_print(j@));
    }
    out
}


/// Whether `c` is insignificant whitespace between tokens.
pub open spec fn spec_is_ws(c: char) -> bool {
    c == ' ' || c == '\t' || c == '\n' || c == '\r'
}

/// The first position at or after `i` holding something other than
/// whitespace, or the length of the text.
pub open spec fn spec_skip_ws(s: Seq<char>, i: int) -> int
    decreases s.len() - i,
    when 0 <= i <= s.len()
{
    if i < s.len() && spec_is_ws(s[i]) {
        spec_skip_ws(s, i + 1)
    } else {
        i
    }
}

/// The end of the run of decimal digits starting at `i`.
pub open spec fn spec_digit_run_end(s: Seq<char>, i: int) -> int
    decreases s.len() - i,
    when 0 <= i <= s.len()
{
    if i < s.len() && spec_is_digit(s[i]) {
        spec_digit_run_end(s, i + 1)
    } else {
        i
    }
}

/// The number starting at position `i`, which must begin with a digit: the
/// value of the maximal digit run, rejected when it has a leading zero or
/// exceeds the largest unsigned 64-bit value.
pub open spec fn spec_parse_num(s: Seq<char>, i: int) -> Option<(u64, int)> {
    let end = spec_digit_run_end(s, i);
    let v = spec_dec_val(s.subrange(i, end));
    if i < end && (s[i] == '0' ==> end == i + 1) && v <= u64::MAX {
        Some((v as u64, end))
    } else {
        None
    }
}

/// The string contents starting at `i` (just after the opening quote), up
/// to and including the closing quote; escapes are decoded, and a bare
/// control character or a lone surrogate escape is rejected.
pub open spec fn spec_parse_str_body(s: Seq<char>, i: int) -> Option<(Seq<char>, int)>
    decreases s.len() - i,
    when 0 <= i
{
    if i >= s.len() {
        None
    } else if s[i] == '"' {
        Some((Seq::empty(), i + 1))
    } else if s[i] == '\\' {
        if i + 1 < s.len() {
            let e = s[i + 1];
            if e == '"' || e == '\\' || e == '/' {
                spec_cons_str(e, spec_parse_str_body(s, i + 2))
            } else if e == 'n' {
                spec_cons_str('\n', spec_parse_str_body(s, i + 2))
            } else if e == 't' {
                spec_cons_str('\t', spec_parse_str_body(s, i + 2))
            } else if e == 'r' {
                spec_cons_str('\r', spec_parse_str_body(s, i + 2))
            } else if e == 'b' {
                spec_cons_str('\u{8}', spec_parse_str_body(s, i + 2))
            } else if e == 'f' {
                spec_cons_str('\u{c}', spec_parse_str_body(s, i + 2))
            } else if e == 'u' {
                if i + 6 <= s.len() && spec_is_hex(s[i + 2]) && spec_is_hex(s[i + 3])
                    && spec_is_hex(s[i + 4]) && spec_is_hex(s[i + 5]) {
                    let v = spec_hex_val(s.subrange(i + 2, i + 6));
                    if 0xD800 <= v <= 0xDFFF {
                        None
                    } else {
                        spec_cons_str((v as u32) as char, spec_parse_str_body(s, i + 6))
                    }
                } else {
                    None
                }
            } else {
                None
            }
        } else {
            None
        }
    } else if (s[i] as u32) < 32 {
        None
    } else {
        spec_cons_str(s[i], spec_parse_str_body(s, i + 1))
    }
}

/// A character prepended to a string parse in progress.
pub open spec fn spec_cons_str(c: char, rest: Option<(Seq<char>, int)>) -> Option<
    (Seq<char>, int),
> {
    match rest {
        Some((cs, j)) => Some((seq![c] + cs, j)),
        None => None,
    }
}

/// The value starting at position `i`, after optional whitespace: a
/// number, a string, an array or an object. The fuel bounds the nesting
/// walked; the top-level entry points give enough for any text of the
/// input's length.
pub open spec fn spec_parse_value(s: Seq<char>, i: int, fuel: nat) -> Option<(JsonV, int)>
    decreases fuel,
{
    if fuel == 0 || !(0 <= i <= s.len()) {
        None
    } else {
        let k = spec_skip_ws(s, i);
        if k >= s.len() {
            None
        } else if s[k] == '"' {
            match spec_parse_str_body(s, k + 1) {
                Some((cs, j)) => Some((JsonV::Str(cs), j)),
                None => None,
            }
        } else if s[k] == '[' {
            let k2 = spec_skip_ws(s, k + 1);
            if k2 < s.len() && s[k2] == ']' {
                Some((JsonV::Arr(Seq::empty()), k2 + 1))
            } else {
                match spec_parse_elems(s, k + 1, (fuel - 1) as nat) {
                    Some((es, j)) => Some((JsonV::Arr(es), j)),
                    None => None,
                }
            }
        } else if s[k] == '{' {
            let k2 = spec_skip_ws(s, k + 1);
            if k2 < s.len() && s[k2] == '}' {
                Some((JsonV::Obj(Seq::empty()), k2 + 1))
            } else {
                match spec_parse_members(s, k + 1, (fuel - 1) as nat) {
                    Some((ms, j)) => Some((JsonV::Obj(ms), j)),
                    None => None,
                }
            }
        } else if spec_is_digit(s[k]) {
            match spec_parse_num(s, k) {
                Some((n, j)) => Some((JsonV::Num(n), j)),
                None => None,
            }
        } else {
            None
        }
    }
}

/// One or more comma-separated array elements starting at `i`, up to and
/// including the closing bracket.
pub open spec fn spec_parse_elems(s: Seq<char>, i: int, fuel: nat) -> Option<
    (Seq<JsonV>, int),
>
    decreases fuel,
{
    if fuel == 0 {
        None
    } else {
        match spec_parse_value(s, i, (fuel - 1) as nat) {
            Some((v, j)) => {
                let k = spec_skip_ws(s, j);
                if 0 <= j <= s.len() && k < s.len() && s[k] == ',' {
                    match spec_parse_elems(s, k + 1, (fuel - 1) as nat) {
                        Some((vs, m)) => Some((seq![v] + vs, m)),
                        None => None,
                    }
                } else if 0 <= j <= s.len() && k < s.len() && s[k] == ']' {
                    Some((seq![v], k + 1))
                } else {
                    None
                }
            },
            None => None,
        }
    }
}

/// One or more comma-separated object members starting at `i`, up to and
/// including the closing brace.
pub open spec fn spec_parse_members(s: Seq<char>, i: int, fuel: nat) -> Option<
    (Seq<(Seq<char>, JsonV)>, int),
>
    decreases fuel,
{
    if fuel == 0 || !(0 <= i <= s.len()) {
        None
    } else {
        let k = spec_skip_ws(s, i);
        if k < s.len() && s[k] == '"' {
            match spec_parse_str_body(s, k + 1) {
                Some((key, j)) => {
                    if 0 <= j <= s.len() {
                        let c = spec_skip_ws(s, j);
                        if c < s.len() && s[c] == ':' {
                            match spec_parse_value(s, c + 1, (fuel - 1) as nat) {
                                Some((v, j2)) => {
                                    if 0 <= j2 <= s.len() {
                                        let k2 = spec_skip_ws(s, j2);
                                        if k2 < s.len() && s[k2] == ',' {
                                            match spec_parse_members(s, k2 + 1, (fuel - 1) as nat) {
                                                Some((ms, m)) => Some((seq![(key, v)] + ms, m)),
                                                None => None,
                                            }
                                        } else if k2 < s.len() && s[k2] == '}' {
                                            Some((seq![(key, v)], k2 + 1))
                                        } else {
                                            None
                                        }
                                    } else {
                                        None
                                    }
                                },
                                None => None,
                            }
                        } else {
                            None
                        }
                    } else {
                        None
                    }
                },
                None => None,
            }
        } else {
            None
        }
    }
}

/// The whole text as one value: a value followed by nothing but
/// whitespace.
pub open spec fn spec_parse_json(s: Seq<char>) -> Option<JsonV> {
    match spec_parse_value(s, 0, (2 * s.len() + 2) as nat) {
        Some((j, e)) => {
            if 0 <= e <= s.len() && spec_skip_ws(s, e) == s.len() {
                Some(j)
            } else {
                None
            }
        },
        None => None,
    }
}


/// A digit string's value is never negative.
proof fn lemma_dec_val_nonneg(w: Seq<char>)
    requires
        forall|k: int| 0 <= k < w.len() ==> spec_is_digit(#[trigger] w[k]),
    ensures
        spec_dec_val(w) >= 0,
    decreases w.len(),
{
    if w.len() > 0 {
        lemma_dec_val_nonneg(w.drop_last());
    }
}

/// Extending a digit string never lowers its value.
proof fn lemma_dec_val_prefix_le(s: Seq<char>, i: int, m: int, end: int)
    requires
        0 <= i <= m <= end <= s.len(),
        forall|k: int| i <= k < end ==> spec_is_digit(#[trigger] s[k]),
    ensures
        spec_dec_val(s.subrange(i, m)) <= spec_dec_val(s.subrange(i, end)),
    decreases end - m,
{
    if m < end {
        lemma_dec_val_prefix_le(s, i, m, end - 1);
        let w = s.subrange(i, end);
        assert(w.drop_last() =~= s.subrange(i, end - 1));
        assert forall|k: int| 0 <= k < s.subrange(i, end - 1).len() implies spec_is_digit(
            #[trigger] s.subrange(i, end - 1)[k],
        ) by {
            assert(s.subrange(i, end - 1)[k] == s[i + k]);
        }
        lemma_dec_val_nonneg(s.subrange(i, end - 1));
        assert(spec_is_digit(w.last()));
        assert(spec_dec_val(w) == spec_dec_val(s.subrange(i, end - 1)) * 10
            + crate::ip::spec_dec_digit_val(w.last()));
        assert(spec_dec_val(s.subrange(i, end - 1)) * 10 >= spec_dec_val(
            s.subrange(i, end - 1),
        )) by (nonlinear_arith)
            requires
                spec_dec_val(s.subrange(i, end - 1)) >= 0,
        ;
    }
}

/// Skip insignificant whitespace.
fn skip_ws(s: &Vec<char>, i: usize) -> (r: usize)
    requires
        i <= s@.len(),
    ensures
        r == spec_skip_ws(s@, i as int),
        i <= r <= s@.len(),
{
    let mut k = i;
    while k < s.len() && (s[k] == ' ' || s[k] == '\t' || s[k] == '\n' || s[k] == '\r')
        invariant
            i <= k <= s@.len(),
            spec_skip_ws(s@, i as int) == spec_skip_ws(s@, k as int),
        decreases s@.len() - k,
    {
        k = k + 1;
    }
    k
}

/// Parse the number starting at `i`.
fn parse_num(s: &Vec<char>, i: usize) -> (r: Option<(u64, usize)>)
    requires
        i <= s@.len(),
    ensures
        match r {
            Some((v, j)) => spec_parse_num(s@, i as int) == Some((v, j as int)) && i < j
                <= s@.len(),
            None => spec_parse_num(s@, i as int) is None,
        },
{
    let mut end = i;
    while end < s.len() && matches!(crate::ip::digit_val(s[end]), Some(_))
        invariant
            i <= end <= s@.len(),
            spec_digit_run_end(s@, i as int) == spec_digit_run_end(s@, end as int),
            forall|k: int| i <= k < end ==> spec_is_digit(#[trigger] s@[k]),
        decreases s@.len() - end,
    {
        end = end + 1;
    }
    proof {
        assert(spec_digit_run_end(s@, end as int) == end);
    }
    if end == i {
        return None;
    }
    if s[i] == '0' && end != i + 1 {
        return None;
    }
    let mut value: u128 = 0;
    let mut m = i;
    proof {
        assert(s@.subrange(i as int, i as int) =~= Seq::<char>::empty());
    }
    while m < end
        invariant
            i <= m <= end <= s@.len(),
            i < end,
            spec_digit_run_end(s@, i as int) == end,
            s@[i as int] == '0' ==> end == i + 1,
            forall|k: int| i <= k < end ==> spec_is_digit(#[trigger] s@[k]),
            value == spec_dec_val(s@.subrange(i as int, m as int)),
            value <= u64::MAX,
        decreases end - m,
    {
        let d = match crate::ip::digit_val(s[m]) {
            Some(d) => d,
            None => {
                proof {
                    assert(false);
                }
                0
            },
        };
        proof {
            assert(s@.subrange(i as int, m + 1).drop_last() =~= s@.subrange(
                i as int,
                m as int,
            ));
        }
        let next = value * 10 + d as u128;
        if next > u64::MAX as u128 {
            proof {
                lemma_dec_val_prefix_le(s@, i as int, m + 1, end as int);
            }
            return None;
        }
        value = next;
        m = m + 1;
    }
    proof {
        assert(spec_digit_run_end(s@, end as int) == end);
    }
    Some((value as u64, end))
}

/// Parse string contents starting just after the opening quote.
fn parse_str_body(s: &Vec<char>, i: usize) -> (r: Option<(Vec<char>, usize)>)
    requires
        i <= s@.len(),
    ensures
        match r {
            Some((cs, j)) => spec_parse_str_body(s@, i as int) == Some((cs@, j as int)) && i < j
                <= s@.len(),
            None => spec_parse_str_body(s@, i as int) is None,
        },
    decreases s@.len() - i,
{
    if i >= s.len() {
        return None;
    }
    let c = s[i];
    if c == '"' {
        let r: Vec<char> = Vec::new();
        proof {
            assert(r@ =~= Seq::<char>::empty());
        }
        return Some((r, i + 1));
    }
    if c == '\\' {
        if i + 1 >= s.len() {
            return None;
        }
        let e = s[i + 1];
        let unescaped: char;
        let consumed: usize;
        if e == '"' || e == '\\' || e == '/' {
            unescaped = e;
            consumed = 2;
        } else if e == 'n' {
            unescaped = '\n';
            consumed = 2;
        } else if e == 't' {
            unescaped = '\t';
            consumed = 2;
        } else if e == 'r' {
            unescaped = '\r';
            consumed = 2;
        } else if e == 'b' {
            unescaped = '\u{8}';
            consumed = 2;
        } else if e == 'f' {
            unescaped = '\u{c}';
            consumed = 2;
        } else if e == 'u' {
            if s.len() - i < 6 {
                return None;
            }
            let h0 = crate::ip::hex_digit_val(s[i + 2]);
            let h1 = crate::ip::hex_digit_val(s[i + 3]);
            let h2 = crate::ip::hex_digit_val(s[i + 4]);
            let h3 = crate::ip::hex_digit_val(s[i + 5]);
            match (h0, h1, h2, h3) {
                (Some(d0), Some(d1), Some(d2), Some(d3)) => {
                    let v: u32 = ((d0 * 16 + d1) * 16 + d2) * 16 + d3;
                    proof {
                        let w = s@.subrange(i + 2, i + 6);
                        assert(w.drop_last() =~= s@.subrange(i + 2, i + 5));
                        assert(s@.subrange(i + 2, i + 5).drop_last() =~= s@.subrange(
                            i + 2,
                            i + 4,
                        ));
                        assert(s@.subrange(i + 2, i + 4).drop_last() =~= s@.subrange(
                            i + 2,
                            i + 3,
                        ));
                        assert(s@.subrange(i + 2, i + 3).drop_last() =~= Seq::<char>::empty());
                        assert(spec_hex_val(Seq::<char>::empty()) == 0);
                        assert(spec_hex_val(s@.subrange(i + 2, i + 3)) == d0);
                        assert(spec_hex_val(s@.subrange(i + 2, i + 4)) == d0 * 16 + d1);
                        assert(spec_hex_val(s@.subrange(i + 2, i + 5)) == (d0 * 16 + d1) * 16
                            + d2);
                        assert(v == spec_hex_val(w));
                    }
                    if 0xD800 <= v && v <= 0xDFFF {
                        return None;
                    }
                    match crate::text::char_from_u32(v) {
                        Some(ch) => {
                            proof {
                                vstd::utf8::char_u32_cast(ch, v);
                            }
                            unescaped = ch;
                            consumed = 6;
                        },
                        None => {
                            proof {
                                assert(false);
                            }
                            return None;
                        },
                    }
                },
                _ => {
                    return None;
                },
            }
        } else {
            return None;
        }
        match parse_str_body(s, i + consumed) {
            Some((mut cs, j)) => {
                let ghost tail = cs@;
                cs.insert(0, unescaped);
                proof {
                    assert(cs@ =~= seq![unescaped] + tail);
                }
                return Some((cs, j));
            },
            None => {
                return None;
            },
        }
    }
    if (c as u32) < 32 {
        return None;
    }
    match parse_str_body(s, i + 1) {
        Some((mut cs, j)) => {
            let ghost tail = cs@;
            cs.insert(0, c);
            proof {
                assert(cs@ =~= seq![c] + tail);
            }
            Some((cs, j))
        },
        None => None,
    }
}


/// Parse the value starting at `i`, after optional whitespace.
fn parse_value(s: &Vec<char>, i: usize, fuel: usize) -> (r: Option<(Json, usize)>)
    requires
        i <= s@.len(),
    ensures
        match r {
            Some((j, n)) => spec_parse_value(s@, i as int, fuel as nat) == Some((j@, n as int))
                && n <= s@.len(),
            None => spec_parse_value(s@, i as int, fuel as nat) is None,
        },
    decreases fuel,
{
    if fuel == 0 {
        return None;
    }
    let k = skip_ws(s, i);
    if k >= s.len() {
        return None;
    }
    let c = s[k];
    if c == '"' {
        match parse_str_body(s, k + 1) {
            Some((cs, j)) => Some((Json::Str(cs), j)),
            None => None,
        }
    } else if c == '[' {
        let k2 = skip_ws(s, k + 1);
        if k2 < s.len() && s[k2] == ']' {
            let es: Vec<Json> = Vec::new();
            proof {
                assert(json_view_elems(es@) =~= Seq::<JsonV>::empty());
            }
            Some((Json::Arr(es), k2 + 1))
        } else {
            match parse_elems(s, k + 1, fuel - 1) {
                Some((es, j)) => Some((Json::Arr(es), j)),
                None => None,
            }
        }
    } else if c == '{' {
        let k2 = skip_ws(s, k + 1);
        if k2 < s.len() && s[k2] == '}' {
            let ms: Vec<(Vec<char>, Json)> = Vec::new();
            proof {
                assert(json_view_members(ms@) =~= Seq::<(Seq<char>, JsonV)>::empty());
            }
            Some((Json::Obj(ms), k2 + 1))
        } else {
            match parse_members(s, k + 1, fuel - 1) {
                Some((ms, j)) => Some((Json::Obj(ms), j)),
                None => None,
            }
        }
    } else {
        match crate::ip::digit_val(c) {
            Some(_) => {
                match parse_num(s, k) {
                    Some((n, j)) => Some((Json::Num(n), j)),
                    None => None,
                }
            },
            None => None,
        }
    }
}

/// Parse one or more comma-separated array elements, up to and including
/// the closing bracket.
fn parse_elems(s: &Vec<char>, i: usize, fuel: usize) -> (r: Option<(Vec<Json>, usize)>)
    requires
        i <= s@.len(),
    ensures
        match r {
            Some((es, m)) => spec_parse_elems(s@, i as int, fuel as nat) == Some(
                (json_view_elems(es@), m as int),
            ) && m <= s@.len(),
            None => spec_parse_elems(s@, i as int, fuel as nat) is None,
        },
    decreases fuel,
{
    if fuel == 0 {
        return None;
    }
    match parse_value(s, i, fuel - 1) {
        Some((v, j)) => {
            let k = skip_ws(s, j);
            if k < s.len() && s[k] == ',' {
                match parse_elems(s, k + 1, fuel - 1) {
                    Some((mut vs, m)) => {
                        let ghost tail = vs@;
                        let ghost vview = v@;
                        vs.insert(0, v);
                        proof {
                            lemma_json_view_elems_index(tail);
                            lemma_json_view_elems_index(vs@);
                            assert(json_view(vs@[0]) == vview);
                            assert(forall|t: int| 0 <= t < tail.len() ==> vs@[t + 1] == #[trigger] tail[t]);
                            assert(json_view_elems(vs@) =~= seq![vview] + json_view_elems(
                                tail,
                            ));
                        }
                        Some((vs, m))
                    },
                    None => None,
                }
            } else if k < s.len() && s[k] == ']' {
                let mut vs: Vec<Json> = Vec::new();
                vs.push(v);
                proof {
                    assert(vs@.drop_last() =~= Seq::<Json>::empty());
                    assert(json_view_elems(Seq::<Json>::empty()) == Seq::<JsonV>::empty());
                    assert(json_view_elems(vs@) =~= seq![json_view(vs@.last())]);
                }
                Some((vs, k + 1))
            } else {
                None
            }
        },
        None => None,
    }
}

/// Parse one or more comma-separated object members, up to and including
/// the closing brace.
fn parse_members(s: &Vec<char>, i: usize, fuel: usize) -> (r: Option<
    (Vec<(Vec<char>, Json)>, usize),
>)
    requires
        i <= s@.len(),
    ensures
        match r {
            Some((ms, m)) => spec_parse_members(s@, i as int, fuel as nat) == Some(
                (json_view_members(ms@), m as int),
            ) && m <= s@.len(),
            None => spec_parse_members(s@, i as int, fuel as nat) is None,
        },
    decreases fuel,
{
    if fuel == 0 {
        return None;
    }
    let k = skip_ws(s, i);
    if !(k < s.len() && s[k] == '"') {
        return None;
    }
    match parse_str_body(s, k + 1) {
        Some((key, j)) => {
            let c = skip_ws(s, j);
            if !(c < s.len() && s[c] == ':') {
                return None;
            }
            match parse_value(s, c + 1, fuel - 1) {
                Some((v, j2)) => {
                    let k2 = skip_ws(s, j2);
                    if k2 < s.len() && s[k2] == ',' {
                        match parse_members(s, k2 + 1, fuel - 1) {
                            Some((mut ms, m)) => {
                                let ghost tail = ms@;
                                let ghost kview = key@;
                                let ghost vview = v@;
                                ms.insert(0, (key, v));
                                proof {
                                    lemma_json_view_members_index(tail);
                                    lemma_json_view_members_index(ms@);
                                    assert(ms@[0].0@ == kview && json_view(ms@[0].1) == vview);
                                    assert(forall|t: int|
                                        0 <= t < tail.len() ==> ms@[t + 1] == #[trigger] tail[t]);
                                    assert(json_view_members(ms@) =~= seq![(kview, vview)]
                                        + json_view_members(tail));
                                }
                                Some((ms, m))
                            },
                            None => None,
                        }
                    } else if k2 < s.len() && s[k2] == '}' {
                        let mut ms: Vec<(Vec<char>, Json)> = Vec::new();
                        ms.push((key, v));
                        proof {
                            assert(ms@.drop_last() =~= Seq::<(Vec<char>, Json)>::empty());
                            assert(json_view_members(Seq::<(Vec<char>, Json)>::empty())
                                == Seq::<(Seq<char>, JsonV)>::empty());
                            assert(json_view_members(ms@) =~= seq![
                                (ms@.last().0@, json_view(ms@.last().1)),
                            ]);
                        }
                        Some((ms, k2 + 1))
                    } else {
                        None
                    }
                },
                None => None,
            }
        },
        None => None,
    }
}

/// Parse a whole text as one value followed only by whitespace.
pub fn parse_json(s: &Vec<char>) -> (r: Option<Json>)
    requires
        2 * s@.len() + 2 <= usize::MAX,
    ensures
        match r {
            Some(j) => spec_parse_json(s@) == Some(j@),
            None => spec_parse_json(s@) is None,
        },
{
    let fuel = 2 * s.len() + 2;
    match parse_value(s, 0, fuel) {
        Some((j, e)) => {
            let k = skip_ws(s, e);
            if k == s.len() {
                Some(j)
            } else {
                None
            }
        },
        None => None,
    }
}


/// A maximal digit run bounded on the right by a non-digit ends exactly
/// there.
proof fn lemma_digit_run_exact(s: Seq<char>, i: int, end: int)
    requires
        0 <= i <= end <= s.len(),
        forall|k: int| i <= k < end ==> spec_is_digit(#[trigger] s[k]),
        end == s.len() || !spec_is_digit(s[end]),
    ensures
        spec_digit_run_end(s, i) == end,
    decreases end - i,
{
    if i < end {
        lemma_digit_run_exact(s, i + 1, end);
    }
}

/// The first character of a printed value: a digit, a quote, an opening
/// bracket or an opening brace; never whitespace nor a closing or
/// separating character.
proof fn lemma_print_first(j: JsonV)
    ensures
        spec_print(j).len() >= 1,
        !spec_is_ws(spec_print(j)[0]),
        spec_print(j)[0] != ']',
        spec_print(j)[0] != '}',
        spec_print(j)[0] != ',',
        spec_print(j)[0] != ':',
        spec_print(j)[0] != '\\',
{
    match j {
        JsonV::Num(n) => {
            lemma_dec_roundtrip(n as int);
            assert(spec_is_digit(spec_print(j)[0]));
        },
        JsonV::Str(cs) => {
            assert(spec_print(j)[0] == '"');
        },
        JsonV::Arr(es) => {
            assert(spec_print(j)[0] == '[');
        },
        JsonV::Obj(ms) => {
            assert(spec_print(j)[0] == '{');
        },
    }
}

/// Parsing string contents from the printed escape of `cs` followed by a
/// closing quote recovers `cs` and stops just after the quote.
proof fn lemma_parse_escape(cs: Seq<char>, s: Seq<char>, i: int)
    requires
        0 <= i,
        i + spec_escape(cs).len() + 1 <= s.len(),
        s.subrange(i, i + spec_escape(cs).len() + 1) == spec_escape(cs) + seq!['"'],
    ensures
        spec_parse_str_body(s, i) == Some((cs, i + spec_escape(cs).len() + 1)),
    decreases cs.len(),
{
    let e = spec_escape(cs);
    if cs.len() == 0 {
        assert(s[i] == (e + seq!['"'])[0]);
        assert(s[i] == '"');
    } else {
        let c = cs[0];
        let ec = spec_escape_char(c);
        let rest = cs.drop_first();
        let erest = spec_escape(rest);
        assert(e == ec + erest);
        let w = ec.len();
        assert forall|t: int| 0 <= t < ec.len() implies s[i + t] == ec[t] by {
            assert(s[i + t] == (e + seq!['"'])[t]);
            assert((ec + erest)[t] == ec[t]);
        }
        assert(s.subrange(i + w, i + w + erest.len() + 1) =~= erest + seq!['"']) by {
            assert forall|t: int| 0 <= t < erest.len() + 1 implies s[i + w + t] == (erest
                + seq!['"'])[t] by {
                assert(s[i + w + t] == (e + seq!['"'])[w + t]);
                if t < erest.len() {
                    assert((e + seq!['"'])[w + t] == e[w + t]);
                    assert(e[w + t] == (ec + erest)[w + t]);
                }
            }
        }
        lemma_parse_escape(rest, s, i + w);
        if c == '"' || c == '\\' {
            assert(s[i] == '\\' && s[i + 1] == c);
            assert(spec_cons_str(c, spec_parse_str_body(s, i + 2)) == Some(
                (seq![c] + rest, i + e.len() + 1),
            ));
            assert(seq![c] + rest =~= cs);
        } else if (c as u32) < 32 {
            assert(s[i] == '\\' && s[i + 1] == 'u' && s[i + 2] == '0' && s[i + 3] == '0');
            assert(s[i + 4] == spec_hex_digit((c as u32 / 16) as int));
            assert(s[i + 5] == spec_hex_digit((c as u32 % 16) as int));
            lemma_hex_digit_roundtrip((c as u32 / 16) as int);
            lemma_hex_digit_roundtrip((c as u32 % 16) as int);
            lemma_hex_digit_roundtrip(0int);
            let hw = s.subrange(i + 2, i + 6);
            assert(hw.drop_last() =~= s.subrange(i + 2, i + 5));
            assert(s.subrange(i + 2, i + 5).drop_last() =~= s.subrange(i + 2, i + 4));
            assert(s.subrange(i + 2, i + 4).drop_last() =~= s.subrange(i + 2, i + 3));
            assert(s.subrange(i + 2, i + 3).drop_last() =~= Seq::<char>::empty());
            assert(spec_hex_val(Seq::<char>::empty()) == 0);
            assert(spec_is_hex(s[i + 2]) && spec_is_hex(s[i + 3]) && spec_is_hex(s[i + 4])
                && spec_is_hex(s[i + 5]));
            assert(spec_hex_val(s.subrange(i + 2, i + 3)) == 0);
            assert(spec_hex_val(s.subrange(i + 2, i + 4)) == 0);
            assert(spec_hex_val(s.subrange(i + 2, i + 5)) == c as u32 / 16);
            assert(spec_hex_val(hw) == (c as u32 / 16) * 16 + (c as u32 % 16));
            assert(spec_hex_val(hw) == c as u32);
            vstd::utf8::char_u32_cast(c, c as u32);
            assert(((spec_hex_val(hw) as u32) as char) == c);
            assert(seq![c] + rest =~= cs);
        } else {
            assert(ec =~= seq![c]);
            assert(s[i + 0] == ec[0]);
            assert(s[i] == c);
            assert(c != '"' && c != '\\' && !((c as u32) < 32));
            assert(seq![c] + rest =~= cs);
        }
    }
}


/// The text that one array element and everything after it contributes:
/// the element, the remaining comma-prefixed elements, and the closing
/// bracket.
pub open spec fn spec_elems_tail_text(es: Seq<JsonV>, idx: int) -> Seq<char> {
    spec_print(es[idx]) + spec_print_elems(es, idx + 1) + seq![']']
}

/// The text that one object member and everything after it contributes:
/// the quoted key, the colon, the value, the remaining comma-prefixed
/// members, and the closing brace.
pub open spec fn spec_members_tail_text(ms: Seq<(Seq<char>, JsonV)>, idx: int) -> Seq<char> {
    seq!['"'] + spec_escape(ms[idx].0) + seq!['"', ':'] + spec_print(ms[idx].1)
        + spec_print_members(ms, idx + 1) + seq!['}']
}

/// Parsing a printed value embedded in a longer text recovers the value
/// and stops right after it; a printed number must not be followed by
/// another digit.
#[verifier::rlimit(100)]
pub proof fn lemma_parse_print(j: JsonV, s: Seq<char>, i: int, fuel: nat)
    requires
        0 <= i,
        i + spec_print(j).len() <= s.len(),
        s.subrange(i, i + spec_print(j).len() as int) == spec_print(j),
        fuel >= 2 * (s.len() - i) + 1,
        j is Num ==> i + spec_print(j).len() == s.len() || !spec_is_digit(
            s[i + spec_print(j).len()],
        ),
    ensures
        spec_parse_value(s, i, fuel) == Some((j, i + spec_print(j).len())),
    decreases j,
{
    let p = spec_print(j);
    let ll = p.len() as int;
    assert forall|t: int| 0 <= t < ll implies s[i + t] == p[t] by {
        assert(s.subrange(i, i + ll)[t] == s[i + t]);
    }
    lemma_print_first(j);
    assert(s[i + 0] == p[0]);
    assert(s[i] == p[0]);
    assert(spec_skip_ws(s, i) == i);
    match j {
        JsonV::Num(n) => {
            lemma_dec_roundtrip(n as int);
            assert forall|k: int| i <= k < i + ll implies spec_is_digit(#[trigger] s[k]) by {
                assert(s[k] == p[k - i]);
            }
            lemma_digit_run_exact(s, i, i + ll);
            assert(s.subrange(i, i + ll) == spec_dec(n as int));
            assert(spec_dec_val(s.subrange(i, i + ll)) == n);
            if s[i] == '0' {
                assert(p[0] == '0');
                if n >= 10 {
                    assert(p[0] != '0');
                }
                assert(ll == 1);
            }
            assert(spec_parse_num(s, i) == Some((n, i + ll)));
            assert(spec_is_digit(s[i]));
            assert(48 <= s[i] as u32 <= 57);
            assert(s[i] != '"' && s[i] != '[' && s[i] != '{');
            assert(spec_parse_value(s, i, fuel) == Some((JsonV::Num(n), i + ll)));
        },
        JsonV::Str(cs) => {
            assert(s[i] == '"');
            let esc = spec_escape(cs);
            assert(p =~= seq!['"'] + (esc + seq!['"']));
            assert(s.subrange(i + 1, i + 1 + (esc.len() + 1) as int) =~= esc + seq!['"']) by {
                assert forall|t: int| 0 <= t < esc.len() + 1 implies s[i + 1 + t] == (esc
                    + seq!['"'])[t] by {
                    assert(s[i + (1 + t)] == p[1 + t]);
                }
            }
            lemma_parse_escape(cs, s, i + 1);
            assert(spec_parse_value(s, i, fuel) == Some((j, i + spec_print(j).len())));
        },
        JsonV::Arr(es) => {
            assert(s[i] == '[');
            if es.len() == 0 {
                assert(p =~= seq!['[', ']']);
                assert(s[i + 1] == ']');
                assert(spec_skip_ws(s, i + 1) == i + 1);
                assert(es =~= Seq::<JsonV>::empty());
            } else {
                let body = spec_print_elems(es, 0);
                assert(body == spec_print(es[0]) + spec_print_elems(es, 1)) by {
                    assert((if 0 > 0 {
                        seq![',']
                    } else {
                        Seq::<char>::empty()
                    }) + spec_print(es[0]) + spec_print_elems(es, 1) =~= spec_print(es[0])
                        + spec_print_elems(es, 1));
                }
                let tt = spec_elems_tail_text(es, 0);
                assert(p =~= seq!['['] + tt);
                assert(tt =~= body + seq![']']);
                lemma_print_first(es[0]);
                assert(s[i + 1] == p[1]);
                assert(p[1] == spec_print(es[0])[0]);
                assert(!spec_is_ws(s[i + 1]) && s[i + 1] != ']');
                assert(spec_skip_ws(s, i + 1) == i + 1);
                assert(s.subrange(i + 1, i + 1 + tt.len() as int) =~= tt) by {
                    assert forall|t: int| 0 <= t < tt.len() implies s[i + 1 + t] == tt[t] by {
                        assert(s[i + (1 + t)] == p[1 + t]);
                        assert(p[1 + t] == (seq!['['] + tt)[1 + t]);
                    }
                }
                lemma_parse_print_elems(es, 0, s, i + 1, (fuel - 1) as nat);
                assert(es.skip(0) =~= es);
            }
            assert(spec_parse_value(s, i, fuel) == Some((j, i + spec_print(j).len())));
        },
        JsonV::Obj(ms) => {
            assert(s[i] == '{');
            if ms.len() == 0 {
                assert(p =~= seq!['{', '}']);
                assert(s[i + 1] == '}');
                assert(spec_skip_ws(s, i + 1) == i + 1);
                assert(ms =~= Seq::<(Seq<char>, JsonV)>::empty());
            } else {
                let body = spec_print_members(ms, 0);
                assert(body == seq!['"'] + spec_escape(ms[0].0) + seq!['"', ':'] + spec_print(
                    ms[0].1,
                ) + spec_print_members(ms, 1)) by {
                    assert((if 0 > 0 {
                        seq![',']
                    } else {
                        Seq::<char>::empty()
                    }) + seq!['"'] + spec_escape(ms[0].0) + seq!['"', ':'] + spec_print(ms[0].1)
                        + spec_print_members(ms, 1) =~= seq!['"'] + spec_escape(ms[0].0)
                        + seq!['"', ':'] + spec_print(ms[0].1) + spec_print_members(ms, 1));
                }
                let tt = spec_members_tail_text(ms, 0);
                assert(p =~= seq!['{'] + tt);
                assert(s[i + 1] == p[1]);
                assert(p[1] == '"');
                assert(spec_skip_ws(s, i + 1) == i + 1);
                assert(s.subrange(i + 1, i + 1 + tt.len() as int) =~= tt) by {
                    assert forall|t: int| 0 <= t < tt.len() implies s[i + 1 + t] == tt[t] by {
                        assert(s[i + (1 + t)] == p[1 + t]);
                        assert(p[1 + t] == (seq!['{'] + tt)[1 + t]);
                    }
                }
                lemma_parse_print_members(ms, 0, s, i + 1, (fuel - 1) as nat);
                assert(ms.skip(0) =~= ms);
            }
            assert(spec_parse_value(s, i, fuel) == Some((j, i + spec_print(j).len())));
        },
    }
}

/// Parsing the printed elements from position `idx` on, followed by the
/// closing bracket, recovers those elements.
#[verifier::rlimit(100)]
pub proof fn lemma_parse_print_elems(es: Seq<JsonV>, idx: int, s: Seq<char>, i: int, fuel: nat)
    requires
        0 <= idx < es.len(),
        0 <= i,
        i + spec_elems_tail_text(es, idx).len() <= s.len(),
        s.subrange(i, i + spec_elems_tail_text(es, idx).len() as int) == spec_elems_tail_text(
            es,
            idx,
        ),
        fuel >= 2 * (s.len() - i) + 2,
    ensures
        spec_parse_elems(s, i, fuel) == Some(
            (es.skip(idx), i + spec_elems_tail_text(es, idx).len()),
        ),
    decreases es, es.len() - idx,
{
    let tt = spec_elems_tail_text(es, idx);
    let pv = spec_print(es[idx]);
    let lv = pv.len() as int;
    assert forall|t: int| 0 <= t < tt.len() implies s[i + t] == tt[t] by {
        assert(s.subrange(i, i + tt.len() as int)[t] == s[i + t]);
    }
    assert(s.subrange(i, i + lv) =~= pv) by {
        assert forall|t: int| 0 <= t < lv implies s[i + t] == pv[t] by {
            assert(tt[t] == pv[t]);
        }
    }
    let after: char = if idx + 1 < es.len() {
        ','
    } else {
        ']'
    };
    assert(spec_print_elems(es, idx + 1).len() == 0 ==> idx + 1 >= es.len());
    if idx + 1 < es.len() {
        assert(spec_print_elems(es, idx + 1)[0] == ',') by {
            assert(spec_print_elems(es, idx + 1) == seq![','] + spec_print(es[idx + 1])
                + spec_print_elems(es, idx + 2));
        }
        assert(tt[lv] == ',');
    } else {
        assert(spec_print_elems(es, idx + 1) =~= Seq::<char>::empty());
        assert(tt =~= pv + seq![']']);
        assert(tt[lv] == ']');
    }
    assert(s[i + lv] == tt[lv]);
    assert(!spec_is_digit(s[i + lv]));
    lemma_parse_print(es[idx], s, i, (fuel - 1) as nat);
    let j = i + lv;
    assert(!spec_is_ws(s[j]));
    assert(spec_skip_ws(s, j) == j);
    if idx + 1 < es.len() {
        assert(s[j] == ',');
        let tt2 = spec_elems_tail_text(es, idx + 1);
        assert(tt =~= pv + (seq![','] + spec_print(es[idx + 1]) + spec_print_elems(
            es,
            idx + 2,
        )) + seq![']']);
        assert(tt2 =~= spec_print(es[idx + 1]) + spec_print_elems(es, idx + 2) + seq![']']);
        assert(s.subrange(j + 1, j + 1 + tt2.len() as int) =~= tt2) by {
            assert forall|t: int| 0 <= t < tt2.len() implies s[j + 1 + t] == tt2[t] by {
                assert(s[i + (lv + 1 + t)] == tt[lv + 1 + t]);
            }
        }
        lemma_parse_print_elems(es, idx + 1, s, j + 1, (fuel - 1) as nat);
        assert(seq![es[idx]] + es.skip(idx + 1) =~= es.skip(idx));
        assert(j + 1 + tt2.len() == i + tt.len());
    } else {
        assert(s[j] == ']');
        assert(s[j] != ',');
        assert(seq![es[idx]] =~= es.skip(idx));
        assert(j + 1 == i + tt.len());
    }
}

/// Parsing the printed members from position `idx` on, followed by the
/// closing brace, recovers those members.
#[verifier::rlimit(100)]
pub proof fn lemma_parse_print_members(
    ms: Seq<(Seq<char>, JsonV)>,
    idx: int,
    s: Seq<char>,
    i: int,
    fuel: nat,
)
    requires
        0 <= idx < ms.len(),
        0 <= i,
        i + spec_members_tail_text(ms, idx).len() <= s.len(),
        s.subrange(i, i + spec_members_tail_text(ms, idx).len() as int)
            == spec_members_tail_text(ms, idx),
        fuel >= 2 * (s.len() - i) + 2,
    ensures
        spec_parse_members(s, i, fuel) == Some(
            (ms.skip(idx), i + spec_members_tail_text(ms, idx).len()),
        ),
    decreases ms, ms.len() - idx,
{
    let tt = spec_members_tail_text(ms, idx);
    let key = ms[idx].0;
    let esc = spec_escape(key);
    let le = esc.len() as int;
    let pv = spec_print(ms[idx].1);
    let lv = pv.len() as int;
    assert forall|t: int| 0 <= t < tt.len() implies s[i + t] == tt[t] by {
        assert(s.subrange(i, i + tt.len() as int)[t] == s[i + t]);
    }
    assert(s[i + 0] == tt[0]);
    assert(tt[0] == '"');
    assert(spec_skip_ws(s, i) == i);
    assert(s.subrange(i + 1, i + 1 + (le + 1) as int) =~= esc + seq!['"']) by {
        assert forall|t: int| 0 <= t < le + 1 implies s[i + 1 + t] == (esc + seq!['"'])[t] by {
            assert(s[i + (1 + t)] == tt[1 + t]);
        }
    }
    lemma_parse_escape(key, s, i + 1);
    let j = i + 1 + le + 1;
    assert(s[j] == tt[j - i]);
    assert(tt[j - i] == ':');
    assert(spec_skip_ws(s, j) == j);
    let vstart = j + 1;
    assert(s.subrange(vstart, vstart + lv) =~= pv) by {
        assert forall|t: int| 0 <= t < lv implies s[vstart + t] == pv[t] by {
            assert(s[i + (3 + le + t)] == tt[3 + le + t]);
        }
    }
    if idx + 1 < ms.len() {
        assert(spec_print_members(ms, idx + 1)[0] == ',') by {
            assert(spec_print_members(ms, idx + 1) == seq![','] + seq!['"'] + spec_escape(
                ms[idx + 1].0,
            ) + seq!['"', ':'] + spec_print(ms[idx + 1].1) + spec_print_members(ms, idx + 2));
        }
        assert(tt[3 + le + lv] == ',');
    } else {
        assert(spec_print_members(ms, idx + 1) =~= Seq::<char>::empty());
        assert(tt[3 + le + lv] == '}');
    }
    assert(s[vstart + lv] == tt[3 + le + lv]);
    assert(!spec_is_digit(s[vstart + lv]));
    lemma_parse_print(ms[idx].1, s, vstart, (fuel - 1) as nat);
    let j2 = vstart + lv;
    assert(!spec_is_ws(s[j2]));
    assert(spec_skip_ws(s, j2) == j2);
    if idx + 1 < ms.len() {
        assert(s[j2] == ',');
        let tt2 = spec_members_tail_text(ms, idx + 1);
        assert(tt2 =~= seq!['"'] + spec_escape(ms[idx + 1].0) + seq!['"', ':'] + spec_print(
            ms[idx + 1].1,
        ) + spec_print_members(ms, idx + 2) + seq!['}']);
        assert(tt =~= seq!['"'] + esc + seq!['"', ':'] + pv + (seq![','] + seq!['"']
            + spec_escape(ms[idx + 1].0) + seq!['"', ':'] + spec_print(ms[idx + 1].1)
            + spec_print_members(ms, idx + 2)) + seq!['}']);
        assert(s.subrange(j2 + 1, j2 + 1 + tt2.len() as int) =~= tt2) by {
            assert forall|t: int| 0 <= t < tt2.len() implies s[j2 + 1 + t] == tt2[t] by {
                assert(s[i + (4 + le + lv + t)] == tt[4 + le + lv + t]);
                assert(tt[4 + le + lv + t] == tt2[t]);
            }
        }
        lemma_parse_print_members(ms, idx + 1, s, j2 + 1, (fuel - 1) as nat);
        assert(seq![ms[idx]] + ms.skip(idx + 1) =~= ms.skip(idx));
        assert(j2 + 1 + tt2.len() == i + tt.len());
    } else {
        assert(s[j2] == '}');
        assert(s[j2] != ',');
        assert(seq![ms[idx]] =~= ms.skip(idx));
        assert(j2 + 1 == i + tt.len());
    }
}

/// Law: parsing the printed form of a value gives the value back.
pub proof fn lemma_parse_print_json(j: JsonV)
    ensures
        spec_parse_json(spec_print(j)) == Some(j),
{
    let s = spec_print(j);
    lemma_print_first(j);
    assert(s.subrange(0, s.len() as int) =~= s);
    lemma_parse_print(j, s, 0, (2 * s.len() + 2) as nat);
    assert(spec_skip_ws(s, s.len() as int) == s.len());
}

} // verus!
