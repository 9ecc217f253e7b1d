//! The JSON wire format of the archive service: a value tree, its canonical
//! rendering, and a parser, both verified against the same spec-level
//! definitions.
//!
//! Numbers are unsigned 64-bit integers (the only numbers the service
//! uses), strings support the escapes `\" \\ \/ \n \t \r`, and whitespace
//! is accepted between tokens on parsing.

use vstd::prelude::*;
use vstd::string::StrSliceExecFns;
use crate::num::{
    dec_rep, digits_val, digits_end, is_digit, char_digit, push_dec, digit_value_of,
    lemma_digits_val_prefix, lemma_digits_val_nonneg, lemma_digits_end,
};
use crate::text::string_from_chars;

verus! {

/// A JSON value as mathematics: what every codec contract speaks of.
#[verifier::ext_equal]
pub enum JVal {
    Null,
    Bool(bool),
    Num(u64),
    Str(Seq<char>),
    Arr(Seq<JVal>),
    Obj(Seq<(Seq<char>, JVal)>),
}

/// A JSON value tree.
#[derive(Debug)]
pub enum Json {
    Null,
    Bool(bool),
    Num(u64),
    Str(String),
    Arr(Vec<Json>),
    Obj(Vec<(String, Json)>),
}

pub open spec fn jval_of(j: Json) -> JVal
    decreases j, 1int,
{
    match j {
        Json::Null => JVal::Null,
        Json::Bool(b) => JVal::Bool(b),
        Json::Num(n) => JVal::Num(n),
        Json::Str(s) => JVal::Str(s@),
        Json::Arr(v) => JVal::Arr(jvals_of(v@)),
        Json::Obj(m) => JVal::Obj(jmembers_of(m@)),
    }
}

pub open spec fn jvals_of(s: Seq<Json>) -> Seq<JVal>
    decreases s, 0int,
{
    if s.len() == 0 {
        Seq::empty()
    } else {
        jvals_of(s.drop_last()) + seq![jval_of(s.last())]
    }
}

pub open spec fn jmembers_of(s: Seq<(String, Json)>) -> Seq<(Seq<char>, JVal)>
    decreases s, 0int,
{
    if s.len() == 0 {
        Seq::empty()
    } else {
        jmembers_of(s.drop_last()) + seq![(s.last().0@, jval_of(s.last().1))]
    }
}

/// The view of a vector of values is the pointwise view.
pub proof fn lemma_jvals_of(s: Seq<Json>)
    ensures
        jvals_of(s).len() == s.len(),
        forall|i: int| 0 <= i < s.len() ==> jvals_of(s)[i] == jval_of(s[i]),
    decreases s.len(),
{
    if s.len() > 0 {
        lemma_jvals_of(s.drop_last());
    }
}

/// The view of a vector of members is the pointwise view.
pub proof fn lemma_jmembers_of(s: Seq<(String, Json)>)
    ensures
        jmembers_of(s).len() == s.len(),
        forall|i: int|
            0 <= i < s.len() ==> jmembers_of(s)[i] == (s[i].0@, jval_of(s[i].1)),
    decreases s.len(),
{
    if s.len() > 0 {
        lemma_jmembers_of(s.drop_last());
    }
}

impl View for Json {
    type V = JVal;

    open spec fn view(&self) -> JVal {
        jval_of(*self)
    }
}

// ---------------------------------------------------------------------------
// Canonical rendering.
// ---------------------------------------------------------------------------

/// How one character is written inside a JSON string.
pub open spec fn esc_char(c: char) -> Seq<char> {
    if c == '"' {
        seq!['\\', '"']
    } else if c == '\\' {
        seq!['\\', '\\']
    } else {
        seq![c]
    }
}

/// The body of a rendered JSON string.
pub open spec fn escape(s: Seq<char>) -> Seq<char>
    decreases s.len(),
{
    if s.len() == 0 {
        Seq::empty()
    } else {
        escape(s.drop_last()) + esc_char(s.last())
    }
}

/// The canonical text of a JSON value: no whitespace, keys and elements in
/// order, `u64` numbers in decimal.
pub open spec fn text_of(j: JVal) -> Seq<char>
    decreases j, 0int,
{
    match j {
        JVal::Null => seq!['n', 'u', 'l', 'l'],
        JVal::Bool(b) => if b {
            seq!['t', 'r', 'u', 'e']
        } else {
            seq!['f', 'a', 'l', 's', 'e']
        },
        JVal::Num(n) => dec_rep(n),
        JVal::Str(s) => seq!['"'] + escape(s) + seq!['"'],
        JVal::Arr(es) => seq!['['] + arr_body(es) + seq![']'],
        JVal::Obj(ms) => seq!['{'] + obj_body(ms) + seq!['}'],
    }
}

/// Rendered array elements, comma separated.
pub open spec fn arr_body(es: Seq<JVal>) -> Seq<char>
    decreases es, 1int,
{
    if es.len() == 0 {
        Seq::empty()
    } else if es.len() == 1 {
        text_of(es[0])
    } else {
        arr_body(es.drop_last()) + seq![','] + text_of(es.last())
    }
}

/// One rendered object member.
pub open spec fn member_text(m: (Seq<char>, JVal)) -> Seq<char>
    decreases m, 1int,
{
    seq!['"'] + escape(m.0) + seq!['"', ':'] + text_of(m.1)
}

/// Rendered object members, comma separated.
pub open spec fn obj_body(ms: Seq<(Seq<char>, JVal)>) -> Seq<char>
    decreases ms, 2int,
{
    if ms.len() == 0 {
        Seq::empty()
    } else if ms.len() == 1 {
        member_text(ms[0])
    } else {
        obj_body(ms.drop_last()) + seq![','] + member_text(ms.last())
    }
}

/// Appends `escape(s@)` to `out`.
fn push_escaped(s: &str, out: &mut Vec<char>)
    ensures
        final(out)@ == old(out)@ + escape(s@),
{
    let n = s.unicode_len();
    let mut i: usize = 0;
    proof {
        assert(out@ =~= old(out)@ + escape(s@.take(0)));
    }
    while i < n
        invariant
            i <= n,
            n == s@.len(),
            out@ == old(out)@ + escape(s@.take(i as int)),
        decreases n - i,
    {
        let c = s.get_char(i);
        proof {
            assert(s@.take(i + 1).drop_last() =~= s@.take(i as int));
            assert(s@.take(i + 1).last() == s@[i as int]);
        }
        if c == '"' {
            out.push('\\');
            out.push('"');
        } else if c == '\\' {
            out.push('\\');
            out.push('\\');
        } else {
            out.push(c);
        }
        proof {
            assert(out@ =~= old(out)@ + escape(s@.take(i + 1)));
        }
        i += 1;
    }
    proof {
        assert(s@.take(n as int) =~= s@);
    }
}

/// Appends the canonical text of `*j` to `out`.
pub fn render_into(j: &Json, out: &mut Vec<char>)
    ensures
        final(out)@ == old(out)@ + text_of(j@),
    decreases *j,
{
    match j {
        Json::Null => {
            out.push('n');
            out.push('u');
            out.push('l');
            out.push('l');
            proof {
                assert(out@ =~= old(out)@ + text_of(j@));
            }
        },
        Json::Bool(b) => {
            if *b {
                out.push('t');
                out.push('r');
                out.push('u');
                out.push('e');
            } else {
                out.push('f');
                out.push('a');
                out.push('l');
                out.push('s');
                out.push('e');
            }
            proof {
                assert(out@ =~= old(out)@ + text_of(j@));
            }
        },
        Json::Num(n) => {
            push_dec(*n, out);
        },
        Json::Str(s) => {
            out.push('"');
            push_escaped(s.as_str(), out);
            out.push('"');
            proof {
                assert(out@ =~= old(out)@ + text_of(j@));
            }
        },
        Json::Arr(es) => {
            out.push('[');
            let ghost evs = jvals_of(es@);
            let mut i: usize = 0;
            proof {
                lemma_jvals_of(es@);
                assert(out@ =~= old(out)@ + seq!['['] + arr_body(evs.take(0)));
            }
            while i < es.len()
                invariant
                    *j == Json::Arr(*es),
                    i <= es@.len(),
                    evs == jvals_of(es@),
                    evs.len() == es@.len(),
                    forall|k: int| 0 <= k < es@.len() ==> evs[k] == jval_of(es@[k]),
                    out@ == old(out)@ + seq!['['] + arr_body(evs.take(i as int)),
                decreases es@.len() - i,
            {
                if i > 0 {
                    out.push(',');
                }
                proof {
                    assert(*es == j->Arr_0);
                    assert(decreases_to!(*j => *es));
                    assert(decreases_to!(*es => es@));
                    assert(decreases_to!(es@ => es@[i as int]));
                }
                render_into(&es[i], out);
                proof {
                    assert(evs.take(i + 1).drop_last() =~= evs.take(i as int));
                    assert(evs.take(i + 1).last() == evs[i as int]);
                    assert(evs[i as int] == jval_of(es@[i as int]));
                    assert(out@ =~= old(out)@ + seq!['['] + arr_body(evs.take(i + 1)));
                }
                i += 1;
            }
            out.push(']');
            proof {
                assert(evs.take(es@.len() as int) =~= evs);
                assert(out@ =~= old(out)@ + text_of(j@));
            }
        },
        Json::Obj(ms) => {
            out.push('{');
            let ghost mvs = jmembers_of(ms@);
            let mut i: usize = 0;
            proof {
                lemma_jmembers_of(ms@);
                assert(out@ =~= old(out)@ + seq!['{'] + obj_body(mvs.take(0)));
            }
            while i < ms.len()
                invariant
                    *j == Json::Obj(*ms),
                    i <= ms@.len(),
                    mvs == jmembers_of(ms@),
                    mvs.len() == ms@.len(),
                    forall|k: int| 0 <= k < ms@.len() ==> mvs[k] == (ms@[k].0@, jval_of(ms@[k].1)),
                    out@ == old(out)@ + seq!['{'] + obj_body(mvs.take(i as int)),
                decreases ms@.len() - i,
            {
                if i > 0 {
                    out.push(',');
                }
                out.push('"');
                push_escaped(ms[i].0.as_str(), out);
                out.push('"');
                out.push(':');
                proof {
                    assert(*ms == j->Obj_0);
                    assert(decreases_to!(*j => *ms));
                    assert(decreases_to!(*ms => ms@));
                    assert(decreases_to!(ms@ => ms@[i as int]));
                    let pair = ms@[i as int];
                    assert(decreases_to!(pair => pair.1));
                    assert(decreases_to!(ms@[i as int] => ms@[i as int].1));
                }
                render_into(&ms[i].1, out);
                proof {
                    assert(mvs.take(i + 1).drop_last() =~= mvs.take(i as int));
                    assert(mvs.take(i + 1).last() == mvs[i as int]);
                    assert(mvs[i as int] == (ms@[i as int].0@, jval_of(ms@[i as int].1)));
                    assert(member_text(mvs[i as int]) == seq!['"'] + escape(ms@[i as int].0@)
                        + seq!['"', ':'] + text_of(jval_of(ms@[i as int].1)));
                    if i == 0 {
                        assert(obj_body(mvs.take(1)) == member_text(mvs[0]));
                    } else {
                        assert(obj_body(mvs.take(i + 1)) == obj_body(mvs.take(i as int))
                            + seq![','] + member_text(mvs[i as int]));
                    }
                    assert(out@ =~= old(out)@ + seq!['{'] + obj_body(mvs.take(i + 1)));
                }
                i += 1;
            }
            out.push('}');
            proof {
                assert(mvs.take(ms@.len() as int) =~= mvs);
                assert(out@ =~= old(out)@ + text_of(j@));
            }
        },
    }
}

/// The canonical text of `*j`, as a string.
pub fn render_json(j: &Json) -> (r: String)
    ensures
        r@ == text_of(j@),
{
    let mut out: Vec<char> = Vec::new();
    render_into(j, &mut out);
    string_from_chars(&out)
}


// ---------------------------------------------------------------------------
// Parsing: spec level.
//
// The functions below define what parsing means; the exec parser afterwards
// is proved to return exactly what they say.  Whitespace is accepted between
// tokens; the guards `i < r <= s.len()` on recursive positions are there for
// termination and always hold on the paths that reach them.
// ---------------------------------------------------------------------------

pub open spec fn is_ws(c: char) -> bool {
    c == ' ' || c == '\n' || c == '\t' || c == '\r'
}

/// The first position at or after `i` that holds no whitespace.
pub open spec fn skip_ws(s: Seq<char>, i: int) -> int
    decreases s.len() - i,
{
    if 0 <= i < s.len() && is_ws(s[i]) {
        skip_ws(s, i + 1)
    } else {
        i
    }
}

/// The word `w` stands at position `i` of `s`.
pub open spec fn has_at(s: Seq<char>, i: int, w: Seq<char>) -> bool {
    0 <= i && i + w.len() <= s.len() && s.subrange(i, i + w.len()) == w
}

/// What one escape character stands for.
pub open spec fn unesc(c: char) -> Option<char> {
    if c == '"' {
        Some('"')
    } else if c == '\\' {
        Some('\\')
    } else if c == '/' {
        Some('/')
    } else if c == 'n' {
        Some('\n')
    } else if c == 't' {
        Some('\t')
    } else if c == 'r' {
        Some('\r')
    } else {
        None
    }
}

/// Parses a string body from `i` (just after the opening quote) up to and
/// past the closing quote: the unescaped content and the position after.
pub open spec fn sp_str_body(s: Seq<char>, i: int) -> Option<(Seq<char>, int)>
    decreases s.len() - i,
{
    if i < 0 || i >= s.len() {
        None
    } else if s[i] == '"' {
        Some((Seq::empty(), i + 1))
    } else if s[i] == '\\' {
        if i + 1 < s.len() {
            match unesc(s[i + 1]) {
                Some(c) => match sp_str_body(s, i + 2) {
                    Some(t) => Some((seq![c] + t.0, t.1)),
                    None => None,
                },
                None => None,
            }
        } else {
            None
        }
    } else {
        match sp_str_body(s, i + 1) {
            Some(t) => Some((seq![s[i]] + t.0, t.1)),
            None => None,
        }
    }
}

/// Parses a number: the maximal digit run at `i`, rejected if empty or if
/// its value does not fit in 64 bits.
pub open spec fn sp_number(s: Seq<char>, i: int) -> Option<(JVal, int)> {
    let e = digits_end(s, i);
    if i < e && digits_val(s.subrange(i, e)) <= u64::MAX {
        Some((JVal::Num(digits_val(s.subrange(i, e)) as u64), e))
    } else {
        None
    }
}

/// Parses one JSON value at position `i`.
pub open spec fn sp_value(s: Seq<char>, i: int) -> Option<(JVal, int)>
    decreases s.len() - i, 0int,
{
    if i < 0 || i >= s.len() {
        None
    } else if s[i] == 'n' {
        if has_at(s, i, seq!['n', 'u', 'l', 'l']) {
            Some((JVal::Null, i + 4))
        } else {
            None
        }
    } else if s[i] == 't' {
        if has_at(s, i, seq!['t', 'r', 'u', 'e']) {
            Some((JVal::Bool(true), i + 4))
        } else {
            None
        }
    } else if s[i] == 'f' {
        if has_at(s, i, seq!['f', 'a', 'l', 's', 'e']) {
            Some((JVal::Bool(false), i + 5))
        } else {
            None
        }
    } else if s[i] == '"' {
        match sp_str_body(s, i + 1) {
            Some(t) => Some((JVal::Str(t.0), t.1)),
            None => None,
        }
    } else if is_digit(s[i]) {
        sp_number(s, i)
    } else if s[i] == '[' {
        let p = skip_ws(s, i + 1);
        if p < s.len() && s[p] == ']' {
            Some((JVal::Arr(Seq::empty()), p + 1))
        } else if i < p <= s.len() {
            match sp_elems(s, p) {
                Some(t) => Some((JVal::Arr(t.0), t.1)),
                None => None,
            }
        } else {
            None
        }
    } else if s[i] == '{' {
        let p = skip_ws(s, i + 1);
        if p < s.len() && s[p] == '}' {
            Some((JVal::Obj(Seq::empty()), p + 1))
        } else if i < p <= s.len() {
            match sp_members(s, p) {
                Some(t) => Some((JVal::Obj(t.0), t.1)),
                None => None,
            }
        } else {
            None
        }
    } else {
        None
    }
}

/// Parses array elements from the first element up to and past `]`.
pub open spec fn sp_elems(s: Seq<char>, i: int) -> Option<(Seq<JVal>, int)>
    decreases s.len() - i, 1int,
{
    if i < 0 || i > s.len() {
        None
    } else {
        match sp_value(s, i) {
            Some(t) => {
                let q = skip_ws(s, t.1);
                if 0 <= q < s.len() && s[q] == ']' {
                    Some((seq![t.0], q + 1))
                } else if 0 <= q < s.len() && s[q] == ',' {
                    let r = skip_ws(s, q + 1);
                    if i < r <= s.len() {
                        match sp_elems(s, r) {
                            Some(u) => Some((seq![t.0] + u.0, u.1)),
                            None => None,
                        }
                    } else {
                        None
                    }
                } else {
                    None
                }
            },
            None => None,
        }
    }
}

/// Parses object members from the first key up to and past `}`.
pub open spec fn sp_members(s: Seq<char>, i: int) -> Option<(Seq<(Seq<char>, JVal)>, int)>
    decreases s.len() - i, 1int,
{
    if i < 0 || i >= s.len() || s[i] != '"' {
        None
    } else {
        match sp_str_body(s, i + 1) {
            Some(k) => {
                let q = skip_ws(s, k.1);
                if 0 <= q < s.len() && s[q] == ':' {
                    let r = skip_ws(s, q + 1);
                    if i <= r <= s.len() {
                        match sp_value(s, r) {
                            Some(t) => {
                                let q2 = skip_ws(s, t.1);
                                if 0 <= q2 < s.len() && s[q2] == '}' {
                                    Some((seq![(k.0, t.0)], q2 + 1))
                                } else if 0 <= q2 < s.len() && s[q2] == ',' {
                                    let r2 = skip_ws(s, q2 + 1);
                                    if i < r2 <= s.len() {
                                        match sp_members(s, r2) {
                                            Some(u) => Some((seq![(k.0, t.0)] + u.0, u.1)),
                                            None => None,
                                        }
                                    } else {
                                        None
                                    }
                                } else {
                                    None
                                }
                            },
                            None => None,
                        }
                    } else {
                        None
                    }
                } else {
                    None
                }
            },
            None => None,
        }
    }
}

/// Parses a whole body: whitespace, one value, whitespace, end of input.
pub open spec fn sp_text(s: Seq<char>) -> Option<JVal> {
    let i = skip_ws(s, 0);
    match sp_value(s, i) {
        Some(t) => if skip_ws(s, t.1) == s.len() {
            Some(t.0)
        } else {
            None
        },
        None => None,
    }
}


// ---------------------------------------------------------------------------
// Parsing: exec level.
// ---------------------------------------------------------------------------

/// Result relation for one parsed value.
pub open spec fn value_res_matches(r: Option<(Json, usize)>, s: Option<(JVal, int)>) -> bool {
    match (r, s) {
        (Some(a), Some(b)) => a.0@ == b.0 && a.1 == b.1,
        (None, None) => true,
        _ => false,
    }
}

fn ws_char(c: char) -> (r: bool)
    ensures
        r == is_ws(c),
{
    c == ' ' || c == '\n' || c == '\t' || c == '\r'
}

fn px_skip_ws(s: &Vec<char>, i: usize) -> (r: usize)
    requires
        i <= s@.len(),
    ensures
        r == skip_ws(s@, i as int),
        i <= r <= s@.len(),
{
    let mut k: usize = i;
    loop
        invariant
            i <= k <= s@.len(),
            skip_ws(s@, i as int) == skip_ws(s@, k as int),
        decreases s@.len() - k,
    {
        if k >= s.len() {
            return k;
        }
        if !ws_char(s[k]) {
            return k;
        }
        k += 1;
    }
}

fn unesc_char(c: char) -> (r: Option<char>)
    ensures
        r == unesc(c),
{
    if c == '"' {
        Some('"')
    } else if c == '\\' {
        Some('\\')
    } else if c == '/' {
        Some('/')
    } else if c == 'n' {
        Some('\n')
    } else if c == 't' {
        Some('\t')
    } else if c == 'r' {
        Some('\r')
    } else {
        None
    }
}

/// Prepends `p` to the content of a string-body parse.
pub open spec fn opt_prepend(p: Seq<char>, r: Option<(Seq<char>, int)>) -> Option<(Seq<char>, int)> {
    match r {
        Some(t) => Some((p + t.0, t.1)),
        None => None,
    }
}

proof fn lemma_opt_prepend_assoc(a: Seq<char>, b: Seq<char>, r: Option<(Seq<char>, int)>)
    ensures
        opt_prepend(a, opt_prepend(b, r)) == opt_prepend(a + b, r),
{
    match r {
        Some(t) => {
            assert(a + (b + t.0) =~= (a + b) + t.0);
        },
        None => {},
    }
}

fn px_str_body(s: &Vec<char>, start: usize) -> (r: Option<(Vec<char>, usize)>)
    requires
        start <= s@.len(),
    ensures
        match (r, sp_str_body(s@, start as int)) {
            (Some(a), Some(b)) => a.0@ == b.0 && a.1 == b.1 && (start as int) < a.1
                && a.1 <= s@.len(),
            (None, None) => true,
            _ => false,
        },
{
    let mut acc: Vec<char> = Vec::new();
    let mut i: usize = start;
    loop
        invariant
            start <= i <= s@.len(),
            sp_str_body(s@, start as int) == opt_prepend(acc@, sp_str_body(s@, i as int)),
        decreases s@.len() - i,
    {
        if i >= s.len() {
            return None;
        }
        let c = s[i];
        if c == '"' {
            proof {
                assert(acc@ + Seq::<char>::empty() =~= acc@);
            }
            return Some((acc, i + 1));
        }
        if c == '\\' {
            if i + 1 >= s.len() {
                return None;
            }
            let u = match unesc_char(s[i + 1]) {
                Some(u) => u,
                None => {
                    return None;
                },
            };
            proof {
                assert(sp_str_body(s@, i as int) == opt_prepend(
                    seq![u],
                    sp_str_body(s@, i + 2),
                ));
                lemma_opt_prepend_assoc(acc@, seq![u], sp_str_body(s@, i + 2));
                assert(acc@ + seq![u] =~= acc@.push(u));
            }
            acc.push(u);
            i += 2;
        } else {
            proof {
                assert(sp_str_body(s@, i as int) == opt_prepend(
                    seq![c],
                    sp_str_body(s@, i + 1),
                ));
                lemma_opt_prepend_assoc(acc@, seq![c], sp_str_body(s@, i + 1));
                assert(acc@ + seq![c] =~= acc@.push(c));
            }
            acc.push(c);
            i += 1;
        }
    }
}

fn digit_char_p(c: char) -> (r: bool)
    ensures
        r == is_digit(c),
{
    match digit_value_of(c) {
        Some(_) => true,
        None => false,
    }
}

fn px_number(s: &Vec<char>, i: usize) -> (r: Option<(Json, usize)>)
    requires
        i <= s@.len(),
    ensures
        value_res_matches(r, sp_number(s@, i as int)),
        r matches Some(a) ==> (i as int) < a.1 && a.1 <= s@.len(),
{
    let ghost e = digits_end(s@, i as int);
    proof {
        lemma_digits_end(s@, i as int);
    }
    let mut j: usize = i;
    while j < s.len() && digit_char_p(s[j])
        invariant
            i <= j <= s@.len(),
            digits_end(s@, i as int) == digits_end(s@, j as int),
        decreases s@.len() - j,
    {
        j += 1;
    }
    proof {
        assert(digits_end(s@, j as int) == j);
        assert(e == j);
    }
    if j == i {
        return None;
    }
    let ghost run = s@.subrange(i as int, e);
    let mut acc: u64 = 0;
    let mut k: usize = i;
    while k < j
        invariant
            i <= k <= j <= s@.len(),
            e == j,
            e == digits_end(s@, i as int),
            run == s@.subrange(i as int, e),
            forall|t: int| i <= t < e ==> is_digit(s@[t]),
            acc == digits_val(run.take(k - i)),
        decreases j - k,
    {
        let d = match digit_value_of(s[k]) {
            Some(d) => d,
            None => {
                proof {
                    assert(run[k - i] == s@[k as int]);
                    assert(false);
                }
                0
            },
        };
        proof {
            assert(run.take(k - i + 1).drop_last() =~= run.take(k - i));
            assert(run.take(k - i + 1).last() == run[k - i]);
            assert(run[k - i] == s@[k as int]);
            lemma_digits_val_nonneg(run.take(k - i));
        }
        if acc > (u64::MAX - d) / 10 {
            proof {
                assert(digits_val(run.take(k - i + 1)) == acc * 10 + char_digit(s@[k as int]));
                assert(acc * 10 + d > u64::MAX) by (nonlinear_arith)
                    requires
                        acc > (u64::MAX - d) / 10,
                        d <= 9,
                ;
                lemma_digits_val_prefix(run, k - i + 1);
                assert(run.take(run.len() as int) =~= run);
            }
            return None;
        }
        proof {
            assert(acc * 10 + d <= u64::MAX) by (nonlinear_arith)
                requires
                    acc <= (u64::MAX - d) / 10,
                    d <= 9,
            ;
        }
        acc = acc * 10 + d;
        k += 1;
    }
    proof {
        assert(run.take(j - i) =~= run);
    }
    Some((Json::Num(acc), j))
}

fn px_word4(s: &Vec<char>, i: usize, w0: char, w1: char, w2: char, w3: char) -> (r: bool)
    requires
        i < s@.len(),
    ensures
        r == has_at(s@, i as int, seq![w0, w1, w2, w3]),
{
    let ghost w = seq![w0, w1, w2, w3];
    if s.len() < 4 || i > s.len() - 4 {
        proof {
            assert(i + w.len() > s@.len());
        }
        return false;
    }
    let ok = s[i] == w0 && s[i + 1] == w1 && s[i + 2] == w2 && s[i + 3] == w3;
    proof {
        let sub = s@.subrange(i as int, i as int + 4);
        assert(sub[0] == s@[i as int]);
        assert(sub[1] == s@[i as int + 1]);
        assert(sub[2] == s@[i as int + 2]);
        assert(sub[3] == s@[i as int + 3]);
        if ok {
            assert(sub =~= w);
        }
    }
    ok
}

fn px_word5(s: &Vec<char>, i: usize, w0: char, w1: char, w2: char, w3: char, w4: char) -> (r:
    bool)
    requires
        i < s@.len(),
    ensures
        r == has_at(s@, i as int, seq![w0, w1, w2, w3, w4]),
{
    let ghost w = seq![w0, w1, w2, w3, w4];
    if s.len() < 5 || i > s.len() - 5 {
        proof {
            assert(i + w.len() > s@.len());
        }
        return false;
    }
    let ok = s[i] == w0 && s[i + 1] == w1 && s[i + 2] == w2 && s[i + 3] == w3 && s[i + 4] == w4;
    proof {
        let sub = s@.subrange(i as int, i as int + 5);
        assert(sub[0] == s@[i as int]);
        assert(sub[1] == s@[i as int + 1]);
        assert(sub[2] == s@[i as int + 2]);
        assert(sub[3] == s@[i as int + 3]);
        assert(sub[4] == s@[i as int + 4]);
        if ok {
            assert(sub =~= w);
        }
    }
    ok
}

fn px_value(s: &Vec<char>, i: usize) -> (r: Option<(Json, usize)>)
    requires
        i <= s@.len(),
    ensures
        value_res_matches(r, sp_value(s@, i as int)),
        r matches Some(a) ==> (i as int) < a.1 && a.1 <= s@.len(),
    decreases s@.len() - i, 0int,
{
    if i >= s.len() {
        return None;
    }
    let c = s[i];
    if c == 'n' {
        if px_word4(s, i, 'n', 'u', 'l', 'l') {
            Some((Json::Null, i + 4))
        } else {
            None
        }
    } else if c == 't' {
        if px_word4(s, i, 't', 'r', 'u', 'e') {
            Some((Json::Bool(true), i + 4))
        } else {
            None
        }
    } else if c == 'f' {
        if px_word5(s, i, 'f', 'a', 'l', 's', 'e') {
            Some((Json::Bool(false), i + 5))
        } else {
            None
        }
    } else if c == '"' {
        match px_str_body(s, i + 1) {
            Some((t, e)) => {
                let st = string_from_chars(&t);
                Some((Json::Str(st), e))
            },
            None => None,
        }
    } else if digit_char_p(c) {
        px_number(s, i)
    } else if c == '[' {
        let p = px_skip_ws(s, i + 1);
        if p < s.len() && s[p] == ']' {
            proof {
                assert(jvals_of(Seq::<Json>::empty()) =~= Seq::<JVal>::empty());
            }
            Some((Json::Arr(Vec::new()), p + 1))
        } else {
            match px_elems(s, p) {
                Some((es, e)) => Some((Json::Arr(es), e)),
                None => None,
            }
        }
    } else if c == '{' {
        let p = px_skip_ws(s, i + 1);
        if p < s.len() && s[p] == '}' {
            proof {
                assert(jmembers_of(Seq::<(String, Json)>::empty()) =~= Seq::<(
                    Seq<char>,
                    JVal,
                )>::empty());
            }
            Some((Json::Obj(Vec::new()), p + 1))
        } else {
            match px_members(s, p) {
                Some((ms, e)) => Some((Json::Obj(ms), e)),
                None => None,
            }
        }
    } else {
        None
    }
}

fn px_elems(s: &Vec<char>, i: usize) -> (r: Option<(Vec<Json>, usize)>)
    requires
        i <= s@.len(),
    ensures
        match (r, sp_elems(s@, i as int)) {
            (Some(a), Some(b)) => jvals_of(a.0@) == b.0 && a.1 == b.1 && (i as int) < a.1
                && a.1 <= s@.len(),
            (None, None) => true,
            _ => false,
        },
    decreases s@.len() - i, 1int,
{
    let (v, p) = match px_value(s, i) {
        Some(t) => t,
        None => {
            return None;
        },
    };
    let q = px_skip_ws(s, p);
    if q < s.len() && s[q] == ']' {
        let mut es: Vec<Json> = Vec::new();
        es.push(v);
        proof {
            assert(es@.drop_last() =~= Seq::<Json>::empty());
            assert(jvals_of(Seq::<Json>::empty()) == Seq::<JVal>::empty());
            assert(Seq::<JVal>::empty() + seq![jval_of(es@.last())] =~= seq![
                jval_of(es@.last()),
            ]);
            assert(jvals_of(es@) =~= seq![jval_of(es@.last())]);
        }
        Some((es, q + 1))
    } else if q < s.len() && s[q] == ',' {
        let r2 = px_skip_ws(s, q + 1);
        if r2 <= i {
            proof {
                assert(false);
            }
            None
        } else {
            match px_elems(s, r2) {
                Some((rest, e)) => {
                    let mut es = rest;
                    es.insert(0, v);
                    proof {
                        lemma_jvals_of(es@);
                        lemma_jvals_of(rest@);
                        assert(jvals_of(es@) =~= seq![jval_of(v)] + jvals_of(rest@));
                    }
                    Some((es, e))
                },
                None => None,
            }
        }
    } else {
        None
    }
}

fn px_members(s: &Vec<char>, i: usize) -> (r: Option<(Vec<(String, Json)>, usize)>)
    requires
        i <= s@.len(),
    ensures
        match (r, sp_members(s@, i as int)) {
            (Some(a), Some(b)) => jmembers_of(a.0@) == b.0 && a.1 == b.1 && (i as int) < a.1
                && a.1 <= s@.len(),
            (None, None) => true,
            _ => false,
        },
    decreases s@.len() - i, 1int,
{
    if i >= s.len() || s[i] != '"' {
        return None;
    }
    let (kt, p) = match px_str_body(s, i + 1) {
        Some(t) => t,
        None => {
            return None;
        },
    };
    let key = string_from_chars(&kt);
    let q = px_skip_ws(s, p);
    if !(q < s.len() && s[q] == ':') {
        return None;
    }
    let r2 = px_skip_ws(s, q + 1);
    let (v, p2) = match px_value(s, r2) {
        Some(t) => t,
        None => {
            return None;
        },
    };
    let q2 = px_skip_ws(s, p2);
    if q2 < s.len() && s[q2] == '}' {
        let mut ms: Vec<(String, Json)> = Vec::new();
        ms.push((key, v));
        proof {
            assert(ms@.drop_last() =~= Seq::<(String, Json)>::empty());
            assert(jmembers_of(Seq::<(String, Json)>::empty()) == Seq::<(Seq<char>, JVal)>::empty());
            assert(Seq::<(Seq<char>, JVal)>::empty() + seq![(ms@.last().0@, jval_of(ms@.last().1))]
                =~= seq![(ms@.last().0@, jval_of(ms@.last().1))]);
            assert(jmembers_of(ms@) =~= seq![(ms@.last().0@, jval_of(ms@.last().1))]);
        }
        Some((ms, q2 + 1))
    } else if q2 < s.len() && s[q2] == ',' {
        let r3 = px_skip_ws(s, q2 + 1);
        if r3 <= i {
            proof {
                assert(false);
            }
            None
        } else {
            match px_members(s, r3) {
                Some((rest, e)) => {
                    let mut ms = rest;
                    ms.insert(0, (key, v));
                    proof {
                        lemma_jmembers_of(ms@);
                        lemma_jmembers_of(rest@);
                        assert(jmembers_of(ms@) =~= seq![(ms@[0].0@, jval_of(ms@[0].1))]
                            + jmembers_of(rest@));
                    }
                    Some((ms, e))
                },
                None => None,
            }
        }
    } else {
        None
    }
}

/// Parses a whole JSON body held as characters.
pub fn parse_json_chars(s: &Vec<char>) -> (r: Option<Json>)
    ensures
        match (r, sp_text(s@)) {
            (Some(j), Some(v)) => j@ == v,
            (None, None) => true,
            _ => false,
        },
{
    let i = px_skip_ws(s, 0);
    match px_value(s, i) {
        Some((j, p)) => {
            let q = px_skip_ws(s, p);
            if q == s.len() {
                Some(j)
            } else {
                None
            }
        },
        None => None,
    }
}

/// Parses a whole JSON body held as a string.
pub fn parse_json_text(s: &str) -> (r: Option<Json>)
    ensures
        match (r, sp_text(s@)) {
            (Some(j), Some(v)) => j@ == v,
            (None, None) => true,
            _ => false,
        },
{
    let v = crate::text::chars_of(s);
    parse_json_chars(&v)
}


// ---------------------------------------------------------------------------
// The parser inverts the renderer: parsing a canonical rendering yields
// exactly the rendered value.
// ---------------------------------------------------------------------------

pub proof fn lemma_has_at_index(s: Seq<char>, i: int, w: Seq<char>, k: int)
    requires
        has_at(s, i, w),
        0 <= k < w.len(),
    ensures
        s[i + k] == w[k],
{
    assert(s.subrange(i, i + w.len())[k] == s[i + k]);
}

pub proof fn lemma_has_at_split(s: Seq<char>, i: int, a: Seq<char>, b: Seq<char>)
    requires
        has_at(s, i, a + b),
    ensures
        has_at(s, i, a),
        has_at(s, i + a.len(), b),
{
    assert forall|k: int| 0 <= k < a.len() implies s[i + k] == a[k] by {
        lemma_has_at_index(s, i, a + b, k);
        assert((a + b)[k] == a[k]);
    }
    assert(s.subrange(i, i + a.len()) =~= a);
    assert forall|k: int| 0 <= k < b.len() implies s[i + a.len() + k] == b[k] by {
        lemma_has_at_index(s, i, a + b, a.len() + k);
        assert((a + b)[a.len() + k] == b[k]);
    }
    assert(s.subrange(i + a.len(), i + a.len() + b.len()) =~= b);
}

/// A rendered value is nonempty, and its first character is no whitespace
/// and none of the punctuation that closes or separates containers.
pub proof fn lemma_text_head(j: JVal)
    ensures
        text_of(j).len() > 0,
        !is_ws(text_of(j)[0]),
        text_of(j)[0] != ']',
        text_of(j)[0] != '}',
        text_of(j)[0] != ',',
        text_of(j)[0] != ':',
{
    match j {
        JVal::Null => {
            assert(text_of(j)[0] == 'n');
        },
        JVal::Bool(b) => {
            if b {
                assert(text_of(j)[0] == 't');
            } else {
                assert(text_of(j)[0] == 'f');
            }
        },
        JVal::Num(n) => {
            crate::num::lemma_dec_rep(n);
            assert(text_of(j) == dec_rep(n));
            assert(is_digit(dec_rep(n)[0]));
        },
        JVal::Str(t) => {
            assert(text_of(j)[0] == '"');
        },
        JVal::Arr(es) => {
            assert(text_of(j)[0] == '[');
        },
        JVal::Obj(ms) => {
            assert(text_of(j)[0] == '{');
        },
    }
}

/// Front decomposition of [`escape`].
pub proof fn lemma_escape_front(t: Seq<char>)
    requires
        t.len() > 0,
    ensures
        escape(t) == esc_char(t[0]) + escape(t.drop_first()),
    decreases t.len(),
{
    if t.len() == 1 {
        assert(t.drop_last() =~= Seq::<char>::empty());
        assert(t.drop_first() =~= Seq::<char>::empty());
        assert(escape(Seq::<char>::empty()) == Seq::<char>::empty());
        assert(t.last() == t[0]);
        assert(Seq::<char>::empty() + esc_char(t[0]) =~= esc_char(t[0]));
        assert(esc_char(t[0]) + Seq::<char>::empty() =~= esc_char(t[0]));
    } else {
        let u = t.drop_last();
        lemma_escape_front(u);
        assert(u[0] == t[0]);
        assert(t.drop_first().drop_last() =~= u.drop_first());
        assert(t.drop_first().last() == t.last());
        assert(escape(t.drop_first()) == escape(u.drop_first()) + esc_char(t.last()));
        assert((esc_char(t[0]) + escape(u.drop_first())) + esc_char(t.last()) =~= esc_char(t[0])
            + (escape(u.drop_first()) + esc_char(t.last())));
    }
}

/// A rendered string body followed by its closing quote parses back to the
/// original characters.
pub proof fn lemma_str_body_at(s: Seq<char>, i: int, t: Seq<char>)
    requires
        has_at(s, i, escape(t) + seq!['"']),
    ensures
        sp_str_body(s, i) == Some((t, i + escape(t).len() + 1)),
    decreases t.len(),
{
    if t.len() == 0 {
        assert(escape(t) == Seq::<char>::empty());
        assert(Seq::<char>::empty() + seq!['"'] =~= seq!['"']);
        lemma_has_at_index(s, i, seq!['"'], 0);
        assert(s[i] == '"');
    } else {
        lemma_escape_front(t);
        let e0 = esc_char(t[0]);
        let rest = escape(t.drop_first()) + seq!['"'];
        assert(escape(t) + seq!['"'] =~= e0 + rest);
        lemma_has_at_split(s, i, e0, rest);
        lemma_str_body_at(s, i + e0.len(), t.drop_first());
        if t[0] == '"' || t[0] == '\\' {
            lemma_has_at_index(s, i, e0, 0);
            lemma_has_at_index(s, i, e0, 1);
            assert(s[i] == '\\');
            assert(unesc(s[i + 1]) == Some(t[0]));
            assert(seq![t[0]] + t.drop_first() =~= t);
        } else {
            lemma_has_at_index(s, i, e0, 0);
            assert(s[i] == t[0]);
            assert(seq![t[0]] + t.drop_first() =~= t);
        }
    }
}

/// Front decomposition of [`arr_body`].
pub proof fn lemma_arr_body_front(es: Seq<JVal>)
    requires
        es.len() > 0,
    ensures
        arr_body(es) == if es.len() == 1 {
            text_of(es[0])
        } else {
            text_of(es[0]) + seq![','] + arr_body(es.drop_first())
        },
    decreases es.len(),
{
    if es.len() == 1 {
    } else if es.len() == 2 {
        assert(es.drop_last() =~= seq![es[0]]);
        assert(es.drop_first() =~= seq![es[1]]);
        assert(arr_body(seq![es[0]]) == text_of(seq![es[0]][0]));
        assert(arr_body(seq![es[1]]) == text_of(seq![es[1]][0]));
        assert(es.last() == es[1]);
    } else {
        let u = es.drop_last();
        lemma_arr_body_front(u);
        assert(u[0] == es[0]);
        assert(es.drop_first().drop_last() =~= u.drop_first());
        assert(es.drop_first().last() == es.last());
        assert(es.drop_first().len() >= 2);
        assert(arr_body(es.drop_first()) == arr_body(u.drop_first()) + seq![','] + text_of(
            es.last(),
        ));
        assert((text_of(es[0]) + seq![','] + arr_body(u.drop_first())) + seq![','] + text_of(
            es.last(),
        ) =~= text_of(es[0]) + seq![','] + (arr_body(u.drop_first()) + seq![','] + text_of(
            es.last(),
        )));
    }
}

/// Front decomposition of [`obj_body`].
pub proof fn lemma_obj_body_front(ms: Seq<(Seq<char>, JVal)>)
    requires
        ms.len() > 0,
    ensures
        obj_body(ms) == if ms.len() == 1 {
            member_text(ms[0])
        } else {
            member_text(ms[0]) + seq![','] + obj_body(ms.drop_first())
        },
    decreases ms.len(),
{
    if ms.len() == 1 {
    } else if ms.len() == 2 {
        assert(ms.drop_last() =~= seq![ms[0]]);
        assert(ms.drop_first() =~= seq![ms[1]]);
        assert(obj_body(seq![ms[0]]) == member_text(seq![ms[0]][0]));
        assert(obj_body(seq![ms[1]]) == member_text(seq![ms[1]][0]));
        assert(ms.last() == ms[1]);
    } else {
        let u = ms.drop_last();
        lemma_obj_body_front(u);
        assert(u[0] == ms[0]);
        assert(ms.drop_first().drop_last() =~= u.drop_first());
        assert(ms.drop_first().last() == ms.last());
        assert(ms.drop_first().len() >= 2);
        assert(obj_body(ms.drop_first()) == obj_body(u.drop_first()) + seq![','] + member_text(
            ms.last(),
        ));
        assert((member_text(ms[0]) + seq![','] + obj_body(u.drop_first())) + seq![',']
            + member_text(ms.last()) =~= member_text(ms[0]) + seq![','] + (obj_body(
            u.drop_first(),
        ) + seq![','] + member_text(ms.last())));
    }
}


/// Parsing at a position holding a rendered value, followed by no digit,
/// yields that value and stops right after it.
pub proof fn lemma_value_at(s: Seq<char>, i: int, j: JVal)
    requires
        has_at(s, i, text_of(j)),
        i + text_of(j).len() == s.len() || !is_digit(s[i + text_of(j).len()]),
    ensures
        sp_value(s, i) == Some((j, i + text_of(j).len())),
    decreases j, 0int,
{
    lemma_text_head(j);
    lemma_has_at_index(s, i, text_of(j), 0);
    let goal = Some((j, i + text_of(j).len()));
    match j {
        JVal::Null => {
            assert(s[i] == 'n');
            assert(sp_value(s, i) == goal);
        },
        JVal::Bool(b) => {
            if b {
                assert(s[i] == 't');
            } else {
                assert(s[i] == 'f');
            }
            assert(sp_value(s, i) == goal);
        },
        JVal::Num(n) => {
            crate::num::lemma_dec_rep(n);
            let len = dec_rep(n).len() as int;
            assert forall|k: int| i <= k < i + len implies is_digit(s[k]) by {
                lemma_has_at_index(s, i, dec_rep(n), k - i);
            }
            crate::num::lemma_digits_end_of_run(s, i, i + len);
            assert(is_digit(s[i]));
            assert(s.subrange(i, i + len) =~= dec_rep(n));
            assert(sp_value(s, i) == goal);
        },
        JVal::Str(t) => {
            assert(text_of(j) =~= seq!['"'] + (escape(t) + seq!['"']));
            lemma_has_at_split(s, i, seq!['"'], escape(t) + seq!['"']);
            lemma_has_at_index(s, i, seq!['"'], 0);
            assert(s[i] == '"');
            lemma_str_body_at(s, i + 1, t);
            assert(sp_value(s, i) == goal);
        },
        JVal::Arr(es) => {
            assert(text_of(j) =~= seq!['['] + (arr_body(es) + seq![']']));
            lemma_has_at_split(s, i, seq!['['], arr_body(es) + seq![']']);
            lemma_has_at_index(s, i, seq!['['], 0);
            assert(s[i] == '[');
            if es.len() == 0 {
                assert(arr_body(es) == Seq::<char>::empty());
                assert(Seq::<char>::empty() + seq![']'] =~= seq![']']);
                lemma_has_at_index(s, i + 1, seq![']'], 0);
                assert(s[i + 1] == ']');
                assert(skip_ws(s, i + 1) == i + 1);
                assert(es =~= Seq::<JVal>::empty());
            } else {
                lemma_arr_body_front(es);
                lemma_text_head(es[0]);
                lemma_has_at_index(s, i + 1, arr_body(es) + seq![']'], 0);
                assert((arr_body(es) + seq![']'])[0] == arr_body(es)[0]);
                assert(arr_body(es)[0] == text_of(es[0])[0]);
                assert(!is_ws(s[i + 1]));
                assert(skip_ws(s, i + 1) == i + 1);
                assert(s[i + 1] != ']');
                lemma_elems_at(s, i + 1, es);
            }
            assert(sp_value(s, i) == goal);
        },
        JVal::Obj(ms) => {
            assert(text_of(j) =~= seq!['{'] + (obj_body(ms) + seq!['}']));
            lemma_has_at_split(s, i, seq!['{'], obj_body(ms) + seq!['}']);
            lemma_has_at_index(s, i, seq!['{'], 0);
            assert(s[i] == '{');
            if ms.len() == 0 {
                assert(obj_body(ms) == Seq::<char>::empty());
                assert(Seq::<char>::empty() + seq!['}'] =~= seq!['}']);
                lemma_has_at_index(s, i + 1, seq!['}'], 0);
                assert(s[i + 1] == '}');
                assert(skip_ws(s, i + 1) == i + 1);
                assert(ms =~= Seq::<(Seq<char>, JVal)>::empty());
            } else {
                lemma_obj_body_front(ms);
                lemma_has_at_index(s, i + 1, obj_body(ms) + seq!['}'], 0);
                assert((obj_body(ms) + seq!['}'])[0] == obj_body(ms)[0]);
                assert(obj_body(ms)[0] == member_text(ms[0])[0]);
                assert(member_text(ms[0])[0] == '"');
                assert(s[i + 1] == '"');
                assert(skip_ws(s, i + 1) == i + 1);
                lemma_members_at(s, i + 1, ms);
            }
            assert(sp_value(s, i) == goal);
        },
    }
}

/// Parsing at a position holding rendered elements and the closing bracket
/// yields those elements.
pub proof fn lemma_elems_at(s: Seq<char>, i: int, es: Seq<JVal>)
    requires
        es.len() > 0,
        has_at(s, i, arr_body(es) + seq![']']),
    ensures
        sp_elems(s, i) == Some((es, i + arr_body(es).len() + 1)),
    decreases es, 1int,
{
    lemma_arr_body_front(es);
    lemma_text_head(es[0]);
    let t0 = text_of(es[0]);
    if es.len() == 1 {
        assert(arr_body(es) == t0);
        lemma_has_at_split(s, i, t0, seq![']']);
        lemma_has_at_index(s, i + t0.len(), seq![']'], 0);
        assert(s[i + t0.len()] == ']');
        assert(!is_digit(s[i + t0.len()]));
        lemma_value_at(s, i, es[0]);
        assert(skip_ws(s, i + t0.len()) == i + t0.len());
        assert(seq![es[0]] =~= es);
    } else {
        let rest = arr_body(es.drop_first()) + seq![']'];
        assert(arr_body(es) + seq![']'] =~= t0 + (seq![','] + rest));
        lemma_has_at_split(s, i, t0, seq![','] + rest);
        lemma_has_at_split(s, i + t0.len(), seq![','], rest);
        lemma_has_at_index(s, i + t0.len(), seq![','], 0);
        assert(s[i + t0.len()] == ',');
        assert(!is_digit(s[i + t0.len()]));
        lemma_value_at(s, i, es[0]);
        let p = i + t0.len();
        assert(skip_ws(s, p) == p);
        let r = p + 1;
        lemma_arr_body_front(es.drop_first());
        lemma_text_head(es.drop_first()[0]);
        lemma_has_at_index(s, r, rest, 0);
        assert(rest[0] == arr_body(es.drop_first())[0]);
        assert(arr_body(es.drop_first())[0] == text_of(es.drop_first()[0])[0]);
        assert(!is_ws(s[r]));
        assert(skip_ws(s, r) == r);
        assert(es.drop_first() =~= es.subrange(1, es.len() as int));
        lemma_elems_at(s, r, es.drop_first());
        assert(seq![es[0]] + es.drop_first() =~= es);
    }
}

/// Parsing at a position holding rendered members and the closing brace
/// yields those members.
pub proof fn lemma_members_at(s: Seq<char>, i: int, ms: Seq<(Seq<char>, JVal)>)
    requires
        ms.len() > 0,
        has_at(s, i, obj_body(ms) + seq!['}']),
    ensures
        sp_members(s, i) == Some((ms, i + obj_body(ms).len() + 1)),
    decreases ms, 1int,
{
    lemma_obj_body_front(ms);
    let k0 = ms[0].0;
    let v0 = ms[0].1;
    let m0 = member_text(ms[0]);
    lemma_text_head(v0);
    assert(m0 =~= seq!['"'] + ((escape(k0) + seq!['"']) + (seq![':'] + text_of(v0))));
    let after_key = i + 1 + escape(k0).len() + 1;
    let vstart = after_key + 1;
    if ms.len() == 1 {
        assert(obj_body(ms) == m0);
        lemma_has_at_split(s, i, m0, seq!['}']);
        lemma_has_at_index(s, i + m0.len(), seq!['}'], 0);
        assert(s[i + m0.len()] == '}');
        lemma_has_at_split(s, i, seq!['"'], (escape(k0) + seq!['"']) + (seq![':'] + text_of(
            v0,
        )));
        lemma_has_at_index(s, i, seq!['"'], 0);
        assert(s[i] == '"');
        lemma_has_at_split(s, i + 1, escape(k0) + seq!['"'], seq![':'] + text_of(v0));
        lemma_str_body_at(s, i + 1, k0);
        lemma_has_at_split(s, after_key, seq![':'], text_of(v0));
        lemma_has_at_index(s, after_key, seq![':'], 0);
        assert(s[after_key] == ':');
        assert(skip_ws(s, after_key) == after_key);
        assert(!is_ws(s[vstart]));
        assert(skip_ws(s, vstart) == vstart);
        assert(vstart + text_of(v0).len() == i + m0.len());
        assert(!is_digit(s[i + m0.len()]));
        lemma_value_at(s, vstart, v0);
        assert(skip_ws(s, i + m0.len()) == i + m0.len());
        assert(seq![(k0, v0)] =~= ms);
    } else {
        let rest = obj_body(ms.drop_first()) + seq!['}'];
        assert(obj_body(ms) + seq!['}'] =~= m0 + (seq![','] + rest));
        lemma_has_at_split(s, i, m0, seq![','] + rest);
        lemma_has_at_split(s, i + m0.len(), seq![','], rest);
        lemma_has_at_index(s, i + m0.len(), seq![','], 0);
        assert(s[i + m0.len()] == ',');
        lemma_has_at_split(s, i, seq!['"'], (escape(k0) + seq!['"']) + (seq![':'] + text_of(
            v0,
        )));
        lemma_has_at_index(s, i, seq!['"'], 0);
        assert(s[i] == '"');
        lemma_has_at_split(s, i + 1, escape(k0) + seq!['"'], seq![':'] + text_of(v0));
        lemma_str_body_at(s, i + 1, k0);
        lemma_has_at_split(s, after_key, seq![':'], text_of(v0));
        lemma_has_at_index(s, after_key, seq![':'], 0);
        assert(s[after_key] == ':');
        assert(skip_ws(s, after_key) == after_key);
        assert(!is_ws(s[vstart]));
        assert(skip_ws(s, vstart) == vstart);
        assert(vstart + text_of(v0).len() == i + m0.len());
        assert(!is_digit(s[i + m0.len()]));
        lemma_value_at(s, vstart, v0);
        let r = i + m0.len() + 1;
        assert(skip_ws(s, i + m0.len()) == i + m0.len());
        lemma_obj_body_front(ms.drop_first());
        lemma_has_at_index(s, r, rest, 0);
        assert(rest[0] == obj_body(ms.drop_first())[0]);
        assert(obj_body(ms.drop_first())[0] == member_text(ms.drop_first()[0])[0]);
        assert(member_text(ms.drop_first()[0])[0] == '"');
        assert(s[r] == '"');
        assert(skip_ws(s, r) == r);
        assert(ms.drop_first() =~= ms.subrange(1, ms.len() as int));
        lemma_members_at(s, r, ms.drop_first());
        assert(seq![(k0, v0)] + ms.drop_first() =~= ms);
    }
}

/// Parsing the canonical text of any value yields exactly that value.
pub proof fn lemma_parse_of_rendered(j: JVal)
    ensures
        sp_text(text_of(j)) == Some(j),
{
    let s = text_of(j);
    lemma_text_head(j);
    assert(s.subrange(0, s.len() as int) =~= s);
    assert(has_at(s, 0, s));
    assert(skip_ws(s, 0) == 0);
    lemma_value_at(s, 0, j);
    assert(skip_ws(s, s.len() as int) == s.len());
}

} // verus!
