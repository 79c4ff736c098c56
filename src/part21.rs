//! Parser for the records of a Part 21 exchange structure: parameters,
//! simple records and data sections.
//!
//! As for EXPRESS, each production is a spec function from the text and a
//! start position to what it reads (a `PTree` for a parameter) and where it
//! ends, and each parser is proved to build the value that it describes.
use crate::exchange::{DataSection, EntityInstance, Exchange, Parameter, RValue, Real, Record};
use crate::lexical::{
    at_char, at_ident, at_keyword, char_at, chars_of, digits_at, digits_end, digits_value, ident_at,
    is_digit, keyword_at,
    lemma_digits_end_bounds, lemma_digits_run, lemma_digits_value_grows, lemma_word_end_bounds,
    skip_digits, skip_spaces, skip_word, spaces_end, string_of, word_end,
};
use crate::parser::{ParseError, Production};
use vstd::prelude::*;

verus! {

/// A parameter as read.
pub enum PTree {
    Typed(Seq<char>, Box<PTree>),
    Integer(int),
    /// Mantissa and exponent.
    Real(int, int),
    Str(Seq<char>),
    Enumeration(Seq<char>),
    Binary(Seq<char>),
    List(Seq<PTree>),
    Ref(RValue),
    NotProvided,
    Omitted,
}

/// `p` is the parameter that `m` describes.
pub open spec fn models(p: Parameter, m: PTree) -> bool
    decreases m,
{
    match m {
        PTree::Typed(n, inner) => p matches Parameter::Typed { name, ty } && name@ == n && models(*ty, *inner),
        PTree::Integer(v) => p == Parameter::Integer(v as i64),
        PTree::Real(mt, ex) => p == Parameter::Real(Real { mantissa: mt as i64, exponent: ex as i32 }),
        PTree::Str(t) => p matches Parameter::String(x) && x@ == t,
        PTree::Enumeration(t) => p matches Parameter::Enumeration(x) && x@ == t,
        PTree::Binary(t) => p matches Parameter::Binary(x) && x@ == t,
        PTree::List(ms) => p matches Parameter::List(v) && all_model(v@, ms),
        PTree::Ref(r) => p == Parameter::Ref(r),
        PTree::NotProvided => p == Parameter::NotProvided,
        PTree::Omitted => p == Parameter::Omitted,
    }
}

/// Each parameter of `v` is the one that the item of `ms` at its position
/// describes.
pub open spec fn all_model(v: Seq<Parameter>, ms: Seq<PTree>) -> bool
    decreases ms,
{
    if ms.len() == 0 {
        v.len() == 0
    } else {
        proof {
            vstd::seq::axiom_seq_subrange_decreases(ms, 0, ms.len() - 1);
            vstd::seq::axiom_seq_index_decreases(ms, ms.len() - 1);
        }
        &&& v.len() == ms.len()
        &&& all_model(v.subrange(0, v.len() - 1), ms.subrange(0, ms.len() - 1))
        &&& models(v[v.len() - 1], ms[ms.len() - 1])
    }
}

/// The digits of `s[a..j]` but the one at `b`, read as a decimal number.
pub open spec fn digits_skipping(s: Seq<char>, a: int, j: int, b: int) -> nat
    decreases j - a,
{
    if j <= a {
        0
    } else if j - 1 == b {
        digits_skipping(s, a, j - 1, b)
    } else {
        digits_skipping(s, a, j - 1, b) * 10 + (s[j - 1] as nat - '0' as nat) as nat
    }
}

/// `[E [+-] digits]` at `c`: the exponent, at most `i32::MAX` in size, and
/// where it ends; `(0, c)` where no `E` follows.
pub open spec fn exponent_of(s: Seq<char>, c: int) -> Option<(int, int)> {
    if char_at(s, c, 'E') || char_at(s, c, 'e') {
        let neg = char_at(s, c + 1, '-');
        let a = if char_at(s, c + 1, '-') || char_at(s, c + 1, '+') { c + 2 } else { c + 1 };
        let d = digits_end(s, a);
        if d == a || digits_value(s, a, d) > i32::MAX {
            None
        } else {
            Some((if neg { -(digits_value(s, a, d) as int) } else { digits_value(s, a, d) as int }, d))
        }
    } else {
        Some((0, c))
    }
}

/// An integer `[+-] digits`, or a real `[+-] digits '.' digits [E [+-]
/// digits]`, whose mantissa (the digits without the point) is at most
/// `i64::MAX` in size and whose exponent fits an `i32`.
pub open spec fn number_of(s: Seq<char>, i: int) -> Option<(PTree, int)> {
    let neg = char_at(s, i, '-');
    let a = if char_at(s, i, '-') || char_at(s, i, '+') { i + 1 } else { i };
    let b = digits_end(s, a);
    if b == a {
        None
    } else if !char_at(s, b, '.') {
        if digits_value(s, a, b) > i64::MAX {
            None
        } else {
            Some((PTree::Integer(if neg { -(digits_value(s, a, b) as int) } else { digits_value(s, a, b) as int }), b))
        }
    } else {
        let c = digits_end(s, b + 1);
        let mant = digits_skipping(s, a, c, b);
        match exponent_of(s, c) {
            None => None,
            Some((ev, f)) => {
                let ex = ev - (c - b - 1);
                if mant > i64::MAX || ex < i32::MIN || ex > i32::MAX {
                    None
                } else {
                    Some((PTree::Real(if neg { -(mant as int) } else { mant as int }, ex), f))
                }
            },
        }
    }
}

/// The body of a string after its opening quote, `''` standing for one
/// quote, and the position after the closing quote.
pub open spec fn string_body(s: Seq<char>, j: int, acc: Seq<char>) -> Option<(Seq<char>, int)>
    decreases s.len() - j,
{
    if j < 0 || j >= s.len() {
        None
    } else if s[j] == '\'' {
        if char_at(s, j + 1, '\'') {
            string_body(s, j + 2, acc.push('\''))
        } else {
            Some((acc, j + 1))
        }
    } else {
        string_body(s, j + 1, acc.push(s[j]))
    }
}

/// Position of the first `"` from `j`.
pub open spec fn quote_end(s: Seq<char>, j: int) -> Option<int>
    decreases s.len() - j,
{
    if j < 0 || j >= s.len() {
        None
    } else if s[j] == '"' {
        Some(j)
    } else {
        quote_end(s, j + 1)
    }
}

/// `#n` or `@n` at `i`, with `n` at most `u64::MAX`.
pub open spec fn reference_of(s: Seq<char>, i: int) -> Option<(PTree, int)> {
    let d = digits_end(s, i + 1);
    if d == i + 1 || digits_value(s, i + 1, d) > u64::MAX {
        None
    } else if char_at(s, i, '#') {
        Some((PTree::Ref(RValue::Entity(digits_value(s, i + 1, d) as u64)), d))
    } else {
        Some((PTree::Ref(RValue::Value(digits_value(s, i + 1, d) as u64)), d))
    }
}

/// A parameter at `i`: `$`, `*`, a reference, an enumeration `.NAME.`, a
/// string, a binary `"..."`, a number, a typed parameter `NAME(param)` or a
/// list.
pub open spec fn param_of(s: Seq<char>, i: int) -> Option<(PTree, int)>
    decreases s.len() - i, 0int,
{
    if i < 0 || i >= s.len() {
        None
    } else if s[i] == '$' {
        Some((PTree::NotProvided, i + 1))
    } else if s[i] == '*' {
        Some((PTree::Omitted, i + 1))
    } else if s[i] == '#' || s[i] == '@' {
        reference_of(s, i)
    } else if s[i] == '.' {
        if ident_at(s, i + 1) && char_at(s, word_end(s, i + 1), '.') {
            Some((PTree::Enumeration(s.subrange(i + 1, word_end(s, i + 1))), word_end(s, i + 1) + 1))
        } else {
            None
        }
    } else if s[i] == '\'' {
        match string_body(s, i + 1, seq![]) {
            Some((t, e)) => Some((PTree::Str(t), e)),
            None => None,
        }
    } else if s[i] == '"' {
        match quote_end(s, i + 1) {
            Some(k) => Some((PTree::Binary(s.subrange(i + 1, k)), k + 1)),
            None => None,
        }
    } else if s[i] == '(' {
        match list_of(s, i + 1) {
            Some((ms, e)) => Some((PTree::List(ms), e)),
            None => None,
        }
    } else if ident_at(s, i) {
        let e = word_end(s, i);
        let j = spaces_end(s, e);
        let k = spaces_end(s, j + 1);
        if char_at(s, j, '(') && i < k <= s.len() {
            match param_of(s, k) {
                Some((inner, f)) => if char_at(s, spaces_end(s, f), ')') {
                    Some((PTree::Typed(s.subrange(i, e), Box::new(inner)), spaces_end(s, f) + 1))
                } else {
                    None
                },
                None => None,
            }
        } else {
            None
        }
    } else {
        number_of(s, i)
    }
}

/// The items of a list after its `(`, and the position after its `)`.
pub open spec fn list_of(s: Seq<char>, i: int) -> Option<(Seq<PTree>, int)>
    decreases s.len() - i, 2int,
{
    if 0 <= i <= spaces_end(s, i) <= s.len() {
        if char_at(s, spaces_end(s, i), ')') {
            Some((seq![], spaces_end(s, i) + 1))
        } else {
            items_of(s, spaces_end(s, i), seq![])
        }
    } else {
        None
    }
}

/// `param { ',' param } ')'` at `j`, after the items `acc`.
pub open spec fn items_of(s: Seq<char>, j: int, acc: Seq<PTree>) -> Option<(Seq<PTree>, int)>
    decreases s.len() - j, 1int,
{
    match param_of(s, j) {
        None => None,
        Some((p, e)) => {
            let k = spaces_end(s, e);
            if char_at(s, k, ',') && j < spaces_end(s, k + 1) <= s.len() {
                items_of(s, spaces_end(s, k + 1), acc.push(p))
            } else if char_at(s, k, ')') {
                Some((acc.push(p), k + 1))
            } else {
                None
            }
        },
    }
}

/// `NAME ( param, .. )` at `i`.
pub open spec fn record_of(s: Seq<char>, i: int) -> Option<((Seq<char>, Seq<PTree>), int)> {
    if ident_at(s, i) && char_at(s, spaces_end(s, word_end(s, i)), '(') {
        match list_of(s, spaces_end(s, word_end(s, i)) + 1) {
            Some((ms, e)) => Some(((s.subrange(i, word_end(s, i)), ms), e)),
            None => None,
        }
    } else {
        None
    }
}

proof fn lemma_skipping_grows(s: Seq<char>, a: int, k: int, j: int, b: int)
    requires
        a <= k <= j,
    ensures
        digits_skipping(s, a, k, b) <= digits_skipping(s, a, j, b),
    decreases j - k,
{
    if k < j {
        lemma_skipping_grows(s, a, k, j - 1, b);
    }
}

proof fn lemma_skipping_none(s: Seq<char>, a: int, j: int, b: int)
    requires
        a <= j <= b,
    ensures
        digits_skipping(s, a, j, b) == digits_value(s, a, j),
    decreases j - a,
{
    if a < j {
        lemma_skipping_none(s, a, j - 1, b);
    }
}

/// The digits of `s[a..c]` but the one at `b`, as a number, where it fits a `u64`.
fn digits_skipping_at(s: &[char], a: usize, c: usize, b: usize) -> (r: Option<u64>)
    requires
        a <= c <= s@.len(),
        forall|m: int| a <= m < c && m != b ==> #[trigger] is_digit(s@[m]),
    ensures
        digits_skipping(s@, a as int, c as int, b as int) <= u64::MAX ==> r == Some(
            digits_skipping(s@, a as int, c as int, b as int) as u64,
        ),
        digits_skipping(s@, a as int, c as int, b as int) > u64::MAX ==> r is None,
{
    let mut k = a;
    let mut value: u64 = 0;
    while k < c
        invariant
            a <= k <= c <= s@.len(),
            forall|m: int| a <= m < c && m != b ==> #[trigger] is_digit(s@[m]),
            value == digits_skipping(s@, a as int, k as int, b as int),
        decreases c - k,
    {
        if k != b {
            assert(is_digit(s@[k as int]));
            let digit = (s[k] as u32 - '0' as u32) as u64;
            assert(digits_skipping(s@, a as int, k + 1, b as int) == value * 10 + digit);
            let next = match value.checked_mul(10) {
                Some(v) => v.checked_add(digit),
                None => None,
            };
            match next {
                Some(v) => {
                    value = v;
                },
                None => {
                    proof {
                        lemma_skipping_grows(s@, a as int, k + 1, c as int, b as int);
                    }
                    return None;
                },
            }
        }
        k += 1;
    }
    Some(value)
}

/// `digits_end` from `a` bounds a run of digits.
proof fn lemma_run_digits(s: Seq<char>, a: int)
    requires
        0 <= a <= s.len(),
    ensures
        forall|m: int| a <= m < digits_end(s, a) ==> #[trigger] is_digit(s[m]),
{
    assert forall|m: int| a <= m < digits_end(s, a) implies #[trigger] is_digit(s[m]) by {
        lemma_digits_run(s, a, m);
    }
}

fn exponent_at(s: &[char], c: usize) -> (r: Option<(i64, usize)>)
    requires
        c <= s@.len(),
    ensures
        match exponent_of(s@, c as int) {
            None => r is None,
            Some((v, f)) => r matches Some((v2, f2)) && v2 == v && f2 == f,
        },
        r matches Some((v, f)) ==> f <= s@.len(),
{
    if !(at_char(s, c, 'E') || at_char(s, c, 'e')) {
        return Some((0, c));
    }
    let neg = at_char(s, c + 1, '-');
    let a = if neg || at_char(s, c + 1, '+') { c + 2 } else { c + 1 };
    let d = skip_digits(s, a);
    if d == a {
        return None;
    }
    let v = match digits_at(s, a) {
        Some((v, _)) => v,
        None => return None,
    };
    if v > 2147483647u64 {
        return None;
    }
    let v = v as i64;
    Some((if neg { -v } else { v }, d))
}

fn number_at(s: &[char], i: usize) -> (r: Option<(Parameter, usize)>)
    requires
        i <= s@.len(),
    ensures
        match number_of(s@, i as int) {
            None => r is None,
            Some((m, e)) => r matches Some((p, f)) && models(p, m) && f == e,
        },
        r matches Some((p, f)) ==> f <= s@.len(),
{
    let neg = at_char(s, i, '-');
    let a = if neg || at_char(s, i, '+') { i + 1 } else { i };
    let b = skip_digits(s, a);
    if b == a {
        return None;
    }
    proof {
        lemma_run_digits(s@, a as int);
    }
    if !at_char(s, b, '.') {
        proof {
            lemma_skipping_none(s@, a as int, b as int, b as int);
        }
        let v = match digits_skipping_at(s, a, b, b) {
            Some(v) => v,
            None => return None,
        };
        if v > 9223372036854775807u64 {
            return None;
        }
        let v = v as i64;
        return Some((Parameter::Integer(if neg { -v } else { v }), b));
    }
    let c = skip_digits(s, b + 1);
    proof {
        lemma_run_digits(s@, b + 1);
        assert forall|m: int| a <= m < c && m != b implies #[trigger] is_digit(s@[m]) by {
            if m < b {
                assert(is_digit(s@[m]));
            }
        }
    }
    let mant = match digits_skipping_at(s, a, c, b) {
        Some(v) => v,
        None => return None,
    };
    let (ev, f) = match exponent_at(s, c) {
        Some(p) => p,
        None => return None,
    };
    let frac = c - b - 1;
    if frac as u64 > 4294967296u64 || mant > 9223372036854775807u64 {
        return None;
    }
    let ex = ev - frac as i64;
    if ex < -2147483648i64 || ex > 2147483647i64 {
        return None;
    }
    let mant = mant as i64;
    Some((Parameter::Real(Real { mantissa: if neg { -mant } else { mant }, exponent: ex as i32 }), f))
}

fn string_at(s: &[char], j: usize) -> (r: Option<(String, usize)>)
    requires
        j <= s@.len(),
    ensures
        match string_body(s@, j as int, seq![]) {
            None => r is None,
            Some((t, e)) => r matches Some((v, f)) && v@ == t && f == e,
        },
        r matches Some((v, f)) ==> f <= s@.len(),
{
    let mut acc: Vec<char> = Vec::new();
    let mut k = j;
    loop
        invariant
            j <= k <= s@.len(),
            string_body(s@, k as int, acc@) == string_body(s@, j as int, seq![]),
        decreases s@.len() - k,
    {
        if k >= s.len() {
            return None;
        }
        if s[k] == '\'' {
            if at_char(s, k + 1, '\'') {
                acc.push('\'');
                k += 2;
            } else {
                return Some((string_of(acc.as_slice(), 0, acc.len()), k + 1));
            }
        } else {
            acc.push(s[k]);
            k += 1;
        }
    }
}

fn quote_at(s: &[char], j: usize) -> (r: Option<usize>)
    requires
        j <= s@.len(),
    ensures
        match quote_end(s@, j as int) {
            None => r is None,
            Some(k) => r == Some(k as usize) && j <= k < s@.len(),
        },
{
    let mut k = j;
    while k < s.len()
        invariant
            j <= k <= s@.len(),
            quote_end(s@, k as int) == quote_end(s@, j as int),
        decreases s@.len() - k,
    {
        if s[k] == '"' {
            return Some(k);
        }
        k += 1;
    }
    None
}

fn reference_at(s: &[char], i: usize) -> (r: Option<(Parameter, usize)>)
    requires
        i < s@.len() <= usize::MAX,
    ensures
        match reference_of(s@, i as int) {
            None => r is None,
            Some((m, e)) => r matches Some((p, f)) && models(p, m) && f == e,
        },
        r matches Some((p, f)) ==> f <= s@.len(),
{
    let d = skip_digits(s, i + 1);
    if d == i + 1 {
        return None;
    }
    let v = match digits_at(s, i + 1) {
        Some((v, _)) => v,
        None => return None,
    };
    if s[i] == '#' {
        Some((Parameter::Ref(RValue::Entity(v)), d))
    } else {
        Some((Parameter::Ref(RValue::Value(v)), d))
    }
}

fn param_at(s: &[char], i: usize) -> (r: Option<(Parameter, usize)>)
    requires
        i <= s@.len(),
    ensures
        match param_of(s@, i as int) {
            None => r is None,
            Some((m, e)) => r matches Some((p, f)) && models(p, m) && f == e,
        },
        r matches Some((p, f)) ==> f <= s@.len(),
    decreases s@.len() - i, 0int,
{
    if i >= s.len() {
        return None;
    }
    let ch = s[i];
    if ch == '$' {
        Some((Parameter::NotProvided, i + 1))
    } else if ch == '*' {
        Some((Parameter::Omitted, i + 1))
    } else if ch == '#' || ch == '@' {
        reference_at(s, i)
    } else if ch == '.' {
        if !at_ident(s, i + 1) {
            return None;
        }
        let e = skip_word(s, i + 1);
        if !at_char(s, e, '.') {
            return None;
        }
        Some((Parameter::Enumeration(string_of(s, i + 1, e)), e + 1))
    } else if ch == '\'' {
        match string_at(s, i + 1) {
            Some((t, e)) => Some((Parameter::String(t), e)),
            None => None,
        }
    } else if ch == '"' {
        match quote_at(s, i + 1) {
            Some(k) => Some((Parameter::Binary(string_of(s, i + 1, k)), k + 1)),
            None => None,
        }
    } else if ch == '(' {
        match list_at(s, i + 1) {
            Some((v, e)) => {
                let ghost ms = list_of(s@, i + 1)->Some_0.0;
                let ghost vs = v@;
                let p = Parameter::List(v);
                Some((p, e))
            },
            None => None,
        }
    } else if at_ident(s, i) {
        let e = skip_word(s, i);
        let j = skip_spaces(s, e);
        if !at_char(s, j, '(') {
            return None;
        }
        let k = skip_spaces(s, j + 1);
        if k <= i {
            return None;
        }
        let (inner, f) = match param_at(s, k) {
            Some(p) => p,
            None => return None,
        };
        let g = skip_spaces(s, f);
        if !at_char(s, g, ')') {
            return None;
        }
        Some((Parameter::Typed { name: string_of(s, i, e), ty: Box::new(inner) }, g + 1))
    } else {
        number_at(s, i)
    }
}

fn list_at(s: &[char], i: usize) -> (r: Option<(Vec<Parameter>, usize)>)
    requires
        i <= s@.len(),
    ensures
        match list_of(s@, i as int) {
            None => r is None,
            Some((ms, e)) => r matches Some((v, f)) && all_model(v@, ms) && f == e,
        },
        r matches Some((v, f)) ==> f <= s@.len(),
    decreases s@.len() - i, 2int,
{
    let j = skip_spaces(s, i);
    if at_char(s, j, ')') {
        return Some((Vec::new(), j + 1));
    }
    items_at(s, j, Vec::new(), Ghost(Seq::empty()))
}

fn items_at(s: &[char], j: usize, acc: Vec<Parameter>, Ghost(accm): Ghost<Seq<PTree>>) -> (r: Option<(Vec<Parameter>, usize)>)
    requires
        j <= s@.len(),
        all_model(acc@, accm),
    ensures
        match items_of(s@, j as int, accm) {
            None => r is None,
            Some((ms, e)) => r matches Some((v, f)) && all_model(v@, ms) && f == e,
        },
        r matches Some((v, f)) ==> f <= s@.len(),
    decreases s@.len() - j, 1int,
{
    let (p, e) = match param_at(s, j) {
        Some(x) => x,
        None => return None,
    };
    let ghost m = param_of(s@, j as int)->Some_0.0;
    let mut acc = acc;
    let ghost before = acc@;
    acc.push(p);
    proof {
        let ms2 = accm.push(m);
        assert(acc@.subrange(0, acc@.len() - 1) =~= before);
        assert(ms2.subrange(0, ms2.len() - 1) =~= accm);
        assert(all_model(acc@, ms2));
    }
    let k = skip_spaces(s, e);
    if at_char(s, k, ',') {
        let k2 = skip_spaces(s, k + 1);
        if j < k2 {
            return items_at(s, k2, acc, Ghost(accm.push(m)));
        }
    }
    if at_char(s, k, ')') {
        return Some((acc, k + 1));
    }
    None
}

/// A record as read: its name and its parameters.
pub type RecordModel = (Seq<char>, Seq<PTree>);

/// An entity instance as read: its id and its record.
pub type InstanceModel = (u64, RecordModel);

pub open spec fn record_models(r: Record, m: RecordModel) -> bool {
    r.name@ == m.0 && all_model(r.parameters@, m.1)
}

pub open spec fn instance_models(x: EntityInstance, m: InstanceModel) -> bool {
    x matches EntityInstance::Simple { name, record } && name == m.0 && record_models(record, m.1)
}

pub open spec fn instances_model(v: Seq<EntityInstance>, ms: Seq<InstanceModel>) -> bool {
    v.len() == ms.len() && forall|k: int| 0 <= k < ms.len() ==> #[trigger] instance_models(v[k], ms[k])
}

pub open spec fn kw_data() -> Seq<char> {
    seq!['D', 'A', 'T', 'A']
}

pub open spec fn kw_endsec() -> Seq<char> {
    seq!['E', 'N', 'D', 'S', 'E', 'C']
}

/// `#n = record ;` at `i`, with `n` at most `u64::MAX`.
pub open spec fn instance_of(s: Seq<char>, i: int) -> Option<(InstanceModel, int)> {
    let d = digits_end(s, i + 1);
    let a = spaces_end(s, d);
    if char_at(s, i, '#') && d > i + 1 && digits_value(s, i + 1, d) <= u64::MAX && char_at(s, a, '=') {
        match record_of(s, spaces_end(s, a + 1)) {
            Some((rec, e)) => if char_at(s, spaces_end(s, e), ';') {
                Some(((digits_value(s, i + 1, d) as u64, rec), spaces_end(s, e) + 1))
            } else {
                None
            },
            None => None,
        }
    } else {
        None
    }
}

/// Instances after those in `acc`, up to and with `ENDSEC ;`.
pub open spec fn instances_of(s: Seq<char>, i: int, acc: Seq<InstanceModel>) -> Option<(Seq<InstanceModel>, int)>
    decreases s.len() - i,
{
    let j = spaces_end(s, i);
    if keyword_at(s, j, kw_endsec()) && char_at(s, spaces_end(s, j + 6), ';') {
        Some((acc, spaces_end(s, j + 6) + 1))
    } else {
        match instance_of(s, j) {
            Some((x, e)) => if i < e <= s.len() {
                instances_of(s, e, acc.push(x))
            } else {
                None
            },
            None => None,
        }
    }
}

/// `DATA ; { instance } ENDSEC ;` at `i`.
pub open spec fn data_section_of(s: Seq<char>, i: int) -> Option<(Seq<InstanceModel>, int)> {
    if keyword_at(s, i, kw_data()) && char_at(s, spaces_end(s, i + 4), ';') {
        instances_of(s, spaces_end(s, i + 4) + 1, seq![])
    } else {
        None
    }
}

fn record_at(s: &[char], i: usize) -> (r: Option<(Record, usize)>)
    requires
        i <= s@.len(),
    ensures
        match record_of(s@, i as int) {
            None => r is None,
            Some((m, e)) => r matches Some((rec, f)) && record_models(rec, m) && f == e,
        },
        r matches Some((rec, f)) ==> f <= s@.len(),
{
    if !at_ident(s, i) {
        return None;
    }
    let e = skip_word(s, i);
    let j = skip_spaces(s, e);
    if !at_char(s, j, '(') {
        return None;
    }
    match list_at(s, j + 1) {
        Some((parameters, f)) => Some((Record { name: string_of(s, i, e), parameters }, f)),
        None => None,
    }
}

fn instance_at(s: &[char], i: usize) -> (r: Option<(EntityInstance, usize)>)
    requires
        i <= s@.len(),
    ensures
        match instance_of(s@, i as int) {
            None => r is None,
            Some((m, e)) => r matches Some((x, f)) && instance_models(x, m) && f == e,
        },
        r matches Some((x, f)) ==> f <= s@.len(),
{
    if !at_char(s, i, '#') {
        return None;
    }
    let d = skip_digits(s, i + 1);
    if d <= i + 1 {
        return None;
    }
    let id = match digits_at(s, i + 1) {
        Some((v, _)) => v,
        None => return None,
    };
    let a = skip_spaces(s, d);
    if !at_char(s, a, '=') {
        return None;
    }
    let b = skip_spaces(s, a + 1);
    let (record, e) = match record_at(s, b) {
        Some(p) => p,
        None => return None,
    };
    let g = skip_spaces(s, e);
    if !at_char(s, g, ';') {
        return None;
    }
    Some((EntityInstance::Simple { name: id, record }, g + 1))
}

fn data_section_at(s: &[char], i: usize) -> (r: Option<(DataSection, usize)>)
    requires
        i <= s@.len(),
    ensures
        match data_section_of(s@, i as int) {
            None => r is None,
            Some((ms, e)) => r matches Some((sec, f)) && instances_model(sec.entities@, ms) && f == e,
        },
        r matches Some((sec, f)) ==> f <= s@.len(),
{
    let data_kw = ['D', 'A', 'T', 'A'];
    let endsec_kw = ['E', 'N', 'D', 'S', 'E', 'C'];
    assert(data_kw@ == kw_data());
    assert(endsec_kw@ == kw_endsec());
    if !at_keyword(s, i, &data_kw) {
        return None;
    }
    let a = skip_spaces(s, i + 4);
    if !at_char(s, a, ';') {
        return None;
    }
    let mut k = a + 1;
    let mut entities: Vec<EntityInstance> = Vec::new();
    let ghost start = (a + 1) as int;
    let ghost mut ms: Seq<InstanceModel> = seq![];
    loop
        invariant
            start <= k <= s@.len(),
            endsec_kw@ == kw_endsec(),
            instances_model(entities@, ms),
            instances_of(s@, k as int, ms) == instances_of(s@, start, seq![]),
            data_section_of(s@, i as int) == instances_of(s@, start, seq![]),
        decreases s@.len() - k,
    {
        let j = skip_spaces(s, k);
        if at_keyword(s, j, &endsec_kw) {
            let g = skip_spaces(s, j + 6);
            if at_char(s, g, ';') {
                return Some((DataSection { entities }, g + 1));
            }
        }
        let (x, e) = match instance_at(s, j) {
            Some(p) => p,
            None => return None,
        };
        if e <= k {
            return None;
        }
        let ghost before = entities@;
        let ghost xm = instance_of(s@, j as int)->Some_0.0;
        entities.push(x);
        proof {
            assert forall|q: int| 0 <= q < ms.push(xm).len() implies #[trigger] instance_models(entities@[q], ms.push(xm)[q]) by {
                if q < before.len() {
                    assert(entities@[q] == before[q]);
                }
            }
            ms = ms.push(xm);
        }
        k = e;
    }
}

/// Reads one parameter at the start of `input`: `$`, `*`, `#n`, `@n`,
/// `.NAME.`, a string, a binary, an integer, a real, `NAME(param)` or a list.
pub fn parameter(input: &str) -> (r: Result<(Parameter, usize), ParseError>)
    ensures
        match param_of(input@, 0) {
            None => r matches Err(e) && e.production == Production::Parameter && e.position == 0,
            Some((m, e)) => r matches Ok((p, n)) && models(p, m) && n == e,
        },
{
    let s = chars_of(input);
    match param_at(s.as_slice(), 0) {
        Some(p) => Ok(p),
        None => Err(ParseError { production: Production::Parameter, position: 0 }),
    }
}

/// Reads a record `NAME(param, ..)` at the start of `input`, with the
/// number of characters read.
pub fn simple_record(input: &str) -> (r: Result<(Record, usize), ParseError>)
    ensures
        match record_of(input@, 0) {
            None => r matches Err(e) && e.production == Production::SimpleRecord && e.position == 0,
            Some((m, e)) => r matches Ok((rec, n)) && record_models(rec, m) && n == e,
        },
{
    let s = chars_of(input);
    match record_at(s.as_slice(), 0) {
        Some(p) => Ok(p),
        None => Err(ParseError { production: Production::SimpleRecord, position: 0 }),
    }
}

/// Reads a data section `DATA; #n = record; .. ENDSEC;` at the start of
/// `input`, with the number of characters read.
pub fn data_section(input: &str) -> (r: Result<(DataSection, usize), ParseError>)
    ensures
        match data_section_of(input@, 0) {
            None => r matches Err(e) && e.production == Production::DataSection && e.position == 0,
            Some((ms, e)) => r matches Ok((sec, n)) && instances_model(sec.entities@, ms) && n == e,
        },
{
    let s = chars_of(input);
    match data_section_at(s.as_slice(), 0) {
        Some(p) => Ok(p),
        None => Err(ParseError { production: Production::DataSection, position: 0 }),
    }
}

/// `s[i..]` starts with the characters of `lit`.
pub open spec fn literal_at(s: Seq<char>, i: int, lit: Seq<char>) -> bool {
    0 <= i && i + lit.len() <= s.len() && s.subrange(i, i + lit.len()) == lit
}

pub open spec fn lit_iso() -> Seq<char> {
    seq!['I', 'S', 'O', '-', '1', '0', '3', '0', '3', '-', '2', '1']
}

pub open spec fn lit_end_iso() -> Seq<char> {
    seq!['E', 'N', 'D', '-', 'I', 'S', 'O', '-', '1', '0', '3', '0', '3', '-', '2', '1']
}

pub open spec fn kw_header() -> Seq<char> {
    seq!['H', 'E', 'A', 'D', 'E', 'R']
}

/// Header records `record ;` after those in `acc`, up to and with `ENDSEC ;`.
pub open spec fn header_records(s: Seq<char>, i: int, acc: Seq<RecordModel>) -> Option<(Seq<RecordModel>, int)>
    decreases s.len() - i,
{
    let j = spaces_end(s, i);
    if keyword_at(s, j, kw_endsec()) && char_at(s, spaces_end(s, j + 6), ';') {
        Some((acc, spaces_end(s, j + 6) + 1))
    } else {
        match record_of(s, j) {
            Some((r, e)) => if char_at(s, spaces_end(s, e), ';') && i < spaces_end(s, e) + 1 <= s.len() {
                header_records(s, spaces_end(s, e) + 1, acc.push(r))
            } else {
                None
            },
            None => None,
        }
    }
}

/// Data sections after those in `acc`, at least one in all; ends after the
/// whitespace that follows the last.
pub open spec fn data_sections(s: Seq<char>, i: int, acc: Seq<Seq<InstanceModel>>) -> Option<(Seq<Seq<InstanceModel>>, int)>
    decreases s.len() - i,
{
    let j = spaces_end(s, i);
    match data_section_of(s, j) {
        Some((sec, e)) => if i < e <= s.len() {
            data_sections(s, e, acc.push(sec))
        } else {
            None
        },
        None => if acc.len() > 0 {
            Some((acc, j))
        } else {
            None
        },
    }
}

/// `ISO-10303-21; HEADER; .. ENDSEC; DATA; .. ENDSEC; .. END-ISO-10303-21;`,
/// with nothing but whitespace around it.
pub open spec fn exchange_of(s: Seq<char>) -> Option<(Seq<RecordModel>, Seq<Seq<InstanceModel>>)> {
    let a = spaces_end(s, 0);
    let b = spaces_end(s, a + 12) + 1;
    let c = spaces_end(s, b);
    if literal_at(s, a, lit_iso()) && char_at(s, b - 1, ';') && keyword_at(s, c, kw_header())
        && char_at(s, spaces_end(s, c + 6), ';') {
        match header_records(s, spaces_end(s, c + 6) + 1, seq![]) {
            Some((hs, d)) => match data_sections(s, d, seq![]) {
                Some((ds, f)) => if literal_at(s, f, lit_end_iso()) && char_at(s, spaces_end(s, f + 16), ';')
                    && spaces_end(s, spaces_end(s, f + 16) + 1) == s.len() {
                    Some((hs, ds))
                } else {
                    None
                },
                None => None,
            },
            None => None,
        }
    } else {
        None
    }
}

pub open spec fn records_model(v: Seq<Record>, ms: Seq<RecordModel>) -> bool {
    v.len() == ms.len() && forall|k: int| 0 <= k < ms.len() ==> #[trigger] record_models(v[k], ms[k])
}

pub open spec fn sections_model(v: Seq<DataSection>, ms: Seq<Seq<InstanceModel>>) -> bool {
    v.len() == ms.len() && forall|k: int| 0 <= k < ms.len() ==> #[trigger] instances_model(v[k].entities@, ms[k])
}

fn at_literal(s: &[char], i: usize, lit: &[char]) -> (r: bool)
    requires
        i <= s@.len(),
    ensures
        r == literal_at(s@, i as int, lit@),
        r ==> i + lit@.len() <= s@.len() <= usize::MAX,
{
    if lit.len() > s.len() - i {
        return false;
    }
    let mut k: usize = 0;
    while k < lit.len()
        invariant
            i + lit@.len() <= s@.len() <= usize::MAX,
            k <= lit@.len(),
            forall|m: int| 0 <= m < k ==> s@[i + m] == lit@[m],
        decreases lit@.len() - k,
    {
        if s[i + k] != lit[k] {
            assert(s@.subrange(i as int, i + lit@.len())[k as int] != lit@[k as int]);
            return false;
        }
        k += 1;
    }
    assert(s@.subrange(i as int, i + lit@.len()) =~= lit@);
    true
}

fn header_at(s: &[char], i: usize) -> (r: Option<(Vec<Record>, usize)>)
    requires
        i <= s@.len(),
    ensures
        match header_records(s@, i as int, seq![]) {
            None => r is None,
            Some((hs, d)) => r matches Some((v, e)) && records_model(v@, hs) && e == d,
        },
        r matches Some((v, e)) ==> e <= s@.len(),
{
    let endsec_kw = ['E', 'N', 'D', 'S', 'E', 'C'];
    assert(endsec_kw@ == kw_endsec());
    let mut k = i;
    let mut header: Vec<Record> = Vec::new();
    let ghost mut hs: Seq<RecordModel> = seq![];
    loop
        invariant
            i <= k <= s@.len(),
            endsec_kw@ == kw_endsec(),
            records_model(header@, hs),
            header_records(s@, k as int, hs) == header_records(s@, i as int, seq![]),
        decreases s@.len() - k,
    {
        let j = skip_spaces(s, k);
        if at_keyword(s, j, &endsec_kw) {
            let g = skip_spaces(s, j + 6);
            if at_char(s, g, ';') {
                return Some((header, g + 1));
            }
        }
        let (rec, e) = match record_at(s, j) {
            Some(p) => p,
            None => return None,
        };
        let g = skip_spaces(s, e);
        if !at_char(s, g, ';') || g + 1 <= k {
            return None;
        }
        let ghost before = header@;
        let ghost rm = record_of(s@, j as int)->Some_0.0;
        header.push(rec);
        proof {
            assert forall|q: int| 0 <= q < hs.push(rm).len() implies #[trigger] record_models(header@[q], hs.push(rm)[q]) by {
                if q < before.len() {
                    assert(header@[q] == before[q]);
                }
            }
            hs = hs.push(rm);
        }
        k = g + 1;
    }
}

fn sections_at(s: &[char], i: usize) -> (r: Option<(Vec<DataSection>, usize)>)
    requires
        i <= s@.len(),
    ensures
        match data_sections(s@, i as int, seq![]) {
            None => r is None,
            Some((ds, f)) => r matches Some((v, e)) && sections_model(v@, ds) && e == f,
        },
        r matches Some((v, e)) ==> e <= s@.len(),
{
    let mut m = i;
    let mut data: Vec<DataSection> = Vec::new();
    let ghost mut ds: Seq<Seq<InstanceModel>> = seq![];
    loop
        invariant
            i <= m <= s@.len(),
            data@.len() == ds.len(),
            sections_model(data@, ds),
            data_sections(s@, m as int, ds) == data_sections(s@, i as int, seq![]),
        decreases s@.len() - m,
    {
        let j = skip_spaces(s, m);
        match data_section_at(s, j) {
            Some((sec, e)) => {
                if e <= m {
                    return None;
                }
                let ghost before = data@;
                let ghost sm = data_section_of(s@, j as int)->Some_0.0;
                data.push(sec);
                proof {
                    assert forall|q: int| 0 <= q < ds.push(sm).len() implies #[trigger] instances_model(data@[q].entities@, ds.push(sm)[q]) by {
                        if q < before.len() {
                            assert(data@[q] == before[q]);
                        }
                    }
                    ds = ds.push(sm);
                }
                m = e;
            },
            None => {
                if data.len() == 0 {
                    return None;
                }
                return Some((data, j));
            },
        }
    }
}

/// Reads a whole exchange structure: its header records and its data
/// sections, in order.
pub fn parse(input: &str) -> (r: Result<Exchange, ParseError>)
    ensures
        match exchange_of(input@) {
            None => r matches Err(e) && e.production == Production::Exchange && e.position == 0,
            Some((hs, ds)) => r matches Ok(x) && records_model(x.header@, hs) && sections_model(x.data@, ds),
        },
{
    let v = chars_of(input);
    let s = v.as_slice();
    let fail = ParseError { production: Production::Exchange, position: 0 };
    let iso = ['I', 'S', 'O', '-', '1', '0', '3', '0', '3', '-', '2', '1'];
    let end_iso = ['E', 'N', 'D', '-', 'I', 'S', 'O', '-', '1', '0', '3', '0', '3', '-', '2', '1'];
    let header_kw = ['H', 'E', 'A', 'D', 'E', 'R'];
    assert(iso@ == lit_iso());
    assert(end_iso@ == lit_end_iso());
    assert(header_kw@ == kw_header());
    let a = skip_spaces(s, 0);
    if !at_literal(s, a, &iso) {
        return Err(fail);
    }
    let b1 = skip_spaces(s, a + 12);
    if !at_char(s, b1, ';') {
        return Err(fail);
    }
    let c = skip_spaces(s, b1 + 1);
    if !at_keyword(s, c, &header_kw) {
        return Err(fail);
    }
    let c2 = skip_spaces(s, c + 6);
    if !at_char(s, c2, ';') {
        return Err(fail);
    }
    let (header, d) = match header_at(s, c2 + 1) {
        Some(p) => p,
        None => return Err(fail),
    };
    let (data, f) = match sections_at(s, d) {
        Some(p) => p,
        None => return Err(fail),
    };
    if !at_literal(s, f, &end_iso) {
        return Err(fail);
    }
    let g = skip_spaces(s, f + 16);
    if !at_char(s, g, ';') {
        return Err(fail);
    }
    if skip_spaces(s, g + 1) != s.len() {
        return Err(fail);
    }
    Ok(Exchange { header, data })
}

} // verus!
