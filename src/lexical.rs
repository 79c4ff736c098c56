//! Character classes, remarks and words of EXPRESS text.
//!
//! Every scanner here works on the text as a sequence of characters and a
//! position in it; the spec functions state what each scanner computes.
use vstd::prelude::*;
use vstd::std_specs::iter::IteratorSpec;

verus! {

pub open spec fn is_space(c: char) -> bool {
    c == ' ' || c == '\t' || c == '\n' || c == '\r'
}

pub open spec fn is_letter(c: char) -> bool {
    ('a' <= c && c <= 'z') || ('A' <= c && c <= 'Z')
}

pub open spec fn is_digit(c: char) -> bool {
    '0' <= c && c <= '9'
}

pub open spec fn is_word_char(c: char) -> bool {
    is_letter(c) || is_digit(c) || c == '_'
}

/// End of the longest run of word characters (letters, digits, `_`) from `i`.
pub open spec fn word_end(s: Seq<char>, i: int) -> int
    decreases s.len() - i,
{
    if 0 <= i < s.len() && is_word_char(s[i]) {
        word_end(s, i + 1)
    } else {
        i
    }
}

/// End of the longest run of whitespace from `i`.
pub open spec fn spaces_end(s: Seq<char>, i: int) -> int
    decreases s.len() - i,
{
    if 0 <= i < s.len() && is_space(s[i]) {
        spaces_end(s, i + 1)
    } else {
        i
    }
}

pub open spec fn pair_at(s: Seq<char>, i: int, a: char, b: char) -> bool {
    0 <= i && i + 1 < s.len() && s[i] == a && s[i + 1] == b
}

/// Modes of the trivia scanner: between remarks, inside `(* .. *)`, inside `-- ..`.
pub open spec fn trivia_scan(s: Seq<char>, i: int, mode: int, start: int) -> int
    decreases s.len() - i,
{
    if i < 0 || i >= s.len() {
        if mode == 1 {
            start
        } else {
            i
        }
    } else if mode == 0 {
        if is_space(s[i]) {
            trivia_scan(s, i + 1, 0, start)
        } else if pair_at(s, i, '(', '*') {
            trivia_scan(s, i + 2, 1, i)
        } else if pair_at(s, i, '-', '-') {
            trivia_scan(s, i + 2, 2, start)
        } else {
            i
        }
    } else if mode == 1 {
        if pair_at(s, i, '*', ')') {
            trivia_scan(s, i + 2, 0, start)
        } else {
            trivia_scan(s, i + 1, 1, start)
        }
    } else {
        if s[i] == '\n' {
            trivia_scan(s, i + 1, 0, start)
        } else {
            trivia_scan(s, i + 1, 2, start)
        }
    }
}

/// End of the whitespace and remarks that start at `i`. An embedded remark
/// `(* .. *)` that is never closed is not trivia: the scan stops before it.
pub open spec fn trivia_end(s: Seq<char>, i: int) -> int {
    trivia_scan(s, i, 0, i)
}

/// `s[i..]` starts with the word `w`, not followed by another word character.
pub open spec fn keyword_at(s: Seq<char>, i: int, w: Seq<char>) -> bool {
    0 <= i <= s.len() && word_end(s, i) == i + w.len() && s.subrange(i, i + w.len()) == w
}

/// An identifier starts at `i`: a letter followed by word characters.
pub open spec fn ident_at(s: Seq<char>, i: int) -> bool {
    0 <= i < s.len() && is_letter(s[i])
}

pub open spec fn char_at(s: Seq<char>, i: int, c: char) -> bool {
    0 <= i < s.len() && s[i] == c
}

pub proof fn lemma_word_end_bounds(s: Seq<char>, i: int)
    requires
        0 <= i <= s.len(),
    ensures
        i <= word_end(s, i) <= s.len(),
    decreases s.len() - i,
{
    if i < s.len() && is_word_char(s[i]) {
        lemma_word_end_bounds(s, i + 1);
    }
}

pub proof fn lemma_trivia_scan_bounds(s: Seq<char>, i: int, mode: int, start: int)
    requires
        0 <= start <= i <= s.len(),
    ensures
        start <= trivia_scan(s, i, mode, start) <= s.len(),
        mode != 1 ==> i <= trivia_scan(s, i, mode, start),
        mode == 1 ==> (i <= trivia_scan(s, i, mode, start) || trivia_scan(s, i, mode, start) == start),
    decreases s.len() - i,
{
    if i < s.len() {
        if mode == 0 {
            if is_space(s[i]) {
                lemma_trivia_scan_bounds(s, i + 1, 0, start);
            } else if pair_at(s, i, '(', '*') {
                lemma_trivia_scan_bounds(s, i + 2, 1, i);
            } else if pair_at(s, i, '-', '-') {
                lemma_trivia_scan_bounds(s, i + 2, 2, start);
            }
        } else if mode == 1 {
            if pair_at(s, i, '*', ')') {
                lemma_trivia_scan_bounds(s, i + 2, 0, start);
            } else {
                lemma_trivia_scan_bounds(s, i + 1, 1, start);
            }
        } else {
            if s[i] == '\n' {
                lemma_trivia_scan_bounds(s, i + 1, 0, start);
            } else {
                lemma_trivia_scan_bounds(s, i + 1, 2, start);
            }
        }
    }
}

pub proof fn lemma_trivia_end_bounds(s: Seq<char>, i: int)
    requires
        0 <= i <= s.len(),
    ensures
        i <= trivia_end(s, i) <= s.len(),
{
    lemma_trivia_scan_bounds(s, i, 0, i);
}

pub fn is_space_char(c: char) -> (r: bool)
    ensures
        r == is_space(c),
{
    c == ' ' || c == '\t' || c == '\n' || c == '\r'
}

pub fn is_letter_char(c: char) -> (r: bool)
    ensures
        r == is_letter(c),
{
    ('a' <= c && c <= 'z') || ('A' <= c && c <= 'Z')
}

pub fn is_word_character(c: char) -> (r: bool)
    ensures
        r == is_word_char(c),
{
    is_letter_char(c) || ('0' <= c && c <= '9') || c == '_'
}

/// Position after the word characters that start at `i`.
pub fn skip_word(s: &[char], i: usize) -> (r: usize)
    requires
        i <= s@.len(),
    ensures
        r == word_end(s@, i as int),
        i <= r <= s@.len(),
{
    let mut k = i;
    while k < s.len() && is_word_character(s[k])
        invariant
            i <= k <= s@.len(),
            word_end(s@, k as int) == word_end(s@, i as int),
        decreases s@.len() - k,
    {
        k += 1;
    }
    k
}

/// Position after the whitespace that starts at `i`.
pub fn skip_spaces(s: &[char], i: usize) -> (r: usize)
    requires
        i <= s@.len(),
    ensures
        r == spaces_end(s@, i as int),
        i <= r <= s@.len(),
{
    let mut k = i;
    while k < s.len() && is_space_char(s[k])
        invariant
            i <= k <= s@.len(),
            spaces_end(s@, k as int) == spaces_end(s@, i as int),
        decreases s@.len() - k,
    {
        k += 1;
    }
    k
}

pub fn is_pair(s: &[char], i: usize, a: char, b: char) -> (r: bool)
    requires
        i <= s@.len(),
    ensures
        r == pair_at(s@, i as int, a, b),
{
    i < s.len() && i + 1 < s.len() && s[i] == a && s[i + 1] == b
}

/// Position after the whitespace and remarks that start at `i`.
pub fn skip_trivia(s: &[char], i: usize) -> (r: usize)
    requires
        i <= s@.len(),
    ensures
        r == trivia_end(s@, i as int),
        i <= r <= s@.len(),
{
    proof {
        lemma_trivia_end_bounds(s@, i as int);
    }
    let mut k = i;
    let mut mode: u8 = 0;
    let mut start = i;
    loop
        invariant
            i <= start <= k <= s@.len(),
            mode <= 2,
            trivia_scan(s@, k as int, mode as int, start as int) == trivia_end(s@, i as int),
        decreases s@.len() - k,
    {
        if k >= s.len() {
            if mode == 1 {
                return start;
            } else {
                return k;
            }
        }
        if mode == 0 {
            if is_space_char(s[k]) {
                k += 1;
            } else if is_pair(s, k, '(', '*') {
                start = k;
                k += 2;
                mode = 1;
            } else if is_pair(s, k, '-', '-') {
                k += 2;
                mode = 2;
            } else {
                return k;
            }
        } else if mode == 1 {
            if is_pair(s, k, '*', ')') {
                k += 2;
                mode = 0;
            } else {
                k += 1;
            }
        } else {
            if s[k] == '\n' {
                mode = 0;
            }
            k += 1;
        }
    }
}

/// Whether the word `w` stands at `i`, with no word character after it.
pub fn at_keyword(s: &[char], i: usize, w: &[char]) -> (r: bool)
    requires
        i <= s@.len(),
    ensures
        r == keyword_at(s@, i as int, w@),
        r ==> i + w@.len() <= s@.len() && i + w@.len() <= usize::MAX,
{
    proof {
        lemma_word_end_bounds(s@, i as int);
    }
    let e = skip_word(s, i);
    if e - i != w.len() {
        return false;
    }
    let mut k: usize = 0;
    while k < w.len()
        invariant
            e - i == w@.len(),
            e == word_end(s@, i as int),
            i <= e <= s@.len(),
            k <= w@.len(),
            forall|m: int| 0 <= m < k ==> s@[i + m] == w@[m],
        decreases w@.len() - k,
    {
        if s[i + k] != w[k] {
            assert(s@.subrange(i as int, e as int)[k as int] != w@[k as int]);
            return false;
        }
        k += 1;
    }
    assert(s@.subrange(i as int, e as int) =~= w@);
    true
}

pub fn at_ident(s: &[char], i: usize) -> (r: bool)
    requires
        i <= s@.len(),
    ensures
        r == ident_at(s@, i as int),
{
    i < s.len() && is_letter_char(s[i])
}

pub fn at_char(s: &[char], i: usize, c: char) -> (r: bool)
    requires
        i <= s@.len(),
    ensures
        r == char_at(s@, i as int, c),
        r ==> i < s@.len() <= usize::MAX,
{
    i < s.len() && s[i] == c
}

/// The characters of `s`, in order.
pub fn chars_of(s: &str) -> (r: Vec<char>)
    ensures
        r@ == s@,
{
    broadcast use vstd::string::axiom_spec_iter, vstd::string::next_postcondition;

    let mut it = s.chars();
    let mut out: Vec<char> = Vec::new();
    loop
        invariant
            out@ + it.remaining() == s@,
            it.decrease() is Some,
        ensures
            out@ == s@,
        decreases it.decrease()->0,
    {
        match it.next() {
            Some(c) => {
                out.push(c);
            },
            None => {
                assert(it.remaining().len() == 0);
                assert(out@ + it.remaining() =~= out@);
                break;
            },
        }
    }
    out
}

/// Relies on `FromIterator<&char>` for `String`: the string made of the
/// characters `s[start..end]`, in order.
#[verifier::external_body]
pub fn string_of(s: &[char], start: usize, end: usize) -> (r: String)
    requires
        start <= end <= s@.len(),
    ensures
        r@ == s@.subrange(start as int, end as int),
{
    String::from_iter(&s[start..end])
}

/// The texts of the remarks from `i` on, after those in `acc`: what stands
/// between `(*` and `*)`, and between `--` and the end of its line.
pub open spec fn remark_scan(s: Seq<char>, i: int, mode: int, start: int, acc: Seq<Seq<char>>) -> Seq<Seq<char>>
    decreases s.len() - i,
{
    if i < 0 || i >= s.len() {
        if mode == 2 {
            acc.push(s.subrange(start, s.len() as int))
        } else {
            acc
        }
    } else if mode == 0 {
        if pair_at(s, i, '(', '*') {
            remark_scan(s, i + 2, 1, i + 2, acc)
        } else if pair_at(s, i, '-', '-') {
            remark_scan(s, i + 2, 2, i + 2, acc)
        } else {
            remark_scan(s, i + 1, 0, start, acc)
        }
    } else if mode == 1 {
        if pair_at(s, i, '*', ')') {
            remark_scan(s, i + 2, 0, start, acc.push(s.subrange(start, i)))
        } else {
            remark_scan(s, i + 1, 1, start, acc)
        }
    } else {
        if s[i] == '\n' {
            remark_scan(s, i + 1, 0, start, acc.push(s.subrange(start, i)))
        } else {
            remark_scan(s, i + 1, 2, start, acc)
        }
    }
}

/// The remarks of a text, in order; an embedded remark that is never
/// closed is left out.
pub open spec fn remarks_of(s: Seq<char>) -> Seq<Seq<char>> {
    remark_scan(s, 0, 0, 0, seq![])
}

pub open spec fn string_views(v: Seq<String>) -> Seq<Seq<char>> {
    v.map_values(|r: String| r@)
}

/// The remarks of `input`, in order, each without its delimiters.
pub fn remarks(input: &str) -> (r: Vec<String>)
    ensures
        string_views(r@) == remarks_of(input@),
{
    let s = chars_of(input);
    let mut out: Vec<String> = Vec::new();
    let mut k: usize = 0;
    let mut mode: u8 = 0;
    let mut start: usize = 0;
    assert(string_views(out@) =~= Seq::<Seq<char>>::empty());
    loop
        invariant
            start <= k <= s@.len(),
            mode <= 2,
            mode == 0 ==> start <= k,
            remark_scan(s@, k as int, mode as int, start as int, string_views(out@)) == remarks_of(input@),
        decreases s@.len() - k,
    {
        if k >= s.len() {
            if mode == 2 {
                let ghost before = out@;
                out.push(string_of(s.as_slice(), start, s.len()));
                assert(string_views(out@) =~= string_views(before).push(s@.subrange(start as int, s@.len() as int)));
            }
            return out;
        }
        if mode == 0 {
            if is_pair(s.as_slice(), k, '(', '*') {
                k += 2;
                start = k;
                mode = 1;
            } else if is_pair(s.as_slice(), k, '-', '-') {
                k += 2;
                start = k;
                mode = 2;
            } else {
                k += 1;
            }
        } else if mode == 1 {
            if is_pair(s.as_slice(), k, '*', ')') {
                let ghost before = out@;
                out.push(string_of(s.as_slice(), start, k));
                assert(string_views(out@) =~= string_views(before).push(s@.subrange(start as int, k as int)));
                k += 2;
                mode = 0;
            } else {
                k += 1;
            }
        } else {
            if s[k] == '\n' {
                let ghost before = out@;
                out.push(string_of(s.as_slice(), start, k));
                assert(string_views(out@) =~= string_views(before).push(s@.subrange(start as int, k as int)));
                mode = 0;
            }
            k += 1;
        }
    }
}

/// End of the run of decimal digits from `i`.
pub open spec fn digits_end(s: Seq<char>, i: int) -> int
    decreases s.len() - i,
{
    if 0 <= i < s.len() && is_digit(s[i]) {
        digits_end(s, i + 1)
    } else {
        i
    }
}

/// The number that the digits `s[i..j]` write in decimal.
pub open spec fn digits_value(s: Seq<char>, i: int, j: int) -> nat
    decreases j - i,
{
    if j <= i {
        0
    } else {
        digits_value(s, i, j - 1) * 10 + (s[j - 1] as nat - '0' as nat) as nat
    }
}

pub proof fn lemma_digits_end_bounds(s: Seq<char>, i: int)
    requires
        0 <= i <= s.len(),
    ensures
        i <= digits_end(s, i) <= s.len(),
    decreases s.len() - i,
{
    if i < s.len() && is_digit(s[i]) {
        lemma_digits_end_bounds(s, i + 1);
    }
}


pub proof fn lemma_digits_value_grows(s: Seq<char>, i: int, k: int, j: int)
    requires
        i <= k <= j,
    ensures
        digits_value(s, i, k) <= digits_value(s, i, j),
    decreases j - k,
{
    if k < j {
        lemma_digits_value_grows(s, i, k, j - 1);
    }
}

/// The decimal number at `i`, with the position after it.
pub fn digits_at(s: &[char], i: usize) -> (r: Option<(u64, usize)>)
    requires
        i <= s@.len(),
    ensures
        ({
            let d = digits_end(s@, i as int);
            if d > i && digits_value(s@, i as int, d) <= u64::MAX {
                r == Some((digits_value(s@, i as int, d) as u64, d as usize))
            } else {
                r is None
            }
        }),
{
    proof {
        lemma_digits_end_bounds(s@, i as int);
    }
    let ghost d = digits_end(s@, i as int);
    let mut k = i;
    let mut value: u64 = 0;
    while k < s.len() && '0' <= s[k] && s[k] <= '9'
        invariant
            i <= k <= d,
            d == digits_end(s@, i as int),
            d <= s@.len(),
            digits_end(s@, k as int) == d,
            value == digits_value(s@, i as int, k as int),
        decreases s@.len() - k,
    {
        let digit = (s[k] as u32 - '0' as u32) as u64;
        proof {
            lemma_digits_end_bounds(s@, k + 1);
            assert(digits_end(s@, k as int) == digits_end(s@, k + 1));
            assert(digits_value(s@, i as int, k + 1) == value * 10 + digit);
        }
        match value.checked_mul(10) {
            Some(v) => match v.checked_add(digit) {
                Some(w) => {
                    value = w;
                },
                None => {
                    proof {
                        lemma_digits_value_grows(s@, i as int, k + 1, d);
                    }
                    return None;
                },
            },
            None => {
                proof {
                    lemma_digits_value_grows(s@, i as int, k + 1, d);
                }
                return None;
            },
        }
        k += 1;
    }
    if k == i {
        return None;
    }
    Some((value, k))
}

/// Position after the decimal digits that start at `i`.
pub fn skip_digits(s: &[char], i: usize) -> (r: usize)
    requires
        i <= s@.len(),
    ensures
        r == digits_end(s@, i as int),
        i <= r <= s@.len(),
{
    let mut k = i;
    while k < s.len() && '0' <= s[k] && s[k] <= '9'
        invariant
            i <= k <= s@.len(),
            digits_end(s@, k as int) == digits_end(s@, i as int),
        decreases s@.len() - k,
    {
        k += 1;
    }
    k
}

/// Every position from `m` up to the end of the digits at `i` holds a digit.
pub proof fn lemma_digits_run(s: Seq<char>, i: int, m: int)
    requires
        0 <= i <= m < digits_end(s, i),
    ensures
        is_digit(s[m]),
        digits_end(s, m) == digits_end(s, i),
    decreases m - i,
{
    if i < m {
        lemma_digits_run(s, i + 1, m);
    }
}

} // verus!
