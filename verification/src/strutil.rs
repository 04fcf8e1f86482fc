//! Character classification, decimal representations, and the small string
//! operations that the tokenizer builds on: runs of characters of one class,
//! scanning for a delimiter, splitting on a separator, digit parsing.

use vstd::prelude::*;
use vstd::string::StrSliceExecFns;
use vstd::string::StringExecFns;

verus! {

// ---------------------------------------------------------------------------
// Character classes
// ---------------------------------------------------------------------------

pub open spec fn spec_is_upper(c: char) -> bool {
    65 <= c as u32 && c as u32 <= 90
}

#[verifier::when_used_as_spec(spec_is_upper)]
pub fn is_upper(c: char) -> (r: bool)
    ensures
        r == spec_is_upper(c),
{
    let u: u32 = c as u32;
    65 <= u && u <= 90
}

pub open spec fn spec_is_lower(c: char) -> bool {
    97 <= c as u32 && c as u32 <= 122
}

#[verifier::when_used_as_spec(spec_is_lower)]
pub fn is_lower(c: char) -> (r: bool)
    ensures
        r == spec_is_lower(c),
{
    let u: u32 = c as u32;
    97 <= u && u <= 122
}

pub open spec fn spec_is_alpha(c: char) -> bool {
    spec_is_upper(c) || spec_is_lower(c)
}

#[verifier::when_used_as_spec(spec_is_alpha)]
pub fn is_alpha(c: char) -> (r: bool)
    ensures
        r == spec_is_alpha(c),
{
    is_upper(c) || is_lower(c)
}

pub open spec fn spec_is_digit(c: char) -> bool {
    48 <= c as u32 && c as u32 <= 57
}

#[verifier::when_used_as_spec(spec_is_digit)]
pub fn is_digit(c: char) -> (r: bool)
    ensures
        r == spec_is_digit(c),
{
    let u: u32 = c as u32;
    48 <= u && u <= 57
}

/// Characters allowed in a `@column` name: letters, digits, underscore.
pub open spec fn spec_is_word(c: char) -> bool {
    spec_is_alpha(c) || spec_is_digit(c) || c == '_'
}

#[verifier::when_used_as_spec(spec_is_word)]
pub fn is_word(c: char) -> (r: bool)
    ensures
        r == spec_is_word(c),
{
    is_alpha(c) || is_digit(c) || c == '_'
}

pub open spec fn spec_is_operator(c: char) -> bool {
    c == '+' || c == '-' || c == '*' || c == '/'
}

#[verifier::when_used_as_spec(spec_is_operator)]
pub fn is_operator(c: char) -> (r: bool)
    ensures
        r == spec_is_operator(c),
{
    c == '+' || c == '-' || c == '*' || c == '/'
}

pub open spec fn spec_is_separator(c: char) -> bool {
    c == ' ' || c == ','
}

#[verifier::when_used_as_spec(spec_is_separator)]
pub fn is_separator(c: char) -> (r: bool)
    ensures
        r == spec_is_separator(c),
{
    c == ' ' || c == ','
}

// ---------------------------------------------------------------------------
// Decimal representations
// ---------------------------------------------------------------------------

/// The numeric value of a decimal digit character.
pub open spec fn digit_val(c: char) -> nat {
    (c as u32 - 48) as nat
}

/// The digit character for a value below ten.
pub open spec fn digit_char(d: nat) -> char {
    if d == 0 {
        '0'
    } else if d == 1 {
        '1'
    } else if d == 2 {
        '2'
    } else if d == 3 {
        '3'
    } else if d == 4 {
        '4'
    } else if d == 5 {
        '5'
    } else if d == 6 {
        '6'
    } else if d == 7 {
        '7'
    } else if d == 8 {
        '8'
    } else {
        '9'
    }
}

/// The decimal digits of a natural number, most significant first.
pub open spec fn dec_str(n: nat) -> Seq<char>
    decreases n,
{
    if n < 10 {
        seq![digit_char(n)]
    } else {
        dec_str(n / 10).push(digit_char(n % 10))
    }
}

/// The decimal form of an integer: a minus sign for negatives, then digits.
pub open spec fn int_str(i: int) -> Seq<char> {
    if i < 0 {
        seq!['-'] + dec_str((-i) as nat)
    } else {
        dec_str(i as nat)
    }
}

// ---------------------------------------------------------------------------
// Runs and scans over character sequences
// ---------------------------------------------------------------------------

/// Length of the longest prefix of `s` whose characters all satisfy `p`.
pub open spec fn run_len(s: Seq<char>, p: spec_fn(char) -> bool) -> nat
    decreases s.len(),
{
    if s.len() == 0 || !p(s[0]) {
        0
    } else {
        1 + run_len(s.skip(1), p)
    }
}

pub proof fn lemma_run_len_value(s: Seq<char>, p: spec_fn(char) -> bool, i: int)
    requires
        0 <= i <= s.len(),
        forall|k: int| 0 <= k < i ==> p(s[k]),
        i == s.len() || !p(s[i]),
    ensures
        run_len(s, p) == i,
    decreases i,
{
    if i == 0 {
    } else {
        assert(p(s[0]));
        assert(forall|k: int| 0 <= k < i - 1 ==> p(s.skip(1)[k]));
        lemma_run_len_value(s.skip(1), p, i - 1);
    }
}

pub proof fn lemma_run_len_le(s: Seq<char>, p: spec_fn(char) -> bool)
    ensures
        run_len(s, p) <= s.len(),
    decreases s.len(),
{
    if s.len() == 0 || !p(s[0]) {
    } else {
        lemma_run_len_le(s.skip(1), p);
    }
}

pub open spec fn alpha_run(s: Seq<char>) -> nat {
    run_len(s, |c: char| spec_is_alpha(c))
}

pub open spec fn digit_run(s: Seq<char>) -> nat {
    run_len(s, |c: char| spec_is_digit(c))
}

pub open spec fn word_run(s: Seq<char>) -> nat {
    run_len(s, |c: char| spec_is_word(c))
}

/// Number of characters of `s` before the first `sep`, or the whole length
/// if `sep` does not occur.
pub open spec fn prefix_len(s: Seq<char>, sep: char) -> nat
    decreases s.len(),
{
    if s.len() == 0 || s[0] == sep {
        0
    } else {
        1 + prefix_len(s.skip(1), sep)
    }
}

pub proof fn lemma_prefix_len_value(s: Seq<char>, sep: char, i: int)
    requires
        0 <= i <= s.len(),
        forall|k: int| 0 <= k < i ==> s[k] != sep,
        i == s.len() || s[i] == sep,
    ensures
        prefix_len(s, sep) == i,
{
    lemma_run_len_value(s, |c: char| c != sep, i);
    lemma_prefix_is_run(s, sep);
}

pub proof fn lemma_prefix_is_run(s: Seq<char>, sep: char)
    ensures
        prefix_len(s, sep) == run_len(s, |c: char| c != sep),
    decreases s.len(),
{
    if s.len() == 0 || s[0] == sep {
    } else {
        lemma_prefix_is_run(s.skip(1), sep);
    }
}

pub proof fn lemma_prefix_len_props(s: Seq<char>, sep: char)
    ensures
        prefix_len(s, sep) <= s.len(),
        forall|k: int| 0 <= k < prefix_len(s, sep) ==> s[k] != sep,
        prefix_len(s, sep) < s.len() ==> s[prefix_len(s, sep) as int] == sep,
    decreases s.len(),
{
    if s.len() == 0 || s[0] == sep {
    } else {
        lemma_prefix_len_props(s.skip(1), sep);
        assert forall|k: int| 0 <= k < prefix_len(s, sep) implies s[k] != sep by {
            if k > 0 {
                assert(s.skip(1)[k - 1] != sep);
            }
        }
    }
}

// ---------------------------------------------------------------------------
// Splitting
// ---------------------------------------------------------------------------

/// `s` split on every occurrence of `sep`.  Mirrors `str::split` on a single
/// character: an empty input gives one empty piece, adjacent separators give
/// empty pieces.
pub open spec fn split_text(s: Seq<char>, sep: char) -> Seq<Seq<char>>
    decreases s.len(),
{
    let p = prefix_len(s, sep);
    if p >= s.len() {
        seq![s]
    } else {
        seq![s.take(p as int)] + split_text(s.skip(p as int + 1), sep)
    }
}

// ---------------------------------------------------------------------------
// Digit parsing
// ---------------------------------------------------------------------------

/// Folds a run of digit characters into a number, most significant first;
/// `None` when the value would not fit in `usize`.
pub open spec fn digits_parse(s: Seq<char>) -> Option<nat>
    decreases s.len(),
{
    if s.len() == 0 {
        Some(0)
    } else {
        match digits_parse(s.drop_last()) {
            Option::None => Option::None,
            Option::Some(v) => {
                if v * 10 + digit_val(s.last()) > usize::MAX {
                    Option::None
                } else {
                    Some(v * 10 + digit_val(s.last()))
                }
            },
        }
    }
}

proof fn lemma_digits_parse_none_extends(s: Seq<char>, j: int)
    requires
        0 <= j <= s.len(),
        digits_parse(s.take(j)) is None,
    ensures
        digits_parse(s) is None,
    decreases s.len() - j,
{
    if j == s.len() {
        assert(s.take(j) =~= s);
    } else {
        assert(s.take(j + 1).drop_last() =~= s.take(j));
        lemma_digits_parse_none_extends(s, j + 1);
    }
}

/// Parses the digit characters of `s` in positions `from..to`.
pub fn parse_digits(s: &str, from: usize, to: usize) -> (r: Option<usize>)
    requires
        from <= to <= s@.len(),
        forall|k: int| from <= k < to ==> spec_is_digit(s@[k]),
    ensures
        match r {
            Option::Some(v) => digits_parse(s@.subrange(from as int, to as int)) == Some(v as nat),
            Option::None => digits_parse(s@.subrange(from as int, to as int)) is None,
        },
{
    let ghost whole: Seq<char> = s@.subrange(from as int, to as int);
    let mut v: usize = 0;
    let mut j: usize = from;
    while j < to
        invariant
            from <= j <= to,
            digits_parse(whole.take(j - from)) == Some(v as nat),
        decreases to - j,
    {
        let c: char = s.get_char(j);
        let u: u32 = c as u32;
        let d: usize = (u - 48) as usize;
        assert(whole.take(j + 1 - from).drop_last() =~= whole.take(j - from));
        assert(whole.take(j + 1 - from).last() == s@[j as int]);
        let step: Option<usize> = v.checked_mul(10);
        match step {
            Option::Some(v10) => {
                let sum: Option<usize> = v10.checked_add(d);
                match sum {
                    Option::Some(v2) => {
                        v = v2;
                        j = j + 1;
                    },
                    Option::None => {
                        proof {
                            lemma_digits_parse_none_extends(whole, j + 1 - from);
                        }
                        return Option::None;
                    },
                }
            },
            Option::None => {
                proof {
                    lemma_digits_parse_none_extends(whole, j + 1 - from);
                }
                return Option::None;
            },
        }
    }
    assert(whole.take(to - from) =~= whole);
    Some(v)
}

// ---------------------------------------------------------------------------
// Exec scans over `&str`
// ---------------------------------------------------------------------------

/// Index of the end of the run of alphabetic characters starting at `i`.
pub fn alpha_run_end(s: &str, i: usize) -> (j: usize)
    requires
        i <= s@.len(),
    ensures
        i <= j <= s@.len(),
        j - i == alpha_run(s@.skip(i as int)),
{
    let n: usize = s.unicode_len();
    let mut j: usize = i;
    while j < n && is_alpha(s.get_char(j))
        invariant
            i <= j <= n,
            n == s@.len(),
            forall|k: int| i <= k < j ==> spec_is_alpha(s@[k]),
        decreases n - j,
    {
        j = j + 1;
    }
    proof {
        let p = |c: char| spec_is_alpha(c);
        assert(forall|k: int| 0 <= k < j - i ==> p(s@.skip(i as int)[k]));
        lemma_run_len_value(s@.skip(i as int), p, j - i);
    }
    j
}

/// Index of the end of the run of digit characters starting at `i`.
pub fn digit_run_end(s: &str, i: usize) -> (j: usize)
    requires
        i <= s@.len(),
    ensures
        i <= j <= s@.len(),
        j - i == digit_run(s@.skip(i as int)),
        forall|k: int| i <= k < j ==> spec_is_digit(s@[k]),
{
    let n: usize = s.unicode_len();
    let mut j: usize = i;
    while j < n && is_digit(s.get_char(j))
        invariant
            i <= j <= n,
            n == s@.len(),
            forall|k: int| i <= k < j ==> spec_is_digit(s@[k]),
        decreases n - j,
    {
        j = j + 1;
    }
    proof {
        let p = |c: char| spec_is_digit(c);
        assert(forall|k: int| 0 <= k < j - i ==> p(s@.skip(i as int)[k]));
        lemma_run_len_value(s@.skip(i as int), p, j - i);
    }
    j
}

/// Index of the end of the run of word characters starting at `i`.
pub fn word_run_end(s: &str, i: usize) -> (j: usize)
    requires
        i <= s@.len(),
    ensures
        i <= j <= s@.len(),
        j - i == word_run(s@.skip(i as int)),
{
    let n: usize = s.unicode_len();
    let mut j: usize = i;
    while j < n && is_word(s.get_char(j))
        invariant
            i <= j <= n,
            n == s@.len(),
            forall|k: int| i <= k < j ==> spec_is_word(s@[k]),
        decreases n - j,
    {
        j = j + 1;
    }
    proof {
        let p = |c: char| spec_is_word(c);
        assert(forall|k: int| 0 <= k < j - i ==> p(s@.skip(i as int)[k]));
        lemma_run_len_value(s@.skip(i as int), p, j - i);
    }
    j
}

/// First position `>= i` holding `c`, or the length of `s` if none does.
pub fn scan_to_char(s: &str, i: usize, c: char) -> (j: usize)
    requires
        i <= s@.len(),
    ensures
        i <= j <= s@.len(),
        j - i == prefix_len(s@.skip(i as int), c),
        j < s@.len() ==> s@[j as int] == c,
{
    let n: usize = s.unicode_len();
    let mut j: usize = i;
    while j < n && s.get_char(j) != c
        invariant
            i <= j <= n,
            n == s@.len(),
            forall|k: int| i <= k < j ==> s@[k] != c,
        decreases n - j,
    {
        j = j + 1;
    }
    proof {
        assert(forall|k: int| 0 <= k < j - i ==> s@.skip(i as int)[k] != c);
        lemma_prefix_len_value(s@.skip(i as int), c, j - i);
    }
    j
}

/// Character-by-character string equality.
pub fn str_eq(a: &str, b: &str) -> (r: bool)
    ensures
        r == (a@ == b@),
{
    let na: usize = a.unicode_len();
    let nb: usize = b.unicode_len();
    if na != nb {
        return false;
    }
    let mut j: usize = 0;
    while j < na
        invariant
            0 <= j <= na,
            na == a@.len(),
            na == b@.len(),
            forall|k: int| 0 <= k < j ==> a@[k] == b@[k],
        decreases na - j,
    {
        if a.get_char(j) != b.get_char(j) {
            return false;
        }
        j = j + 1;
    }
    proof {
        assert(a@ =~= b@);
    }
    true
}

// ---------------------------------------------------------------------------
// Public string utilities
// ---------------------------------------------------------------------------

/// The text with its first character removed.
pub fn remove_first_symbol<'a>(s: &'a str) -> (r: &'a str)
    requires
        s@.len() >= 1,
    ensures
        r@ == s@.skip(1),
{
    let n: usize = s.unicode_len();
    let r: &str = s.substring_char(1, n);
    proof {
        assert(r@ =~= s@.skip(1));
    }
    r
}

/// The pieces of `data` between occurrences of `separator`, in order.
pub fn str_to_vector<'a>(data: &'a str, separator: char) -> (r: Vec<&'a str>)
    ensures
        r.deep_view() == split_text(data@, separator),
{
    let n: usize = data.unicode_len();
    let mut r: Vec<&'a str> = Vec::new();
    let mut start: usize = 0;
    proof {
        assert(data@.skip(0) =~= data@);
        assert(r.deep_view() =~= Seq::<Seq<char>>::empty());
        assert(r.deep_view() + split_text(data@, separator) =~= split_text(data@, separator));
    }
    loop
        invariant
            start <= n,
            n == data@.len(),
            split_text(data@, separator) == r.deep_view() + split_text(
                data@.skip(start as int),
                separator,
            ),
        decreases n - start,
    {
        let j: usize = scan_to_char(data, start, separator);
        let piece: &str = data.substring_char(start, j);
        proof {
            assert(piece@ =~= data@.skip(start as int).take(j - start));
        }
        r.push(piece);
        if j == n {
            proof {
                assert(split_text(data@.skip(start as int), separator) =~= seq![
                    data@.skip(start as int),
                ]);
                assert(data@.skip(start as int) =~= piece@);
                assert(r.deep_view() =~= split_text(data@, separator));
            }
            return r;
        }
        proof {
            let rest = data@.skip(start as int);
            assert(prefix_len(rest, separator) == j - start);
            assert(prefix_len(rest, separator) < rest.len());
            assert(split_text(rest, separator) == seq![rest.take(j - start)] + split_text(
                rest.skip(j - start + 1),
                separator,
            ));
            assert(rest.skip(j - start + 1) =~= data@.skip(j + 1));
            assert(r.deep_view() + split_text(data@.skip(j + 1), separator) =~= split_text(
                data@,
                separator,
            ));
        }
        start = j + 1;
    }
}

// ---------------------------------------------------------------------------
// Character appending and decimal formatting
// ---------------------------------------------------------------------------

/// Relies on `String::push`: appends exactly one character.
#[verifier::external_body]
pub fn push_char(s: &mut String, c: char)
    ensures
        final(s)@ == old(s)@.push(c),
{
    s.push(c);
}

/// The digit character for a value below ten, as `digit_char` states it.
fn digit_to_char(d: u64) -> (r: char)
    requires
        d < 10,
    ensures
        r == digit_char(d as nat),
{
    if d == 0 {
        '0'
    } else if d == 1 {
        '1'
    } else if d == 2 {
        '2'
    } else if d == 3 {
        '3'
    } else if d == 4 {
        '4'
    } else if d == 5 {
        '5'
    } else if d == 6 {
        '6'
    } else if d == 7 {
        '7'
    } else if d == 8 {
        '8'
    } else {
        '9'
    }
}

/// The decimal digits of `n`, most significant first.
fn dec_string(n: u64) -> (r: String)
    ensures
        r@ == dec_str(n as nat),
    decreases n,
{
    if n < 10 {
        let mut s: String = String::new();
        push_char(&mut s, digit_to_char(n));
        proof {
            assert(s@ =~= seq![digit_char(n as nat)]);
        }
        s
    } else {
        let mut s: String = dec_string(n / 10);
        push_char(&mut s, digit_to_char(n % 10));
        s
    }
}

/// The plain decimal digits of an unsigned integer, nothing else.
pub fn usize_to_string(n: usize) -> (r: String)
    ensures
        r@ == dec_str(n as nat),
{
    dec_string(n as u64)
}

/// The decimal form of a signed integer: a minus sign for negatives, then
/// the digits of the magnitude.
pub fn i64_to_string(n: i64) -> (r: String)
    ensures
        r@ == int_str(n as int),
{
    if n >= 0 {
        dec_string(n as u64)
    } else {
        let magnitude: u64 = if n == i64::MIN {
            9223372036854775808
        } else {
            (-n) as u64
        };
        proof {
            assert(magnitude as nat == (-(n as int)) as nat);
        }
        let mut s: String = String::new();
        push_char(&mut s, '-');
        let digits: String = dec_string(magnitude);
        s.append(digits.as_str());
        proof {
            assert(s@ =~= seq!['-'] + dec_str((-(n as int)) as nat));
        }
        s
    }
}

} // verus!
