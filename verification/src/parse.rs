//! The reader: from a line of text to expressions.
//!
//! A line holds forms separated by whitespace and ends at its end or at the
//! first NUL between forms. A form is an atom or a parenthesized list of at
//! least one form. An atom is a run of characters up to the next separator
//! and reads as an integer, else as a float, else as an identifier; but an
//! atom that is neither number and starts with `#t` or `#f` reads as that
//! boolean and ends there.
use crate::discipline::{all_source, lemma_application_source};
use crate::environment::{Environment, Scope};
use crate::eval::eval;
use crate::number::Number;
use crate::semantics::preload;
use crate::types::{lemma_view_of_application, terms_of, Expression, Term};
use rustc_apfloat::ieee::Single;
use rustc_apfloat::Float;
use std::rc::Rc;
use vstd::prelude::*;

verus! {

/// Whether a character has the Unicode property `White_Space`.
pub uninterp spec fn is_whitespace(c: char) -> bool;

/// Calls `char::is_whitespace`. The contract only names its answer.
#[verifier::external_body]
fn char_is_whitespace(c: char) -> (r: bool)
    ensures
        r == is_whitespace(c),
{
    c.is_whitespace()
}

/// Whether a character ends an atom.
pub open spec fn is_separator(c: char) -> bool {
    is_whitespace(c) || c == ')' || c == '(' || c == '\0'
}

/// Whether a character is skipped between the items of a list.
pub open spec fn is_blank(c: char) -> bool {
    c == ' ' || c == '\t' || c == '\r' || c == '\n'
}

/// Whether a character is a decimal digit.
pub open spec fn is_digit(c: char) -> bool {
    '0' <= c <= '9'
}

/// The first index from `from` on that holds no blank, or the length.
pub open spec fn skip_blanks(text: Seq<char>, from: int) -> int
    decreases text.len() - from,
{
    if 0 <= from < text.len() && is_blank(text[from]) {
        skip_blanks(text, from + 1)
    } else {
        from
    }
}

/// Skipping blanks moves forward and stays within the text.
pub proof fn lemma_skip_blanks_bounds(text: Seq<char>, from: int)
    ensures
        from <= skip_blanks(text, from),
        from <= text.len() ==> skip_blanks(text, from) <= text.len(),
        0 <= skip_blanks(text, from) < text.len() ==> !is_blank(text[skip_blanks(text, from)]),
    decreases text.len() - from,
{
    if 0 <= from < text.len() && is_blank(text[from]) {
        lemma_skip_blanks_bounds(text, from + 1);
    }
}

/// Skipping whitespace moves forward and stays within the text.
pub proof fn lemma_skip_whitespace_bounds(text: Seq<char>, from: int)
    ensures
        from <= skip_whitespace(text, from),
        from <= text.len() ==> skip_whitespace(text, from) <= text.len(),
    decreases text.len() - from,
{
    if 0 <= from < text.len() && is_whitespace(text[from]) {
        lemma_skip_whitespace_bounds(text, from + 1);
    }
}

/// The first index from `from` on that holds no whitespace, or the length.
pub open spec fn skip_whitespace(text: Seq<char>, from: int) -> int
    decreases text.len() - from,
{
    if 0 <= from < text.len() && is_whitespace(text[from]) {
        skip_whitespace(text, from + 1)
    } else {
        from
    }
}

/// The first index from `from` on that holds a separator, or the length.
pub open spec fn token_end(text: Seq<char>, from: int) -> int
    decreases text.len() - from,
{
    if 0 <= from < text.len() && !is_separator(text[from]) {
        token_end(text, from + 1)
    } else {
        from
    }
}

/// The first index from `from` on that holds no digit, or the length.
pub open spec fn digits_end(text: Seq<char>, from: int) -> int
    decreases text.len() - from,
{
    if 0 <= from < text.len() && is_digit(text[from]) {
        digits_end(text, from + 1)
    } else {
        from
    }
}

/// The number that a run of digits denotes.
pub open spec fn decimal_value(digits: Seq<char>) -> int
    decreases digits.len(),
{
    if digits.len() == 0 {
        0
    } else {
        10 * decimal_value(digits.drop_last()) + (digits.last() as int - '0' as int)
    }
}

/// Whether the token starts with a sign.
pub open spec fn has_sign(token: Seq<char>) -> bool {
    token.len() > 0 && (token[0] == '+' || token[0] == '-')
}

/// The token without its sign.
pub open spec fn unsigned_part(token: Seq<char>) -> Seq<char> {
    if has_sign(token) {
        token.subrange(1, token.len() as int)
    } else {
        token
    }
}

/// The integer that a token denotes: an optional sign and at least one
/// digit, with a value that fits in 32 bits.
pub open spec fn integer_literal(token: Seq<char>) -> Option<i32> {
    let digits = unsigned_part(token);
    let magnitude = decimal_value(digits);
    let value = if has_sign(token) && token[0] == '-' {
        -magnitude
    } else {
        magnitude
    };
    if digits.len() > 0 && digits_end(digits, 0) == digits.len() && i32::MIN <= value <= i32::MAX {
        Some(value as i32)
    } else {
        None
    }
}

/// The lower-case form of an ASCII letter; other characters stay.
pub open spec fn lower(c: char) -> char {
    if 'A' <= c <= 'Z' {
        ((c as u32) + 32) as char
    } else {
        c
    }
}

/// Whether the text is the word, ignoring the case of ASCII letters.
pub open spec fn is_word(text: Seq<char>, word: Seq<char>) -> bool {
    &&& text.len() == word.len()
    &&& forall|i: int| 0 <= i < text.len() ==> lower(#[trigger] text[i]) == word[i]
}

/// Whether the text is a decimal number: digits with at most one point, at
/// least one digit among them, and an optional exponent of `e` or `E`, an
/// optional sign and at least one digit.
pub open spec fn is_decimal_number(body: Seq<char>) -> bool {
    let whole = digits_end(body, 0);
    let mantissa = if whole < body.len() && body[whole] == '.' {
        digits_end(body, whole + 1)
    } else {
        whole
    };
    let mantissa_digits = if mantissa > whole {
        mantissa - 1
    } else {
        mantissa
    };
    &&& mantissa_digits > 0
    &&& mantissa == body.len() || {
        let exponent = if mantissa + 1 < body.len() && (body[mantissa + 1] == '+' || body[mantissa
            + 1] == '-') {
            mantissa + 2
        } else {
            mantissa + 1
        };
        &&& body[mantissa] == 'e' || body[mantissa] == 'E'
        &&& exponent < body.len()
        &&& digits_end(body, exponent) == body.len()
    }
}

/// The pattern that a decimal number with its optional sign denotes in
/// single precision, rounded to nearest, ties to even; `None` where the
/// text is no number.
pub uninterp spec fn float_from_decimal(text: Seq<char>) -> Option<u32>;

/// Calls `str::parse` with `rustc_apfloat`'s `FromStr` for `ieee::Single`
/// (`from_str_r` with `Round::NearestTiesToEven`) on a decimal number and hands back the
/// pattern of the value, or `None` where the crate rejects the text. The
/// contract only names what came back.
#[verifier::external_body]
fn float_of_decimal(text: &str) -> (r: Option<u32>)
    requires
        is_decimal_number(unsigned_part(text@)),
    ensures
        r == float_from_decimal(text@),
{
    match text.parse::<Single>() {
        Ok(value) => Some(value.to_bits() as u32),
        Err(_) => None,
    }
}

/// The pattern of positive infinity.
pub const INFINITY_BITS: u32 = 0x7f80_0000;

/// The pattern of the quiet NaN that `nan` reads as.
pub const NAN_BITS: u32 = 0x7fc0_0000;

/// The sign bit of a pattern.
pub const SIGN_BIT: u32 = 0x8000_0000;

/// The float that a token denotes: an optional sign followed by `inf`,
/// `infinity` or `nan` in any case, or by a decimal number.
pub open spec fn float_literal(token: Seq<char>) -> Option<u32> {
    let body = unsigned_part(token);
    let sign: u32 = if has_sign(token) && token[0] == '-' {
        SIGN_BIT
    } else {
        0
    };
    if is_word(body, "inf"@) || is_word(body, "infinity"@) {
        Some((INFINITY_BITS + sign) as u32)
    } else if is_word(body, "nan"@) {
        Some((NAN_BITS + sign) as u32)
    } else if is_decimal_number(body) {
        float_from_decimal(token)
    } else {
        None
    }
}

/// Whether the text holds `first` and then `second` at index `at`.
pub open spec fn holds_pair(text: Seq<char>, at: int, first: char, second: char) -> bool {
    0 <= at && at + 1 < text.len() && text[at] == first && text[at + 1] == second
}

/// What an atom at index `at` reads as, and where it ends; `None` where
/// no atom starts at `at`.
pub open spec fn parse_atom(text: Seq<char>, at: int) -> Option<(Term, int)> {
    let end = token_end(text, at);
    let token = text.subrange(at, end);
    if at < 0 || end <= at {
        None
    } else if integer_literal(token) is Some {
        Some((Term::Num(Number::Integer(integer_literal(token)->0)), end))
    } else if float_literal(token) is Some {
        Some((Term::Num(Number::Float(float_literal(token)->0)), end))
    } else if holds_pair(text, at, '#', 't') {
        Some((Term::Bool(true), at + 2))
    } else if holds_pair(text, at, '#', 'f') {
        Some((Term::Bool(false), at + 2))
    } else {
        Some((Term::Ident(token), end))
    }
}

/// What the form at index `at` reads as, and where it ends; `None` where
/// no well-formed form starts at `at`.
pub open spec fn parse_expression(text: Seq<char>, at: int) -> Option<(Term, int)>
    decreases text.len() - at, 0nat,
{
    if 0 <= at < text.len() && text[at] == '(' {
        proof {
            lemma_skip_blanks_bounds(text, at + 1);
        }
        let (items, stop) = parse_items(text, skip_blanks(text, at + 1), Seq::empty());
        if items.len() > 0 && 0 <= stop < text.len() && text[stop] == ')' {
            Some((Term::App(items), stop + 1))
        } else {
            None
        }
    } else {
        parse_atom(text, at)
    }
}

/// The forms that can be read from index `at` on, each followed by
/// blanks, after those in `done`; and where reading stopped.
pub open spec fn parse_items(text: Seq<char>, at: int, done: Seq<Term>) -> (Seq<Term>, int)
    decreases text.len() - at, 1nat,
{
    match parse_expression(text, at) {
        Some((item, next)) => if at < next <= text.len() {
            proof {
                lemma_skip_blanks_bounds(text, next);
            }
            parse_items(text, skip_blanks(text, next), done.push(item))
        } else {
            (done, at)
        },
        None => (done, at),
    }
}

/// The forms of a line from index `at` on, after those in `done`; or the
/// index at which a form starts that cannot be read.
pub open spec fn parse_forms(text: Seq<char>, at: int, done: Seq<Term>) -> Result<Seq<Term>, int>
    decreases text.len() - at,
{
    proof {
        lemma_skip_whitespace_bounds(text, at);
    }
    let start = skip_whitespace(text, at);
    if start < 0 || start >= text.len() || text[start] == '\0' {
        Ok(done)
    } else {
        match parse_expression(text, start) {
            Some((form, next)) => if start < next <= text.len() {
                parse_forms(text, next, done.push(form))
            } else {
                Err(start)
            },
            None => Err(start),
        }
    }
}

/// A token ends within the text, at or after its start.
pub proof fn lemma_token_end_bounds(text: Seq<char>, from: int)
    ensures
        from <= token_end(text, from),
        from <= text.len() ==> token_end(text, from) <= text.len(),
    decreases text.len() - from,
{
    if 0 <= from < text.len() && !is_separator(text[from]) {
        lemma_token_end_bounds(text, from + 1);
    }
}

/// Reading moves forward: a form that is read ends after its start and
/// within the text, and holds no procedure value.
pub proof fn law_reading_moves_forward(text: Seq<char>, at: int)
    requires
        0 <= at <= text.len(),
    ensures
        parse_expression(text, at) matches Some((form, next)) ==> at < next <= text.len()
            && form.is_source(),
    decreases text.len() - at, 0nat,
{
    if at < text.len() && text[at] == '(' {
        lemma_skip_blanks_bounds(text, at + 1);
        let start = skip_blanks(text, at + 1);
        lemma_items_move_forward(text, start, Seq::empty());
        let (items, stop) = parse_items(text, start, Seq::empty());
        lemma_application_source(items);
    } else {
        lemma_token_end_bounds(text, at);
    }
}

/// The items of a list are read forward and are source text.
pub proof fn lemma_items_move_forward(text: Seq<char>, at: int, done: Seq<Term>)
    requires
        0 <= at <= text.len(),
        all_source(done),
    ensures
        at <= parse_items(text, at, done).1 <= text.len(),
        all_source(parse_items(text, at, done).0),
    decreases text.len() - at, 1nat,
{
    law_reading_moves_forward(text, at);
    match parse_expression(text, at) {
        Some((item, next)) => {
            if at < next <= text.len() {
                lemma_skip_blanks_bounds(text, next);
                let more = done.push(item);
                lemma_items_move_forward(text, skip_blanks(text, next), more);
            }
        },
        None => {},
    }
}

/// The forms of a line that can be read are source text.
pub proof fn law_forms_are_source(text: Seq<char>, at: int, done: Seq<Term>)
    requires
        0 <= at <= text.len(),
        all_source(done),
    ensures
        parse_forms(text, at, done) matches Ok(forms) ==> all_source(forms),
        parse_forms(text, at, done) matches Err(position) ==> at <= position < text.len(),
    decreases text.len() - at,
{
    lemma_skip_whitespace_bounds(text, at);
    let start = skip_whitespace(text, at);
    if start < text.len() && text[start] != '\0' {
        law_reading_moves_forward(text, start);
        match parse_expression(text, start) {
            Some((form, next)) => {
                let more = done.push(form);
                law_forms_are_source(text, next, more);
            },
            None => {},
        }
    }
}

/// Where a line could not be read: the index of the character at which the
/// offending form starts.
#[derive(Debug, Clone, Copy, PartialEq, Eq)]
pub struct ParseError {
    pub position: usize,
}

/// The characters of a string, in a vector.
pub fn chars_of(line: &str) -> (chars: Vec<char>)
    ensures
        chars@ == line@,
{
    let mut chars: Vec<char> = Vec::new();
    for c in iter: line.chars()
        invariant
            chars@ == iter.seq().take(iter.index() as int),
    {
        chars.push(c);
    }
    chars
}

/// The characters from index `from` on, in a vector of their own.
fn tail_of(chars: &Vec<char>, from: usize) -> (tail: Vec<char>)
    requires
        from <= chars.len(),
    ensures
        tail@ == chars@.subrange(from as int, chars.len() as int),
{
    let mut tail: Vec<char> = Vec::new();
    let mut i: usize = from;
    while i < chars.len()
        invariant
            from <= i <= chars.len(),
            tail@ == chars@.subrange(from as int, i as int),
        decreases chars.len() - i,
    {
        tail.push(chars[i]);
        i += 1;
    }
    tail
}

fn blank(c: char) -> (r: bool)
    ensures
        r == is_blank(c),
{
    c == ' ' || c == '\t' || c == '\r' || c == '\n'
}

fn separator(c: char) -> (r: bool)
    ensures
        r == is_separator(c),
{
    char_is_whitespace(c) || c == ')' || c == '(' || c == '\0'
}

fn digit(c: char) -> (r: bool)
    ensures
        r == is_digit(c),
{
    '0' <= c && c <= '9'
}

fn skip_blank_chars(chars: &Vec<char>, from: usize) -> (to: usize)
    requires
        from <= chars.len(),
    ensures
        to == skip_blanks(chars@, from as int),
        from <= to <= chars.len(),
{
    let mut i: usize = from;
    while i < chars.len() && blank(chars[i])
        invariant
            from <= i <= chars.len(),
            skip_blanks(chars@, from as int) == skip_blanks(chars@, i as int),
        decreases chars.len() - i,
    {
        i += 1;
    }
    i
}

fn skip_whitespace_chars(chars: &Vec<char>, from: usize) -> (to: usize)
    requires
        from <= chars.len(),
    ensures
        to == skip_whitespace(chars@, from as int),
        from <= to <= chars.len(),
{
    let mut i: usize = from;
    while i < chars.len() && char_is_whitespace(chars[i])
        invariant
            from <= i <= chars.len(),
            skip_whitespace(chars@, from as int) == skip_whitespace(chars@, i as int),
        decreases chars.len() - i,
    {
        i += 1;
    }
    i
}

fn find_token_end(chars: &Vec<char>, from: usize) -> (to: usize)
    requires
        from <= chars.len(),
    ensures
        to == token_end(chars@, from as int),
        from <= to <= chars.len(),
{
    let mut i: usize = from;
    while i < chars.len() && !separator(chars[i])
        invariant
            from <= i <= chars.len(),
            token_end(chars@, from as int) == token_end(chars@, i as int),
        decreases chars.len() - i,
    {
        i += 1;
    }
    i
}

fn find_digits_end(chars: &Vec<char>, from: usize) -> (to: usize)
    requires
        from <= chars.len(),
    ensures
        to == digits_end(chars@, from as int),
        from <= to <= chars.len(),
{
    let mut i: usize = from;
    while i < chars.len() && digit(chars[i])
        invariant
            from <= i <= chars.len(),
            digits_end(chars@, from as int) == digits_end(chars@, i as int),
        decreases chars.len() - i,
    {
        i += 1;
    }
    i
}

/// Whether the token starts with `+` or `-`.
fn signed(token: &Vec<char>) -> (r: bool)
    ensures
        r == has_sign(token@),
{
    token.len() > 0 && (token[0] == '+' || token[0] == '-')
}

/// A run of digits up to `n` are digits each, and so is every shorter run.
proof fn lemma_digits_end_covers(digits: Seq<char>, from: int, upto: int)
    requires
        0 <= from <= upto <= digits.len(),
        digits_end(digits, from) >= upto,
    ensures
        forall|i: int| from <= i < upto ==> is_digit(#[trigger] digits[i]),
    decreases upto - from,
{
    if from < upto {
        lemma_digits_end_covers(digits, from + 1, upto);
    }
}

/// The value of a run of digits grows with each digit.
proof fn lemma_decimal_value_step(digits: Seq<char>, n: int)
    requires
        0 <= n < digits.len(),
        is_digit(digits[n]),
    ensures
        decimal_value(digits.take(n + 1)) == 10 * decimal_value(digits.take(n)) + (digits[n] as int
            - '0' as int),
        decimal_value(digits.take(n)) >= 0 ==> decimal_value(digits.take(n + 1)) >= decimal_value(
            digits.take(n),
        ),
{
    assert(digits.take(n + 1).drop_last() =~= digits.take(n));
}

/// Reads a token as an integer.
pub fn read_integer(token: &Vec<char>) -> (r: Option<i32>)
    ensures
        r == integer_literal(token@),
{
    let negative = token.len() > 0 && token[0] == '-';
    let digits = if signed(token) {
        tail_of(token, 1)
    } else {
        tail_of(token, 0)
    };
    assert(digits@ =~= unsigned_part(token@));
    if digits.len() == 0 || find_digits_end(&digits, 0) != digits.len() {
        return None;
    }
    proof {
        lemma_digits_end_covers(digits@, 0, digits@.len() as int);
    }
    let mut magnitude: i64 = 0;
    let mut huge = false;
    let mut i: usize = 0;
    while i < digits.len()
        invariant
            i <= digits.len(),
            forall|j: int| 0 <= j < digits.len() ==> is_digit(#[trigger] digits@[j]),
            0 <= decimal_value(digits@.take(i as int)),
            !huge ==> magnitude == decimal_value(digits@.take(i as int)) && magnitude <= 0x8000_0000,
            huge ==> decimal_value(digits@.take(i as int)) > 0x8000_0000,
        decreases digits.len() - i,
    {
        proof {
            lemma_decimal_value_step(digits@, i as int);
        }
        if !huge {
            let d: i64 = (digits[i] as u32 - '0' as u32) as i64;
            magnitude = magnitude * 10 + d;
            if magnitude > 0x8000_0000 {
                huge = true;
            }
        }
        i += 1;
    }
    assert(digits@.take(digits.len() as int) =~= digits@);
    if huge {
        return None;
    }
    let value: i64 = if negative {
        0 - magnitude
    } else {
        magnitude
    };
    if value < -0x8000_0000 || value > 0x7fff_ffff {
        None
    } else {
        Some(value as i32)
    }
}

/// Whether a character is the given lower-case letter or its capital.
fn letter(c: char, small: char, capital: char) -> (r: bool)
    requires
        'a' <= small <= 'z',
        capital as u32 + 32 == small as u32,
    ensures
        r == (lower(c) == small),
{
    c == small || c == capital
}

/// Tests for `inf` in any case.
fn is_inf(body: &Vec<char>) -> (r: bool)
    ensures
        r == is_word(body@, "inf"@),
{
    proof {
        reveal_strlit("inf");
    }
    body.len() == 3 && letter(body[0], 'i', 'I') && letter(body[1], 'n', 'N') && letter(
        body[2],
        'f',
        'F',
    )
}

/// Tests for `infinity` in any case.
fn is_infinity(body: &Vec<char>) -> (r: bool)
    ensures
        r == is_word(body@, "infinity"@),
{
    proof {
        reveal_strlit("infinity");
    }
    body.len() == 8 && letter(body[0], 'i', 'I') && letter(body[1], 'n', 'N') && letter(
        body[2],
        'f',
        'F',
    ) && letter(body[3], 'i', 'I') && letter(body[4], 'n', 'N') && letter(body[5], 'i', 'I')
        && letter(body[6], 't', 'T') && letter(body[7], 'y', 'Y')
}

/// Tests for `nan` in any case.
fn is_nan_word(body: &Vec<char>) -> (r: bool)
    ensures
        r == is_word(body@, "nan"@),
{
    proof {
        reveal_strlit("nan");
    }
    body.len() == 3 && letter(body[0], 'n', 'N') && letter(body[1], 'a', 'A') && letter(
        body[2],
        'n',
        'N',
    )
}

/// Tests whether the text is a decimal number.
fn decimal_number(body: &Vec<char>) -> (r: bool)
    ensures
        r == is_decimal_number(body@),
{
    let whole = find_digits_end(body, 0);
    let mantissa = if whole < body.len() && body[whole] == '.' {
        find_digits_end(body, whole + 1)
    } else {
        whole
    };
    let mantissa_digits = if mantissa > whole {
        mantissa - 1
    } else {
        mantissa
    };
    if mantissa_digits == 0 {
        return false;
    }
    if mantissa == body.len() {
        return true;
    }
    if body[mantissa] != 'e' && body[mantissa] != 'E' {
        return false;
    }
    let exponent = if mantissa + 1 < body.len() && (body[mantissa + 1] == '+' || body[mantissa + 1]
        == '-') {
        mantissa + 2
    } else {
        mantissa + 1
    };
    exponent < body.len() && find_digits_end(body, exponent) == body.len()
}

/// Reads a token as a float; `text` is the token as a string.
pub fn read_float(token: &Vec<char>, text: &str) -> (r: Option<u32>)
    requires
        text@ == token@,
    ensures
        r == float_literal(token@),
{
    let negative = token.len() > 0 && token[0] == '-';
    let body = if signed(token) {
        tail_of(token, 1)
    } else {
        tail_of(token, 0)
    };
    assert(body@ =~= unsigned_part(token@));
    let sign: u32 = if negative {
        SIGN_BIT
    } else {
        0
    };
    if is_inf(&body) || is_infinity(&body) {
        Some(INFINITY_BITS + sign)
    } else if is_nan_word(&body) {
        Some(NAN_BITS + sign)
    } else if decimal_number(&body) {
        float_of_decimal(text)
    } else {
        None
    }
}

/// Reads the atom that starts at index `at`.
fn read_atom(line: &str, chars: &Vec<char>, at: usize) -> (r: Option<(Rc<Expression>, usize)>)
    requires
        chars@ == line@,
        at <= chars.len(),
    ensures
        match r {
            Some((expr, next)) => parse_atom(line@, at as int) == Some((expr@, next as int))
                && at < next <= chars.len() && expr@.is_source(),
            None => parse_atom(line@, at as int) is None,
        },
{
    let end = find_token_end(chars, at);
    if end <= at {
        return None;
    }
    let text = line.substring_char(at, end);
    let token = chars_of(text);
    match read_integer(&token) {
        Some(i) => {
            return Some((Rc::new(Expression::Numeric(Number::Integer(i))), end));
        },
        None => {},
    }
    match read_float(&token, text) {
        Some(bits) => {
            return Some((Rc::new(Expression::Numeric(Number::Float(bits))), end));
        },
        None => {},
    }
    if at + 1 < chars.len() && chars[at] == '#' && chars[at + 1] == 't' {
        Some((Rc::new(Expression::Boolean(true)), at + 2))
    } else if at + 1 < chars.len() && chars[at] == '#' && chars[at + 1] == 'f' {
        Some((Rc::new(Expression::Boolean(false)), at + 2))
    } else {
        Some((Rc::new(Expression::Identifier(String::from_str(text))), end))
    }
}

/// Reads the form that starts at index `at`.
fn read_expression(line: &str, chars: &Vec<char>, at: usize) -> (r: Option<(Rc<Expression>, usize)>)
    requires
        chars@ == line@,
        at <= chars.len(),
    ensures
        match r {
            Some((expr, next)) => parse_expression(line@, at as int) == Some((expr@, next as int))
                && at < next <= chars.len() && expr@.is_source(),
            None => parse_expression(line@, at as int) is None,
        },
    decreases chars.len() - at, 0nat,
{
    if at < chars.len() && chars[at] == '(' {
        match read_list(line, chars, at + 1) {
            Some((items, next)) => {
                proof {
                    lemma_view_of_application(items);
                    lemma_application_source(terms_of(items@));
                }
                Some((Rc::new(Expression::SExpr(items)), next))
            },
            None => None,
        }
    } else {
        read_atom(line, chars, at)
    }
}

/// Reads the items of a list whose `(` stands just before index `after`,
/// up to and including its `)`.
#[verifier::loop_isolation(false)]
fn read_list(line: &str, chars: &Vec<char>, after: usize) -> (r: Option<(Vec<Rc<Expression>>, usize)>)
    requires
        chars@ == line@,
        1 <= after <= chars.len(),
    ensures
        ({
            let (items, stop) = parse_items(
                line@,
                skip_blanks(line@, after as int),
                Seq::empty(),
            );
            match r {
                Some((list, next)) => terms_of(list@) == items && items.len() > 0 && 0 <= stop
                    < line@.len() && line@[stop] == ')' && next == stop + 1 && after < next
                    && all_source(terms_of(list@)),
                None => !(items.len() > 0 && 0 <= stop < line@.len() && line@[stop] == ')'),
            }
        }),
    decreases chars.len() - after, 1nat,
{
    let ghost start = skip_blanks(line@, after as int);
    let mut items: Vec<Rc<Expression>> = Vec::new();
    let mut at: usize = skip_blank_chars(chars, after);
    assert(terms_of(items@) =~= Seq::empty());
    loop
        invariant
            after <= at <= chars.len(),
            parse_items(line@, start, Seq::empty()) == parse_items(
                line@,
                at as int,
                terms_of(items@),
            ),
            all_source(terms_of(items@)),
        decreases chars.len() - at,
    {
        match read_expression(line, chars, at) {
            Some((item, next)) => {
                let ghost before = terms_of(items@);
                items.push(item);
                assert(terms_of(items@) =~= before.push(item@));
                at = skip_blank_chars(chars, next);
            },
            None => {
                if items.len() > 0 && at < chars.len() && chars[at] == ')' {
                    return Some((items, at + 1));
                } else {
                    return None;
                }
            },
        }
    }
}

/// Reads the forms of a line.
///
/// Forms are separated by whitespace; reading ends at the end of the line
/// or at a NUL between forms. Where a form cannot be read, the error gives
/// the index at which it starts. What is read holds no procedure value.
#[verifier::loop_isolation(false)]
pub fn parse_repl_line(line: &str) -> (r: Result<Vec<Rc<Expression>>, ParseError>)
    ensures
        match r {
            Ok(forms) => parse_forms(line@, 0, Seq::empty()) == Ok::<Seq<Term>, int>(
                terms_of(forms@),
            ) && all_source(terms_of(forms@)),
            Err(error) => parse_forms(line@, 0, Seq::empty()) == Err::<Seq<Term>, int>(
                error.position as int,
            ),
        },
{
    let chars = chars_of(line);
    let mut forms: Vec<Rc<Expression>> = Vec::new();
    let mut at: usize = 0;
    assert(terms_of(forms@) =~= Seq::empty());
    loop
        invariant
            at <= chars.len(),
            parse_forms(line@, 0, Seq::empty()) == parse_forms(line@, at as int, terms_of(forms@)),
            all_source(terms_of(forms@)),
        decreases chars.len() - at,
    {
        let start = skip_whitespace_chars(&chars, at);
        if start >= chars.len() || chars[start] == '\0' {
            return Ok(forms);
        }
        match read_expression(line, &chars, start) {
            Some((form, next)) => {
                let ghost before = terms_of(forms@);
                forms.push(form);
                assert(terms_of(forms@) =~= before.push(form@));
                at = next;
            },
            None => {
                return Err(ParseError { position: start });
            },
        }
    }
}

/// Makes the initial environment: reads the forms of `source` and
/// evaluates each, in order, in a new environment that lets calls nest
/// `capacity` deep. A form that fails to evaluate is passed over; a form
/// that cannot be read fails the whole.
#[verifier::loop_isolation(false)]
pub fn load_stdlib(source: &str, capacity: usize) -> (r: Result<Environment, ParseError>)
    ensures
        match r {
            Ok(env) => parse_forms(source@, 0, Seq::empty()) matches Ok(forms) && env@ == preload(
                forms,
                0,
                seq![Scope::empty()],
                capacity as nat,
            ) && env.wf() && env.capacity() == capacity,
            Err(error) => parse_forms(source@, 0, Seq::empty()) == Err::<Seq<Term>, int>(
                error.position as int,
            ),
        },
{
    let forms = match parse_repl_line(source) {
        Ok(forms) => forms,
        Err(error) => {
            return Err(error);
        },
    };
    let mut env = Environment::new(capacity);
    let ghost terms = terms_of(forms@);
    let mut i: usize = 0;
    while i < forms.len()
        invariant
            i <= forms.len(),
            env.wf(),
            env.capacity() == capacity,
            env@.len() == 1,
            preload(terms, 0, seq![Scope::empty()], capacity as nat) == preload(
                terms,
                i as int,
                env@,
                capacity as nat,
            ),
        decreases forms.len() - i,
    {
        let _ = eval(Rc::clone(&forms[i]), &mut env);
        i += 1;
    }
    Ok(env)
}

} // verus!
