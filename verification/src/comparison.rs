//! Threshold expressions such as `">=45"`: an operator prefix and a number.

use crate::text::{decimal_text, digit_text, digits_text};
use vstd::prelude::*;

verus! {

/// The four operators a threshold expression can start with.
#[derive(Clone, Copy, Debug, PartialEq, Eq, Structural)]
pub enum ComparisonOperator {
    GreaterThan,
    GreaterThanOrEqual,
    LessThan,
    LessThanOrEqual,
}

/// An operator and the threshold that candidates are held against.
#[derive(Debug, PartialEq, Eq)]
pub struct Comparison<T> {
    pub operator: ComparisonOperator,
    pub value: T,
}

/// Why a text is no threshold expression. Each case carries the text at fault.
#[derive(Debug, PartialEq, Eq)]
pub enum ComparisonError {
    /// The text has no operator prefix, or nothing after it.
    MalformedComparison(String),
    /// The prefix is none of `>`, `>=`, `<`, `<=`.
    UnknownOperator(String),
    /// What follows the prefix is no number of the wanted type.
    InvalidNumber(String),
}

/// A `ComparisonError` over sequences of characters.
pub enum ComparisonFault {
    MalformedComparison(Seq<char>),
    UnknownOperator(Seq<char>),
    InvalidNumber(Seq<char>),
}

impl View for ComparisonError {
    type V = ComparisonFault;

    open spec fn view(&self) -> ComparisonFault {
        match self {
            ComparisonError::MalformedComparison(s) => ComparisonFault::MalformedComparison(s@),
            ComparisonError::UnknownOperator(s) => ComparisonFault::UnknownOperator(s@),
            ComparisonError::InvalidNumber(s) => ComparisonFault::InvalidNumber(s@),
        }
    }
}

/// The characters an operator prefix is made of.
pub open spec fn is_operator_char(c: char) -> bool {
    c == '>' || c == '<' || c == '='
}

/// Where the run of operator characters that covers position `from` ends.
pub open spec fn run_end(s: Seq<char>, from: int) -> int
    decreases s.len() - from,
{
    if 0 <= from < s.len() && is_operator_char(s[from]) {
        run_end(s, from + 1)
    } else {
        from
    }
}

/// The operator that a prefix spells, if any.
pub open spec fn operator_of(prefix: Seq<char>) -> Option<ComparisonOperator> {
    if prefix == seq!['<'] {
        Some(ComparisonOperator::LessThan)
    } else if prefix == seq!['<', '='] {
        Some(ComparisonOperator::LessThanOrEqual)
    } else if prefix == seq!['>'] {
        Some(ComparisonOperator::GreaterThan)
    } else if prefix == seq!['>', '='] {
        Some(ComparisonOperator::GreaterThanOrEqual)
    } else {
        None
    }
}

/// The text that spells an operator.
pub open spec fn symbol_of(operator: ComparisonOperator) -> Seq<char> {
    match operator {
        ComparisonOperator::LessThan => seq!['<'],
        ComparisonOperator::LessThanOrEqual => seq!['<', '='],
        ComparisonOperator::GreaterThan => seq!['>'],
        ComparisonOperator::GreaterThanOrEqual => seq!['>', '='],
    }
}

pub open spec fn is_digit(c: char) -> bool {
    '0' <= c <= '9'
}

pub open spec fn digit_value(c: char) -> int {
    c as int - '0' as int
}

pub open spec fn all_digits(s: Seq<char>) -> bool {
    forall|i: int| 0 <= i < s.len() ==> is_digit(#[trigger] s[i])
}

/// The number that a run of decimal digits spells.
pub open spec fn digits_value(s: Seq<char>) -> int
    decreases s.len(),
{
    if s.len() == 0 {
        0
    } else {
        digits_value(s.drop_last()) * 10 + digit_value(s.last())
    }
}

/// The number that an integer literal spells: an optional sign (`-` only for
/// a signed type) and then at least one decimal digit.
pub open spec fn literal_value(s: Seq<char>, signed: bool) -> Option<int> {
    if s.len() == 0 {
        None
    } else if s[0] == '+' || (signed && s[0] == '-') {
        if s.len() > 1 && all_digits(s.skip(1)) {
            Some(
                if s[0] == '-' {
                    -digits_value(s.skip(1))
                } else {
                    digits_value(s.skip(1))
                },
            )
        } else {
            None
        }
    } else if all_digits(s) {
        Some(digits_value(s))
    } else {
        None
    }
}

/// The literal's number where it lies between `min` and `max`.
pub open spec fn number_in_range(s: Seq<char>, signed: bool, min: int, max: int) -> Option<int> {
    match literal_value(s, signed) {
        Some(v) => if min <= v <= max {
            Some(v)
        } else {
            None
        },
        None => None,
    }
}

/// What a text means as a threshold expression over the integers from `min`
/// to `max`: the operator and the threshold, or the reason it has none.
pub open spec fn parse_result(s: Seq<char>, signed: bool, min: int, max: int) -> Result<
    (ComparisonOperator, int),
    ComparisonFault,
> {
    let n = run_end(s, 0);
    if n == 0 || n == s.len() {
        Err(ComparisonFault::MalformedComparison(s))
    } else {
        match operator_of(s.take(n)) {
            None => Err(ComparisonFault::UnknownOperator(s.take(n))),
            Some(operator) => match number_in_range(s.skip(n), signed, min, max) {
                None => Err(ComparisonFault::InvalidNumber(s.skip(n))),
                Some(v) => Ok((operator, v)),
            },
        }
    }
}

/// Whether `candidate` stands to `threshold` as the operator says.
pub open spec fn holds(operator: ComparisonOperator, threshold: int, candidate: int) -> bool {
    match operator {
        ComparisonOperator::GreaterThan => candidate > threshold,
        ComparisonOperator::GreaterThanOrEqual => candidate >= threshold,
        ComparisonOperator::LessThan => candidate < threshold,
        ComparisonOperator::LessThanOrEqual => candidate <= threshold,
    }
}

/// The run that starts at `from` consists of operator characters and ends
/// where the text ends or another character stands.
pub proof fn lemma_run_end(s: Seq<char>, from: int)
    requires
        0 <= from <= s.len(),
    ensures
        from <= run_end(s, from) <= s.len(),
        forall|i: int| from <= i < run_end(s, from) ==> is_operator_char(#[trigger] s[i]),
        run_end(s, from) < s.len() ==> !is_operator_char(s[run_end(s, from)]),
    decreases s.len() - from,
{
    if from < s.len() && is_operator_char(s[from]) {
        lemma_run_end(s, from + 1);
    }
}

/// A prefix of a run of digits spells a number that is no larger.
pub proof fn lemma_digits_monotone(s: Seq<char>, k: int)
    requires
        0 <= k <= s.len(),
        all_digits(s),
    ensures
        0 <= digits_value(s.take(k)) <= digits_value(s),
    decreases s.len(),
{
    if s.len() == 0 {
        assert(s.take(k) =~= s);
    } else if k == s.len() {
        assert(s.take(k) =~= s);
        lemma_digits_monotone(s.drop_last(), k - 1);
        assert(is_digit(s[s.len() - 1]));
    } else {
        lemma_digits_monotone(s.drop_last(), k);
        assert(s.drop_last().take(k) =~= s.take(k));
        assert(is_digit(s[s.len() - 1]));
    }
}

/// Each operator is the one that its own symbol spells.
pub proof fn lemma_symbol_spells(operator: ComparisonOperator)
    ensures
        operator_of(symbol_of(operator)) == Some(operator),
{
    assert(seq!['<'].len() == 1 && seq!['<'][0] == '<');
    assert(seq!['>'].len() == 1 && seq!['>'][0] == '>');
    assert(seq!['<', '='].len() == 2 && seq!['<', '='][0] == '<');
    assert(seq!['>', '='].len() == 2 && seq!['>', '='][0] == '>');
}

impl ComparisonOperator {
    /// The text that spells this operator.
    pub fn symbol(&self) -> (s: &'static str)
        ensures
            s@ == symbol_of(*self),
    {
        proof {
            reveal_strlit(">");
            reveal_strlit(">=");
            reveal_strlit("<");
            reveal_strlit("<=");
        }
        let s = match self {
            ComparisonOperator::GreaterThan => ">",
            ComparisonOperator::GreaterThanOrEqual => ">=",
            ComparisonOperator::LessThan => "<",
            ComparisonOperator::LessThanOrEqual => "<=",
        };
        assert(s@ =~= symbol_of(*self));
        s
    }
}

/// The largest magnitude that `read_number` is asked to hold: 2^64.
pub const MAGNITUDE_LIMIT: i128 = 0x1_0000_0000_0000_0000;

/// Reads the integer literal that starts at character `start` of `s`.
pub fn read_number(s: &str, start: usize, signed: bool, min: i128, max: i128) -> (r: Option<i128>)
    requires
        start <= s@.len(),
        -MAGNITUDE_LIMIT <= min <= 0 <= max <= MAGNITUDE_LIMIT,
    ensures
        r matches Some(v) ==> number_in_range(s@.skip(start as int), signed, min as int, max as int)
            == Some(v as int),
        r is None ==> number_in_range(s@.skip(start as int), signed, min as int, max as int)
            is None,
{
    let total: usize = s.unicode_len();
    let ghost text = s@.skip(start as int);
    if start == total {
        return None;
    }
    let first: char = s.get_char(start);
    assert(text[0] == first);
    let negative: bool = signed && first == '-';
    let has_sign: bool = first == '+' || negative;
    let begin: usize = if has_sign {
        start + 1
    } else {
        start
    };
    if begin == total {
        return None;
    }
    let limit: i128 = if negative {
        -min
    } else {
        max
    };
    let ghost digits = s@.skip(begin as int);
    assert(has_sign ==> digits =~= text.skip(1));
    assert(!has_sign ==> digits =~= text);
    let mut acc: i128 = 0;
    let mut i: usize = begin;
    while i < total
        invariant
            begin <= i <= total,
            total == s@.len(),
            digits == s@.skip(begin as int),
            text == s@.skip(start as int),
            text.len() > 0,
            digits.len() > 0,
            negative == (signed && text[0] == '-'),
            has_sign == (text[0] == '+' || negative),
            has_sign ==> digits == text.skip(1),
            !has_sign ==> digits == text,
            limit == if negative { -min } else { max as int },
            min <= 0 <= max,
            all_digits(digits.take(i - begin)),
            acc == digits_value(digits.take(i - begin)),
            0 <= acc <= limit <= MAGNITUDE_LIMIT,
        decreases total - i,
    {
        let c: char = s.get_char(i);
        assert(digits[i - begin] == c);
        if c < '0' || c > '9' {
            assert(!all_digits(digits));
            return None;
        }
        let d: i128 = (c as u32 - '0' as u32) as i128;
        let next: i128 = acc * 10 + d;
        proof {
            let longer = digits.take(i - begin + 1);
            assert(longer.drop_last() =~= digits.take(i - begin));
            assert(longer.last() == c);
            assert(next == digits_value(longer));
            assert forall|j: int| 0 <= j < longer.len() implies is_digit(#[trigger] longer[j]) by {
                if j < i - begin {
                    assert(digits.take(i - begin)[j] == longer[j]);
                }
            }
        }
        if next > limit {
            proof {
                if all_digits(digits) {
                    lemma_digits_monotone(digits, i - begin + 1);
                }
            }
            return None;
        }
        acc = next;
        i = i + 1;
    }
    assert(digits.take(i - begin) =~= digits);
    if negative {
        Some(-acc)
    } else {
        Some(acc)
    }
}

/// Splits `s` into operator prefix and number, and reads both.
pub fn read_comparison(s: &str, signed: bool, min: i128, max: i128) -> (r: Result<
    (ComparisonOperator, i128),
    ComparisonError,
>)
    requires
        -MAGNITUDE_LIMIT <= min <= 0 <= max <= MAGNITUDE_LIMIT,
    ensures
        r matches Ok(p) ==> parse_result(s@, signed, min as int, max as int) == Ok::<
            (ComparisonOperator, int),
            ComparisonFault,
        >((p.0, p.1 as int)),
        r matches Err(e) ==> parse_result(s@, signed, min as int, max as int) == Err::<
            (ComparisonOperator, int),
            ComparisonFault,
        >(e@),
{
    let total: usize = s.unicode_len();
    let mut n: usize = 0;
    while n < total && is_operator(s.get_char(n))
        invariant
            n <= total,
            total == s@.len(),
            run_end(s@, 0) == run_end(s@, n as int),
        decreases total - n,
    {
        n = n + 1;
    }
    assert(run_end(s@, 0) == n);
    if n == 0 || n == total {
        return Err(ComparisonError::MalformedComparison(s.to_owned()));
    }
    let prefix: &str = s.substring_char(0, n);
    assert(prefix@ =~= s@.take(n as int));
    let first: char = s.get_char(0);
    let operator = if n == 1 && first == '<' {
        ComparisonOperator::LessThan
    } else if n == 1 && first == '>' {
        ComparisonOperator::GreaterThan
    } else if n == 2 && first == '<' && s.get_char(1) == '=' {
        ComparisonOperator::LessThanOrEqual
    } else if n == 2 && first == '>' && s.get_char(1) == '=' {
        ComparisonOperator::GreaterThanOrEqual
    } else {
        proof {
            let p = s@.take(n as int);
            assert(p[0] == first);
            if n >= 2 {
                assert(p[1] == s@[1]);
            }
            assert(seq!['<'].len() == 1 && seq!['<'][0] == '<');
            assert(seq!['>'].len() == 1 && seq!['>'][0] == '>');
            assert(seq!['<', '='].len() == 2 && seq!['<', '='][0] == '<' && seq!['<', '='][1] == '=');
            assert(seq!['>', '='].len() == 2 && seq!['>', '='][0] == '>' && seq!['>', '='][1] == '=');
        }
        return Err(ComparisonError::UnknownOperator(prefix.to_owned()));
    };
    proof {
        assert(s@.take(n as int) =~= symbol_of(operator));
        lemma_symbol_spells(operator);
    }
    match read_number(s, n, signed, min, max) {
        Some(v) => Ok((operator, v)),
        None => {
            let rest: &str = s.substring_char(n, total);
            assert(rest@ =~= s@.skip(n as int));
            Err(ComparisonError::InvalidNumber(rest.to_owned()))
        },
    }
}

fn is_operator(c: char) -> (b: bool)
    ensures
        b == is_operator_char(c),
{
    c == '>' || c == '<' || c == '='
}

/// What is expected where a text has no operator prefix or no value.
pub open spec fn expected_comparison() -> Seq<char> {
    "a number prefixed with '>', '>=', '<' or '<='"@
}

/// What is expected where a prefix spells no operator.
pub open spec fn expected_prefix() -> Seq<char> {
    "prefix '>', '>=', '<' or '<='"@
}

/// What is expected where the value is no number of the wanted type.
pub open spec fn expected_number() -> Seq<char> {
    "a suitable number"@
}

/// The text of serde's "invalid value" error for an unexpected string,
/// as `serde::de::value::Error` displays it.
pub uninterp spec fn invalid_string_text(unexpected: Seq<char>, expected: Seq<char>) -> Seq<char>;

/// The text of serde's "invalid value" error for an unexpected thing that is
/// described in words.
pub open spec fn invalid_other_text(unexpected: Seq<char>, expected: Seq<char>) -> Seq<char> {
    "invalid value: "@ + unexpected + ", expected "@ + expected
}

/// How a rejected prefix is described in words.
pub open spec fn prefix_description(prefix: Seq<char>) -> Seq<char> {
    "prefix \""@ + prefix + "\""@
}

/// The message that reports a fault.
pub open spec fn message_text(fault: ComparisonFault) -> Seq<char> {
    match fault {
        ComparisonFault::MalformedComparison(s) => invalid_string_text(s, expected_comparison()),
        ComparisonFault::UnknownOperator(p) => invalid_other_text(
            prefix_description(p),
            expected_prefix(),
        ),
        ComparisonFault::InvalidNumber(v) => invalid_string_text(v, expected_number()),
    }
}

/// Calls `serde::de::Error::invalid_value` for `serde::de::value::Error` with
/// `Unexpected::Str(unexpected)` and displays the error. The text depends on
/// the two arguments alone; serde quotes the unexpected string as `{:?}` does,
/// so the contract only gives the text its name.
#[verifier::external_body]
fn invalid_string_message(unexpected: &str, expected: &str) -> (m: String)
    ensures
        m@ == invalid_string_text(unexpected@, expected@),
{
    let e: serde::de::value::Error = serde::de::Error::invalid_value(
        serde::de::Unexpected::Str(unexpected),
        &expected,
    );
    e.to_string()
}

/// Calls `serde::de::Error::invalid_value` for `serde::de::value::Error` with
/// `Unexpected::Other(unexpected)` and displays the error. serde writes
/// `invalid value: `, the description as it stands, `, expected ` and the
/// expectation as it stands.
#[verifier::external_body]
fn invalid_other_message(unexpected: &str, expected: &str) -> (m: String)
    ensures
        m@ == invalid_other_text(unexpected@, expected@),
{
    let e: serde::de::value::Error = serde::de::Error::invalid_value(
        serde::de::Unexpected::Other(unexpected),
        &expected,
    );
    e.to_string()
}

impl ComparisonError {
    /// The text at fault: the whole input, the prefix or the value.
    pub fn unexpected(&self) -> (s: &str)
        ensures
            s@ == match self@ {
                ComparisonFault::MalformedComparison(t) => t,
                ComparisonFault::UnknownOperator(t) => t,
                ComparisonFault::InvalidNumber(t) => t,
            },
    {
        match self {
            ComparisonError::MalformedComparison(t) => t.as_str(),
            ComparisonError::UnknownOperator(t) => t.as_str(),
            ComparisonError::InvalidNumber(t) => t.as_str(),
        }
    }

    /// What should have stood in place of the text at fault.
    pub fn expected(&self) -> (s: &'static str)
        ensures
            s@ == match self@ {
                ComparisonFault::MalformedComparison(_) => expected_comparison(),
                ComparisonFault::UnknownOperator(_) => expected_prefix(),
                ComparisonFault::InvalidNumber(_) => expected_number(),
            },
    {
        match self {
            ComparisonError::MalformedComparison(_) => "a number prefixed with '>', '>=', '<' or '<='",
            ComparisonError::UnknownOperator(_) => "prefix '>', '>=', '<' or '<='",
            ComparisonError::InvalidNumber(_) => "a suitable number",
        }
    }

    /// The message that reports this error.
    pub fn message(&self) -> (m: String)
        ensures
            m@ == message_text(self@),
    {
        match self {
            ComparisonError::UnknownOperator(p) => {
                let mut description = String::from_str("prefix \"");
                description.append(p.as_str());
                description.append("\"");
                invalid_other_message(description.as_str(), self.expected())
            },
            _ => invalid_string_message(self.unexpected(), self.expected()),
        }
    }
}

impl Comparison<usize> {
    /// Reads a threshold expression over `usize`.
    pub fn parse(s: &str) -> (r: Result<Comparison<usize>, ComparisonError>)
        ensures
            r matches Ok(c) ==> parse_result(s@, false, 0, usize::MAX as int) == Ok::<
                (ComparisonOperator, int),
                ComparisonFault,
            >((c.operator, c.value as int)),
            r matches Err(e) ==> parse_result(s@, false, 0, usize::MAX as int) == Err::<
                (ComparisonOperator, int),
                ComparisonFault,
            >(e@),
    {
        match read_comparison(s, false, 0, usize::MAX as i128) {
            Ok(p) => Ok(Comparison { operator: p.0, value: p.1 as usize }),
            Err(e) => Err(e),
        }
    }

    /// Whether `value` stands to the threshold as the operator says.
    pub fn compare(&self, value: usize) -> (b: bool)
        ensures
            b == holds(self.operator, self.value as int, value as int),
    {
        match self.operator {
            ComparisonOperator::GreaterThan => value > self.value,
            ComparisonOperator::GreaterThanOrEqual => value >= self.value,
            ComparisonOperator::LessThan => value < self.value,
            ComparisonOperator::LessThanOrEqual => value <= self.value,
        }
    }
}

impl Comparison<u32> {
    /// Reads a threshold expression over `u32`.
    pub fn parse(s: &str) -> (r: Result<Comparison<u32>, ComparisonError>)
        ensures
            r matches Ok(c) ==> parse_result(s@, false, 0, u32::MAX as int) == Ok::<
                (ComparisonOperator, int),
                ComparisonFault,
            >((c.operator, c.value as int)),
            r matches Err(e) ==> parse_result(s@, false, 0, u32::MAX as int) == Err::<
                (ComparisonOperator, int),
                ComparisonFault,
            >(e@),
    {
        match read_comparison(s, false, 0, u32::MAX as i128) {
            Ok(p) => Ok(Comparison { operator: p.0, value: p.1 as u32 }),
            Err(e) => Err(e),
        }
    }
}

impl Comparison<i32> {
    /// Reads a threshold expression over `i32`.
    pub fn parse(s: &str) -> (r: Result<Comparison<i32>, ComparisonError>)
        ensures
            r matches Ok(c) ==> parse_result(s@, true, i32::MIN as int, i32::MAX as int) == Ok::<
                (ComparisonOperator, int),
                ComparisonFault,
            >((c.operator, c.value as int)),
            r matches Err(e) ==> parse_result(s@, true, i32::MIN as int, i32::MAX as int) == Err::<
                (ComparisonOperator, int),
                ComparisonFault,
            >(e@),
    {
        match read_comparison(s, true, i32::MIN as i128, i32::MAX as i128) {
            Ok(p) => Ok(Comparison { operator: p.0, value: p.1 as i32 }),
            Err(e) => Err(e),
        }
    }
}

impl Comparison<i64> {
    /// Reads a threshold expression over `i64`.
    pub fn parse(s: &str) -> (r: Result<Comparison<i64>, ComparisonError>)
        ensures
            r matches Ok(c) ==> parse_result(s@, true, i64::MIN as int, i64::MAX as int) == Ok::<
                (ComparisonOperator, int),
                ComparisonFault,
            >((c.operator, c.value as int)),
            r matches Err(e) ==> parse_result(s@, true, i64::MIN as int, i64::MAX as int) == Err::<
                (ComparisonOperator, int),
                ComparisonFault,
            >(e@),
    {
        match read_comparison(s, true, i64::MIN as i128, i64::MAX as i128) {
            Ok(p) => Ok(Comparison { operator: p.0, value: p.1 as i64 }),
            Err(e) => Err(e),
        }
    }
}

/// An operator's symbol followed by an integer literal in range reads back
/// as that operator and that number.
pub proof fn lemma_symbol_then_literal_parses(
    operator: ComparisonOperator,
    literal: Seq<char>,
    signed: bool,
    min: int,
    max: int,
)
    requires
        number_in_range(literal, signed, min, max) is Some,
    ensures
        parse_result(symbol_of(operator) + literal, signed, min, max) == Ok::<
            (ComparisonOperator, int),
            ComparisonFault,
        >((operator, number_in_range(literal, signed, min, max).unwrap())),
{
    let symbol = symbol_of(operator);
    let s = symbol + literal;
    let n = symbol.len() as int;
    assert(literal.len() > 0);
    assert(!is_operator_char(literal[0])) by {
        if !(literal[0] == '+' || (signed && literal[0] == '-')) {
            assert(is_digit(literal[0]));
        }
    }
    assert(s[n] == literal[0]);
    assert(run_end(s, n) == n);
    assert(is_operator_char(s[n - 1]));
    assert(run_end(s, n - 1) == n);
    if n == 2 {
        assert(is_operator_char(s[0]));
        assert(run_end(s, 0) == run_end(s, 1));
    }
    assert(run_end(s, 0) == n);
    assert(s.take(n) =~= symbol);
    assert(s.skip(n) =~= literal);
    lemma_symbol_spells(operator);
}

/// The text of a digit is that one digit.
pub proof fn lemma_digit_text(d: int)
    requires
        0 <= d < 10,
    ensures
        digit_text(d).len() == 1,
        is_digit(digit_text(d)[0]),
        digit_value(digit_text(d)[0]) == d,
{
    reveal_strlit("0");
    reveal_strlit("1");
    reveal_strlit("2");
    reveal_strlit("3");
    reveal_strlit("4");
    reveal_strlit("5");
    reveal_strlit("6");
    reveal_strlit("7");
    reveal_strlit("8");
    reveal_strlit("9");
}

/// The digits written for a number spell that number.
pub proof fn lemma_digits_text(n: nat)
    ensures
        digits_text(n).len() >= 1,
        all_digits(digits_text(n)),
        digits_value(digits_text(n)) == n,
    decreases n,
{
    let s = digits_text(n);
    if n < 10 {
        lemma_digit_text(n as int);
        assert(s.drop_last().len() == 0);
        assert(digits_value(s.drop_last()) == 0);
    } else {
        lemma_digits_text(n / 10);
        lemma_digit_text((n % 10) as int);
        let front = digits_text(n / 10);
        let back = digit_text((n % 10) as int);
        assert(s.drop_last() =~= front);
        assert(s.last() == back[0]);
        assert forall|i: int| 0 <= i < s.len() implies is_digit(#[trigger] s[i]) by {
            if i < front.len() {
                assert(s[i] == front[i]);
            } else {
                assert(s[i] == back[0]);
            }
        }
    }
}

/// The decimal text of a number reads back as that number; a negative one
/// only as a signed literal.
pub proof fn lemma_decimal_reads_back(v: int, signed: bool)
    requires
        v >= 0 || signed,
    ensures
        literal_value(decimal_text(v), signed) == Some(v),
{
    let s = decimal_text(v);
    if v < 0 {
        reveal_strlit("-");
        let digits = digits_text((-v) as nat);
        lemma_digits_text((-v) as nat);
        assert(s[0] == '-');
        assert(s.skip(1) =~= digits);
    } else {
        lemma_digits_text(v as nat);
        assert(is_digit(s[0]));
    }
}

/// An operator's symbol followed by the decimal text of a number in range
/// reads back as that operator and that number.
pub proof fn lemma_round_trip(
    operator: ComparisonOperator,
    v: int,
    signed: bool,
    min: int,
    max: int,
)
    requires
        min <= v <= max,
        v >= 0 || signed,
    ensures
        parse_result(symbol_of(operator) + decimal_text(v), signed, min, max) == Ok::<
            (ComparisonOperator, int),
            ComparisonFault,
        >((operator, v)),
{
    lemma_decimal_reads_back(v, signed);
    lemma_symbol_then_literal_parses(operator, decimal_text(v), signed, min, max);
}

} // verus!
