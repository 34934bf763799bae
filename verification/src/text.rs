//! Text: characters, decimal numbers, and comparisons.
//!
//! A string is modelled by the sequence of its characters, `s@`.

use vstd::prelude::*;

verus! {

/// `String::push` appends one character to the end of the string and changes nothing else.
pub assume_specification[ String::push ](s: &mut String, c: char)
    ensures
        final(s)@ == old(s)@.push(c),
;

/// The characters of each string.
pub open spec fn texts(strings: Seq<String>) -> Seq<Seq<char>> {
    Seq::new(strings.len(), |i: int| strings[i]@)
}

/// The characters of a string, in order.
pub fn chars_of(s: &str) -> (out: Vec<char>)
    ensures
        out@ == s@,
{
    let mut out: Vec<char> = Vec::new();
    for c in it: s.chars()
        invariant
            out@ == it.seq().take(it.index() as int),
            it.seq() == s@,
    {
        out.push(c);
    }
    assert(s@.take(s@.len() as int) == s@);
    out
}

/// The string made of the characters `chars[from..to]`.
pub fn string_of(chars: &Vec<char>, from: usize, to: usize) -> (out: String)
    requires
        from <= to <= chars@.len(),
    ensures
        out@ == chars@.subrange(from as int, to as int),
{
    let mut out = String::new();
    let mut i: usize = from;
    while i < to
        invariant
            from <= i <= to <= chars@.len(),
            out@ == chars@.subrange(from as int, i as int),
        decreases to - i,
    {
        out.push(chars[i]);
        i += 1;
    }
    out
}

/// Whether two strings hold the same characters.
pub fn same(a: &str, b: &str) -> (r: bool)
    ensures
        r == (a@ == b@),
{
    a.to_owned() == b.to_owned()
}

/// The character of a decimal digit.
pub open spec fn digit_char(d: nat) -> char {
    ('0' as nat + d) as char
}

/// The decimal digits of `n`, most significant first, without leading zeros.
pub open spec fn decimal(n: nat) -> Seq<char>
    decreases n,
{
    if n < 10 {
        seq![digit_char(n)]
    } else {
        decimal(n / 10).push(digit_char(n % 10))
    }
}

fn digit(d: u64) -> (c: char)
    requires
        d < 10,
    ensures
        c == digit_char(d as nat),
{
    (48u8 + d as u8) as char
}

/// Appends `n` in decimal.
pub fn push_decimal(out: &mut String, n: u64)
    ensures
        final(out)@ == old(out)@ + decimal(n as nat),
    decreases n,
{
    if n >= 10 {
        push_decimal(out, n / 10);
    }
    out.push(digit(n % 10));
}

/// Why a piece of text is not a number.
#[derive(Debug, Clone, Copy, PartialEq, Eq, Structural)]
pub enum NumberError {
    /// There was nothing to read.
    Empty,
    /// Something other than a decimal digit was found.
    InvalidDigit,
    /// The number does not fit its type.
    TooLarge,
}

impl NumberError {
    /// The error in words.
    pub open spec fn spec_message(self) -> Seq<char> {
        match self {
            NumberError::Empty => "cannot parse integer from empty string"@,
            NumberError::InvalidDigit => "invalid digit found in string"@,
            NumberError::TooLarge => "number too large to fit in target type"@,
        }
    }

    /// The error in words.
    pub fn message(&self) -> (m: &'static str)
        ensures
            m@ == self.spec_message(),
    {
        match self {
            NumberError::Empty => "cannot parse integer from empty string",
            NumberError::InvalidDigit => "invalid digit found in string",
            NumberError::TooLarge => "number too large to fit in target type",
        }
    }
}

/// Whether `c` is a decimal digit.
pub open spec fn is_digit(c: char) -> bool {
    '0' <= c <= '9'
}

/// The number that a row of digits stands for.
pub open spec fn number(digits: Seq<char>) -> nat
    decreases digits.len(),
{
    if digits.len() == 0 {
        0
    } else {
        (number(digits.drop_last()) * 10 + (digits.last() as nat - '0' as nat)) as nat
    }
}

/// How many digits `s` starts with.
pub open spec fn digit_run(s: Seq<char>) -> nat
    decreases s.len(),
{
    if s.len() == 0 || !is_digit(s[0]) {
        0
    } else {
        1 + digit_run(s.skip(1))
    }
}

/// The unsigned number at most `max` that `s` spells: digits, with an optional `+` in front.
///
/// Digits that already exceed `max` are too large whatever follows them.
pub open spec fn spec_parse_number(s: Seq<char>, max: nat) -> Result<nat, NumberError> {
    if s.len() == 0 {
        Err(NumberError::Empty)
    } else {
        let body = if s[0] == '+' {
            s.skip(1)
        } else {
            s
        };
        let run = digit_run(body);
        if number(body.take(run as int)) > max {
            Err(NumberError::TooLarge)
        } else if run < body.len() || run == 0 {
            Err(NumberError::InvalidDigit)
        } else {
            Ok(number(body))
        }
    }
}

proof fn lemma_digit_run_at_least(s: Seq<char>, n: int)
    requires
        0 <= n <= s.len(),
        forall|k: int| 0 <= k < n ==> is_digit(#[trigger] s[k]),
    ensures
        n <= digit_run(s) <= s.len(),
        n < s.len() && !is_digit(s[n]) ==> digit_run(s) == n,
    decreases s.len(),
{
    if s.len() > 0 && is_digit(s[0]) {
        let rest = s.skip(1);
        let m = if n > 0 {
            n - 1
        } else {
            0
        };
        assert forall|k: int| 0 <= k < m implies is_digit(#[trigger] rest[k]) by {
            assert(rest[k] == s[k + 1]);
        }
        lemma_digit_run_at_least(rest, m);
        if n > 0 && n < s.len() {
            assert(rest[m] == s[n]);
        }
    }
}

proof fn lemma_run_is_digits(s: Seq<char>)
    ensures
        digit_run(s) <= s.len(),
        forall|k: int| 0 <= k < digit_run(s) ==> is_digit(#[trigger] s[k]),
    decreases s.len(),
{
    if s.len() > 0 && is_digit(s[0]) {
        let rest = s.skip(1);
        lemma_run_is_digits(rest);
        assert forall|k: int| 0 <= k < digit_run(s) implies is_digit(#[trigger] s[k]) by {
            if k > 0 {
                assert(rest[k - 1] == s[k]);
            }
        }
    }
}

proof fn lemma_number_monotone(s: Seq<char>, i: int, j: int)
    requires
        0 <= i <= j <= s.len(),
        forall|k: int| 0 <= k < j ==> is_digit(#[trigger] s[k]),
    ensures
        number(s.take(i)) <= number(s.take(j)),
    decreases j,
{
    if i < j {
        lemma_number_monotone(s, i, j - 1);
        assert(s.take(j).drop_last() =~= s.take(j - 1));
        assert(s.take(j).last() == s[j - 1]);
    }
}

proof fn lemma_decimal(n: nat)
    ensures
        decimal(n).len() > 0,
        number(decimal(n)) == n,
        forall|k: int| 0 <= k < decimal(n).len() ==> is_digit(#[trigger] decimal(n)[k]),
    decreases n,
{
    if n < 10 {
        assert(decimal(n).drop_last() =~= Seq::<char>::empty());
        assert(number(Seq::<char>::empty()) == 0);
    } else {
        lemma_decimal(n / 10);
        assert(decimal(n).drop_last() =~= decimal(n / 10));
    }
}

/// A number written in decimal reads back as itself, wherever it fits.
pub proof fn law_decimal_reads_back(n: nat, max: nat)
    requires
        n <= max,
    ensures
        spec_parse_number(decimal(n), max) == Ok::<nat, NumberError>(n),
{
    let s = decimal(n);
    lemma_decimal(n);
    assert(is_digit(s[0]));
    lemma_digit_run_at_least(s, s.len() as int);
    assert(s.take(s.len() as int) =~= s);
}

/// Reads an unsigned decimal number that is at most `max`.
pub fn parse_number(s: &str, max: u64) -> (r: Result<u64, NumberError>)
    ensures
        match r {
            Ok(v) => spec_parse_number(s@, max as nat) == Ok::<nat, NumberError>(v as nat),
            Err(e) => spec_parse_number(s@, max as nat) == Err::<nat, NumberError>(e),
        },
{
    let chars = chars_of(s);
    if chars.len() == 0 {
        return Err(NumberError::Empty);
    }
    let start: usize = if chars[0] == '+' {
        1
    } else {
        0
    };
    let ghost body = chars@.skip(start as int);
    proof {
        assert(chars@.skip(0) =~= chars@);
        lemma_run_is_digits(body);
    }
    if start == chars.len() {
        assert(body.take(0) =~= Seq::<char>::empty());
        return Err(NumberError::InvalidDigit);
    }
    let mut value: u64 = 0;
    let mut i: usize = start;
    assert(body.take(0) =~= Seq::<char>::empty());
    while i < chars.len()
        invariant
            start <= i <= chars.len(),
            chars@ == s@,
            s@.len() > 0,
            start == (if s@[0] == '+' { 1int } else { 0int }),
            body == s@.skip(start as int),
            s@.skip(0) == s@,
            forall|k: int| 0 <= k < i - start ==> is_digit(#[trigger] body[k]),
            value == number(body.take(i - start)),
            value <= max,
            start < chars.len(),
        decreases chars.len() - i,
    {
        let c: char = chars[i];
        let ghost n = i - start;
        assert(body[n] == c);
        if !(c >= '0' && c <= '9') {
            proof {
                lemma_digit_run_at_least(body, n);
            }
            return Err(NumberError::InvalidDigit);
        }
        let d: u64 = (c as u32 - 48) as u64;
        proof {
            assert forall|k: int| 0 <= k < n + 1 implies is_digit(#[trigger] body[k]) by {}
            lemma_digit_run_at_least(body, n + 1);
            lemma_run_is_digits(body);
            lemma_number_monotone(body, n + 1, digit_run(body) as int);
            assert(body.take(n + 1).drop_last() =~= body.take(n));
            assert(body.take(n + 1).last() == c);
        }
        if value > max / 10 || d > max - value * 10 {
            return Err(NumberError::TooLarge);
        }
        value = value * 10 + d;
        i += 1;
    }
    proof {
        lemma_digit_run_at_least(body, body.len() as int);
        assert(body.take(body.len() as int) =~= body);
    }
    Ok(value)
}

/// Decimal is decimal: ten times a number is the number with a zero behind it, the last digit counts the
/// rest, and a number below ten is one digit.
pub proof fn law_decimal_counts_in_tens(n: nat, d: nat)
    requires
        d < 10,
    ensures
        decimal(d) == seq![(48 + d) as char],
        n > 0 ==> decimal(10 * n + d) == decimal(n) + seq![(48 + d) as char],
{
    assert('0' as nat == 48);
    if n > 0 {
        assert((10 * n + d) / 10 == n && (10 * n + d) % 10 == d);
        assert(decimal(10 * n + d) =~= decimal(n) + seq![(48 + d) as char]);
    }
}

/// What a row of decimal digits is worth, by the weight of the first one.
pub open spec fn worth(digits: Seq<char>) -> nat
    decreases digits.len(),
{
    if digits.len() == 0 {
        0
    } else {
        ((digits[0] as nat - 48) * vstd::arithmetic::power::pow(10, (digits.len() - 1) as nat)) as nat
            + worth(digits.skip(1))
    }
}

proof fn lemma_worth(digits: Seq<char>)
    requires
        forall|k: int| 0 <= k < digits.len() ==> '0' <= #[trigger] digits[k] <= '9',
    ensures
        number(digits) == worth(digits),
    decreases digits.len(),
{
    if digits.len() > 0 {
        lemma_worth_of_push(digits.drop_last(), digits.last());
        assert(digits.drop_last().push(digits.last()) =~= digits);
        lemma_worth(digits.drop_last());
    }
}

proof fn lemma_worth_of_push(digits: Seq<char>, c: char)
    requires
        forall|k: int| 0 <= k < digits.len() ==> '0' <= #[trigger] digits[k] <= '9',
        '0' <= c <= '9',
    ensures
        worth(digits.push(c)) == 10 * worth(digits) + (c as nat - 48),
    decreases digits.len(),
{
    let all = digits.push(c);
    vstd::arithmetic::power::lemma_pow0(10);
    if digits.len() == 0 {
        reveal_with_fuel(worth, 2);
        assert(all.skip(1) =~= digits);
        assert((c as nat - 48) * 1 == c as nat - 48);
    } else {
        let rest = digits.skip(1);
        assert forall|k: int| 0 <= k < rest.len() implies '0' <= #[trigger] rest[k] <= '9' by {
            assert(rest[k] == digits[k + 1]);
        }
        lemma_worth_of_push(rest, c);
        assert(all.skip(1) =~= rest.push(c));
        let e = (digits.len() - 1) as nat;
        let p = vstd::arithmetic::power::pow(10, e);
        assert(vstd::arithmetic::power::pow(10, e + 1) == 10 * p) by {
            reveal(vstd::arithmetic::power::pow);
        }
        vstd::arithmetic::power::lemma_pow_positive(10, e);
        let d = digits[0] as nat - 48;
        assert(d * (10 * p) == 10 * (d * p)) by (nonlinear_arith);
        assert(0 <= d * p) by (nonlinear_arith)
            requires
                0 <= d,
                0 < p,
        ;
    }
}

/// Decimal digits, with or without a plus sign in front, are the number that they are worth, unless that
/// exceeds the limit.
pub proof fn law_numbers_are_worth_their_digits(digits: Seq<char>, max: nat)
    requires
        digits.len() > 0,
        forall|k: int| 0 <= k < digits.len() ==> '0' <= #[trigger] digits[k] <= '9',
    ensures
        spec_parse_number(digits, max) == (if worth(digits) <= max {
            Ok::<nat, NumberError>(worth(digits))
        } else {
            Err::<nat, NumberError>(NumberError::TooLarge)
        }),
        spec_parse_number(seq!['+'] + digits, max) == spec_parse_number(digits, max),
{
    assert forall|k: int| 0 <= k < digits.len() implies is_digit(#[trigger] digits[k]) by {}
    lemma_digit_run_at_least(digits, digits.len() as int);
    lemma_worth(digits);
    assert(digits.take(digits.len() as int) =~= digits);
    assert('0' <= digits[0] <= '9');
    assert((seq!['+'] + digits).skip(1) =~= digits);
}

/// Nothing but digits behind at most one plus sign is a number.
pub proof fn law_other_characters_are_no_number(s: Seq<char>, max: nat, k: int)
    requires
        0 <= k < s.len(),
        !('0' <= s[k] <= '9'),
        k > 0 || s[0] != '+' || s.len() == 1,
    ensures
        spec_parse_number(s, max) is Err,
        spec_parse_number(Seq::empty(), max) == Err::<nat, NumberError>(NumberError::Empty),
{
    let body = if s[0] == '+' {
        s.skip(1)
    } else {
        s
    };
    lemma_run_is_digits(body);
    let m = if s[0] == '+' {
        k - 1
    } else {
        k
    };
    if 0 <= m {
        assert(body[m] == s[k]);
        if digit_run(body) == body.len() {
            assert(is_digit(body[m]));
        }
    }
}

/// A character that is no digit makes a number invalid, unless the digits before it are already too many.
pub proof fn law_the_first_mistake_decides(digits: Seq<char>, c: char, rest: Seq<char>, max: nat)
    requires
        forall|k: int| 0 <= k < digits.len() ==> '0' <= #[trigger] digits[k] <= '9',
        !('0' <= c <= '9'),
        digits.len() > 0 || c != '+',
    ensures
        spec_parse_number(digits + seq![c] + rest, max) == Err::<nat, NumberError>(
            if worth(digits) > max {
                NumberError::TooLarge
            } else {
                NumberError::InvalidDigit
            },
        ),
{
    let s = digits + seq![c] + rest;
    let n = digits.len() as int;
    assert(s[n] == c);
    assert forall|k: int| 0 <= k < n implies is_digit(#[trigger] s[k]) by {
        assert(s[k] == digits[k]);
    }
    if n > 0 {
        assert('0' <= digits[0] <= '9');
        assert(s[0] == digits[0]);
    }
    lemma_digit_run_at_least(s, n);
    lemma_worth(digits);
    assert(s.take(n) =~= digits);
}

/// What is wrong with a number is said in the words that Rust uses.
pub proof fn law_number_errors_in_words()
    ensures
        NumberError::Empty.spec_message() == "cannot parse integer from empty string"@,
        NumberError::InvalidDigit.spec_message() == "invalid digit found in string"@,
        NumberError::TooLarge.spec_message() == "number too large to fit in target type"@,
{
}

} // verus!
