//! The string form of stored scalars: text as it is, integers in decimal.

use vstd::prelude::*;

verus! {

/// The character of a decimal digit.
pub open spec fn digit_char(d: int) -> char {
    if d == 0 {
        '0'
    } else if d == 1 {
        '1'
    } else if d == 2 {
        '2'
    } else if d == 3 {
        '3'
    } else if d == 4 {
        '4'
    } else if d == 5 {
        '5'
    } else if d == 6 {
        '6'
    } else if d == 7 {
        '7'
    } else if d == 8 {
        '8'
    } else {
        '9'
    }
}

/// The value of a decimal digit, none for any other character.
pub open spec fn digit_value(c: char) -> Option<int> {
    if c == '0' {
        Some(0)
    } else if c == '1' {
        Some(1)
    } else if c == '2' {
        Some(2)
    } else if c == '3' {
        Some(3)
    } else if c == '4' {
        Some(4)
    } else if c == '5' {
        Some(5)
    } else if c == '6' {
        Some(6)
    } else if c == '7' {
        Some(7)
    } else if c == '8' {
        Some(8)
    } else if c == '9' {
        Some(9)
    } else {
        None
    }
}

/// The decimal digits of a natural number, without leading zeros.
pub open spec fn digits_of(n: nat) -> Seq<char>
    decreases n,
{
    if n < 10 {
        seq![digit_char(n as int)]
    } else {
        digits_of(n / 10).push(digit_char((n % 10) as int))
    }
}

/// The decimal form of an integer: a minus sign where it is negative, then its
/// digits.
pub open spec fn decimal(v: int) -> Seq<char> {
    if v < 0 {
        seq!['-'] + digits_of((-v) as nat)
    } else {
        digits_of(v as nat)
    }
}

/// The number that a non-empty run of decimal digits writes, none for anything
/// else.
pub open spec fn number_of(digits: Seq<char>) -> Option<nat>
    decreases digits.len(),
{
    if digits.len() == 0 {
        None
    } else if digits.len() == 1 {
        match digit_value(digits[0]) {
            Some(d) => Some(d as nat),
            None => None,
        }
    } else {
        match (number_of(digits.drop_last()), digit_value(digits.last())) {
            (Some(high), Some(d)) => Some((high * 10 + d) as nat),
            _ => None,
        }
    }
}

/// The integer that a text writes in decimal: an optional sign, then at least
/// one digit, and nothing else.
pub open spec fn parse_decimal(text: Seq<char>) -> Option<int> {
    if text.len() > 0 && text[0] == '-' {
        match number_of(text.drop_first()) {
            Some(n) => Some(-(n as int)),
            None => None,
        }
    } else if text.len() > 0 && text[0] == '+' {
        match number_of(text.drop_first()) {
            Some(n) => Some(n as int),
            None => None,
        }
    } else {
        match number_of(text) {
            Some(n) => Some(n as int),
            None => None,
        }
    }
}

/// The integer that a text writes, if it writes one from `lowest` to `highest`.
pub open spec fn parse_within(text: Seq<char>, lowest: int, highest: int) -> Option<int> {
    match parse_decimal(text) {
        Some(v) => if lowest <= v <= highest {
            Some(v)
        } else {
            None
        },
        None => None,
    }
}

/// The 32-bit integer that a text writes, none where it writes none or one that
/// does not fit.
pub open spec fn parse_i32(text: Seq<char>) -> Option<i32> {
    match parse_within(text, i32::MIN as int, i32::MAX as int) {
        Some(v) => Some(v as i32),
        None => None,
    }
}

/// The 64-bit integer that a text writes, none where it writes none or one that
/// does not fit.
pub open spec fn parse_i64(text: Seq<char>) -> Option<i64> {
    match parse_within(text, i64::MIN as int, i64::MAX as int) {
        Some(v) => Some(v as i64),
        None => None,
    }
}

/// The unsigned 64-bit integer that a text writes, none where it writes none or
/// one that does not fit.
pub open spec fn parse_u64(text: Seq<char>) -> Option<u64> {
    match parse_within(text, 0, u64::MAX as int) {
        Some(v) => Some(v as u64),
        None => None,
    }
}

/// The digits of a number are digits, and they write the number.
pub proof fn lemma_digits_round_trip(n: nat)
    ensures
        digits_of(n).len() > 0,
        digit_value(digits_of(n)[0]) is Some,
        number_of(digits_of(n)) == Some(n),
    decreases n,
{
    if n >= 10 {
        lemma_digits_round_trip(n / 10);
        let high = digits_of(n / 10);
        let all = digits_of(n);
        assert(all.drop_last() =~= high);
        assert(all[0] == high[0]);
    }
}

/// Reading the decimal form of an integer gives the integer back.
pub proof fn law_decimal_round_trip(v: int)
    ensures
        parse_decimal(decimal(v)) == Some(v),
{
    if v < 0 {
        lemma_digits_round_trip((-v) as nat);
        assert(decimal(v).drop_first() =~= digits_of((-v) as nat));
    } else {
        lemma_digits_round_trip(v as nat);
    }
}

/// The value of a character as a decimal digit.
fn digit_of(c: char) -> (d: Option<i128>)
    ensures
        match d {
            Some(v) => digit_value(c) == Some(v as int),
            None => digit_value(c) is None,
        },
{
    if c == '0' {
        Some(0)
    } else if c == '1' {
        Some(1)
    } else if c == '2' {
        Some(2)
    } else if c == '3' {
        Some(3)
    } else if c == '4' {
        Some(4)
    } else if c == '5' {
        Some(5)
    } else if c == '6' {
        Some(6)
    } else if c == '7' {
        Some(7)
    } else if c == '8' {
        Some(8)
    } else if c == '9' {
        Some(9)
    } else {
        None
    }
}

/// No number that is read is told from a larger one beyond this magnitude.
pub(crate) const LIMIT: i128 = 0x1_0000_0000_0000_0000;

/// Reads an integer from its decimal form, if it is one from `lowest` to
/// `highest`.
pub(crate) fn decode_within(text: &str, lowest: i128, highest: i128) -> (value: Option<i128>)
    requires
        -LIMIT <= lowest <= 0,
        0 <= highest <= LIMIT,
    ensures
        match value {
            Some(v) => parse_within(text@, lowest as int, highest as int) == Some(v as int),
            None => parse_within(text@, lowest as int, highest as int) is None,
        },
{
    let n = text.unicode_len();
    if n == 0 {
        return None;
    }
    let sign = text.get_char(0);
    let negative = sign == '-';
    let start: usize = if sign == '-' || sign == '+' {
        1
    } else {
        0
    };
    if start == n {
        return None;
    }
    let ghost digits = text@.subrange(start as int, n as int);
    proof {
        if start == 1 {
            assert(digits =~= text@.drop_first());
        } else {
            assert(digits =~= text@);
        }
    }
    // The number read so far, as long as it is within the limit; `over` once it is not.
    let mut acc: i128 = 0;
    let mut over = false;
    let mut k: usize = start;
    while k < n
        invariant
            start <= k <= n,
            start < n,
            n == text@.len(),
            digits == text@.subrange(start as int, n as int),
            start == 1 ==> digits == text@.drop_first() && (text@[0] == '-' || text@[0] == '+'),
            start == 0 ==> digits == text@ && text@[0] != '-' && text@[0] != '+',
            start == 0 || start == 1,
            negative == (text@[0] == '-'),
            0 <= acc <= LIMIT,
            k > start ==> number_of(digits.take(k - start)) is Some,
            k > start && !over ==> number_of(digits.take(k - start)) == Some(acc as nat),
            k > start && over ==> number_of(digits.take(k - start))->Some_0 > LIMIT,
            k == start ==> acc == 0 && !over,
        decreases n - k,
    {
        let d = match digit_of(text.get_char(k)) {
            Some(d) => d,
            None => {
                proof {
                    assert(digits[k - start] == text@[k as int]);
                    lemma_not_a_number(digits, k - start);
                }
                return None;
            },
        };
        proof {
            let taken = digits.take(k - start + 1);
            assert(taken.drop_last() =~= digits.take(k - start));
            assert(taken.last() == text@[k as int]);
        }
        if !over {
            acc = acc * 10 + d;
            if acc > LIMIT {
                over = true;
                acc = 0;
            }
        }
        k = k + 1;
    }
    proof {
        assert(digits.take(n - start) =~= digits);
    }
    if over {
        None
    } else {
        let v = if negative {
            -acc
        } else {
            acc
        };
        if lowest <= v && v <= highest {
            Some(v)
        } else {
            None
        }
    }
}

/// Reads a 32-bit integer from its decimal form.
pub fn decode_i32(text: &str) -> (value: Option<i32>)
    ensures
        value == parse_i32(text@),
{
    match decode_within(text, i32::MIN as i128, i32::MAX as i128) {
        Some(v) => Some(v as i32),
        None => None,
    }
}

/// Reads a 64-bit integer from its decimal form.
pub fn decode_i64(text: &str) -> (value: Option<i64>)
    ensures
        value == parse_i64(text@),
{
    match decode_within(text, i64::MIN as i128, i64::MAX as i128) {
        Some(v) => Some(v as i64),
        None => None,
    }
}

/// Reads an unsigned 64-bit integer from its decimal form.
pub fn decode_u64(text: &str) -> (value: Option<u64>)
    ensures
        value == parse_u64(text@),
{
    match decode_within(text, 0, u64::MAX as i128) {
        Some(v) => Some(v as u64),
        None => None,
    }
}

/// A run with a character that is no digit writes no number.
pub proof fn lemma_not_a_number(digits: Seq<char>, k: int)
    requires
        0 <= k < digits.len(),
        digit_value(digits[k]) is None,
    ensures
        number_of(digits) is None,
    decreases digits.len(),
{
    if digits.len() > 1 && k < digits.len() - 1 {
        assert(digits.drop_last()[k] == digits[k]);
        lemma_not_a_number(digits.drop_last(), k);
    }
}

/// The text of a decimal digit.
fn digit_text(d: u8) -> (text: &'static str)
    requires
        d < 10,
    ensures
        text@ == seq![digit_char(d as int)],
{
    proof {
        reveal_strlit("0");
        reveal_strlit("1");
        reveal_strlit("2");
        reveal_strlit("3");
        reveal_strlit("4");
        reveal_strlit("5");
        reveal_strlit("6");
        reveal_strlit("7");
        reveal_strlit("8");
        reveal_strlit("9");
    }
    let text = if d == 0 {
        "0"
    } else if d == 1 {
        "1"
    } else if d == 2 {
        "2"
    } else if d == 3 {
        "3"
    } else if d == 4 {
        "4"
    } else if d == 5 {
        "5"
    } else if d == 6 {
        "6"
    } else if d == 7 {
        "7"
    } else if d == 8 {
        "8"
    } else {
        "9"
    };
    assert(text@ =~= seq![digit_char(d as int)]);
    text
}

/// The digits of a number from the one at place `from` on, where the last digit
/// is at place 0.
pub open spec fn digits_from(low_first: Seq<u8>, from: int) -> Seq<char>
    decreases from + 1,
{
    if from < 0 {
        Seq::empty()
    } else {
        seq![digit_char(low_first[from] as int)] + digits_from(low_first, from - 1)
    }
}

/// Writes an integer in decimal.
pub(crate) fn encode_int(value: i128) -> (text: String)
    requires
        -LIMIT <= value <= LIMIT,
    ensures
        text@ == decimal(value as int),
{
    let negative = value < 0;
    let magnitude: i128 = if negative {
        -value
    } else {
        value
    };
    // The digits, the last one first.
    let mut low_first: Vec<u8> = Vec::new();
    let mut rest: i128 = magnitude;
    low_first.push((rest % 10) as u8);
    rest = rest / 10;
    proof {
        assert(digits_from(low_first@, 0) =~= seq![digit_char((magnitude % 10) as int)]) by {
            assert(digits_from(low_first@, -1) =~= Seq::<char>::empty());
        }
    }
    while rest > 0
        invariant
            0 <= rest <= magnitude,
            low_first.len() > 0,
            forall|j: int| 0 <= j < low_first.len() ==> low_first[j] < 10,
            rest > 0 ==> digits_of(magnitude as nat) == digits_of(rest as nat) + digits_from(
                low_first@,
                low_first.len() - 1,
            ),
            rest == 0 ==> digits_of(magnitude as nat) == digits_from(
                low_first@,
                low_first.len() - 1,
            ),
        decreases rest,
    {
        let ghost before = low_first@;
        let ghost written = digits_from(before, before.len() - 1);
        low_first.push((rest % 10) as u8);
        proof {
            lemma_digits_from_push(before, (rest % 10) as u8);
            let digit = seq![digit_char((rest % 10) as int)];
            if rest >= 10 {
                assert(digits_of(rest as nat) == digits_of((rest / 10) as nat).push(
                    digit_char((rest % 10) as int),
                ));
                assert(digits_of(rest as nat) + written =~= digits_of((rest / 10) as nat) + (digit
                    + written));
            } else {
                assert(digits_of(rest as nat) + written =~= digit + written);
            }
        }
        rest = rest / 10;
    }
    let mut text = String::new();
    if negative {
        proof {
            reveal_strlit("-");
        }
        text.append("-");
    }
    let ghost sign = text@;
    proof {
        assert(sign =~= if negative {
            seq!['-']
        } else {
            Seq::<char>::empty()
        });
    }
    let n = low_first.len();
    let mut k: usize = n;
    proof {
        assert(text@ + digits_from(low_first@, n - 1) =~= sign + digits_from(low_first@, n - 1));
    }
    while k > 0
        invariant
            k <= n,
            n == low_first.len(),
            forall|j: int| 0 <= j < low_first.len() ==> low_first[j] < 10,
            text@ + digits_from(low_first@, k - 1) == sign + digits_from(low_first@, n - 1),
        decreases k,
    {
        k = k - 1;
        let ghost before = text@;
        text.append(digit_text(low_first[k]));
        proof {
            assert(digits_from(low_first@, k as int) =~= seq![digit_char(low_first[k as int] as int)]
                + digits_from(low_first@, k - 1));
            assert(text@ + digits_from(low_first@, k - 1) =~= before + digits_from(
                low_first@,
                k as int,
            ));
        }
    }
    proof {
        assert(digits_from(low_first@, -1) =~= Seq::<char>::empty());
        assert(text@ =~= sign + digits_from(low_first@, n - 1));
        assert(text@ =~= decimal(value as int));
    }
    text
}

/// Writes a 32-bit integer in decimal.
pub fn encode_i32(value: i32) -> (text: String)
    ensures
        text@ == decimal(value as int),
{
    encode_int(value as i128)
}

/// Writes a 64-bit integer in decimal.
pub fn encode_i64(value: i64) -> (text: String)
    ensures
        text@ == decimal(value as int),
{
    encode_int(value as i128)
}

/// Writes an unsigned 64-bit integer in decimal.
pub fn encode_u64(value: u64) -> (text: String)
    ensures
        text@ == decimal(value as int),
{
    encode_int(value as i128)
}

/// One more digit at the high end goes in front of those written before.
pub proof fn lemma_digits_from_push(low_first: Seq<u8>, d: u8)
    ensures
        digits_from(low_first.push(d), low_first.len() as int) == seq![digit_char(d as int)]
            + digits_from(low_first, low_first.len() - 1),
{
    lemma_digits_from_same(low_first, low_first.push(d), low_first.len() - 1);
}

/// The digits from a place on depend on the places up to it alone.
pub proof fn lemma_digits_from_same(a: Seq<u8>, b: Seq<u8>, from: int)
    requires
        from < a.len(),
        from < b.len(),
        forall|j: int| 0 <= j <= from ==> a[j] == b[j],
    ensures
        digits_from(a, from) == digits_from(b, from),
    decreases from + 1,
{
    if from >= 0 {
        lemma_digits_from_same(a, b, from - 1);
    }
}

/// A scalar that the cursor store can keep: it has a string form, and a text
/// either writes one such scalar or none.
pub trait Scalar: View + Sized {
    /// The string form of a value.
    spec fn encoded(value: Self::V) -> Seq<char>;

    /// The value that a text writes, if it writes one.
    spec fn decoded(text: Seq<char>) -> Option<Self::V>;

    /// Reading the string form of a value gives the value back.
    proof fn round_trip(value: Self::V)
        ensures
            Self::decoded(Self::encoded(value)) == Some(value),
    ;

    fn encode(&self) -> (text: String)
        ensures
            text@ == Self::encoded(self@),
    ;

    fn decode(text: &str) -> (value: Option<Self>)
        ensures
            match value {
                Some(v) => Self::decoded(text@) == Some(v@),
                None => Self::decoded(text@) is None,
            },
    ;
}

impl Scalar for i32 {
    open spec fn encoded(value: i32) -> Seq<char> {
        decimal(value as int)
    }

    open spec fn decoded(text: Seq<char>) -> Option<i32> {
        parse_i32(text)
    }

    proof fn round_trip(value: i32) {
        law_decimal_round_trip(value as int);
    }

    fn encode(&self) -> (text: String) {
        encode_i32(*self)
    }

    fn decode(text: &str) -> (value: Option<i32>) {
        decode_i32(text)
    }
}

impl Scalar for i64 {
    open spec fn encoded(value: i64) -> Seq<char> {
        decimal(value as int)
    }

    open spec fn decoded(text: Seq<char>) -> Option<i64> {
        parse_i64(text)
    }

    proof fn round_trip(value: i64) {
        law_decimal_round_trip(value as int);
    }

    fn encode(&self) -> (text: String) {
        encode_i64(*self)
    }

    fn decode(text: &str) -> (value: Option<i64>) {
        decode_i64(text)
    }
}

impl Scalar for u64 {
    open spec fn encoded(value: u64) -> Seq<char> {
        decimal(value as int)
    }

    open spec fn decoded(text: Seq<char>) -> Option<u64> {
        parse_u64(text)
    }

    proof fn round_trip(value: u64) {
        law_decimal_round_trip(value as int);
    }

    fn encode(&self) -> (text: String) {
        encode_u64(*self)
    }

    fn decode(text: &str) -> (value: Option<u64>) {
        decode_u64(text)
    }
}

impl Scalar for String {
    open spec fn encoded(value: Seq<char>) -> Seq<char> {
        value
    }

    open spec fn decoded(text: Seq<char>) -> Option<Seq<char>> {
        Some(text)
    }

    proof fn round_trip(value: Seq<char>) {
    }

    fn encode(&self) -> (text: String) {
        self.clone()
    }

    fn decode(text: &str) -> (value: Option<String>) {
        Some(text.to_owned())
    }
}

} // verus!
