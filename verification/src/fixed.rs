//! Fixed-point numbers: a decimal price or quantity held as an integer count
//! of hundred-millionths, and the codec between that count and decimal text.

use vstd::prelude::*;

verus! {

/// The number of fixed-point units in one: ten to the eighth.
pub const SCALE: u64 = 100_000_000;

/// The number of fraction digits that a fixed-point number holds.
pub const FRACTION_DIGITS: usize = 8;

/// The byte of the digit `0`.
pub const ZERO: u8 = 48;

/// The byte of the digit `9`.
pub const NINE: u8 = 57;

/// The byte of the decimal point, `.`.
pub const POINT: u8 = 46;

/// The byte of the sign of a decimal below zero, `-`.
pub const MINUS: u8 = 45;

/// The byte of the sign that a decimal above zero may carry, `+`.
pub const PLUS: u8 = 43;

pub open spec fn is_digit(byte: u8) -> bool {
    ZERO <= byte <= NINE
}

/// Every byte of `text` is a decimal digit.
pub open spec fn all_digits(text: Seq<u8>) -> bool {
    forall|i: int| 0 <= i < text.len() ==> is_digit(#[trigger] text[i])
}

/// The number that a run of digits writes; zero for the empty run.
pub open spec fn number(text: Seq<u8>) -> nat
    decreases text.len(),
{
    if text.len() == 0 {
        0
    } else {
        number(text.drop_last()) * 10 + (text.last() - ZERO) as nat
    }
}

pub open spec fn pow10(exponent: nat) -> nat
    decreases exponent,
{
    if exponent == 0 {
        1
    } else {
        10 * pow10((exponent - 1) as nat)
    }
}

/// `count` zero digits.
pub open spec fn zeros(count: nat) -> Seq<u8> {
    Seq::new(count, |i: int| ZERO)
}

/// The length of the sign that `text` starts with: one for `+` or `-`.
pub open spec fn sign_len(text: Seq<u8>) -> int {
    if text.len() > 0 && (text[0] == PLUS || text[0] == MINUS) {
        1
    } else {
        0
    }
}

pub open spec fn is_negative(text: Seq<u8>) -> bool {
    text.len() > 0 && text[0] == MINUS
}

/// The place of the first point of `text` at or after `from`; the length of
/// `text` where there is none.
pub open spec fn point_at(text: Seq<u8>, from: int) -> int
    decreases text.len() - from,
{
    if from < 0 || from >= text.len() {
        text.len() as int
    } else if text[from] == POINT {
        from
    } else {
        point_at(text, from + 1)
    }
}

/// What stands between the sign and the first point.
pub open spec fn whole_part(text: Seq<u8>) -> Seq<u8> {
    text.subrange(sign_len(text), point_at(text, sign_len(text)))
}

/// What stands after the first point.
pub open spec fn fraction_part(text: Seq<u8>) -> Seq<u8> {
    let point = point_at(text, sign_len(text));
    if point < text.len() {
        text.subrange(point + 1, text.len() as int)
    } else {
        Seq::empty()
    }
}

/// `text` is a decimal: an optional sign, digits, and optionally a point
/// and more digits, with a digit on at least one side of the point.
pub open spec fn is_decimal(text: Seq<u8>) -> bool {
    &&& all_digits(whole_part(text))
    &&& all_digits(fraction_part(text))
    &&& whole_part(text).len() + fraction_part(text).len() > 0
}

/// The first eight digits of a fraction, zeros standing for missing ones.
pub open spec fn eight(fraction: Seq<u8>) -> Seq<u8> {
    if fraction.len() >= 8 {
        fraction.take(8)
    } else {
        fraction + zeros((8 - fraction.len()) as nat)
    }
}

/// The size of a decimal in fixed-point units, whatever its sign: its whole
/// digits and its first eight fraction digits, read as one number. Fraction
/// digits after the eighth do not count.
pub open spec fn magnitude(text: Seq<u8>) -> nat {
    number(whole_part(text) + eight(fraction_part(text)))
}

/// What `text` encodes to: nothing where it is not a decimal; else zero for
/// a negative decimal, the largest fixed-point number for one too large, and
/// its magnitude for every other.
pub open spec fn encoded(text: Seq<u8>) -> Option<u64> {
    if !is_decimal(text) {
        None
    } else if is_negative(text) {
        Some(0)
    } else if magnitude(text) > u64::MAX {
        Some(u64::MAX)
    } else {
        Some(magnitude(text) as u64)
    }
}

/// The digits that write `n`, without leading zeros.
pub open spec fn numeral(n: nat) -> Seq<u8>
    decreases n,
{
    if n < 10 {
        seq![(ZERO + n) as u8]
    } else {
        numeral(n / 10).push((ZERO + n % 10) as u8)
    }
}

/// The last `width` digits of `n`, with leading zeros.
pub open spec fn padded(n: nat, width: nat) -> Seq<u8>
    decreases width,
{
    if width == 0 {
        Seq::empty()
    } else {
        padded(n / 10, (width - 1) as nat).push((ZERO + n % 10) as u8)
    }
}

/// What `value` decodes to: its whole units, a point, and eight fraction
/// digits.
pub open spec fn decoded(value: u64) -> Seq<u8> {
    numeral((value / SCALE) as nat) + seq![POINT] + padded((value % SCALE) as nat, 8)
}

/// A number within the range of a fixed-point number; none beyond it.
pub open spec fn fit(n: nat) -> Option<u64> {
    if n <= u64::MAX {
        Some(n as u64)
    } else {
        None
    }
}

pub proof fn lemma_scale()
    ensures
        pow10(8) == SCALE,
{
    reveal_with_fuel(pow10, 9);
}

/// Digits written after digits: the first number moves left by as many
/// places as the second has digits.
pub proof fn lemma_number_concat(a: Seq<u8>, b: Seq<u8>)
    ensures
        number(a + b) == number(a) * pow10(b.len()) + number(b),
    decreases b.len(),
{
    if b.len() == 0 {
        assert(number(a) * pow10(b.len()) == number(a)) by (nonlinear_arith)
            requires
                pow10(b.len()) == 1,
        ;
    } else {
        lemma_number_concat(a, b.drop_last());
        assert((a + b).drop_last() =~= a + b.drop_last());
        let x = number(a);
        let p = pow10(b.drop_last().len());
        let y = number(b.drop_last());
        let d = (b.last() - ZERO) as nat;
        assert((x * p + y) * 10 + d == x * pow10(b.len()) + (y * 10 + d)) by (nonlinear_arith)
            requires
                pow10(b.len()) == 10 * p,
        ;
    }
}

pub proof fn lemma_number_zeros(count: nat)
    ensures
        number(zeros(count)) == 0,
    decreases count,
{
    if count > 0 {
        lemma_number_zeros((count - 1) as nat);
        assert(zeros(count).drop_last() =~= zeros((count - 1) as nat));
    }
}

/// The magnitude is the whole part in units of `SCALE`, and the fraction
/// in hundred-millionths: exactly so where the fraction has no more than
/// eight digits.
pub proof fn lemma_magnitude_split(text: Seq<u8>)
    ensures
        eight(fraction_part(text)).len() == 8,
        magnitude(text) == number(whole_part(text)) * SCALE + number(eight(fraction_part(text))),
        fraction_part(text).len() <= 8 ==> number(eight(fraction_part(text))) == number(
            fraction_part(text),
        ) * pow10((8 - fraction_part(text).len()) as nat),
{
    let fraction = fraction_part(text);
    lemma_number_concat(whole_part(text), eight(fraction));
    lemma_scale();
    if fraction.len() <= 8 {
        let missing = (8 - fraction.len()) as nat;
        assert(eight(fraction) =~= fraction + zeros(missing));
        lemma_number_concat(fraction, zeros(missing));
        lemma_number_zeros(missing);
    }
}

/// No point stands between `from` and `upto`, so the first point at or
/// after `from` is the first at or after `upto`.
proof fn lemma_point_skips(text: Seq<u8>, from: int, upto: int)
    requires
        0 <= from <= upto <= text.len(),
        forall|i: int| from <= i < upto ==> text[i] != POINT,
    ensures
        point_at(text, from) == point_at(text, upto),
    decreases upto - from,
{
    if from < upto {
        lemma_point_skips(text, from + 1, upto);
    }
}

/// The first point at or after `from` stands within the text or at its
/// end, and where it stands within, a point is there.
proof fn lemma_point_bounds(text: Seq<u8>, from: int)
    requires
        0 <= from <= text.len(),
    ensures
        from <= point_at(text, from) <= text.len(),
        point_at(text, from) < text.len() ==> text[point_at(text, from)] == POINT,
    decreases text.len() - from,
{
    if from < text.len() && text[from] != POINT {
        lemma_point_bounds(text, from + 1);
    }
}

/// Reads one more digit after the number read so far, which is lost once
/// it is beyond the range of a fixed-point number.
fn shift_in(so_far: Option<u64>, digit: u8, Ghost(read): Ghost<nat>) -> (grown: Option<u64>)
    requires
        is_digit(digit),
        so_far == fit(read),
    ensures
        grown == fit(read * 10 + (digit - ZERO) as nat),
{
    match so_far {
        Some(value) => {
            let units = (digit - ZERO) as u64;
            if value > (u64::MAX - units) / 10 {
                None
            } else {
                Some(value * 10 + units)
            }
        },
        None => None,
    }
}

/// The digits of `text` from `from` up to `upto`, or up to `from + limit`
/// where that comes first.
pub open spec fn leading(text: Seq<u8>, from: int, upto: int, limit: int) -> Seq<u8> {
    text.subrange(
        from,
        if upto - from < limit {
            upto
        } else {
            from + limit
        },
    )
}

/// Reads the run of digits that starts at `from`, after the digits `seen`
/// which `so_far` has read. Only the first `limit` digits of the run count;
/// the run is walked to its end all the same.
fn read_digits(
    text: &[u8],
    from: usize,
    limit: usize,
    so_far: Option<u64>,
    Ghost(seen): Ghost<Seq<u8>>,
) -> (run: (usize, Option<u64>))
    requires
        from <= text@.len(),
        so_far == fit(number(seen)),
    ensures
        from <= run.0 <= text@.len(),
        all_digits(text@.subrange(from as int, run.0 as int)),
        run.0 < text@.len() ==> !is_digit(text@[run.0 as int]),
        run.1 == fit(number(seen + leading(text@, from as int, run.0 as int, limit as int))),
{
    let n = text.len();
    let mut read = so_far;
    let mut i: usize = from;
    while i < n && ZERO <= text[i] && text[i] <= NINE
        invariant
            from <= i <= n,
            n == text@.len(),
            all_digits(text@.subrange(from as int, i as int)),
            read == fit(number(seen + leading(text@, from as int, i as int, limit as int))),
        decreases n - i,
    {
        let ghost before = seen + leading(text@, from as int, i as int, limit as int);
        if i - from < limit {
            proof {
                let after = seen + leading(text@, from as int, i + 1, limit as int);
                assert(after.drop_last() =~= before);
            }
            read = shift_in(read, text[i], Ghost(number(before)));
        } else {
            proof {
                assert(leading(text@, from as int, i + 1, limit as int) =~= leading(
                    text@,
                    from as int,
                    i as int,
                    limit as int,
                ));
            }
        }
        i += 1;
    }
    (i, read)
}

/// Reads `count` zeros after the digits `seen`, which `so_far` has read.
fn read_zeros(count: usize, so_far: Option<u64>, Ghost(seen): Ghost<Seq<u8>>) -> (read: Option<
    u64,
>)
    requires
        so_far == fit(number(seen)),
    ensures
        read == fit(number(seen + zeros(count as nat))),
{
    let mut read = so_far;
    let mut done: usize = 0;
    while done < count
        invariant
            done <= count,
            read == fit(number(seen + zeros(done as nat))),
        decreases count - done,
    {
        let ghost before = seen + zeros(done as nat);
        proof {
            assert((seen + zeros((done + 1) as nat)).drop_last() =~= before);
        }
        read = shift_in(read, ZERO, Ghost(number(before)));
        done += 1;
    }
    read
}

/// Where the digits after the sign run up to `point`, and the text ends
/// there or holds a point there, the whole part is that run and the
/// fraction part is what follows the point.
proof fn lemma_parts(text: Seq<u8>, point: int)
    requires
        sign_len(text) <= point <= text.len(),
        all_digits(text.subrange(sign_len(text), point)),
        point < text.len() ==> text[point] == POINT,
    ensures
        whole_part(text) == text.subrange(sign_len(text), point),
        fraction_part(text) == if point < text.len() {
            text.subrange(point + 1, text.len() as int)
        } else {
            Seq::empty()
        },
{
    let start = sign_len(text);
    assert forall|k: int| start <= k < point implies text[k] != POINT by {
        assert(is_digit(text.subrange(start, point)[k - start]));
    }
    lemma_point_skips(text, start, point);
}

/// Where the digits after the sign run up to a byte that is neither a
/// digit nor a point, the text is no decimal.
proof fn lemma_stray_byte(text: Seq<u8>, at: int)
    requires
        sign_len(text) <= at < text.len(),
        all_digits(text.subrange(sign_len(text), at)),
        !is_digit(text[at]),
        text[at] != POINT,
    ensures
        !is_decimal(text),
{
    let start = sign_len(text);
    assert forall|k: int| start <= k < at implies text[k] != POINT by {
        assert(is_digit(text.subrange(start, at)[k - start]));
    }
    lemma_point_skips(text, start, at);
    lemma_point_bounds(text, at + 1);
    assert(whole_part(text)[at - start] == text[at]);
}

/// Encodes decimal text as a fixed-point number.
///
/// The text is an optional sign, digits, and optionally a point and more
/// digits, with at least one digit in all; anything else encodes to
/// nothing. Fraction digits after the eighth are dropped. A negative
/// decimal encodes to zero and one too large to the largest number.
pub fn encode(text: &[u8]) -> (value: Option<u64>)
    ensures
        value == encoded(text@),
{
    let n = text.len();
    let start: usize = if n > 0 && (text[0] == PLUS || text[0] == MINUS) {
        1
    } else {
        0
    };
    let negative = n > 0 && text[0] == MINUS;
    let (point, whole_read) = read_digits(text, start, n, Some(0), Ghost(Seq::empty()));
    let ghost whole = text@.subrange(start as int, point as int);
    proof {
        assert(Seq::<u8>::empty() + leading(text@, start as int, point as int, n as int)
            =~= whole);
    }
    if point == n {
        proof {
            lemma_parts(text@, point as int);
        }
        if point == start {
            return None;
        }
        let read = read_zeros(FRACTION_DIGITS, whole_read, Ghost(whole));
        return finish(negative, read);
    }
    if text[point] != POINT {
        proof {
            lemma_stray_byte(text@, point as int);
        }
        return None;
    }
    let (end, read) = read_digits(text, point + 1, FRACTION_DIGITS, whole_read, Ghost(whole));
    proof {
        lemma_parts(text@, point as int);
    }
    if end < n {
        proof {
            assert(fraction_part(text@)[end - point - 1] == text@[end as int]);
        }
        return None;
    }
    if point == start && end == point + 1 {
        return None;
    }
    let ghost fraction = fraction_part(text@);
    let fraction_len = end - point - 1;
    if fraction_len >= FRACTION_DIGITS {
        proof {
            assert(leading(text@, point + 1, end as int, 8) =~= eight(fraction));
        }
        finish(negative, read)
    } else {
        proof {
            assert((whole + fraction) + zeros((8 - fraction_len) as nat) =~= whole + eight(
                fraction,
            ));
        }
        let read = read_zeros(FRACTION_DIGITS - fraction_len, read, Ghost(whole + fraction));
        finish(negative, read)
    }
}

/// What a decimal of the given sign encodes to, once its magnitude is read.
fn finish(negative: bool, read: Option<u64>) -> (value: Option<u64>)
    ensures
        value == Some(
            if negative {
                0
            } else {
                match read {
                    Some(magnitude) => magnitude,
                    None => u64::MAX,
                }
            },
        ),
{
    if negative {
        Some(0)
    } else {
        match read {
            Some(magnitude) => Some(magnitude),
            None => Some(u64::MAX),
        }
    }
}

/// Appends the digits that write `n`.
fn push_numeral(out: &mut Vec<u8>, n: u64)
    ensures
        final(out)@ == old(out)@ + numeral(n as nat),
    decreases n,
{
    if n >= 10 {
        push_numeral(out, n / 10);
    }
    out.push(ZERO + (n % 10) as u8);
}

/// Appends the last `width` digits of `n`.
fn push_padded(out: &mut Vec<u8>, n: u64, width: usize)
    ensures
        final(out)@ == old(out)@ + padded(n as nat, width as nat),
    decreases width,
{
    if width > 0 {
        push_padded(out, n / 10, width - 1);
        out.push(ZERO + (n % 10) as u8);
    }
}

/// Decodes a fixed-point number to decimal text: the whole units, a point,
/// and all eight fraction digits. The text encodes to the number again.
pub fn decode(value: u64) -> (text: Vec<u8>)
    ensures
        text@ == decoded(value),
        encoded(text@) == Some(value),
{
    let mut text: Vec<u8> = Vec::new();
    push_numeral(&mut text, value / SCALE);
    text.push(POINT);
    push_padded(&mut text, value % SCALE, FRACTION_DIGITS);
    proof {
        lemma_decode_then_encode(value);
    }
    text
}

/// A numeral is a run of at least one digit, and writes its number.
pub proof fn lemma_numeral(n: nat)
    ensures
        numeral(n).len() > 0,
        all_digits(numeral(n)),
        number(numeral(n)) == n,
    decreases n,
{
    if n >= 10 {
        lemma_numeral(n / 10);
        assert(numeral(n).drop_last() =~= numeral(n / 10));
    } else {
        assert(number(numeral(n).drop_last()) == 0);
    }
}

/// A padded numeral is a run of `width` digits, and writes its number
/// where `width` digits are enough for it.
pub proof fn lemma_padded(n: nat, width: nat)
    requires
        n < pow10(width),
    ensures
        padded(n, width).len() == width,
        all_digits(padded(n, width)),
        number(padded(n, width)) == n,
    decreases width,
{
    if width > 0 {
        lemma_padded(n / 10, (width - 1) as nat);
        assert(padded(n, width).drop_last() =~= padded(n / 10, (width - 1) as nat));
    }
}

/// Encoding what a number decodes to gives the number back.
pub proof fn lemma_decode_then_encode(value: u64)
    ensures
        is_decimal(decoded(value)),
        !is_negative(decoded(value)),
        fraction_part(decoded(value)).len() == 8,
        magnitude(decoded(value)) == value,
        encoded(decoded(value)) == Some(value),
{
    let units = (value / SCALE) as nat;
    let rest = (value % SCALE) as nat;
    let text = decoded(value);
    let whole = numeral(units);
    let fraction = padded(rest, 8);
    lemma_scale();
    lemma_numeral(units);
    lemma_padded(rest, 8);
    assert(text.subrange(0, whole.len() as int) =~= whole);
    lemma_parts(text, whole.len() as int);
    assert(text.subrange(whole.len() as int + 1, text.len() as int) =~= fraction);
    assert(eight(fraction) =~= fraction);
    lemma_number_concat(whole, fraction);
    assert(units * SCALE + rest == value) by (nonlinear_arith)
        requires
            units == value / SCALE,
            rest == value % SCALE,
    ;
}

/// The round trip of a decimal: text that writes a decimal which a
/// fixed-point number can hold, without sign or with `+`, with no more
/// than eight fraction digits and not beyond the largest number, encodes
/// to a number that decodes to text for the same decimal.
pub proof fn lemma_round_trip(text: Seq<u8>)
    requires
        is_decimal(text),
        !is_negative(text),
        fraction_part(text).len() <= 8,
        magnitude(text) <= u64::MAX,
    ensures
        encoded(text) is Some,
        is_decimal(decoded(encoded(text)->0)),
        !is_negative(decoded(encoded(text)->0)),
        magnitude(decoded(encoded(text)->0)) == magnitude(text),
        encoded(decoded(encoded(text)->0)) == encoded(text),
{
    lemma_decode_then_encode(encoded(text)->0);
}

} // verus!
