//! Text building blocks: characters, decimal numbers and order.
use vstd::arithmetic::power::{lemma_pow_positive, pow};
use vstd::prelude::*;

verus! {

/// Trusted: `String::push` appends the given character to the end of the string.
pub assume_specification[ String::push ](s: &mut String, c: char)
    ensures
        final(s)@ == old(s)@.push(c),
;

/// The characters of `s`, in order.
pub fn chars_of(s: &str) -> (r: Vec<char>)
    ensures
        r@ == s@,
{
    let mut out: Vec<char> = Vec::new();
    for c in it: s.chars()
        invariant
            it.seq() == s@,
            out@ == s@.take(it.index() as int),
    {
        out.push(c);
    }
    out
}

/// The string that holds the characters `chars[from..to]`.
pub fn string_of(chars: &Vec<char>, from: usize, to: usize) -> (r: String)
    requires
        from <= to <= chars@.len(),
    ensures
        r@ == chars@.subrange(from as int, to as int),
{
    let mut out: String = String::new();
    let mut i: usize = from;
    while i < to
        invariant
            from <= i <= to <= chars@.len(),
            out@ == chars@.subrange(from as int, i as int),
        decreases to - i,
    {
        out.push(chars[i]);
        i = i + 1;
    }
    out
}

/// The character that stands for the digit `d`.
pub open spec fn digit(d: nat) -> char {
    (48 + d) as char
}

/// `n` written in base ten, without leading zeros.
pub open spec fn decimal(n: nat) -> Seq<char>
    decreases n,
{
    if n < 10 {
        seq![digit(n)]
    } else {
        decimal(n / 10).push(digit(n % 10))
    }
}

/// `n` written in base ten, with a leading minus sign when it is negative.
pub open spec fn signed_decimal(n: int) -> Seq<char> {
    if n < 0 {
        seq!['-'] + decimal((-n) as nat)
    } else {
        decimal(n as nat)
    }
}

/// Appends `n` in base ten.
pub fn push_decimal(out: &mut String, n: u64)
    ensures
        final(out)@ == old(out)@ + decimal(n as nat),
    decreases n,
{
    if n >= 10 {
        push_decimal(out, n / 10);
    }
    let d: u8 = (n % 10) as u8;
    out.push((48 + d) as char);
}

/// Appends `n` in base ten, signed.
pub fn push_signed_decimal(out: &mut String, n: i64)
    ensures
        final(out)@ == old(out)@ + signed_decimal(n as int),
{
    if n < 0 {
        let magnitude: u64 = (-(n + 1)) as u64 + 1;
        out.push('-');
        push_decimal(out, magnitude);
    } else {
        push_decimal(out, n as u64);
    }
}

/// Whether `a` comes strictly before `b` in lexicographic order by code point, the order that
/// `str` has.
pub open spec fn precedes(a: Seq<char>, b: Seq<char>) -> bool
    decreases a.len(),
{
    if b.len() == 0 {
        false
    } else if a.len() == 0 {
        true
    } else if a[0] != b[0] {
        a[0] < b[0]
    } else {
        precedes(a.drop_first(), b.drop_first())
    }
}

/// Of two texts exactly one comes first, or they are equal.
pub proof fn precedes_is_total(a: Seq<char>, b: Seq<char>)
    ensures
        a == b ==> !precedes(a, b),
        precedes(a, b) ==> !precedes(b, a),
        a == b || precedes(a, b) || precedes(b, a),
    decreases a.len(),
{
    if a.len() > 0 && b.len() > 0 {
        precedes_is_total(a.drop_first(), b.drop_first());
        if a[0] == b[0] && a.drop_first() == b.drop_first() {
            assert(a =~= seq![a[0]] + a.drop_first());
            assert(b =~= seq![b[0]] + b.drop_first());
        }
    } else if a.len() == 0 && b.len() == 0 {
        assert(a =~= b);
    }
}

/// The order is transitive.
pub proof fn precedes_is_transitive(a: Seq<char>, b: Seq<char>, c: Seq<char>)
    requires
        precedes(a, b),
        precedes(b, c),
    ensures
        precedes(a, c),
    decreases a.len(),
{
    if a.len() > 0 && a[0] == b[0] && b[0] == c[0] {
        precedes_is_transitive(a.drop_first(), b.drop_first(), c.drop_first());
    }
}

/// Where two texts stand to each other in the order.
#[derive(Clone, Copy, PartialEq, Eq, Structural, Debug)]
pub enum Place {
    Before,
    Same,
    After,
}

/// Tells how `a` stands to `b`.
pub fn place(a: &str, b: &str) -> (r: Place)
    ensures
        r == Place::Before <==> precedes(a@, b@),
        r == Place::Same <==> a@ == b@,
        r == Place::After <==> precedes(b@, a@),
{
    let x: Vec<char> = chars_of(a);
    let y: Vec<char> = chars_of(b);
    let mut i: usize = 0;
    proof {
        precedes_is_total(a@, b@);
        assert(a@.skip(0) =~= a@);
        assert(b@.skip(0) =~= b@);
    }
    while i < x.len() && i < y.len() && x[i] == y[i]
        invariant
            x@ == a@,
            y@ == b@,
            i <= x@.len(),
            i <= y@.len(),
            a@.take(i as int) == b@.take(i as int),
            precedes(a@, b@) == precedes(a@.skip(i as int), b@.skip(i as int)),
            precedes(b@, a@) == precedes(b@.skip(i as int), a@.skip(i as int)),
        decreases x@.len() - i,
    {
        proof {
            assert(a@.skip(i as int).drop_first() =~= a@.skip(i + 1));
            assert(b@.skip(i as int).drop_first() =~= b@.skip(i + 1));
            assert(a@.take(i + 1) =~= a@.take(i as int).push(a@[i as int]));
            assert(b@.take(i + 1) =~= b@.take(i as int).push(b@[i as int]));
        }
        i = i + 1;
    }
    if i == x.len() {
        if i == y.len() {
            proof {
                assert(a@ =~= a@.take(i as int));
                assert(b@ =~= b@.take(i as int));
            }
            Place::Same
        } else {
            Place::Before
        }
    } else if i == y.len() {
        Place::After
    } else if x[i] < y[i] {
        Place::Before
    } else {
        Place::After
    }
}

/// The number that a row of digits stands for: each digit counts by its place.
pub open spec fn value_of(digits: Seq<char>) -> int
    decreases digits.len(),
{
    if digits.len() == 0 {
        0
    } else {
        (digits[0] as int - 48) * pow(10, (digits.len() - 1) as nat) + value_of(digits.drop_first())
    }
}

/// Whether a text holds nothing but the digits from 0 to 9.
pub open spec fn all_digits(s: Seq<char>) -> bool {
    forall|i: int| 0 <= i < s.len() ==> '0' <= #[trigger] s[i] <= '9'
}

/// Whether a text is the decimal numeral of a number: digits that stand for it, at least one, and
/// no leading zero but that of zero itself.
pub open spec fn is_numeral(s: Seq<char>, n: nat) -> bool {
    &&& s.len() > 0
    &&& all_digits(s)
    &&& s.len() > 1 ==> s[0] != '0'
    &&& value_of(s) == n
}

/// A digit added at the end makes all others count ten times as much.
pub proof fn a_digit_more_counts_tenfold(digits: Seq<char>, c: char)
    ensures
        value_of(digits.push(c)) == 10 * value_of(digits) + (c as int - 48),
    decreases digits.len(),
{
    reveal(pow);
    let longer = digits.push(c);
    if digits.len() == 0 {
        assert(longer.drop_first() =~= Seq::empty());
        assert(pow(10, 0) == 1);
        assert(value_of(longer.drop_first()) == 0);
    } else {
        let rest = digits.drop_first();
        a_digit_more_counts_tenfold(rest, c);
        assert(longer.drop_first() =~= rest.push(c));
        let (d, p) = (digits[0] as int - 48, pow(10, (digits.len() - 1) as nat));
        assert(pow(10, digits.len()) == 10 * p);
        assert(d * (10 * p) == 10 * (d * p)) by (nonlinear_arith);
    }
}

/// Digits stand for no negative number, and for none below 1 where the first is not zero.
proof fn lemma_value_bounds(digits: Seq<char>)
    requires
        all_digits(digits),
    ensures
        value_of(digits) >= 0,
        digits.len() > 0 && digits[0] != '0' ==> value_of(digits) >= 1,
    decreases digits.len(),
{
    if digits.len() > 0 {
        let rest = digits.drop_first();
        assert forall|i: int| 0 <= i < rest.len() implies '0' <= #[trigger] rest[i] <= '9' by {
            assert(rest[i] == digits[i + 1]);
        }
        lemma_value_bounds(rest);
        lemma_pow_positive(10, (digits.len() - 1) as nat);
        let (d, p) = (digits[0] as int - 48, pow(10, (digits.len() - 1) as nat));
        assert('0' <= digits[0] <= '9');
        assert(d * p >= 0 && (d >= 1 ==> d * p >= 1)) by (nonlinear_arith)
            requires
                d >= 0,
                p > 0,
        ;
    }
}

/// A number is written as its decimal numeral.
pub proof fn numbers_are_written_as_numerals(n: nat)
    ensures
        is_numeral(decimal(n), n),
        n > 0 ==> decimal(n)[0] != '0',
    decreases n,
{
    if n < 10 {
        let c = digit(n);
        assert(decimal(n) =~= Seq::empty().push(c));
        a_digit_more_counts_tenfold(Seq::empty(), c);
    } else {
        numbers_are_written_as_numerals(n / 10);
        a_digit_more_counts_tenfold(decimal(n / 10), digit(n % 10));
    }
}

/// A number has one numeral only: what is a numeral of it is what it is written as.
pub proof fn a_number_has_one_numeral(s: Seq<char>, n: nat)
    requires
        is_numeral(s, n),
    ensures
        s == decimal(n),
    decreases s.len(),
{
    let (rest, c) = (s.drop_last(), s.last());
    assert(s =~= rest.push(c));
    a_digit_more_counts_tenfold(rest, c);
    assert('0' <= s[s.len() - 1] <= '9');
    assert forall|i: int| 0 <= i < rest.len() implies '0' <= #[trigger] rest[i] <= '9' by {
        assert(rest[i] == s[i]);
    }
    if s.len() == 1 {
        assert(rest =~= Seq::empty());
        assert(s =~= seq![digit(n)]);
    } else {
        lemma_value_bounds(rest);
        assert(rest[0] == s[0]);
        a_number_has_one_numeral(rest, value_of(rest) as nat);
    }
}

/// Whether a text is the decimal numeral of an integer: that of its size, with a minus sign before it
/// where the integer is negative.
pub open spec fn is_signed_numeral(s: Seq<char>, n: int) -> bool {
    if n < 0 {
        s.len() > 0 && s[0] == '-' && is_numeral(s.drop_first(), (-n) as nat)
    } else {
        is_numeral(s, n as nat)
    }
}

/// An integer is written as its decimal numeral.
pub proof fn signs_are_written(n: int)
    ensures
        is_signed_numeral(signed_decimal(n), n),
{
    if n < 0 {
        numbers_are_written_as_numerals((-n) as nat);
        assert(signed_decimal(n).drop_first() =~= decimal((-n) as nat));
    } else {
        numbers_are_written_as_numerals(n as nat);
    }
}

/// The first difference of two texts decides which comes first; where one goes on after the other
/// has ended, it is the longer one that comes later.
pub proof fn the_first_difference_decides(a: Seq<char>, b: Seq<char>, at: int)
    requires
        0 <= at <= a.len(),
        at <= b.len(),
        forall|i: int| 0 <= i < at ==> a[i] == b[i],
        at < a.len() && at < b.len() ==> a[at] != b[at],
    ensures
        precedes(a, b) <==> at < b.len() && (at == a.len() || (a[at] as int) < (b[at] as int)),
    decreases at,
{
    if at > 0 {
        let (x, y) = (a.drop_first(), b.drop_first());
        assert(a[0] == b[0]);
        assert forall|i: int| 0 <= i < at - 1 implies x[i] == y[i] by {
            assert(a[i + 1] == b[i + 1]);
        }
        the_first_difference_decides(x, y, at - 1);
    }
}

} // verus!
