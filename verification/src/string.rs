use vstd::prelude::*;

verus! {

/// Extra capacity-filling behaviour on `String`.
pub trait StringExt: View<V = Seq<char>> {
    /// Pushes copies of `c` until the string's byte length reaches its
    /// allocated capacity. How many copies that takes depends on the
    /// capacity the allocator granted, so only the shape of the result is
    /// promised: the old contents, extended by some run of `c`.
    fn fill_to_capacity(&mut self, c: char)
        ensures
            old(self)@.len() <= final(self)@.len(),
            forall|i: int| 0 <= i < old(self)@.len() ==> final(self)@[i] == old(self)@[i],
            forall|i: int|
                old(self)@.len() <= i < final(self)@.len() ==> final(self)@[i] == c,
    ;
}

/// Relies on String::capacity: the allocated capacity in bytes. The value
/// depends on what the allocator granted, so nothing is promised of it.
#[verifier::external_body]
fn string_capacity(s: &String) -> usize {
    s.capacity()
}

/// Relies on String::push: appends the given character to the end of the
/// string.
#[verifier::external_body]
fn push_char(s: &mut String, c: char)
    ensures
        final(s)@ == old(s)@.push(c),
{
    s.push(c);
}

/// Relies on String::from_iter over the characters of the vector: the
/// resulting string holds exactly those characters, in order.
#[verifier::external_body]
pub(crate) fn chars_to_string(v: &Vec<char>) -> (r: String)
    ensures
        r@ == v@,
{
    v.iter().collect()
}

impl StringExt for String {
    fn fill_to_capacity(&mut self, c: char) {
        let cap = string_capacity(self);
        let len = self.as_str().len();
        let n = if cap > len {
            cap - len
        } else {
            0
        };
        let mut i: usize = 0;
        while i < n
            invariant
                old(self)@.len() <= self@.len(),
                forall|k: int| 0 <= k < old(self)@.len() ==> self@[k] == old(self)@[k],
                forall|k: int| old(self)@.len() <= k < self@.len() ==> self@[k] == c,
            decreases n - i,
        {
            push_char(self, c);
            i = i + 1;
        }
    }
}

/// A run of `n` blank cells (empty when `n` is negative).
pub open spec fn spaces(n: int) -> Seq<char> {
    Seq::new(
        if n >= 0 {
            n as nat
        } else {
            0
        },
        |i: int| ' ',
    )
}

/// A run of `n` zero digits (empty when `n` is negative): the pad in front
/// of a right-aligned line number.
pub open spec fn zero_pad(n: int) -> Seq<char> {
    Seq::new(
        if n >= 0 {
            n as nat
        } else {
            0
        },
        |i: int| '0',
    )
}

/// Number of decimal digits needed to write `n`; zero for `n == 0`.
pub open spec fn decimal_digits(n: nat) -> nat
    decreases n,
{
    if n == 0 {
        0
    } else {
        (1 + decimal_digits(n / 10)) as nat
    }
}

/// The decimal rendering of `n`, most significant digit first; `0` renders
/// as the single digit `'0'`.
pub open spec fn spec_decimal(n: nat) -> Seq<char>
    decreases n,
{
    if n < 10 {
        seq![digit_char(n as int)]
    } else {
        spec_decimal(n / 10).push(digit_char((n % 10) as int))
    }
}

/// The digit character for a value in `0 .. 10`.
pub open spec fn digit_char(d: int) -> char {
    if d == 0 {
        '0'
    } else if d == 1 {
        '1'
    } else if d == 2 {
        '2'
    } else if d == 3 {
        '3'
    } else if d == 4 {
        '4'
    } else if d == 5 {
        '5'
    } else if d == 6 {
        '6'
    } else if d == 7 {
        '7'
    } else if d == 8 {
        '8'
    } else {
        '9'
    }
}

pub(crate) proof fn lemma_decimal_digits_bound(n: nat)
    ensures
        decimal_digits(n) <= n,
        decimal_digits(n) <= 1 + n / 10,
    decreases n,
{
    if n > 0 {
        lemma_decimal_digits_bound(n / 10);
    }
}

pub(crate) proof fn lemma_decimal_digits_mono(a: nat, b: nat)
    requires
        a <= b,
    ensures
        decimal_digits(a) <= decimal_digits(b),
    decreases b,
{
    if a > 0 {
        lemma_decimal_digits_mono(a / 10, b / 10);
    }
}

/// Any value that fits in 64 bits has at most 20 decimal digits.
pub(crate) proof fn lemma_decimal_digits_small(n: nat)
    requires
        n <= 0xFFFF_FFFF_FFFF_FFFF,
    ensures
        decimal_digits(n) <= 20,
{
    lemma_decimal_digits_mono(n, 0xFFFF_FFFF_FFFF_FFFF);
    assert(decimal_digits(0xFFFF_FFFF_FFFF_FFFF) == 20) by {
        reveal_with_fuel(decimal_digits, 21);
    }
}

/// A positive value renders with exactly `decimal_digits` digits.
pub(crate) proof fn lemma_spec_decimal_len(n: nat)
    requires
        n >= 1,
    ensures
        spec_decimal(n).len() == decimal_digits(n),
    decreases n,
{
    if n >= 10 {
        lemma_spec_decimal_len(n / 10);
    } else {
        assert(n / 10 == 0);
        assert(decimal_digits(n) == 1 + decimal_digits(n / 10));
        assert(decimal_digits(n / 10) == 0);
        assert(spec_decimal(n).len() == 1);
    }
}

/// Renders `n` in decimal, most significant digit first.
pub fn decimal_chars(n: usize) -> (r: Vec<char>)
    ensures
        r@ == spec_decimal(n as nat),
        r@.len() >= 1,
    decreases n,
{
    if n < 10 {
        let d = digit_char_of(n);
        let mut v: Vec<char> = Vec::new();
        v.push(d);
        proof {
            assert(v@ =~= spec_decimal(n as nat));
        }
        v
    } else {
        let mut v = decimal_chars(n / 10);
        let d = digit_char_of(n % 10);
        v.push(d);
        v
    }
}

fn digit_char_of(d: usize) -> (c: char)
    requires
        d < 10,
    ensures
        c == digit_char(d as int),
{
    if d == 0 {
        '0'
    } else if d == 1 {
        '1'
    } else if d == 2 {
        '2'
    } else if d == 3 {
        '3'
    } else if d == 4 {
        '4'
    } else if d == 5 {
        '5'
    } else if d == 6 {
        '6'
    } else if d == 7 {
        '7'
    } else if d == 8 {
        '8'
    } else {
        '9'
    }
}

} // verus!
