//! Text: how the elements of a heap are written out.

use vstd::prelude::*;
use vstd::string::StringExecFns;

verus! {

/// `String::push` of the standard library: the string afterwards is the
/// string before with `c` as one more character at its end.
pub assume_specification[ String::push ](s: &mut String, c: char)
    ensures
        final(s)@ == old(s)@.push(c),
;

/// `count` times the character `c`.
pub open spec fn repeated(c: char, count: nat) -> Seq<char> {
    Seq::new(count, |i: int| c)
}

/// `count` spaces.
pub open spec fn spaces(count: nat) -> Seq<char> {
    repeated(' ', count)
}

/// `times` times the text `unit`, one after the other.
pub open spec fn repeated_text(unit: Seq<char>, times: nat) -> Seq<char>
    decreases times,
{
    if times == 0 {
        Seq::<char>::empty()
    } else {
        repeated_text(unit, (times - 1) as nat) + unit
    }
}

/// The character of the decimal digit `d`.
pub open spec fn digit(d: nat) -> char
    recommends
        d < 10,
{
    ((48 + d) as u8) as char
}

/// The decimal numeral of `n`: its digits from the highest to the lowest,
/// without leading zeros; `0` is written with one digit.
pub open spec fn decimal(n: nat) -> Seq<char>
    decreases n,
{
    if n < 10 {
        seq![digit(n)]
    } else {
        decimal(n / 10).push(digit(n % 10))
    }
}

/// The decimal numeral of the integer `n`: for a negative one the minus sign
/// and then the numeral of its magnitude.
pub open spec fn signed_decimal(n: int) -> Seq<char> {
    if n < 0 {
        seq!['-'] + decimal((-n) as nat)
    } else {
        decimal(n as nat)
    }
}

/// The texts of the elements of `s` in their order, with a comma and a space
/// between one and the next.
pub open spec fn items_text<T: Printable>(s: Seq<T>) -> Seq<char>
    decreases s.len(),
{
    if s.len() == 0 {
        Seq::<char>::empty()
    } else if s.len() == 1 {
        s[0].text()
    } else {
        items_text(s.drop_last()) + seq![',', ' '] + s.last().text()
    }
}

/// The elements of `s` as a list: their texts in their order, in square
/// brackets and with a comma and a space between them.
pub open spec fn list_text<T: Printable>(s: Seq<T>) -> Seq<char> {
    seq!['['] + items_text(s) + seq![']']
}

/// A block of spaces, repeated, is one block of spaces.
pub proof fn lemma_repeated_spaces(width: nat, times: nat)
    ensures
        repeated_text(spaces(width), times) == spaces(width * times),
    decreases times,
{
    if times == 0 {
        assert(width * times == 0);
        assert(repeated_text(spaces(width), times) =~= spaces(0));
    } else {
        lemma_repeated_spaces(width, (times - 1) as nat);
        assert(width * times == width * (times - 1) + width) by (nonlinear_arith)
            requires
                times >= 1,
        ;
        assert(repeated_text(spaces(width), times) =~= spaces(width * times));
    }
}

/// A numeral has at least one digit, and a number has no more digits than a
/// greater one.
pub proof fn lemma_decimal_len_grows(a: nat, b: nat)
    requires
        a <= b,
    ensures
        1 <= decimal(a).len() <= decimal(b).len(),
    decreases b,
{
    if b >= 10 {
        if a >= 10 {
            lemma_decimal_len_grows(a / 10, b / 10);
        } else {
            lemma_decimal_len_grows(0, b / 10);
        }
    }
}

/// A value that can be written out as text.
pub trait Printable {
    /// The characters that the value is written with.
    spec fn text(&self) -> Seq<char>;

    /// Writes the value out.
    fn to_text(&self) -> (s: String)
        ensures
            s@ == self.text(),
    ;
}

impl Printable for u8 {
    /// A `u8` is written as its decimal numeral.
    open spec fn text(&self) -> Seq<char> {
        decimal(*self as nat)
    }

    fn to_text(&self) -> (s: String) {
        let mut s = String::new();
        push_decimal(&mut s, *self as u128);
        s
    }
}

impl Printable for u16 {
    /// A `u16` is written as its decimal numeral.
    open spec fn text(&self) -> Seq<char> {
        decimal(*self as nat)
    }

    fn to_text(&self) -> (s: String) {
        let mut s = String::new();
        push_decimal(&mut s, *self as u128);
        s
    }
}

impl Printable for u32 {
    /// A `u32` is written as its decimal numeral.
    open spec fn text(&self) -> Seq<char> {
        decimal(*self as nat)
    }

    fn to_text(&self) -> (s: String) {
        let mut s = String::new();
        push_decimal(&mut s, *self as u128);
        s
    }
}

impl Printable for u64 {
    /// A `u64` is written as its decimal numeral.
    open spec fn text(&self) -> Seq<char> {
        decimal(*self as nat)
    }

    fn to_text(&self) -> (s: String) {
        let mut s = String::new();
        push_decimal(&mut s, *self as u128);
        s
    }
}

impl Printable for u128 {
    /// A `u128` is written as its decimal numeral.
    open spec fn text(&self) -> Seq<char> {
        decimal(*self as nat)
    }

    fn to_text(&self) -> (s: String) {
        let mut s = String::new();
        push_decimal(&mut s, *self as u128);
        s
    }
}

impl Printable for usize {
    /// A `usize` is written as its decimal numeral.
    open spec fn text(&self) -> Seq<char> {
        decimal(*self as nat)
    }

    fn to_text(&self) -> (s: String) {
        let mut s = String::new();
        push_decimal(&mut s, *self as u128);
        s
    }
}

impl Printable for i8 {
    /// An `i8` is written as its decimal numeral, with a minus sign before
    /// it where it is negative.
    open spec fn text(&self) -> Seq<char> {
        signed_decimal(*self as int)
    }

    fn to_text(&self) -> (s: String) {
        let mut s = String::new();
        push_signed_decimal(&mut s, *self as i128);
        s
    }
}

impl Printable for i16 {
    /// An `i16` is written as its decimal numeral, with a minus sign before
    /// it where it is negative.
    open spec fn text(&self) -> Seq<char> {
        signed_decimal(*self as int)
    }

    fn to_text(&self) -> (s: String) {
        let mut s = String::new();
        push_signed_decimal(&mut s, *self as i128);
        s
    }
}

impl Printable for i32 {
    /// An `i32` is written as its decimal numeral, with a minus sign before
    /// it where it is negative.
    open spec fn text(&self) -> Seq<char> {
        signed_decimal(*self as int)
    }

    fn to_text(&self) -> (s: String) {
        let mut s = String::new();
        push_signed_decimal(&mut s, *self as i128);
        s
    }
}

impl Printable for i64 {
    /// An `i64` is written as its decimal numeral, with a minus sign before
    /// it where it is negative.
    open spec fn text(&self) -> Seq<char> {
        signed_decimal(*self as int)
    }

    fn to_text(&self) -> (s: String) {
        let mut s = String::new();
        push_signed_decimal(&mut s, *self as i128);
        s
    }
}

impl Printable for i128 {
    /// An `i128` is written as its decimal numeral, with a minus sign before
    /// it where it is negative.
    open spec fn text(&self) -> Seq<char> {
        signed_decimal(*self as int)
    }

    fn to_text(&self) -> (s: String) {
        let mut s = String::new();
        push_signed_decimal(&mut s, *self as i128);
        s
    }
}

impl Printable for isize {
    /// An `isize` is written as its decimal numeral, with a minus sign before
    /// it where it is negative.
    open spec fn text(&self) -> Seq<char> {
        signed_decimal(*self as int)
    }

    fn to_text(&self) -> (s: String) {
        let mut s = String::new();
        push_signed_decimal(&mut s, *self as i128);
        s
    }
}

/// Appends the decimal numeral of `n` to `out`.
pub fn push_decimal(out: &mut String, n: u128)
    ensures
        final(out)@ == old(out)@ + decimal(n as nat),
    decreases n,
{
    if n >= 10 {
        push_decimal(out, n / 10);
    }
    let low: u8 = (n % 10) as u8;
    out.push((48u8 + low) as char);
    assert(out@ =~= old(out)@ + decimal(n as nat));
}

/// Appends the decimal numeral of `n` to `out`, with a minus sign before it
/// where `n` is negative.
pub fn push_signed_decimal(out: &mut String, n: i128)
    ensures
        final(out)@ == old(out)@ + signed_decimal(n as int),
{
    if n < 0 {
        out.push('-');
        let magnitude: u128 = (-(n + 1)) as u128 + 1;
        push_decimal(out, magnitude);
        assert(out@ =~= old(out)@ + signed_decimal(n as int));
    } else {
        push_decimal(out, n as u128);
    }
}

/// Appends `count` times the character `c` to `out`.
pub fn push_repeated(out: &mut String, c: char, count: usize)
    ensures
        final(out)@ == old(out)@ + repeated(c, count as nat),
{
    let mut done: usize = 0;
    while done < count
        invariant
            done <= count,
            out@ == old(out)@ + repeated(c, done as nat),
        decreases count - done,
    {
        out.push(c);
        done += 1;
        assert(out@ =~= old(out)@ + repeated(c, done as nat));
    }
    assert(out@ =~= old(out)@ + repeated(c, count as nat));
}

/// `count` times the character `c`.
pub fn repeat_char(c: char, count: usize) -> (s: String)
    ensures
        s@ == repeated(c, count as nat),
{
    let mut s = String::new();
    push_repeated(&mut s, c, count);
    assert(s@ =~= repeated(c, count as nat));
    s
}

/// `times` times the text `unit`, one after the other.
pub fn repeat_text(unit: &str, times: usize) -> (s: String)
    ensures
        s@ == repeated_text(unit@, times as nat),
{
    let mut s = String::new();
    let mut done: usize = 0;
    while done < times
        invariant
            done <= times,
            s@ == repeated_text(unit@, done as nat),
        decreases times - done,
    {
        s.append(unit);
        done += 1;
    }
    s
}

} // verus!
