//! The label's text: a string of bounded capacity, stored in place, and the
//! decimal rendering of the counter that fills it.

use vstd::prelude::*;
use vstd::string::StringSliceAdditionalSpecFns;
use vstd::utf8::{encode_utf8, is_ascii_chars, is_ascii_chars_encode_utf8};
use arrayvec::{ArrayString, CapacityError};
use numtoa::NumToA;

verus! {

/// Number of bytes that a text buffer can hold.
pub const TEXT_CAPACITY: usize = 10;

/// A string of at most ten bytes that is stored in place: arrayvec's
/// `ArrayString` over an array of ten bytes.
#[verifier::external_body]
pub struct FixedString {
    inner: ArrayString<[u8; 10]>,
}

/// arrayvec's `CapacityError`: what `ArrayString::try_push_str` returns
/// where the bytes do not fit. Nothing is claimed of what it holds.
#[verifier::external_type_specification]
#[verifier::external_body]
#[verifier::reject_recursive_types(T)]
pub struct ExCapacityError<T>(CapacityError<T>);

/// The characters that a fixed string of ten bytes holds.
pub uninterp spec fn held_text(text: FixedString) -> Seq<char>;

/// The character for a digit value.
pub open spec fn digit_char(d: int) -> char {
    (0x30 + d) as u8 as char
}

/// The decimal rendering of `n`: no sign, no leading zeros, `"0"` for zero.
pub open spec fn decimal(n: nat) -> Seq<char>
    decreases n,
{
    if n < 10 {
        seq![digit_char(n as int)]
    } else {
        decimal(n / 10).push(digit_char((n % 10) as int))
    }
}

/// `ArrayString::new`: a fixed string that holds nothing.
#[verifier::external_body]
fn fixed_new() -> (text: FixedString)
    ensures
        held_text(text) == Seq::<char>::empty(),
{
    FixedString { inner: ArrayString::<[u8; 10]>::new() }
}

/// `ArrayString::try_push_str`: appends `s` where its bytes fit beside the
/// bytes already held, and otherwise leaves the string as it was and
/// reports insufficient capacity.
#[verifier::external_body]
fn fixed_try_push_str(text: &mut FixedString, s: &str) -> (r: Result<
    (),
    CapacityError<()>,
>)
    ensures
        r.is_ok() <==> encode_utf8(held_text(*old(text))).len() + s.spec_bytes().len() <= 10,
        r.is_ok() ==> held_text(*final(text)) == held_text(*old(text)) + s@,
        r.is_err() ==> held_text(*final(text)) == held_text(*old(text)),
{
    text.inner.try_push_str(s).map_err(|e| e.simplify())
}

/// `ArrayString::as_str`: the characters held, as a string slice. The
/// string never holds more bytes than its array has, so never more than ten
/// characters.
#[verifier::external_body]
fn fixed_as_str(text: &FixedString) -> (s: &str)
    ensures
        s@ == held_text(*text),
        s@.len() <= 10,
{
    text.inner.as_str()
}

/// `NumToA::numtoa_str` in base ten on a `u32`, with a scratch buffer of
/// twenty bytes: the decimal digits of `n`, most significant first.
#[verifier::external_body]
fn decimal_string(n: u32) -> (s: String)
    ensures
        s@ == decimal(n as nat),
{
    let mut scratch = [0u8; 20];
    String::from(n.numtoa_str(10, &mut scratch))
}

/// Why a text buffer declined an operation.
#[derive(Clone, Copy, Debug, PartialEq, Eq, Structural)]
pub enum TextError {
    /// The bytes to add do not fit into what is left of the buffer.
    InsufficientCapacity,
}

/// A text of at most `TEXT_CAPACITY` bytes.
pub struct TextBuffer {
    inner: FixedString,
}

impl View for TextBuffer {
    type V = Seq<char>;

    closed spec fn view(&self) -> Seq<char> {
        held_text(self.inner)
    }
}

impl TextBuffer {
    /// The empty text.
    pub fn new() -> (t: TextBuffer)
        ensures
            t@ == Seq::<char>::empty(),
    {
        TextBuffer { inner: fixed_new() }
    }

    /// Appends `s` if its bytes fit into what is left of the buffer;
    /// otherwise the text stays as it was.
    pub fn try_push_str(&mut self, s: &str) -> (r: Result<(), TextError>)
        ensures
            r.is_ok() <==> encode_utf8(old(self)@).len() + s.spec_bytes().len() <= 10,
            r.is_ok() ==> final(self)@ == old(self)@ + s@,
            r.is_err() ==> final(self)@ == old(self)@ && r.unwrap_err()
                == TextError::InsufficientCapacity,
    {
        match fixed_try_push_str(&mut self.inner, s) {
            Ok(()) => Ok(()),
            Err(_) => Err(TextError::InsufficientCapacity),
        }
    }

    /// The text as a string slice; it has at most `TEXT_CAPACITY`
    /// characters.
    pub fn as_str(&self) -> (s: &str)
        ensures
            s@ == self@,
            s@.len() <= 10,
    {
        fixed_as_str(&self.inner)
    }

    /// Number of characters held.
    pub fn char_count(&self) -> (n: usize)
        ensures
            n == self@.len(),
            n <= 10,
    {
        fixed_as_str(&self.inner).unicode_len()
    }
}

/// The decimal rendering of `n` as a text: no sign, no leading zeros.
pub fn format_decimal(n: u32) -> (t: TextBuffer)
    ensures
        t@ == decimal(n as nat),
{
    let digits = decimal_string(n);
    let mut t = TextBuffer::new();
    proof {
        lemma_decimal_is_digits(n as nat);
        assert(pow10(10) == 10_000_000_000) by {
            reveal_with_fuel(pow10, 11);
        }
        lemma_decimal_len(n as nat, 10);
        is_ascii_chars_encode_utf8(decimal(n as nat));
        assert(encode_utf8(Seq::<char>::empty()).len() == 0) by {
            reveal_with_fuel(encode_utf8, 1);
        }
        assert(Seq::<char>::empty() + decimal(n as nat) =~= decimal(n as nat));
    }
    let pushed = t.try_push_str(digits.as_str());
    assert(pushed.is_ok());
    t
}

/// Ten to the power `k`.
pub open spec fn pow10(k: nat) -> nat
    decreases k,
{
    if k == 0 {
        1
    } else {
        10 * pow10((k - 1) as nat)
    }
}

/// Every character of a decimal rendering is one of the ten digits, and so
/// takes one byte.
pub proof fn lemma_decimal_is_digits(n: nat)
    ensures
        decimal(n).len() >= 1,
        forall|i: int| 0 <= i < decimal(n).len() ==> '0' <= #[trigger] decimal(n)[i] <= '9',
        is_ascii_chars(decimal(n)),
    decreases n,
{
    if n >= 10 {
        lemma_decimal_is_digits(n / 10);
    }
}

/// A number below ten to the `k` has at most `k` digits.
pub proof fn lemma_decimal_len(n: nat, k: nat)
    requires
        k >= 1,
        n < pow10(k),
    ensures
        decimal(n).len() <= k,
    decreases n,
{
    if n >= 10 {
        reveal_with_fuel(pow10, 2);
        lemma_decimal_len(n / 10, (k - 1) as nat);
    }
}

/// A percentage has one digit below ten, two below a hundred, and three at
/// a hundred.
pub proof fn lemma_percent_digits(p: nat)
    requires
        p <= 100,
    ensures
        decimal(p).len() == if p < 10 {
            1nat
        } else if p < 100 {
            2nat
        } else {
            3nat
        },
{
    reveal_with_fuel(decimal, 3);
}

} // verus!
