//! Texts and their lengths in bytes.
//!
//! A text is modelled as a `Seq<char>`. Capacities are counted in bytes of
//! UTF-8, so this module relates the two.
use std::borrow::Cow;
use vstd::prelude::*;
use vstd::utf8::*;

verus! {

/// The number of bytes that `s` takes in UTF-8.
pub open spec fn byte_len(s: Seq<char>) -> nat {
    encode_utf8(s).len()
}

/// The sum of the byte lengths of `items`.
pub open spec fn total_byte_len(items: Seq<Seq<char>>) -> nat
    decreases items.len(),
{
    if items.len() == 0 {
        0
    } else {
        total_byte_len(items.drop_last()) + byte_len(items.last())
    }
}

/// Encoding distributes over concatenation.
pub proof fn lemma_encode_concat(a: Seq<char>, b: Seq<char>)
    ensures
        encode_utf8(a + b) == encode_utf8(a) + encode_utf8(b),
    decreases a.len(),
{
    if a.len() == 0 {
        assert(a + b =~= b);
        assert(encode_utf8(a) + encode_utf8(b) =~= encode_utf8(b));
    } else {
        assert((a + b).drop_first() =~= a.drop_first() + b);
        lemma_encode_concat(a.drop_first(), b);
        assert(encode_utf8(a + b) =~= encode_utf8(a) + encode_utf8(b));
    }
}

/// The byte length of a concatenation is the sum of the byte lengths.
pub proof fn lemma_byte_len_concat(a: Seq<char>, b: Seq<char>)
    ensures
        byte_len(a + b) == byte_len(a) + byte_len(b),
{
    lemma_encode_concat(a, b);
}

/// An ASCII text takes one byte per character.
pub proof fn lemma_byte_len_ascii(s: Seq<char>)
    requires
        is_ascii_chars(s),
    ensures
        byte_len(s) == s.len(),
{
    is_ascii_chars_encode_utf8(s);
}

/// The total of a sequence of texts with one more text pushed.
pub proof fn lemma_total_byte_len_push(items: Seq<Seq<char>>, last: Seq<char>)
    ensures
        total_byte_len(items.push(last)) == total_byte_len(items) + byte_len(last),
{
    assert(items.push(last).drop_last() =~= items);
}

/// A part of the items takes no more bytes than all of them.
pub proof fn lemma_total_byte_len_prefix(items: Seq<Seq<char>>, n: int)
    requires
        0 <= n <= items.len(),
    ensures
        total_byte_len(items.take(n)) <= total_byte_len(items),
    decreases items.len(),
{
    if n == items.len() {
        assert(items.take(n) =~= items);
    } else {
        assert(items.drop_last().take(n) =~= items.take(n));
        lemma_total_byte_len_prefix(items.drop_last(), n);
    }
}

/// A value that can be read as text.
///
/// `text` is the model: what `as_text` hands out, the same at every call.
pub trait AsText {
    /// The text that this value stands for.
    spec fn text(&self) -> Seq<char>;

    /// This value as a string slice.
    fn as_text(&self) -> (s: &str)
        ensures
            s@ == self.text(),
    ;
}

impl AsText for str {
    open spec fn text(&self) -> Seq<char> {
        self@
    }

    #[inline]
    fn as_text(&self) -> (s: &str) {
        self
    }
}

impl AsText for String {
    open spec fn text(&self) -> Seq<char> {
        self@
    }

    #[inline]
    fn as_text(&self) -> (s: &str) {
        self.as_str()
    }
}

impl<T: AsText + ?Sized> AsText for &T {
    open spec fn text(&self) -> Seq<char> {
        (**self).text()
    }

    #[inline]
    fn as_text(&self) -> (s: &str) {
        (**self).as_text()
    }
}

impl AsText for Cow<'_, str> {
    open spec fn text(&self) -> Seq<char> {
        self@
    }

    #[inline]
    fn as_text(&self) -> (s: &str) {
        match self {
            Cow::Borrowed(s) => s,
            Cow::Owned(s) => s.as_str(),
        }
    }
}

impl<T: AsText + ?Sized> AsText for Box<T> {
    open spec fn text(&self) -> Seq<char> {
        (**self).text()
    }

    #[inline]
    fn as_text(&self) -> (s: &str) {
        (**self).as_text()
    }
}

/// The length of `s` in bytes.
#[inline]
pub fn str_len(s: &str) -> (n: usize)
    ensures
        n == byte_len(s@),
{
    s.as_bytes().len()
}

/// The texts of `items`, in their order.
pub open spec fn texts_of<T: AsText>(items: Seq<T>) -> Seq<Seq<char>> {
    items.map_values(|t: T| t.text())
}

/// `String::with_capacity`: the new string is empty. The capacity is room
/// set aside and no part of the value. The call panics where the capacity
/// is over `isize::MAX` bytes, so such a capacity is left out.
pub assume_specification[ String::with_capacity ](capacity: usize) -> (s: String)
    requires
        capacity <= isize::MAX,
    ensures
        s@ == Seq::<char>::empty(),
;

} // verus!
