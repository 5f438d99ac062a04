//! Joining slices and arrays of texts.
use crate::conjunction::Conjunction;
use crate::model::{
    comma_space, interspersed, joined, joined_len, lemma_interspersed_push, lemma_joined_len,
    lemma_padded_lens, padded_for_many, padded_for_two,
};
use crate::text::{
    byte_len, lemma_byte_len_concat, lemma_total_byte_len_prefix, lemma_total_byte_len_push,
    str_len, texts_of, total_byte_len, AsText,
};
use std::borrow::Cow;
use vstd::prelude::*;
use vstd::std_specs::iter::IteratorSpec;
use vstd::string::StringExecFns;

verus! {

/// Join an ordered collection of texts with serial commas, and with the
/// conjunction of your choice before the last of them.
///
/// ```text
/// ""                                      // Zero.
/// "first"                                 // One.
/// "first <CONJUNCTION> last"              // Two.
/// "first, second, …, <CONJUNCTION> last"  // Three+.
/// ```
///
/// With fewer than two items nothing is allocated: the result borrows from
/// the collection. Otherwise it is built in a buffer of exactly the size
/// that it takes, which therefore has to be a size that a `String` can
/// have.
pub trait OxfordJoin {
    /// The texts of the items, in the order in which they are joined.
    spec fn texts(&self) -> Seq<Seq<char>>;

    /// Whether the order of the items is settled. It always is for a slice
    /// or an array; for a collection that orders its items itself it is
    /// where the ordering obeys the laws of comparison.
    spec fn is_ordered(&self) -> bool;

    /// Join the items with serial commas and `glue`.
    fn oxford_join(&self, glue: Conjunction<'_>) -> (r: Cow<'_, str>)
        requires
            self.is_ordered(),
            self.texts().len() >= 2 ==> joined_len(self.texts(), glue.text()) <= isize::MAX,
        ensures
            r@ == joined(self.texts(), glue.text()),
            byte_len(r@) == joined_len(self.texts(), glue.text()),
            r is Borrowed <==> self.texts().len() < 2,
    ;

    /// Join the items with `Conjunction::And`.
    #[inline]
    fn oxford_and(&self) -> (r: Cow<'_, str>)
        requires
            self.is_ordered(),
            self.texts().len() >= 2 ==> joined_len(self.texts(), Conjunction::And.text())
                <= isize::MAX,
        ensures
            r@ == joined(self.texts(), Conjunction::And.text()),
            byte_len(r@) == joined_len(self.texts(), Conjunction::And.text()),
            r is Borrowed <==> self.texts().len() < 2,
    {
        self.oxford_join(Conjunction::And)
    }

    /// Join the items with `Conjunction::AndOr`.
    #[inline]
    fn oxford_and_or(&self) -> (r: Cow<'_, str>)
        requires
            self.is_ordered(),
            self.texts().len() >= 2 ==> joined_len(self.texts(), Conjunction::AndOr.text())
                <= isize::MAX,
        ensures
            r@ == joined(self.texts(), Conjunction::AndOr.text()),
            byte_len(r@) == joined_len(self.texts(), Conjunction::AndOr.text()),
            r is Borrowed <==> self.texts().len() < 2,
    {
        self.oxford_join(Conjunction::AndOr)
    }

    /// Join the items with `Conjunction::Nor`.
    #[inline]
    fn oxford_nor(&self) -> (r: Cow<'_, str>)
        requires
            self.is_ordered(),
            self.texts().len() >= 2 ==> joined_len(self.texts(), Conjunction::Nor.text())
                <= isize::MAX,
        ensures
            r@ == joined(self.texts(), Conjunction::Nor.text()),
            byte_len(r@) == joined_len(self.texts(), Conjunction::Nor.text()),
            r is Borrowed <==> self.texts().len() < 2,
    {
        self.oxford_join(Conjunction::Nor)
    }

    /// Join the items with `Conjunction::Or`.
    #[inline]
    fn oxford_or(&self) -> (r: Cow<'_, str>)
        requires
            self.is_ordered(),
            self.texts().len() >= 2 ==> joined_len(self.texts(), Conjunction::Or.text())
                <= isize::MAX,
        ensures
            r@ == joined(self.texts(), Conjunction::Or.text()),
            byte_len(r@) == joined_len(self.texts(), Conjunction::Or.text()),
            r is Borrowed <==> self.texts().len() < 2,
    {
        self.oxford_join(Conjunction::Or)
    }
}

impl Conjunction<'_> {
    /// Join whatever `iter` yields with serial commas and this conjunction.
    ///
    /// This is for a source that can be walked only once and whose length
    /// is not known beforehand: the last item is known to be the last only
    /// when the source has run dry, so each item is held back until the
    /// next one has come.
    ///
    /// ```text
    /// Conjunction::And, over "h", "e", "l", "l", "o": "h, e, l, l, and o"
    /// ```
    pub fn oxford_join<I, T>(&self, iter: I) -> (out: String) where
        T: AsText,
        I: Iterator<Item = T>,

        requires
            iter.obeys_prophetic_iter_laws(),
            iter.decrease() is Some,
        ensures
            out@ == joined(texts_of(iter.remaining()), self.text()),
            byte_len(out@) == joined_len(texts_of(iter.remaining()), self.text()),
    {
        let ghost items = iter.remaining();
        let ghost texts = texts_of(items);
        let mut iter = iter;
        proof {
            lemma_joined_len(texts, self.text());
        }

        // Pull the first value, ensuring there actually is one.
        let first = match iter.next() {
            Some(first) => first,
            None => {
                return String::new();
            },
        };

        // One fuzzy preallocation beats item-by-item reserves.
        let mut out = String::with_capacity(64);
        out.append(first.as_text());

        // We have a second item!
        if let Some(second) = iter.next() {
            let mut buf = second;
            let mut many = false;
            let ghost mut k: int = 1;
            assert(texts.take(1) =~= seq![texts[0]]);
            loop
                invariant
                    iter.obeys_prophetic_iter_laws(),
                    iter.decrease() is Some,
                    texts == texts_of(items),
                    1 <= k < items.len(),
                    iter.remaining() == items.skip(k + 1),
                    buf == items[k],
                    many == (k > 1),
                    out@ == interspersed(texts.take(k), comma_space()),
                ensures
                    k + 1 == items.len(),
                decreases iter.decrease()->0,
            {
                let next = match iter.next() {
                    Some(next) => next,
                    None => {
                        break ;
                    },
                };
                proof {
                    reveal_strlit(", ");
                    assert(", "@ =~= comma_space());
                    assert(texts.take(k + 1) =~= texts.take(k).push(texts[k]));
                    lemma_interspersed_push(texts.take(k), comma_space(), texts[k]);
                    assert(items.skip(k + 1).drop_first() =~= items.skip(k + 2));
                    k = k + 1;
                }

                // Add the _previous_ value to the output; the current one
                // waits in the buffer.
                out.append(", ");
                out.append(buf.as_text());
                buf = next;
                many = true;
            }
            assert(texts.take(k) =~= texts.drop_last());

            // Add the final punctuation and conjunction.
            proof {
                reveal_strlit(", ");
                reveal_strlit(" ");
            }
            let ghost list = out@;
            if many {
                out.append(", ");
            } else {
                out.append(" ");
            }
            out.append(self.as_str());
            out.append(" ");
            assert(many ==> out@ =~= list + padded_for_many(self.text()));
            assert(!many ==> out@ =~= list + padded_for_two(self.text()));

            // Cap it off with the last item.
            out.append(buf.as_text());
        }
        out
    }
}

/// Join two texts and some glue into a new string.
pub fn two_and_glue(a: &str, b: &str, glue: Conjunction<'_>) -> (out: String)
    requires
        byte_len(a@) + byte_len(b@) + 2 + byte_len(glue.text()) <= isize::MAX,
    ensures
        out@ == a@ + glue.padded_for_two() + b@,
        byte_len(out@) == byte_len(a@) + byte_len(b@) + 2 + byte_len(glue.text()),
{
    let len = str_len(a) + str_len(b) + 2 + glue.len();
    let mut out = String::with_capacity(len);
    out.append(a);
    glue.push_padded_for_two(&mut out);
    out.append(b);
    proof {
        lemma_padded_lens(glue.text());
        lemma_byte_len_concat(a@, glue.padded_for_two());
        lemma_byte_len_concat(a@ + glue.padded_for_two(), b@);
    }
    out
}

/// The byte lengths of the items' texts, summed.
pub fn total_len<T: AsText>(items: &[T]) -> (sum: usize)
    requires
        total_byte_len(texts_of(items@)) <= usize::MAX,
    ensures
        sum == total_byte_len(texts_of(items@)),
{
    let ghost texts = texts_of(items@);
    let mut sum: usize = 0;
    let mut i: usize = 0;
    while i < items.len()
        invariant
            i <= items.len(),
            texts == texts_of(items@),
            sum == total_byte_len(texts.take(i as int)),
            total_byte_len(texts) <= usize::MAX,
        decreases items.len() - i,
    {
        proof {
            assert(texts.take(i + 1) =~= texts.take(i as int).push(texts[i as int]));
            lemma_total_byte_len_push(texts.take(i as int), texts[i as int]);
            lemma_total_byte_len_prefix(texts, i + 1);
        }
        sum = sum + str_len(items[i].as_text());
        i = i + 1;
    }
    assert(texts.take(i as int) =~= texts);
    sum
}

impl<T: AsText> OxfordJoin for [T] {
    open spec fn texts(&self) -> Seq<Seq<char>> {
        texts_of(self@)
    }

    open spec fn is_ordered(&self) -> bool {
        true
    }

    fn oxford_join(&self, glue: Conjunction<'_>) -> (r: Cow<'_, str>) {
        let ghost texts = self.texts();
        let n = self.len();
        proof {
            lemma_joined_len(texts, glue.text());
        }
        if n >= 2 {
            let first = self[0].as_text();
            let last = self[n - 1].as_text();
            if n == 2 {
                Cow::Owned(two_and_glue(first, last, glue))
            } else {
                let len = glue.len() + 1 + (n - 1) * 2 + total_len(self);
                let mut out = String::with_capacity(len);

                // Write the first.
                out.append(first);
                assert(texts.take(1) =~= seq![texts[0]]);

                // Write the middles.
                let mut i: usize = 1;
                while i < n - 1
                    invariant
                        n == self.len(),
                        n > 2,
                        1 <= i <= n - 1,
                        texts == texts_of(self@),
                        out@ == interspersed(texts.take(i as int), comma_space()),
                    decreases n - i,
                {
                    proof {
                        reveal_strlit(", ");
                        assert(", "@ =~= comma_space());
                        assert(texts.take(i + 1) =~= texts.take(i as int).push(texts[i as int]));
                        lemma_interspersed_push(
                            texts.take(i as int),
                            comma_space(),
                            texts[i as int],
                        );
                    }
                    out.append(", ");
                    out.append(self[i].as_text());
                    i = i + 1;
                }
                assert(texts.take(i as int) =~= texts.drop_last());

                // Final glue.
                glue.push_padded_for_many(&mut out);

                // Write the last.
                out.append(last);
                Cow::Owned(out)
            }
        } else if n == 1 {
            Cow::Borrowed(self[0].as_text())
        } else {
            proof {
                reveal_strlit("");
            }
            assert(""@ =~= Seq::<char>::empty());
            Cow::Borrowed("")
        }
    }
}

impl<T: AsText, const N: usize> OxfordJoin for [T; N] {
    open spec fn texts(&self) -> Seq<Seq<char>> {
        texts_of(self@)
    }

    open spec fn is_ordered(&self) -> bool {
        true
    }

    #[inline]
    fn oxford_join(&self, glue: Conjunction<'_>) -> (r: Cow<'_, str>) {
        self.as_slice().oxford_join(glue)
    }
}

} // verus!
