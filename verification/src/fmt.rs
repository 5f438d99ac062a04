//! Joins that write themselves into a sink, for output that is only ever
//! needed as part of a longer text.
use crate::conjunction::Conjunction;
use crate::model::{
    comma_space, interspersed, joined, lemma_interspersed_take, padded_for_many, padded_for_two,
};
use crate::text::{texts_of, AsText};
use vstd::prelude::*;
use vstd::std_specs::iter::IteratorSpec;
use vstd::string::StringExecFns;

verus! {

/// A rendering was asked of a wrapper whose source an earlier rendering
/// had used up.
#[derive(Debug, Clone, Copy, PartialEq, Eq)]
pub struct Exhausted;

/// A plain join that writes itself out; no serial comma, no conjunction.
///
/// It works like any interspersing iterator: the glue goes between each
/// value and the next, plain and simple.
///
/// ```text
/// "one", "two", "three" with ", ": "one, two, three"
/// ```
///
/// Writing walks the wrapped iterator, which can be done **once**. The
/// wrapper is then spent, and every later attempt fails with
/// [`Exhausted`] and writes nothing.
pub struct JoinFmt<'a, I: Iterator> where I::Item: AsText {
    /// The wrapped iterator, until it is used.
    iter: Option<I>,
    /// The glue.
    glue: &'a str,
}

impl<'a, I: Iterator> JoinFmt<'a, I> where I::Item: AsText {
    /// A source that is still there ends after finitely many items.
    #[verifier::type_invariant]
    closed spec fn well_formed(self) -> bool {
        self.iter matches Some(iter) ==> iter.obeys_prophetic_iter_laws() && iter.decrease() is Some
    }

    /// The wrapped iterator, or `None` once it was used.
    pub closed spec fn source(&self) -> Option<I> {
        self.iter
    }

    /// The glue.
    pub closed spec fn glue(&self) -> Seq<char> {
        self.glue@
    }

    /// Whether the source was used up.
    pub open spec fn is_spent(&self) -> bool {
        self.source() is None
    }

    /// A wrapper around the iterator and the separator to put between its
    /// items, if any.
    #[inline]
    pub fn new(iter: I, glue: &'a str) -> (r: Self)
        requires
            iter.obeys_prophetic_iter_laws(),
            iter.decrease() is Some,
        ensures
            r.source() == Some(iter),
            r.glue() == glue@,
    {
        Self { iter: Some(iter), glue }
    }

    /// Write the items to `f`, with the glue between each and the next.
    ///
    /// The first call uses the source up and succeeds. Any later call fails
    /// and leaves `f` as it was.
    pub fn fmt(&mut self, f: &mut String) -> (r: Result<(), Exhausted>)
        ensures
            final(self).is_spent(),
            final(self).glue() == old(self).glue(),
            match old(self).source() {
                Some(iter) => r is Ok && final(f)@ == old(f)@ + interspersed(
                    texts_of(iter.remaining()),
                    old(self).glue(),
                ),
                None => r is Err && final(f)@ == old(f)@,
            },
    {
        proof {
            use_type_invariant(&*self);
        }
        let ghost before = f@;
        let glue = self.glue;

        // The iterator is consumed here, so this can be done only once!
        let mut source: Option<I> = None;
        core::mem::swap(&mut self.iter, &mut source);
        let mut iter = match source {
            Some(iter) => iter,
            None => {
                return Err(Exhausted);
            },
        };
        let ghost items = iter.remaining();
        let ghost texts = texts_of(items);
        let ghost mut k: int = 0;

        if glue.is_empty() {
            // If the glue is empty, just run through everything in one go.
            assert(f@ =~= before + interspersed(texts.take(0), glue@));
            loop
                invariant
                    iter.obeys_prophetic_iter_laws(),
                    iter.decrease() is Some,
                    texts == texts_of(items),
                    glue@.len() == 0,
                    0 <= k <= items.len(),
                    iter.remaining() == items.skip(k),
                    f@ == before + interspersed(texts.take(k), glue@),
                ensures
                    k == items.len(),
                decreases iter.decrease()->0,
            {
                let v = match iter.next() {
                    Some(v) => v,
                    None => {
                        break ;
                    },
                };
                proof {
                    lemma_interspersed_take(texts, glue@, k);
                    assert(items.skip(k).drop_first() =~= items.skip(k + 1));
                }
                f.append(v.as_text());
                proof {
                    assert(f@ =~= before + interspersed(texts.take(k + 1), glue@));
                    k = k + 1;
                }
            }
        } else if let Some(v) = iter.next() {
            // Otherwise start with the first, then loop through the rest,
            // adding the glue at the start of each pass.
            f.append(v.as_text());
            proof {
                assert(texts.take(1) =~= seq![texts[0]]);
                assert(items.skip(0).drop_first() =~= items.skip(1));
                k = 1;
            }
            loop
                invariant
                    iter.obeys_prophetic_iter_laws(),
                    iter.decrease() is Some,
                    texts == texts_of(items),
                    1 <= k <= items.len(),
                    iter.remaining() == items.skip(k),
                    f@ == before + interspersed(texts.take(k), glue@),
                ensures
                    k == items.len(),
                decreases iter.decrease()->0,
            {
                let v = match iter.next() {
                    Some(v) => v,
                    None => {
                        break ;
                    },
                };
                proof {
                    lemma_interspersed_take(texts, glue@, k);
                    assert(items.skip(k).drop_first() =~= items.skip(k + 1));
                }
                f.append(glue);
                f.append(v.as_text());
                proof {
                    assert(f@ =~= before + interspersed(texts.take(k + 1), glue@));
                    k = k + 1;
                }
            }
        } else {
            assert(f@ =~= before + interspersed(texts.take(0), glue@));
        }
        assert(texts.take(k) =~= texts);
        Ok(())
    }

    /// The items with the glue between them, as a string of their own.
    ///
    /// Like [`JoinFmt::fmt`], this works once.
    pub fn to_string(&mut self) -> (r: Result<String, Exhausted>)
        ensures
            final(self).is_spent(),
            final(self).glue() == old(self).glue(),
            match old(self).source() {
                Some(iter) => r matches Ok(out) && out@ == interspersed(
                    texts_of(iter.remaining()),
                    old(self).glue(),
                ),
                None => r is Err,
            },
    {
        let mut out = String::new();
        match self.fmt(&mut out) {
            Ok(()) => {
                assert(out@ =~= interspersed(
                    texts_of(old(self).source()->0.remaining()),
                    old(self).glue(),
                ));
                Ok(out)
            },
            Err(e) => Err(e),
        }
    }
}

/// A join with serial commas that writes itself out.
///
/// It yields what [`OxfordJoin`](crate::OxfordJoin) yields, without the
/// intermediate string. It needs a slice to start with, for the last item
/// has to be found before the others are written.
///
/// ```text
/// "Apples":                         "Apples"
/// "Apples", "Oranges" with Or:      "Apples or Oranges"
/// "Apples", "Oranges", "Bananas"
///     with AndOr:                   "Apples, Oranges, and/or Bananas"
/// ```
pub struct OxfordJoinFmt<'a, T: AsText> {
    /// The set.
    inner: &'a [T],
    /// The glue.
    glue: Conjunction<'a>,
}

impl<'a, T: AsText> OxfordJoinFmt<'a, T> {
    /// The items of the set.
    pub closed spec fn items(&self) -> Seq<T> {
        self.inner@
    }

    /// The conjunction.
    pub closed spec fn conjunction(&self) -> Conjunction<'a> {
        self.glue
    }

    /// The text that the wrapper writes.
    pub open spec fn text(&self) -> Seq<char> {
        joined(texts_of(self.items()), self.conjunction().text())
    }

    /// A wrapper for the set with the desired conjunction.
    #[inline]
    pub fn new(set: &'a [T], glue: Conjunction<'a>) -> (r: Self)
        ensures
            r.items() == set@,
            r.conjunction() == glue,
    {
        Self { inner: set, glue }
    }

    /// A wrapper for the set with [`Conjunction::And`].
    #[inline]
    pub fn and(set: &'a [T]) -> (r: Self)
        ensures
            r.items() == set@,
            r.conjunction() == Conjunction::And,
    {
        Self::new(set, Conjunction::And)
    }

    /// A wrapper for the set with [`Conjunction::AndOr`].
    #[inline]
    pub fn and_or(set: &'a [T]) -> (r: Self)
        ensures
            r.items() == set@,
            r.conjunction() == Conjunction::AndOr,
    {
        Self::new(set, Conjunction::AndOr)
    }

    /// A wrapper for the set with [`Conjunction::Nor`].
    #[inline]
    pub fn nor(set: &'a [T]) -> (r: Self)
        ensures
            r.items() == set@,
            r.conjunction() == Conjunction::Nor,
    {
        Self::new(set, Conjunction::Nor)
    }

    /// A wrapper for the set with [`Conjunction::Or`].
    #[inline]
    pub fn or(set: &'a [T]) -> (r: Self)
        ensures
            r.items() == set@,
            r.conjunction() == Conjunction::Or,
    {
        Self::new(set, Conjunction::Or)
    }

    /// Write the joined items to `f`.
    pub fn fmt(&self, f: &mut String)
        ensures
            final(f)@ == old(f)@ + self.text(),
    {
        let ghost before = f@;
        let ghost texts = texts_of(self.inner@);
        let n = self.inner.len();

        // Split off the last part, or quit because the set is empty.
        if n == 0 {
            assert(f@ =~= before + self.text());
            return ;
        }
        let last = self.inner[n - 1].as_text();
        let rest = n - 1;
        proof {
            reveal_strlit(" ");
            reveal_strlit(", ");
            assert(", "@ =~= comma_space());
        }
        if rest < 1 {
            // Last is all there is.
            f.append(last);
        } else if rest == 1 {
            // Just one thing.
            f.append(self.inner[0].as_text());
            f.append(" ");
            f.append(self.glue.as_str());
            f.append(" ");
            f.append(last);
            assert(f@ =~= before + (texts[0] + padded_for_two(self.glue.text()) + texts[1]));
        } else {
            // Many things.
            let mut i: usize = 0;
            while i < rest
                invariant
                    0 <= i <= rest,
                    rest == self.inner@.len() - 1,
                    texts == texts_of(self.inner@),
                    ", "@ == comma_space(),
                    f@ == before + if i == 0 {
                        Seq::<char>::empty()
                    } else {
                        interspersed(texts.take(i as int), comma_space()) + comma_space()
                    },
                decreases rest - i,
            {
                proof {
                    lemma_interspersed_take(texts, comma_space(), i as int);
                }
                f.append(self.inner[i].as_text());
                f.append(", ");
                proof {
                    assert(f@ =~= before + (interspersed(texts.take(i + 1), comma_space())
                        + comma_space()));
                }
                i = i + 1;
            }
            f.append(self.glue.as_str());
            f.append(" ");
            f.append(last);
            proof {
                assert(texts.take(rest as int) =~= texts.drop_last());
                assert(f@ =~= before + (interspersed(texts.drop_last(), comma_space())
                    + padded_for_many(self.glue.text()) + texts.last()));
            }
        }
    }

    /// The joined items as a string of their own.
    pub fn to_string(&self) -> (out: String)
        ensures
            out@ == self.text(),
    {
        let mut out = String::new();
        self.fmt(&mut out);
        assert(out@ =~= self.text());
        out
    }
}

} // verus!
