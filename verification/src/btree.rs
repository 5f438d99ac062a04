//! Joining the collections that keep their items in order: the values of a
//! `BTreeMap` in the order of their keys, and the items of a `BTreeSet`.
use crate::conjunction::Conjunction;
use crate::join::{two_and_glue, OxfordJoin};
use crate::model::{
    comma_space, interspersed, joined, joined_len, lemma_interspersed_push, lemma_joined_len,
};
use crate::text::{
    byte_len, lemma_total_byte_len_prefix, lemma_total_byte_len_push, str_len, texts_of,
    total_byte_len, AsText,
};
use std::borrow::Cow;
use std::collections::{BTreeMap, BTreeSet};
use vstd::laws_cmp::{obeys_cmp, obeys_cmp_ord, obeys_partial_cmp_spec_properties};
use vstd::prelude::*;
use vstd::std_specs::btree::{increasing_seq, key_obeys_cmp_spec};
use vstd::std_specs::cmp::{OrdSpec, PartialOrdSpec};
use vstd::std_specs::iter::IteratorSpec;
use vstd::string::StringExecFns;

verus! {

/// Whether each item of `s` is less than every later one.
pub open spec fn ascending<K: Ord>(s: Seq<K>) -> bool {
    forall|i: int, j: int| 0 <= i < j < s.len() ==> s[i].cmp_spec(&s[j]) is Less
}

/// Whether `keys` holds the members of `set`, each once, the least first.
pub open spec fn lists_in_order<K: Ord>(keys: Seq<K>, set: Set<K>) -> bool {
    &&& ascending(keys)
    &&& keys.no_duplicates()
    &&& keys.to_set() == set
}

/// The members of `set`, the least first.
pub open spec fn in_order<K: Ord>(set: Set<K>) -> Seq<K> {
    choose|keys: Seq<K>| lists_in_order(keys, set)
}

/// Nothing is less than itself, and of two values only one is less than
/// the other.
pub proof fn lemma_less_is_strict<K: Ord>(x: K, y: K)
    requires
        obeys_cmp::<K>(),
        x.cmp_spec(&y) is Less,
    ensures
        !(y.cmp_spec(&x) is Less),
        x != y,
{
    reveal(obeys_cmp_ord);
    reveal(obeys_partial_cmp_spec_properties);
    assert(x.partial_cmp_spec(&y) == Some(x.cmp_spec(&y)));
    assert(y.partial_cmp_spec(&x) == Some(y.cmp_spec(&x)));
    assert(y.partial_cmp_spec(&x) == Some(core::cmp::Ordering::Greater));
}

/// A set has one listing in order and no other.
pub proof fn lemma_order_is_unique<K: Ord>(a: Seq<K>, b: Seq<K>, set: Set<K>)
    requires
        obeys_cmp::<K>(),
        lists_in_order(a, set),
        lists_in_order(b, set),
    ensures
        a == b,
    decreases a.len(),
{
    if a.len() == 0 {
        if b.len() > 0 {
            assert(b.to_set().contains(b[0]));
            assert(a.contains(b[0]));
        }
        assert(a =~= b);
    } else {
        assert(a.to_set().contains(a[0]));
        assert(b.contains(a[0]));
        let j = choose|j: int| 0 <= j < b.len() && b[j] == a[0];
        assert(b.to_set().contains(b[0]));
        assert(a.contains(b[0]));
        let i = choose|i: int| 0 <= i < a.len() && a[i] == b[0];
        if j > 0 {
            lemma_less_is_strict(b[0], b[j]);
            if i > 0 {
                lemma_less_is_strict(a[0], a[i]);
            }
        }
        assert(a[0] == b[0]);
        let rest = set.remove(a[0]);
        lemma_rest_in_order(a, set);
        lemma_rest_in_order(b, set);
        lemma_order_is_unique(a.drop_first(), b.drop_first(), rest);
        assert(a =~= seq![a[0]] + a.drop_first());
        assert(b =~= seq![b[0]] + b.drop_first());
    }
}

/// Without its first key, a listing in order lists the set without that
/// key.
pub proof fn lemma_rest_in_order<K: Ord>(keys: Seq<K>, set: Set<K>)
    requires
        lists_in_order(keys, set),
        keys.len() > 0,
    ensures
        lists_in_order(keys.drop_first(), set.remove(keys[0])),
{
    let rest = keys.drop_first();
    assert forall|i: int, j: int| 0 <= i < j < rest.len() implies rest[i].cmp_spec(
        &rest[j],
    ) is Less by {
        assert(rest[i] == keys[i + 1] && rest[j] == keys[j + 1]);
    }
    assert forall|k: K| rest.to_set().contains(k) <==> set.remove(keys[0]).contains(k) by {
        if rest.contains(k) {
            let i = choose|i: int| 0 <= i < rest.len() && rest[i] == k;
            assert(keys[i + 1] == k);
            assert(keys.contains(k));
        }
        if set.remove(keys[0]).contains(k) {
            assert(keys.to_set().contains(k));
            let i = choose|i: int| 0 <= i < keys.len() && keys[i] == k;
            assert(i > 0);
            assert(rest[i - 1] == k);
        }
    }
    assert(rest.to_set() =~= set.remove(keys[0]));
}

/// A listing in order is the listing in order.
pub proof fn lemma_in_order_is<K: Ord>(keys: Seq<K>, set: Set<K>)
    requires
        obeys_cmp::<K>(),
        lists_in_order(keys, set),
    ensures
        in_order(set) == keys,
{
    lemma_order_is_unique(in_order(set), keys, set);
}

/// The byte lengths of the texts that `iter` yields, summed.
pub fn total_len_of<'a, T: AsText + 'a, I: Iterator<Item = &'a T>>(iter: I) -> (sum: usize)
    requires
        iter.obeys_prophetic_iter_laws(),
        iter.decrease() is Some,
        total_byte_len(texts_of(iter.remaining())) <= usize::MAX,
    ensures
        sum == total_byte_len(texts_of(iter.remaining())),
{
    let ghost items = iter.remaining();
    let ghost texts = texts_of(items);
    let ghost mut k: int = 0;
    let mut iter = iter;
    let mut sum: usize = 0;
    loop
        invariant
            iter.obeys_prophetic_iter_laws(),
            iter.decrease() is Some,
            texts == texts_of(items),
            0 <= k <= items.len(),
            iter.remaining() == items.skip(k),
            sum == total_byte_len(texts.take(k)),
            total_byte_len(texts) <= usize::MAX,
        ensures
            k == items.len(),
        decreases iter.decrease()->0,
    {
        let next = match iter.next() {
            Some(next) => next,
            None => {
                break ;
            },
        };
        proof {
            assert(texts.take(k + 1) =~= texts.take(k).push(texts[k]));
            lemma_total_byte_len_push(texts.take(k), texts[k]);
            lemma_total_byte_len_prefix(texts, k + 1);
            assert(items.skip(k).drop_first() =~= items.skip(k + 1));
            k = k + 1;
        }
        sum = sum + str_len(next.as_text());
    }
    assert(texts.take(k) =~= texts);
    sum
}

/// Join what `items` yields with serial commas and `glue`.
///
/// The source has no random access, so the last item is known to be the
/// last only when the source has run dry: each item is held back one slot
/// until the next has come. `again` yields the same items once more, for
/// the lengths, and `count` is their number.
pub fn join_in_order<'a, T: AsText + 'a, I: Iterator<Item = &'a T>>(
    items: I,
    again: I,
    count: usize,
    glue: Conjunction<'_>,
) -> (r: Cow<'a, str>)
    requires
        items.obeys_prophetic_iter_laws(),
        items.decrease() is Some,
        again.obeys_prophetic_iter_laws(),
        again.decrease() is Some,
        again.remaining() == items.remaining(),
        count == items.remaining().len(),
        count >= 2 ==> joined_len(texts_of(items.remaining()), glue.text()) <= isize::MAX,
    ensures
        r@ == joined(texts_of(items.remaining()), glue.text()),
        byte_len(r@) == joined_len(texts_of(items.remaining()), glue.text()),
        r is Borrowed <==> items.remaining().len() < 2,
{
    let ghost all = items.remaining();
    let ghost texts = texts_of(all);
    let mut iter = items;
    proof {
        lemma_joined_len(texts, glue.text());
    }

    // Do we have a first?
    let a: &str = match iter.next() {
        Some(a) => a.as_text(),
        None => {
            proof {
                reveal_strlit("");
            }
            assert(""@ =~= Seq::<char>::empty());
            return Cow::Borrowed("");
        },
    };

    // Can we get a second?
    let b: &str = match iter.next() {
        Some(b) => b.as_text(),
        None => {
            return Cow::Borrowed(a);
        },
    };
    assert(all.drop_first().drop_first() =~= all.skip(2));

    // How about a third?
    let c = match iter.next() {
        Some(c) => c,
        None => {
            return Cow::Owned(two_and_glue(a, b, glue));
        },
    };

    // We'll have N to deal with.
    let len = glue.len() + 1 + (count - 1) * 2 + total_len_of(again);
    let mut out = String::with_capacity(len);

    // Start with what we already know.
    proof {
        reveal_strlit(", ");
        assert(", "@ =~= comma_space());
        assert(texts.take(1) =~= seq![texts[0]]);
        assert(texts.take(2) =~= texts.take(1).push(texts[1]));
        lemma_interspersed_push(texts.take(1), comma_space(), texts[1]);
    }
    out.append(a);
    out.append(", ");
    out.append(b);

    // Loop through the remainder, saving the last for last.
    let mut buf = c;
    let ghost mut k: int = 2;
    loop
        invariant
            iter.obeys_prophetic_iter_laws(),
            iter.decrease() is Some,
            texts == texts_of(all),
            ", "@ == comma_space(),
            2 <= k < all.len(),
            iter.remaining() == all.skip(k + 1),
            buf == all[k],
            out@ == interspersed(texts.take(k), comma_space()),
        ensures
            k + 1 == all.len(),
        decreases iter.decrease()->0,
    {
        let next = match iter.next() {
            Some(next) => next,
            None => {
                break ;
            },
        };
        proof {
            assert(texts.take(k + 1) =~= texts.take(k).push(texts[k]));
            lemma_interspersed_push(texts.take(k), comma_space(), texts[k]);
            assert(all.skip(k + 1).drop_first() =~= all.skip(k + 2));
            k = k + 1;
        }

        // Add the _previous_ value to the output; the current one waits in
        // the buffer.
        out.append(", ");
        out.append(buf.as_text());
        buf = next;
    }
    assert(texts.take(k) =~= texts.drop_last());

    // Final glue.
    glue.push_padded_for_many(&mut out);

    // Write the last.
    out.append(buf.as_text());
    Cow::Owned(out)
}

impl<K: Ord, T: AsText> OxfordJoin for BTreeMap<K, T> {
    /// The texts of the values, in the order of their keys.
    open spec fn texts(&self) -> Seq<Seq<char>> {
        in_order(self@.dom()).map_values(|k: K| self@[k].text())
    }

    /// The order of the values is settled where the keys obey the laws of
    /// comparison.
    open spec fn is_ordered(&self) -> bool {
        key_obeys_cmp_spec::<K>()
    }

    fn oxford_join(&self, glue: Conjunction<'_>) -> (r: Cow<'_, str>) {
        let items = self.values();
        let again = self.values();
        let count = self.len();
        proof {
            let keys = choose|keys: Seq<K>|
                {
                    &&& increasing_seq(keys)
                    &&& keys.to_set() == self@.dom()
                    &&& keys.no_duplicates()
                    &&& items.remaining() == keys.map(|i: int, k| &self@[k])
                };
            assert(lists_in_order(keys, self@.dom()));
            lemma_in_order_is(keys, self@.dom());
            keys.unique_seq_to_set();
            assert(texts_of(items.remaining()) =~= self.texts());
            lemma_joined_len(self.texts(), glue.text());
        }
        join_in_order(items, again, count, glue)
    }
}

impl<T: AsText + Ord> OxfordJoin for BTreeSet<T> {
    /// The texts of the items, the least item first.
    open spec fn texts(&self) -> Seq<Seq<char>> {
        texts_of(in_order(self@))
    }

    /// The order of the items is settled where they obey the laws of
    /// comparison.
    open spec fn is_ordered(&self) -> bool {
        key_obeys_cmp_spec::<T>()
    }

    fn oxford_join(&self, glue: Conjunction<'_>) -> (r: Cow<'_, str>) {
        let items = self.iter();
        let again = self.iter();
        let count = self.len();
        proof {
            let refs = items.remaining();
            let keys = refs.unref();
            assert(obeys_cmp::<T>());
            assert(obeys_cmp::<&T>());
            assert(increasing_seq(refs));
            assert forall|i: int, j: int| 0 <= i < j < keys.len() implies keys[i].cmp_spec(
                &keys[j],
            ) is Less by {
                assert(OrdSpec::cmp_spec(&refs[i], &refs[j]) is Less);
            }
            assert forall|i: int, j: int| 0 <= i < j < keys.len() implies keys[i] != keys[j] by {
                assert(refs[i] != refs[j]);
            }
            assert(lists_in_order(keys, self@));
            lemma_in_order_is(keys, self@);
            assert(texts_of(refs) =~= self.texts());
            lemma_joined_len(self.texts(), glue.text());
        }
        join_in_order(items, again, count, glue)
    }
}

/// The shape of the collection does not matter: a slice that holds distinct
/// items in ascending order, the set of those items, and a map that holds
/// them under keys that ascend as the items do, all yield the same text,
/// whatever the conjunction.
pub proof fn lemma_same_text_in_every_shape<K: Ord, T: AsText + Ord>(
    items: &[T],
    map: &BTreeMap<K, T>,
    keys: Seq<K>,
    set: &BTreeSet<T>,
    glue: Conjunction<'_>,
)
    requires
        obeys_cmp::<K>(),
        obeys_cmp::<T>(),
        lists_in_order(items@, set@),
        lists_in_order(keys, map@.dom()),
        keys.len() == items@.len(),
        forall|i: int| 0 <= i < keys.len() ==> map@[keys[i]] == items@[i],
    ensures
        set.texts() == items.texts(),
        map.texts() == items.texts(),
        joined(set.texts(), glue.text()) == joined(items.texts(), glue.text()),
        joined(map.texts(), glue.text()) == joined(items.texts(), glue.text()),
{
    lemma_in_order_is(items@, set@);
    lemma_in_order_is(keys, map@.dom());
    assert(map.texts() =~= items.texts());
}

} // verus!
