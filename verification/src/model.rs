//! What a join is: the text that it yields and the bytes that it takes.
use crate::text::{byte_len, lemma_byte_len_ascii, lemma_byte_len_concat, total_byte_len};
use vstd::prelude::*;

verus! {

/// The separator between the items of a list: a comma and a space.
pub open spec fn comma_space() -> Seq<char> {
    seq![',', ' ']
}

/// `glue` with a space on either side.
pub open spec fn padded_for_two(glue: Seq<char>) -> Seq<char> {
    seq![' '] + glue + seq![' ']
}

/// `glue` with a comma and a space before it and a space after it.
pub open spec fn padded_for_many(glue: Seq<char>) -> Seq<char> {
    seq![',', ' '] + glue + seq![' ']
}

/// The items with `sep` between each and the next.
pub open spec fn interspersed(items: Seq<Seq<char>>, sep: Seq<char>) -> Seq<char>
    decreases items.len(),
{
    if items.len() == 0 {
        Seq::empty()
    } else if items.len() == 1 {
        items[0]
    } else {
        interspersed(items.drop_last(), sep) + sep + items.last()
    }
}

/// The items joined with serial commas and `glue`.
///
/// ```text
/// 0: ""
/// 1: "first"
/// 2: "first <glue> last"
/// n: "first, second, …, <glue> last"
/// ```
pub open spec fn joined(items: Seq<Seq<char>>, glue: Seq<char>) -> Seq<char> {
    if items.len() == 0 {
        Seq::empty()
    } else if items.len() == 1 {
        items[0]
    } else if items.len() == 2 {
        items[0] + padded_for_two(glue) + items[1]
    } else {
        interspersed(items.drop_last(), comma_space()) + padded_for_many(glue) + items.last()
    }
}

/// The number of bytes that the join of `items` with `glue` takes, counted
/// from the lengths alone.
///
/// Between two items stand the glue and a space on either side. Among three
/// or more, each of the `n - 1` junctions costs two bytes, and the last one
/// the glue and one more space besides.
pub open spec fn joined_len(items: Seq<Seq<char>>, glue: Seq<char>) -> nat {
    if items.len() == 0 {
        0
    } else if items.len() == 1 {
        byte_len(items[0])
    } else if items.len() == 2 {
        byte_len(items[0]) + byte_len(items[1]) + 2 + byte_len(glue)
    } else {
        (total_byte_len(items) + 2 * (items.len() - 1) + byte_len(glue) + 1) as nat
    }
}

/// The number of bytes that `items` take with `sep` between each and the
/// next.
pub open spec fn interspersed_len(items: Seq<Seq<char>>, sep: Seq<char>) -> nat {
    if items.len() == 0 {
        0
    } else {
        (total_byte_len(items) + (items.len() - 1) * byte_len(sep)) as nat
    }
}

/// The comma and the space take two bytes, a space takes one.
pub proof fn lemma_separator_lens()
    ensures
        byte_len(comma_space()) == 2,
        byte_len(seq![' ']) == 1,
{
    lemma_byte_len_ascii(comma_space());
    lemma_byte_len_ascii(seq![' ']);
}

/// The paddings add two and three bytes to the glue.
pub proof fn lemma_padded_lens(glue: Seq<char>)
    ensures
        byte_len(padded_for_two(glue)) == byte_len(glue) + 2,
        byte_len(padded_for_many(glue)) == byte_len(glue) + 3,
{
    lemma_separator_lens();
    lemma_byte_len_concat(seq![' '], glue);
    lemma_byte_len_concat(seq![' '] + glue, seq![' ']);
    lemma_byte_len_concat(seq![',', ' '], glue);
    lemma_byte_len_concat(seq![',', ' '] + glue, seq![' ']);
}

/// An interspersed text takes the bytes of its items and of the separators
/// between them.
pub proof fn lemma_interspersed_len(items: Seq<Seq<char>>, sep: Seq<char>)
    ensures
        byte_len(interspersed(items, sep)) == interspersed_len(items, sep),
    decreases items.len(),
{
    if items.len() == 0 {
        assert(byte_len(Seq::<char>::empty()) == 0);
    } else if items.len() == 1 {
        assert(total_byte_len(items.drop_last()) == 0);
        assert(items.last() == items[0]);
        assert((items.len() - 1) * byte_len(sep) == 0) by (nonlinear_arith)
            requires
                items.len() == 1,
        ;
    } else {
        let init = items.drop_last();
        lemma_interspersed_len(init, sep);
        assert(total_byte_len(items) == total_byte_len(init) + byte_len(items.last()));
        lemma_byte_len_concat(interspersed(init, sep), sep);
        lemma_byte_len_concat(interspersed(init, sep) + sep, items.last());
        assert((init.len() - 1) * byte_len(sep) + byte_len(sep) == (items.len() - 1) * byte_len(
            sep,
        )) by (nonlinear_arith)
            requires
                init.len() == items.len() - 1,
        ;
    }
}

/// The length counted beforehand is the length of the text that the join
/// yields.
pub proof fn lemma_joined_len(items: Seq<Seq<char>>, glue: Seq<char>)
    ensures
        byte_len(joined(items, glue)) == joined_len(items, glue),
{
    lemma_padded_lens(glue);
    lemma_separator_lens();
    if items.len() == 0 {
    } else if items.len() == 1 {
    } else if items.len() == 2 {
        lemma_byte_len_concat(items[0], padded_for_two(glue));
        lemma_byte_len_concat(items[0] + padded_for_two(glue), items[1]);
    } else {
        let init = items.drop_last();
        let list = interspersed(init, comma_space());
        lemma_interspersed_len(init, comma_space());
        lemma_byte_len_concat(list, padded_for_many(glue));
        lemma_byte_len_concat(list + padded_for_many(glue), items.last());
    }
}

/// One more item after a list: the separator, then the item.
pub proof fn lemma_interspersed_push(items: Seq<Seq<char>>, sep: Seq<char>, next: Seq<char>)
    requires
        items.len() > 0,
    ensures
        interspersed(items.push(next), sep) == interspersed(items, sep) + sep + next,
{
    assert(items.push(next).drop_last() =~= items);
}

/// One more item of `items` after the first `k`: the separator, unless the
/// item is the first, then the item.
pub proof fn lemma_interspersed_take(items: Seq<Seq<char>>, sep: Seq<char>, k: int)
    requires
        0 <= k < items.len(),
    ensures
        interspersed(items.take(k + 1), sep) == if k == 0 {
            items[0]
        } else {
            interspersed(items.take(k), sep) + sep + items[k]
        },
{
    assert(items.take(k + 1) =~= items.take(k).push(items[k]));
    if k > 0 {
        lemma_interspersed_push(items.take(k), sep, items[k]);
    }
}

} // verus!
