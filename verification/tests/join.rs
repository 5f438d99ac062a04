use oxford_join::join::{total_len, two_and_glue};
use oxford_join::{Conjunction, OxfordJoin, OxfordJoinFmt};
use std::borrow::Cow;
use std::collections::{BTreeMap, BTreeSet};

/// Make sure arrays, slices, vecs, boxes, etc., all work out the same way.
fn compare<const N: usize>(arr: [&'static str; N], expected: &str) {
    assert_eq!(arr.oxford_and(), expected, "Array.");
    assert_eq!(arr.as_slice().oxford_and(), expected, "Slice.");

    let v = arr.to_vec();
    assert_eq!(v.oxford_and(), expected, "Vec.");
    assert_eq!(v.into_boxed_slice().oxford_and(), expected, "Box.");

    let v: BTreeMap<usize, &str> = arr.into_iter().enumerate().collect();
    assert_eq!(v.oxford_and(), expected, "BTreeMap.");

    let v = BTreeSet::from(arr);
    assert_eq!(v.oxford_and(), expected, "BTreeSet.");

    assert_eq!(
        OxfordJoinFmt::and(arr.as_slice()).to_string(),
        expected,
        "OxfordJoinFmt::to_string",
    );
}

const ARR0: [&str; 0] = [];
const ARR1: [&str; 1] = ["Apples"];
const ARR2: [&str; 2] = ["Apples", "Bananas"];
const ARR3: [&str; 3] = ["Apples", "Bananas", "Carrots"];
const ARR4: [&str; 4] = ["Apples", "Bananas", "Carrots", "Dates"];
const ARR5: [&str; 5] = ["Apples", "Bananas", "Carrots", "Dates", "Eggplant"];
const ARR32: [&str; 32] = [
    "0", "1", "2", "3", "4", "5", "6", "7", "8", "9", "A", "B", "C", "D", "E", "F",
    "G", "H", "I", "J", "K", "L", "M", "N", "O", "P", "Q", "R", "S", "T", "U", "V",
];

#[test]
fn t_fruit() {
    compare(ARR0, "");
    compare(ARR1, "Apples");
    compare(ARR2, "Apples and Bananas");
    compare(ARR3, "Apples, Bananas, and Carrots");
    compare(ARR4, "Apples, Bananas, Carrots, and Dates");
    compare(ARR5, "Apples, Bananas, Carrots, Dates, and Eggplant");
    compare(
        ARR32,
        "0, 1, 2, 3, 4, 5, 6, 7, 8, 9, A, B, C, D, E, F, G, H, I, J, K, L, M, N, O, P, Q, R, S, T, U, and V",
    );
}

#[test]
fn join_nothing() {
    let none: [&str; 0] = [];
    assert_eq!(none.oxford_join(Conjunction::And), "");
    assert_eq!(none.as_slice().oxford_join(Conjunction::Other("plus")), "");
}

#[test]
fn join_one() {
    assert_eq!(["Apples"].oxford_join(Conjunction::And), "Apples");
}

#[test]
fn join_two() {
    assert_eq!(["Apples", "Bananas"].oxford_join(Conjunction::Or), "Apples or Bananas");
}

#[test]
fn join_three() {
    assert_eq!(
        ["Apples", "Bananas", "Oranges"].oxford_join(Conjunction::AndOr),
        "Apples, Bananas, and/or Oranges",
    );
}

#[test]
fn join_four() {
    assert_eq!(
        ["Apples", "Bananas", "Carrots", "Dates"].oxford_join(Conjunction::And),
        "Apples, Bananas, Carrots, and Dates",
    );
}

#[test]
fn join_custom() {
    assert_eq!(["A", "B"].oxford_join(Conjunction::Other("plus")), "A plus B");
    assert_eq!(["A", "B", "C"].oxford_join(Conjunction::Other("plus")), "A, B, plus C");
}

#[test]
fn join_empty_custom() {
    // Degenerate, but well defined.
    assert_eq!(["A", "B"].oxford_join(Conjunction::Other("")), "A  B");
    assert_eq!(["A", "B", "C"].oxford_join(Conjunction::Other("")), "A, B,  C");
}

#[test]
fn join_every_conjunction() {
    let set = ["Apples", "Oranges", "Bananas"];
    assert_eq!(set.oxford_join(Conjunction::Ampersand), "Apples, Oranges, & Bananas");
    assert_eq!(set.oxford_join(Conjunction::And), "Apples, Oranges, and Bananas");
    assert_eq!(set.oxford_join(Conjunction::AndOr), "Apples, Oranges, and/or Bananas");
    assert_eq!(set.oxford_join(Conjunction::Nor), "Apples, Oranges, nor Bananas");
    assert_eq!(set.oxford_join(Conjunction::Or), "Apples, Oranges, or Bananas");
    assert_eq!(set.oxford_join(Conjunction::Plus), "Apples, Oranges, + Bananas");

    let set = ["Apples", "Oranges"];
    assert_eq!(set.oxford_join(Conjunction::Ampersand), "Apples & Oranges");
    assert_eq!(set.oxford_join(Conjunction::And), "Apples and Oranges");
    assert_eq!(set.oxford_join(Conjunction::AndOr), "Apples and/or Oranges");
    assert_eq!(set.oxford_join(Conjunction::Nor), "Apples nor Oranges");
    assert_eq!(set.oxford_join(Conjunction::Or), "Apples or Oranges");
    assert_eq!(set.oxford_join(Conjunction::Plus), "Apples + Oranges");
}

#[test]
fn join_shorthands() {
    let set = ["Apples", "Oranges", "Bananas"];
    assert_eq!(set.oxford_and(), "Apples, Oranges, and Bananas");
    assert_eq!(set.oxford_and_or(), "Apples, Oranges, and/or Bananas");
    assert_eq!(set.oxford_nor(), "Apples, Oranges, nor Bananas");
    assert_eq!(set.oxford_or(), "Apples, Oranges, or Bananas");

    let set = ["Apples", "Oranges"];
    assert_eq!(set.oxford_join(Conjunction::And), set.oxford_and());
    assert_eq!(set.oxford_join(Conjunction::AndOr), set.oxford_and_or());
    assert_eq!(set.oxford_join(Conjunction::Nor), set.oxford_nor());
    assert_eq!(set.oxford_join(Conjunction::Or), set.oxford_or());
}

#[test]
fn join_owned_strings() {
    let set = vec![String::from("x"), String::from("y"), String::from("z")];
    assert_eq!(set.oxford_and(), "x, y, and z");
    let refs: Vec<&String> = set.iter().collect();
    assert_eq!(refs.oxford_or(), "x, y, or z");
}

#[test]
fn join_borrows_when_it_can() {
    let none: [&str; 0] = [];
    assert!(matches!(none.oxford_and(), Cow::Borrowed("")));
    assert!(matches!(["Apples"].oxford_and(), Cow::Borrowed("Apples")));
    assert!(matches!(["Apples", "Bananas"].oxford_and(), Cow::Owned(_)));
    assert!(matches!(["Apples", "Bananas", "Carrots"].oxford_and(), Cow::Owned(_)));

    let set = BTreeSet::from(["Apples"]);
    assert!(matches!(set.oxford_and(), Cow::Borrowed("Apples")));
    let set = BTreeSet::from(["Apples", "Bananas"]);
    assert!(matches!(set.oxford_and(), Cow::Owned(_)));
    let set: BTreeSet<&str> = BTreeSet::new();
    assert!(matches!(set.oxford_and(), Cow::Borrowed("")));
}

/// The length counted beforehand, by the formula.
fn predicted(items: &[String], glue: &Conjunction) -> usize {
    let sum: usize = items.iter().map(String::len).sum();
    match items.len() {
        0 => 0,
        1 => sum,
        2 => sum + 2 + glue.len(),
        n => sum + 2 * (n - 1) + glue.len() + 1,
    }
}

#[test]
fn join_length_is_as_predicted() {
    let glues = [
        Conjunction::Ampersand,
        Conjunction::And,
        Conjunction::AndOr,
        Conjunction::Nor,
        Conjunction::Or,
        Conjunction::Plus,
        Conjunction::Other("as well as"),
        Conjunction::Other("où"),
        Conjunction::Other(""),
    ];
    for n in 0..=40_usize {
        let items: Vec<String> = (0..n).map(|i| "é".repeat(i % 5) + &i.to_string()).collect();
        let map: BTreeMap<usize, &String> = items.iter().enumerate().collect();
        for glue in glues {
            let want = predicted(&items, &glue);
            let out = items.oxford_join(glue);
            assert_eq!(out.len(), want);
            assert_eq!(map.oxford_join(glue).len(), want);
            assert_eq!(OxfordJoinFmt::new(items.as_slice(), glue).to_string().len(), want);
            assert_eq!(glue.oxford_join(items.iter()).len(), want);
            if let Cow::Owned(out) = out {
                assert!(out.capacity() >= want);
            }
        }
    }
}

#[test]
fn join_length_exact_values() {
    // 6 + 7 + 7 bytes of items, two junctions, "and", one more space.
    let out = ["Apples", "Bananas", "Carrots"].oxford_and();
    assert_eq!(out.len(), 20 + 4 + 3 + 1);
    // 6 + 7 bytes of items, "or", a space on either side.
    let out = ["Apples", "Bananas"].oxford_or();
    assert_eq!(out.len(), 13 + 2 + 2);
}

#[test]
fn join_shapes_agree() {
    let items = ["alpha", "beta", "delta", "gamma", "omega"];
    let glues = [
        Conjunction::Ampersand,
        Conjunction::And,
        Conjunction::AndOr,
        Conjunction::Nor,
        Conjunction::Or,
        Conjunction::Plus,
    ];
    for n in 0..=items.len() {
        let slice = &items[..n];
        let map: BTreeMap<u8, &str> = slice.iter().copied().zip(10_u8..).map(|(v, k)| (k, v)).collect();
        let set: BTreeSet<&str> = slice.iter().copied().collect();
        for glue in glues {
            let want = slice.oxford_join(glue).into_owned();
            assert_eq!(map.oxford_join(glue), want);
            assert_eq!(set.oxford_join(glue), want);
        }
    }
}

#[test]
fn join_map_goes_by_key() {
    let mut map: BTreeMap<i32, &str> = BTreeMap::new();
    map.insert(3, "first");
    map.insert(-1, "zeroth");
    map.insert(7, "second");
    assert_eq!(map.oxford_and(), "zeroth, first, and second");
    map.insert(5, "between");
    assert_eq!(map.oxford_or(), "zeroth, first, between, or second");
}

#[test]
fn join_set_goes_by_sort_order() {
    let set = BTreeSet::from(["pear", "apple", "fig", "apple"]);
    assert_eq!(set.oxford_and(), "apple, fig, and pear");
    let set = BTreeSet::from([String::from("b"), String::from("a")]);
    assert_eq!(set.oxford_join(Conjunction::Other("then")), "a then b");
}

#[test]
fn join_two_and_glue() {
    assert_eq!(two_and_glue("A", "B", Conjunction::And), "A and B");
    assert_eq!(two_and_glue("A", "B", Conjunction::Other("plus")), "A plus B");
    assert_eq!(two_and_glue("", "", Conjunction::Plus), " + ");
    assert_eq!(two_and_glue("é", "ü", Conjunction::Other("où")).len(), 2 + 2 + 2 + 3);
}

#[test]
fn join_total_len() {
    let none: [&str; 0] = [];
    assert_eq!(total_len(&none), 0);
    assert_eq!(total_len(&["Apples", "Bananas", "Carrots"]), 20);
    assert_eq!(total_len(&["é", "", "abc"]), 5);
}
