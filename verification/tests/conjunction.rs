use oxford_join::conjunction::Conjunction;
use oxford_join::AsText;
use std::borrow::Borrow;

const CTEST: [Conjunction; 7] = [
    Conjunction::Ampersand,
    Conjunction::And,
    Conjunction::AndOr,
    Conjunction::Nor,
    Conjunction::Or,
    Conjunction::Other("Boo"),
    Conjunction::Plus,
];

#[test]
fn conjunction_len() {
    for c in CTEST {
        assert_eq!(c.len(), c.as_str().len());
        assert!(!c.is_empty());

        // Version two.
        match c.as_str_2() {
            // Should match if spaces are added.
            Ok(s) => {
                assert_eq!(format!(" {} ", c.as_str()), s);
            },
            // Should match exactly because custom.
            Err(s) => {
                assert_eq!(c.as_str(), s);
            },
        }

        // Version N.
        match c.as_str_n() {
            // Should match with stuff on the ends.
            Ok(s) => {
                assert_eq!(format!(", {} ", c.as_str()), s);
            },
            // Should match exactly because custom.
            Err(s) => {
                assert_eq!(c.as_str(), s);
            },
        }
    }

    assert!(Conjunction::Other("").is_empty());
}

#[test]
fn conjunction_texts() {
    assert_eq!(Conjunction::Ampersand.as_str(), "&");
    assert_eq!(Conjunction::And.as_str(), "and");
    assert_eq!(Conjunction::AndOr.as_str(), "and/or");
    assert_eq!(Conjunction::Nor.as_str(), "nor");
    assert_eq!(Conjunction::Or.as_str(), "or");
    assert_eq!(Conjunction::Plus.as_str(), "+");
    assert_eq!(Conjunction::Other("plus").as_str(), "plus");
}

#[test]
fn conjunction_lengths_are_exact() {
    assert_eq!(Conjunction::Ampersand.len(), 1);
    assert_eq!(Conjunction::And.len(), 3);
    assert_eq!(Conjunction::AndOr.len(), 6);
    assert_eq!(Conjunction::Nor.len(), 3);
    assert_eq!(Conjunction::Or.len(), 2);
    assert_eq!(Conjunction::Plus.len(), 1);
    assert_eq!(Conjunction::Other("").len(), 0);
    // Bytes, not characters.
    assert_eq!(Conjunction::Other("où").len(), 3);
    assert_eq!(Conjunction::Other("и").len(), 2);
}

#[test]
fn conjunction_padded_for_two() {
    assert_eq!(Conjunction::Ampersand.as_str_2(), Ok(" & "));
    assert_eq!(Conjunction::And.as_str_2(), Ok(" and "));
    assert_eq!(Conjunction::AndOr.as_str_2(), Ok(" and/or "));
    assert_eq!(Conjunction::Nor.as_str_2(), Ok(" nor "));
    assert_eq!(Conjunction::Or.as_str_2(), Ok(" or "));
    assert_eq!(Conjunction::Plus.as_str_2(), Ok(" + "));
    assert_eq!(Conjunction::Other("plus").as_str_2(), Err("plus"));
}

#[test]
fn conjunction_padded_for_many() {
    assert_eq!(Conjunction::Ampersand.as_str_n(), Ok(", & "));
    assert_eq!(Conjunction::And.as_str_n(), Ok(", and "));
    assert_eq!(Conjunction::AndOr.as_str_n(), Ok(", and/or "));
    assert_eq!(Conjunction::Nor.as_str_n(), Ok(", nor "));
    assert_eq!(Conjunction::Or.as_str_n(), Ok(", or "));
    assert_eq!(Conjunction::Plus.as_str_n(), Ok(", + "));
    assert_eq!(Conjunction::Other("plus").as_str_n(), Err("plus"));
}

#[test]
fn conjunction_only_custom_can_be_empty() {
    for c in CTEST {
        assert!(!c.is_empty());
    }
    assert!(Conjunction::Other("").is_empty());
    assert!(!Conjunction::Other(" ").is_empty());
}

#[test]
fn conjunction_default_is_and() {
    assert_eq!(Conjunction::default(), Conjunction::And);
}

#[test]
fn conjunction_from_trims() {
    assert_eq!(Conjunction::from(" plus "), Conjunction::Other("plus"));
    assert_eq!(Conjunction::from("\t\n as well as \r\n"), Conjunction::Other("as well as"));
    assert_eq!(Conjunction::from("plus"), Conjunction::Other("plus"));
    assert_eq!(Conjunction::from("   "), Conjunction::Other(""));
    assert_eq!(Conjunction::from(""), Conjunction::Other(""));
    assert!(Conjunction::from(" \u{3000} ").is_empty());
    // Only the outside is trimmed.
    assert_eq!(Conjunction::from(" a  b ").as_str(), "a  b");
    let c: Conjunction = " or else ".into();
    assert_eq!(c.as_str(), "or else");
}

/// The white space that is trimmed is the Unicode property White_Space,
/// code point by code point.
#[test]
fn conjunction_from_trims_white_space_only() {
    let white = |n: u32| -> bool {
        (0x09..=0x0D).contains(&n)
            || n == 0x20
            || n == 0x85
            || n == 0xA0
            || n == 0x1680
            || (0x2000..=0x200A).contains(&n)
            || n == 0x2028
            || n == 0x2029
            || n == 0x202F
            || n == 0x205F
            || n == 0x3000
    };
    let mut buf = String::new();
    for n in 0..=0x10FFFF_u32 {
        let Some(c) = char::from_u32(n) else { continue };
        buf.clear();
        buf.push(c);
        buf.push('x');
        buf.push(c);
        let trimmed = Conjunction::from(buf.as_str());
        if white(n) {
            assert_eq!(trimmed.as_str(), "x", "U+{n:04X}");
        } else {
            assert_eq!(trimmed.as_str(), buf.as_str(), "U+{n:04X}");
        }
    }
}

#[test]
fn conjunction_as_ref_and_borrow() {
    for c in CTEST {
        let a: &str = c.as_ref();
        let b: &str = c.borrow();
        assert_eq!(a, c.as_str());
        assert_eq!(b, c.as_str());
    }
}

#[test]
fn conjunction_pushes_padded_forms() {
    for c in CTEST {
        let mut out = String::from("A");
        c.push_padded_for_two(&mut out);
        assert_eq!(out, format!("A {} ", c.as_str()));

        let mut out = String::from("A, B");
        c.push_padded_for_many(&mut out);
        assert_eq!(out, format!("A, B, {} ", c.as_str()));
    }

    let mut out = String::new();
    Conjunction::Other("plus").push_padded_for_two(&mut out);
    assert_eq!(out, " plus ");
    Conjunction::Other("plus").push_padded_for_many(&mut out);
    assert_eq!(out, " plus , plus ");

    // An empty one is padded all the same.
    let mut out = String::new();
    Conjunction::Other("").push_padded_for_two(&mut out);
    assert_eq!(out, "  ");
    let mut out = String::new();
    Conjunction::Other("").push_padded_for_many(&mut out);
    assert_eq!(out, ",  ");
}

#[test]
fn conjunction_is_a_text() {
    for c in CTEST {
        assert_eq!(c.as_text(), c.as_str());
    }
}
