//! The conjunction: the word or symbol that binds the last item of a join.
use crate::model::{padded_for_many, padded_for_two};
use crate::text::{byte_len, lemma_byte_len_ascii, str_len, AsText};
use vstd::prelude::*;
use vstd::string::StringExecFns;
use vstd::utf8::*;

verus! {

/// Whether `c` has the Unicode property `White_Space`.
pub open spec fn is_white_space(c: char) -> bool {
    let n = c as u32;
    ||| 0x09 <= n <= 0x0D
    ||| n == 0x20
    ||| n == 0x85
    ||| n == 0xA0
    ||| n == 0x1680
    ||| 0x2000 <= n <= 0x200A
    ||| n == 0x2028
    ||| n == 0x2029
    ||| n == 0x202F
    ||| n == 0x205F
    ||| n == 0x3000
}

/// `s` without its leading white space.
pub open spec fn trim_start(s: Seq<char>) -> Seq<char>
    decreases s.len(),
{
    if s.len() > 0 && is_white_space(s.first()) {
        trim_start(s.drop_first())
    } else {
        s
    }
}

/// `s` without its trailing white space.
pub open spec fn trim_end(s: Seq<char>) -> Seq<char>
    decreases s.len(),
{
    if s.len() > 0 && is_white_space(s.last()) {
        trim_end(s.drop_last())
    } else {
        s
    }
}

/// `s` without the white space on either side.
pub open spec fn trimmed(s: Seq<char>) -> Seq<char> {
    trim_end(trim_start(s))
}

/// `str::trim`: the slice without its leading and trailing white space,
/// where white space is what the Unicode property `White_Space` covers.
pub assume_specification<'a>[ str::trim ](s: &'a str) -> (r: &'a str)
    ensures
        r@ == trimmed(s@),
;

/// The glue that binds the last entry of a joined set.
///
/// With exactly two items:
/// ```text
/// first <CONJUNCTION> last
/// ```
///
/// With three or more:
/// ```text
/// first, second, …, <CONJUNCTION> last
/// ```
///
/// `Other` holds a word or symbol of the caller's own. It should be the bare
/// word: the spaces and the comma around it are added by the join.
#[derive(Debug, Copy, Clone, Eq, Hash, PartialEq)]
pub enum Conjunction<'a> {
    /// Ampersand (&).
    Ampersand,
    /// And.
    And,
    /// And/Or.
    AndOr,
    /// Nor.
    Nor,
    /// Or.
    Or,
    /// Custom entry.
    Other(&'a str),
    /// Plus (+).
    Plus,
}

impl<'a> Conjunction<'a> {
    /// The bare text of the conjunction.
    pub open spec fn text(self) -> Seq<char> {
        match self {
            Conjunction::Ampersand => seq!['&'],
            Conjunction::And => seq!['a', 'n', 'd'],
            Conjunction::AndOr => seq!['a', 'n', 'd', '/', 'o', 'r'],
            Conjunction::Nor => seq!['n', 'o', 'r'],
            Conjunction::Or => seq!['o', 'r'],
            Conjunction::Other(s) => s@,
            Conjunction::Plus => seq!['+'],
        }
    }

    /// The conjunction as it stands between two items: a space on either
    /// side.
    pub open spec fn padded_for_two(self) -> Seq<char> {
        padded_for_two(self.text())
    }

    /// The conjunction as it stands before the last of three or more items:
    /// a comma and a space before it, a space after it.
    pub open spec fn padded_for_many(self) -> Seq<char> {
        padded_for_many(self.text())
    }

    /// The string slice that stands for the conjunction: the literal of a
    /// fixed conjunction, the caller's own slice of a custom one. It is what
    /// `as_str`, `as_ref` and `borrow` hand out.
    pub open spec fn shown(&self) -> &str {
        match self {
            Conjunction::Ampersand => "&",
            Conjunction::And => "and",
            Conjunction::AndOr => "and/or",
            Conjunction::Nor => "nor",
            Conjunction::Or => "or",
            Conjunction::Other(s) => s,
            Conjunction::Plus => "+",
        }
    }

    /// The string slice that stands for the conjunction holds the text of
    /// the conjunction.
    pub proof fn lemma_shown_is_text(&self)
        ensures
            self.shown()@ == self.text(),
    {
        reveal_strlit("&");
        reveal_strlit("and");
        reveal_strlit("and/or");
        reveal_strlit("nor");
        reveal_strlit("or");
        reveal_strlit("+");
        assert(self.shown()@ =~= self.text());
    }

    /// The conjunction as a string slice.
    #[must_use]
    pub fn as_str(&self) -> (s: &str)
        ensures
            s == self.shown(),
            s@ == self.text(),
    {
        proof {
            self.lemma_shown_is_text();
        }
        match self {
            Self::Ampersand => "&",
            Self::And => "and",
            Self::AndOr => "and/or",
            Self::Nor => "nor",
            Self::Or => "or",
            Self::Other(s) => s,
            Self::Plus => "+",
        }
    }

    /// The conjunction with a space on either side, unless it is custom:
    /// a custom conjunction comes back bare, as the error, for the caller to
    /// pad.
    pub fn as_str_2(&self) -> (r: Result<&'static str, &str>)
        ensures
            r is Err <==> self is Other,
            r matches Ok(s) ==> s@ == self.padded_for_two(),
            r matches Err(s) ==> s@ == self.text(),
    {
        match self {
            Self::Ampersand => {
                proof {
                    reveal_strlit(" & ");
                }
                assert(" & "@ =~= self.padded_for_two());
                Ok(" & ")
            },
            Self::And => {
                proof {
                    reveal_strlit(" and ");
                }
                assert(" and "@ =~= self.padded_for_two());
                Ok(" and ")
            },
            Self::AndOr => {
                proof {
                    reveal_strlit(" and/or ");
                }
                assert(" and/or "@ =~= self.padded_for_two());
                Ok(" and/or ")
            },
            Self::Nor => {
                proof {
                    reveal_strlit(" nor ");
                }
                assert(" nor "@ =~= self.padded_for_two());
                Ok(" nor ")
            },
            Self::Or => {
                proof {
                    reveal_strlit(" or ");
                }
                assert(" or "@ =~= self.padded_for_two());
                Ok(" or ")
            },
            Self::Other(s) => Err(s),
            Self::Plus => {
                proof {
                    reveal_strlit(" + ");
                }
                assert(" + "@ =~= self.padded_for_two());
                Ok(" + ")
            },
        }
    }

    /// The conjunction with a comma and a space before it and a space after
    /// it, unless it is custom: a custom conjunction comes back bare, as the
    /// error, for the caller to pad.
    pub fn as_str_n(&self) -> (r: Result<&'static str, &str>)
        ensures
            r is Err <==> self is Other,
            r matches Ok(s) ==> s@ == self.padded_for_many(),
            r matches Err(s) ==> s@ == self.text(),
    {
        match self {
            Self::Ampersand => {
                proof {
                    reveal_strlit(", & ");
                }
                assert(", & "@ =~= self.padded_for_many());
                Ok(", & ")
            },
            Self::And => {
                proof {
                    reveal_strlit(", and ");
                }
                assert(", and "@ =~= self.padded_for_many());
                Ok(", and ")
            },
            Self::AndOr => {
                proof {
                    reveal_strlit(", and/or ");
                }
                assert(", and/or "@ =~= self.padded_for_many());
                Ok(", and/or ")
            },
            Self::Nor => {
                proof {
                    reveal_strlit(", nor ");
                }
                assert(", nor "@ =~= self.padded_for_many());
                Ok(", nor ")
            },
            Self::Or => {
                proof {
                    reveal_strlit(", or ");
                }
                assert(", or "@ =~= self.padded_for_many());
                Ok(", or ")
            },
            Self::Other(s) => Err(s),
            Self::Plus => {
                proof {
                    reveal_strlit(", + ");
                }
                assert(", + "@ =~= self.padded_for_many());
                Ok(", + ")
            },
        }
    }

    /// Append the conjunction to `out` as it stands between two items. A
    /// fixed conjunction is copied in one run; a custom one is padded on the
    /// way.
    pub fn push_padded_for_two(&self, out: &mut String)
        ensures
            final(out)@ == old(out)@ + self.padded_for_two(),
    {
        match self.as_str_2() {
            Ok(s) => {
                out.append(s);
            },
            Err(s) => {
                proof {
                    reveal_strlit(" ");
                }
                out.append(" ");
                out.append(s);
                out.append(" ");
                assert(out@ =~= old(out)@ + self.padded_for_two());
            },
        }
    }

    /// Append the conjunction to `out` as it stands before the last of three
    /// or more items. A fixed conjunction is copied in one run; a custom one
    /// is padded on the way.
    pub fn push_padded_for_many(&self, out: &mut String)
        ensures
            final(out)@ == old(out)@ + self.padded_for_many(),
    {
        match self.as_str_n() {
            Ok(s) => {
                out.append(s);
            },
            Err(s) => {
                proof {
                    reveal_strlit(", ");
                    reveal_strlit(" ");
                }
                out.append(", ");
                out.append(s);
                out.append(" ");
                assert(out@ =~= old(out)@ + self.padded_for_many());
            },
        }
    }

    /// The length of the conjunction in bytes.
    #[must_use]
    pub fn len(&self) -> (n: usize)
        ensures
            n == byte_len(self.text()),
            !(self is Other) ==> n == self.text().len(),
    {
        let n: usize = match self {
            Self::And | Self::Nor => 3,
            Self::Or => 2,
            Self::Ampersand | Self::Plus => 1,
            Self::AndOr => 6,
            Self::Other(s) => str_len(s),
        };
        proof {
            let t = self.text();
            if !(self is Other) {
                assert(is_ascii_chars(t));
                lemma_byte_len_ascii(t);
                assert(t.len() == n);
            }
        }
        n
    }

    /// Whether the conjunction is empty. Only a custom one can be.
    #[must_use]
    pub fn is_empty(&self) -> (b: bool)
        ensures
            b == (self.text().len() == 0),
    {
        match self {
            Self::Other(s) => s.is_empty(),
            _ => false,
        }
    }
}

impl Default for Conjunction<'_> {
    fn default() -> (c: Self)
        ensures
            c == Conjunction::And,
    {
        Conjunction::And
    }
}

impl<'a> From<&'a str> for Conjunction<'a> {
    /// A custom conjunction from `src`, without the white space around it.
    fn from(src: &'a str) -> (c: Self)
        ensures
            c is Other,
            c.text() == trimmed(src@),
    {
        Conjunction::Other(src.trim())
    }
}

impl<'a> vstd::std_specs::convert::FromSpecImpl<&'a str> for Conjunction<'a> {
    open spec fn obeys_from_spec() -> bool {
        false
    }

    /// A string slice cannot be made up in a specification, so what `from`
    /// yields is stated by its own `ensures`.
    open spec fn from_spec(src: &'a str) -> Self {
        arbitrary()
    }
}

impl AsText for Conjunction<'_> {
    open spec fn text(&self) -> Seq<char> {
        Conjunction::text(*self)
    }

    #[inline]
    fn as_text(&self) -> (s: &str) {
        self.as_str()
    }
}

impl core::borrow::Borrow<str> for Conjunction<'_> {
    /// The conjunction as a string slice: the slice that `as_str` hands
    /// out, which holds the text of the conjunction.
    #[inline]
    fn borrow(&self) -> &str
        returns
            self.shown(),
    {
        self.as_str()
    }
}

impl AsRef<str> for Conjunction<'_> {
    #[inline]
    fn as_ref(&self) -> (s: &str)
        ensures
            s == self.shown(),
            s@ == self.text(),
    {
        self.as_str()
    }
}

} // verus!
