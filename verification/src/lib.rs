//! Join a sequence of texts with serial ("Oxford") commas and the
//! conjunction of your choice.
//!
//! ```text
//! 0: ""
//! 1: "first"
//! 2: "first <CONJUNCTION> last"
//! n: "first, second, …, <CONJUNCTION> last"
//! ```
//!
//! [`OxfordJoin`] joins slices, arrays, and the values of the ordered
//! collections; [`Conjunction::oxford_join`] joins whatever an iterator
//! yields. [`OxfordJoinFmt`] and [`JoinFmt`] write into a string that is
//! already there. What each of them yields is stated over the functions of
//! [`model`].
pub mod btree;
pub mod conjunction;
pub mod fmt;
pub mod join;
pub mod model;
pub mod text;

pub use conjunction::Conjunction;
pub use fmt::{Exhausted, JoinFmt, OxfordJoinFmt};
pub use join::OxfordJoin;
pub use text::AsText;
