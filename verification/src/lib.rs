//! Array-backed associative containers.
//!
//! Three variants share one storage model, a contiguous sequence of
//! key-value pairs:
//! - [`vec::VecMap`], an unordered map with linear-scan lookup and
//!   constant-time removal by swapping with the last slot;
//! - [`binary::BinaryMap`], a map kept sorted by key, with binary search for
//!   every lookup and shift-based insertion and removal;
//! - [`boxed::BoxMap`], a fixed-length snapshot with the unordered map's
//!   read-only surface.
//!
//! Keys are compared through the [`key::EqKey`] and [`key::OrdKey`] traits,
//! whose executable comparisons decide the abstract equality and order that
//! every contract is stated over. The models behind those contracts live in
//! [`pairs`], and the laws the containers obey are proved in [`laws`].

pub mod key;
pub mod pairs;
pub mod vec;
pub mod binary;
pub mod boxed;
pub mod laws;

pub use crate::vec::Drain;
pub use crate::vec::Entry;
pub use crate::vec::IntoIter;
pub use crate::vec::IntoKeys;
pub use crate::vec::IntoValues;
pub use crate::vec::Iter;
pub use crate::vec::Keys;
pub use crate::vec::OccupiedEntry;
pub use crate::vec::VacantEntry;
pub use crate::vec::Values;
pub use crate::vec::VecMap;
