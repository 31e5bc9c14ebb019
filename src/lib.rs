//! Field-service group membership and monthly activity engine of a
//! congregation manager: record identities, natural ordering of names,
//! group search, membership exclusivity and report aggregation.

pub mod calendar;
pub mod exclusivity;
pub mod model;
pub mod names;
pub mod navigation;
pub mod natural_sort;
pub mod ordering;
pub mod people;
pub mod reports;
pub mod search;
pub mod text;
