//! From recipe documents and a meal plan to one shopping list.
//!
//! A run goes through the library in this order:
//!
//! 1. [`loader`] reads the plan document, a table ([`table`]) or an outline
//!    ([`outline`]) written in the small grammar of [`grammar`], into a
//!    [`plan::WeekPlan`].
//! 2. [`scaling::dish_requests`] lists the dishes of the plan, each with the
//!    head count that holds for it, and [`lookup`] finds the recipe of each.
//! 3. [`recipe`] reads a recipe document; [`ingredient`] takes its bullet
//!    lines apart; [`scaling`] puts the scaled amounts in their places.
//! 4. [`aggregate`] merges the ingredients of all dishes by name and writes
//!    the list.
//!
//! The library reads no files and does no arithmetic on amounts: both are
//! the caller's part. An amount is carried as a decimal numeral. Every
//! contract speaks of texts as sequences of characters ([`text`]).

pub mod aggregate;
pub mod error;
pub mod grammar;
pub mod ingredient;
pub mod loader;
pub mod lookup;
pub mod outline;
pub mod plan;
pub mod recipe;
pub mod scaling;
pub mod table;
pub mod text;
