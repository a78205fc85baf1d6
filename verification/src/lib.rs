//! A local search-and-launch engine: discovers launchable candidates,
//! ranks them by fuzzy similarity to a query, resolves icons against
//! icon-theme conventions, and decides how a selected item is launched.

pub mod crawl;
pub mod desktop;
pub mod encode;
pub mod icons;
pub mod kind;
pub mod rank;
pub mod roots;
pub mod search;
pub mod strutil;
