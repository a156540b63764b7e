//! Catalog synchronization and skill-discovery engine.
//!
//! Repositories of "skill" packages are fetched into local working copies,
//! scanned for skill definition documents, cached, and merged with user
//! state - custom repositories, favorites, installed skills - into the
//! views a front-end consumes.
//!
//! The modules follow the data flow: [`frontmatter`] parses a definition
//! document's header, [`detect`] finds the scan root inside a working copy,
//! [`scan`] builds skill records, [`cache`] renders and parses the
//! per-repository cache side-file, [`fetched`], [`favorites`] and
//! [`reconcile`] keep and merge the persisted state, and [`install`],
//! [`fetch`] and [`clock`] hold the fetcher's and installer's decisions.

pub mod cache;
pub mod clock;
pub mod detect;
pub mod favorites;
pub mod fetch;
pub mod fetched;
pub mod frontmatter;
pub mod install;
pub mod models;
pub mod reconcile;
pub mod scan;
pub mod strutil;
