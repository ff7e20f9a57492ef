//! Core of a code-search result viewer: merging per-file match windows into
//! ordered line listings, ranking repositories, folding paginated fetches into
//! an existing result set, building source-browser links, and projecting the
//! merged results into renderable output.

pub mod backends;
pub mod flatten;
pub mod merge;
pub mod rank;
pub mod render;
pub mod results;
pub mod session;
pub mod text;
pub mod url;

pub use backends::{backends, is_valid_backend};
pub use flatten::{flatten, File, Line};
pub use merge::merge_partial;
pub use rank::rank_results;
pub use render::{format_condensed, render_default};
pub use results::{
    HoundConfig, HoundResponse, HoundResults, Match, RepoConfig, RepoMatch, RepoResult,
    SearchOptions, UrlPattern,
};
pub use url::build_url;
