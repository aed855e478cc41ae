//! A first-match-wins request router: route patterns are compiled into
//! structured values, stored in registration order, and matched against a
//! request's method and path.

pub mod cli;
pub mod path;
pub mod pattern;
pub mod providers;
pub mod router;
pub mod text;

pub use pattern::{CompileError, MethodSpec, PathSegmentSpec, Pattern};
pub use providers::{HttpMethodProvider, UrlPathProvider};
pub use router::{MatchResult, Route, Router};
