//! Preview rendering: front matter, outline, statistics, the HTML document
//! and the resource URLs of its exported form.
pub mod front_matter;
pub mod outline;
pub mod urls;
pub mod renderer;
