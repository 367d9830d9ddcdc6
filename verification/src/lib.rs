//! Verified core of a Markdown editor: document analysis, HTML and Word
//! export assembly, resource URL rewriting and settings normalization.
pub mod text;
pub mod paths;
pub mod settings;
pub mod assets;
pub mod model;
pub mod workspace;
pub mod preview;
pub mod html;
pub mod docx;
pub mod export;
pub mod shell;
pub mod sidebar;
