//! nanoss: the logic of a static site generator.
pub mod assets;
pub mod cache;
pub mod calendar;
pub mod config;
pub mod data;
pub mod failure;
pub mod fingerprint;
pub mod frontmatter;
pub mod fspath;
pub mod html;
pub mod images;
pub mod islands;
pub mod json;
pub mod links;
pub mod markdown;
pub mod metrics;
pub mod observability;
pub mod order;
pub mod organization;
pub mod page;
pub mod pathorder;
pub mod pattern;
pub mod pipeline;
pub mod plugins;
pub mod project;
pub mod registry;
pub mod route;
pub mod scaffold;
pub mod semantic;
pub mod seo;
pub mod server;
pub mod templates;
pub mod text;
pub mod theme;
pub mod validation;
pub mod watch;
