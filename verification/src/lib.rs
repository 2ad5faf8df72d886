//! Verified core of the `sam` toolkit: the site's text cipher, routing,
//! markdown and screen logic; the knowledge graph, its note editor and its
//! interactive app; the budget editor's interactive app and form rules; the
//! citizenship day counter; the project dashboard's classifiers; and the
//! script runner's release and cache naming rules.

pub mod cache;
pub mod charts;
pub mod cipher;
pub mod cli;
pub mod config;
pub mod crypt;
pub mod data;
pub mod budget;
pub mod budget_app;
pub mod editor;
pub mod graph_app;
pub mod extract;
pub mod highlight;
pub mod home;
pub mod image;
pub mod hit;
pub mod in_canada;
pub mod knowledge_graph;
pub mod manifest;
pub mod markdown;
pub mod panes;
pub mod posts;
pub mod projects;
pub mod project_laws;
pub mod shell;
pub mod site_path;
pub mod text;
pub mod tui;
pub mod tui_app;
pub mod update;
