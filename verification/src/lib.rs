//! Dependency graphs of issues.
//!
//! The text of an issue says what the issue depends on: in lines that start
//! with "depends on", and in the lines of task lists. `parse` reads these
//! relations; `reference` holds what a reference to an issue is made of, and
//! `matcher` the searches that find one. `builder` takes the issues in as
//! nodes and resolves the relations between them into a graph, `chart`; what
//! is shown of a graph is decided by its filter. `render` writes a graph as
//! the text of a flowchart, and `facade` leads from exported issues to the
//! graph. `ordered` holds the insertion-ordered collections that the graph is
//! kept in, `text` and `part` the scanning of strings, `search` and
//! `selection` what a viewer of the graph needs to find and to pick nodes.

pub mod builder;
pub mod chart;
pub mod facade;
pub mod github;
pub mod matcher;
pub mod ordered;
pub mod parse;
pub mod part;
pub mod reference;
pub mod render;
pub mod search;
pub mod selection;
pub mod text;
pub mod warning;
