//! A keyboard-driven application launcher: the catalog of installed
//! applications, the search filter, the launcher's window state and what
//! each key does to it, the command line an entry starts, and where an
//! entry's icon is looked for.
pub mod text;
pub mod app;
pub mod desktop;
pub mod command;
pub mod catalog;
pub mod scan;
pub mod icon;
pub mod launcher;
