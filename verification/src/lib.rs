//! What the desktop organizer Orbirus decides and computes, without its
//! windows, files and drawing: the layout of fences on a desktop and everything
//! that changes it, the state of fence windows, their geometry, the menus and
//! dialogs, and the small tools that these need.

pub mod color;
pub mod config;
pub mod desktop;
pub mod dialog;
pub mod fence;
pub mod geometry;
pub mod icons;
pub mod input;
pub mod layout;
pub mod list;
pub mod menu;
pub mod number;
pub mod path;
pub mod render;
pub mod rules;
pub mod rules_ui;
pub mod snapshots;
pub mod sorting;
pub mod startup;
pub mod text;
