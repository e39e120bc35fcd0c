//! A character-cell terminal UI engine: a pure alignment algebra, an arena of
//! rectangular widgets, bordered windows with justified printing, interactive
//! input widgets, and a compositor that paints the widget tree into a screen
//! grid in z-order.

pub mod bar;
pub mod events;
pub mod form;
pub mod grid;
pub mod inner;
pub mod inputline;
pub mod layout;
pub mod map;
pub mod menu;
pub mod misc;
pub mod prompt;
pub mod screen;
pub mod startmenu;
pub mod style;
pub mod widget;
pub mod window;
