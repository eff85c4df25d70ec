//! Verified core of the Shuffle file explorer: text and path handling, fuzzy
//! ranking, the tab/pane workspace model, themes and small formatting rules.

pub mod text;
pub mod path;
pub mod score;
pub mod order;
pub mod workspace;
pub mod layout;
pub mod keys;
pub mod palette;
pub mod index;
pub mod theme;
pub mod kind;
pub mod view;
pub mod persist;
pub mod icons;
