//! Renders directory listings as bordered tables whose columns stay aligned
//! in the presence of colour escape sequences and wide characters.

pub mod width;
pub mod truncate;
pub mod text;
pub mod table;
pub mod theme;
pub mod entry;
pub mod kind;
pub mod clock;
pub mod listing;
pub mod args;
