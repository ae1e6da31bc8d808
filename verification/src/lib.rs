pub mod buffer;
pub mod editor;
pub mod settings;
pub mod status_line;
pub mod string;
pub mod terminal;
pub mod theme;
pub mod vec_ext;
