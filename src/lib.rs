pub mod dispatch;
pub mod host;
pub mod laws;
pub mod library;
pub mod loader;
pub mod lookup;
pub mod parser;
pub mod script;
pub mod text;
pub mod value;
pub mod vm;
