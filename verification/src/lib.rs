pub mod documents;
pub mod folding;
pub mod folding_laws;
pub mod release;
pub mod server;
pub mod text;
