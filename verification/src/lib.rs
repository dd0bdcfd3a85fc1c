pub mod charray;
pub mod chtable;
pub mod error;
pub mod gamma;
pub mod jgr;
pub mod repeat;
pub mod save;
pub mod text;
pub mod town_laws;
pub mod wire;
