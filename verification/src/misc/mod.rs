pub mod ufind;
pub mod inf;
