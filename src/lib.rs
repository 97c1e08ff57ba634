pub mod amount;
pub mod keys;
pub mod dhke;
pub mod nut00;
pub mod keyset_cache;
pub mod outputs;
pub mod store;
pub mod validation_lemmas;
pub mod inputs;
