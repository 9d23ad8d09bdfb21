//! Reading words key by key as they are typed, with tab completion.

pub mod completer;
pub mod quotes;
pub mod raw;
pub mod token;
