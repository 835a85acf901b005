//! The part of the compiler that keeps track of types, and the expressions that it types.
pub mod any_map;
pub mod compile_config;
pub mod context;
pub mod equality;
pub mod expression;
pub mod ident;
pub mod laws;
pub mod regex_cache;
pub mod state;
pub mod type_def;
