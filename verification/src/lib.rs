#![allow(unused_imports)]

pub mod conf;
pub mod defs;
pub mod domain;
pub mod engine;
pub mod paths;
pub mod strset;
pub mod text;
