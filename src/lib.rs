pub mod api;
pub mod closure;
pub mod codec;
pub mod custom;
pub mod error;
pub mod exn;
pub mod file;
pub mod gc;
pub mod glue;
pub mod handle;
pub mod model;
pub mod ocaml;
pub mod resolve;
pub mod text;
pub mod types;
pub mod value;
