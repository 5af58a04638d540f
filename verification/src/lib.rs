pub mod entity;
pub mod service;
pub mod util;
