pub mod connector;
pub mod diagram;
pub mod fpp;
pub mod fpp_laws;
pub mod node;
