pub mod a_star;
pub mod bisection_method;
pub mod common;
pub mod pretty_print;
pub mod store;
pub mod timeout;
pub mod timer;
