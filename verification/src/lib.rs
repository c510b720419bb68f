//! A small web server core: a fixed-size worker pool modelled as a state
//! machine, and the request/response handling it is fed with.

pub mod dispatch;
pub mod handler;
pub mod headers;
pub mod pool;
pub mod request;
pub mod response;
pub mod text;
pub mod worker;
