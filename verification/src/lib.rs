pub mod date;
pub mod feed;
pub mod fetch;
pub mod model;
pub mod order;
pub mod outline;
pub mod partition;
pub mod pipeline;
pub mod render;
