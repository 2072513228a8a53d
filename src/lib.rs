pub mod context;
pub mod diagram;
pub mod level;
pub mod logger;
pub mod text;
pub mod tracker;
