pub mod msg;

pub use msg::GET_VERSION::GET_VERSION;
pub use msg::VERSION::VERSION;
pub use msg::VERSION::VersionNumberEntry;
