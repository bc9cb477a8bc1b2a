pub mod cache;
pub mod config;
pub mod peers;
pub mod protocol;
pub mod routing;
pub mod topic;
pub mod znet;

pub use cache::KeyedCache;
pub use config::Args;
pub use peers::{LivelinessKind, PeerTable};
pub use protocol::Message;
pub use routing::{dispatch_msg, DispatchError};
pub use znet::{Queryable, Subscriber};
