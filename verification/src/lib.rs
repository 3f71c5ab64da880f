//! Safe value types and decisions for BSD sockets.

pub mod handle;
pub mod order;
pub mod quad;
pub mod safe;
pub mod structs;

pub use handle::Socket;
pub use quad::inet_addr;
pub use structs::AddressFamily;
pub use structs::BindFamily;
pub use structs::Inet6SockAddr;
pub use structs::InetSockAddr;
pub use structs::IpProto;
pub use structs::SocketType;
pub use structs::UnixSockAddr;
