//! An HTTP/2 client on top of solicit's protocol handling: the buffering of frames between the
//! connection and the socket, the building of requests, and the bookkeeping that pairs requests
//! with HTTP/2 streams.
pub mod client;
pub mod io;
