//! A connection engine for the PostgreSQL frontend/backend protocol that
//! performs no I/O of its own.
//!
//! The crate owns the two byte buffers of a connection, the message codec,
//! the start-up handshake and the three extended-query drivers. A caller
//! owns the socket: it sends what [`PostgresRawConnection`] has queued, hands
//! over what it read, and asks the state machines what to do next.

pub mod address;
pub mod answer;
pub mod buffer;
pub mod codec;
pub mod connection;
pub mod driver;
pub mod error;
pub mod frontend;
pub mod handshake;
pub mod message;
pub mod query;
pub mod wire;

pub use connection::PostgresRawConnection;
pub use error::Error;
pub use query::PostgresQueryParameters;
