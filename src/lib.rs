//! A manager-side SNMP (v1/v2c) client core: a verified BER codec for the
//! SNMP message grammar, request construction, response interpretation,
//! the retry policy of one exchange, the subtree-walk engine and the
//! textual rendering of values. Sockets live outside this library.
pub mod text;
pub mod oid;
pub mod ber;
pub mod oid_ber;
pub mod model;
pub mod message;
pub mod decode;
pub mod error;
pub mod session;
pub mod walk;
pub mod render;

pub use crate::error::SnmpError;
pub use crate::message::{BulkPdu, Message, Pdu, SimplePdu, Value, VarBind};
pub use crate::model::{PduKind, Version};
pub use crate::oid::Oid;
pub use crate::render::render;
pub use crate::session::{after_attempt, interpret_response, Attempt, Next, Session, MAX_ATTEMPTS};
pub use crate::walk::{Walk, WalkEntry, WalkStep};
