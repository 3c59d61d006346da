//! Client-side wire protocol of a MySQL/MariaDB-compatible server: packet
//! framing, the primitive codecs, and the decoders of the messages that answer
//! a statement-prepare request.

pub mod error;
pub mod capabilities;
pub mod wire;
pub mod cursor;
pub mod codec;
pub mod framer;
pub mod messages;
pub mod com_stmt_prepare_resp;
pub mod prepare_decoder;
pub mod test_databases;
