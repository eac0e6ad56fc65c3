//! Core of a secure tunneling endpoint: a fixed-size encrypted packet codec
//! and a single-threaded connection multiplexer with buffered, suspension-aware
//! reads and writes.

mod chunks;
mod codec;
mod mux;
mod ports;

pub use chunks::{concat_bytes, lemma_concat_push, lemma_resumed_writes_compose};
pub use mux::{drain_some_writeable, read_until_blocks, DrainOutcome, MuxError, Registry};
pub use codec::{aead_cipher, aead_tag, is_packed, key_id_bytes, masked_key_id, lemma_plaintext_layout, pack, packet_bytes, plaintext_bytes, write_opcode, zero_key, OpCode, PackError, MAX_USER_DATA, MTU, PLAINTEXT_LEN};
pub use ports::{ByteSink, ByteSource, ReadOutcome, ScriptedSink, ScriptedSource, WriteOutcome};
