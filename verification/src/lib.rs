//! A codec for the DNS wire message format: bit-exact header packing,
//! domain-name compression with back references, and typed resource
//! records, verified down to the bytes.

pub mod builder;
pub mod dns_record;
pub mod enums;
pub mod errors;
pub mod labels;
pub mod parser;
pub mod question;
pub mod records;
pub mod utils;

pub use builder::DnsMessageBuilder;
pub use dns_record::DnsRecord;
pub use enums::{Class, Qclass, Qtype, Type, OPCODE, QR, RCODE};
pub use errors::{DnsMsgError, Error};
pub use labels::{encode_labels, parse_labels, LabelTable};
pub use parser::parse;
pub use question::Question;
pub use records::{Ipv4Address, Record, RecordPayload, RecordPreamble};
pub use utils::{append_u16, write_u16, write_u32};
