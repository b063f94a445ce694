//! A DNS message codec and an iterative resolution engine.
//!
//! The codec turns dotted domain names, headers, questions, records and
//! whole packets into their RFC 1035 wire form and back, following
//! compression pointers on the way in. The engine walks the hierarchy from
//! a root nameserver down to an authoritative answer, one query at a time;
//! the caller sends the queries and hands back the responses.

pub mod class;
pub mod constants;
pub mod dns_header;
pub mod dns_packet;
pub mod dns_question;
pub mod dns_record;
pub mod errors;
pub mod ipv4;
pub mod name;
pub mod query;
pub mod record_data;
pub mod record_type;
pub mod resolver;
pub mod wire;

pub use name::decode_compressed_name;
pub use name::decode_name;
pub use name::encode_dns_name;
pub use name::name_is_encodable;
pub use query::build_query;
pub use query::build_query_checked;
pub use query::build_query_with_id;
pub use resolver::get_answer;
pub use resolver::get_name_server;
pub use resolver::get_name_server_ip;
