//! One's-complement checksum arithmetic and a link-layer hardware address
//! type, the two error-prone primitives under an Internet-protocol packet
//! library: summing a byte buffer as 16-bit big-endian words with one word
//! position forced to zero, end-around-carry folding, the IPv4 and IPv6
//! pseudo-header variants, big-endian octet conversion, and a six-octet
//! hardware address with parsing and formatting.

mod addr;
mod checksum;
mod octets;

pub use addr::byte_text;
pub use addr::canonical_mac_text;
pub use addr::comp_val_at;
pub use addr::component_ok;
pub use addr::component_val;
pub use addr::hex_digit_char;
pub use addr::hex_value;
pub use addr::is_hex_digit;
pub use addr::lemma_format_parse_round_trip;
pub use addr::lemma_parse_case_insensitive;
pub use addr::lemma_parse_of_format;
pub use addr::lemma_parse_valid_text;
pub use addr::lower_hex_char;
pub use addr::lower_hex_text;
pub use addr::mac_from;
pub use addr::mac_text;
pub use addr::parse_mac;
pub use addr::scan_parts;
pub use addr::text_mac;
pub use addr::valid_mac_text;
pub use addr::Ipv4Addr;
pub use addr::Ipv6Addr;
pub use addr::MacAddr;
pub use addr::ParseMacAddrErr;
pub use octets::Octets;
pub use checksum::checksum;
pub use checksum::checksum_spec;
pub use checksum::finalize_checksum;
pub use checksum::finalize_spec;
pub use checksum::fold16;
pub use checksum::ipv4_checksum;
pub use checksum::ipv4_checksum_spec;
pub use checksum::ipv4_words;
pub use checksum::ipv6_checksum;
pub use checksum::ipv6_checksum_spec;
pub use checksum::ipv6_words;
pub use checksum::lemma_checksum_round_trip;
pub use checksum::lemma_finalize_is_complement;
pub use checksum::lemma_fold16_idempotent;
pub use checksum::lemma_odd_tail_contribution;
pub use checksum::odd_tail;
pub use checksum::sum_be_words;
pub use checksum::word_at;
pub use checksum::words_sum;
pub use checksum::words_sum_upto;
