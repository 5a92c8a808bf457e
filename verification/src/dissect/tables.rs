//! The value name tables and the field table: what each field is called and
//! how its value reads.

use vstd::prelude::*;

use crate::dissect::expert::{GROUPS, SEVERITIES};

verus! {

/// libpcap DLT_* values the dissector chain understands, plus common others.
pub const LINK_TYPES: [(u64, &'static str); 11] = [
    (0, "NULL/Loopback"),
    (1, "Ethernet"),
    (12, "Raw IP"),
    (101, "Raw IP"),
    (105, "IEEE 802.11 wireless LAN"),
    (108, "OpenBSD loopback"),
    (113, "Linux cooked capture v1"),
    (127, "IEEE 802.11 plus radiotap"),
    (228, "Raw IPv4"),
    (229, "Raw IPv6"),
    (276, "Linux cooked capture v2"),
];

/// Names for the values of a field.
pub const ETHERTYPES: [(u64, &'static str); 17] = [
    (0x0800, "IPv4"),
    (0x0806, "ARP"),
    (0x8035, "RARP"),
    (0x809B, "AppleTalk"),
    (0x8100, "802.1Q Virtual LAN"),
    (0x86DD, "IPv6"),
    (0x8808, "Ethernet flow control"),
    (0x8847, "MPLS unicast"),
    (0x8848, "MPLS multicast"),
    (0x8863, "PPPoE Discovery"),
    (0x8864, "PPPoE Session"),
    (0x888E, "802.1X Authentication"),
    (0x88A8, "802.1ad Provider Bridge"),
    (0x88CC, "LLDP"),
    (0x88E5, "MACsec"),
    (0x8906, "FCoE"),
    (0x9000, "Loopback"),
];

/// Names for the values of a field.
pub const IPPROTOS: [(u64, &'static str); 18] = [
    (0, "IPv6 Hop-by-Hop Option"),
    (1, "ICMP"),
    (2, "IGMP"),
    (4, "IPv4"),
    (6, "TCP"),
    (17, "UDP"),
    (41, "IPv6"),
    (43, "IPv6 Routing"),
    (44, "IPv6 Fragment"),
    (47, "GRE"),
    (50, "ESP"),
    (51, "AH"),
    (58, "ICMPv6"),
    (59, "IPv6 No Next Header"),
    (60, "IPv6 Destination Option"),
    (89, "OSPF"),
    (132, "SCTP"),
    (136, "UDPLite"),
];

/// Checksum verification result, matching Wireshark numbering.
pub const CHECKSUM_STATUS: [(u64, &'static str); 4] = [
    (0, "Bad"),
    (1, "Good"),
    (2, "Unverified"),
    (3, "Not present"),
];

/// Names for the values of a field.
pub const ARP_HWTYPES: [(u64, &'static str); 3] = [
    (1, "Ethernet"),
    (6, "IEEE 802"),
    (15, "Frame Relay"),
];

/// Names for the values of a field.
pub const ARP_OPCODES: [(u64, &'static str); 4] = [
    (1, "request"),
    (2, "reply"),
    (3, "reverse request"),
    (4, "reverse reply"),
];

/// Names for the values of a field.
pub const IP_OPTS: [(u64, &'static str); 8] = [
    (0, "End of Options List (EOL)"),
    (1, "No-Operation (NOP)"),
    (7, "Record Route"),
    (68, "Time Stamp"),
    (130, "Security"),
    (131, "Loose Source Route"),
    (137, "Strict Source Route"),
    (148, "Router Alert"),
];

/// Names for the values of a field.
pub const IPV6_OPTS: [(u64, &'static str); 4] = [
    (0, "Pad1"),
    (1, "PadN"),
    (5, "Router Alert"),
    (194, "Jumbo Payload"),
];

/// Names for the values of a field.
pub const IPV6_ROUTING_TYPES: [(u64, &'static str); 4] = [
    (0, "Source Route"),
    (2, "Type 2 Routing"),
    (3, "RPL Source Route"),
    (4, "Segment Routing"),
];

/// Names for the values of a field.
pub const ICMP_TYPES: [(u64, &'static str); 11] = [
    (0, "Echo (ping) reply"),
    (3, "Destination Unreachable"),
    (4, "Source Quench"),
    (5, "Redirect"),
    (8, "Echo (ping) request"),
    (9, "Router Advertisement"),
    (10, "Router Solicitation"),
    (11, "Time-to-live exceeded"),
    (12, "Parameter Problem"),
    (13, "Timestamp"),
    (14, "Timestamp Reply"),
];

/// Names for the values of a field.
pub const ICMPV6_TYPES: [(u64, &'static str); 15] = [
    (1, "Destination Unreachable"),
    (2, "Packet Too Big"),
    (3, "Time Exceeded"),
    (4, "Parameter Problem"),
    (128, "Echo (ping) request"),
    (129, "Echo (ping) reply"),
    (130, "Multicast Listener Query"),
    (131, "Multicast Listener Report"),
    (132, "Multicast Listener Done"),
    (133, "Router Solicitation"),
    (134, "Router Advertisement"),
    (135, "Neighbor Solicitation"),
    (136, "Neighbor Advertisement"),
    (137, "Redirect"),
    (143, "Multicast Listener Report Message v2"),
];

/// Names for the values of a field.
pub const ICMPV6_OPT_TYPES: [(u64, &'static str); 6] = [
    (1, "Source link-layer address"),
    (2, "Target link-layer address"),
    (3, "Prefix information"),
    (4, "Redirected header"),
    (5, "MTU"),
    (25, "Recursive DNS Server"),
];

/// Names for the values of a field.
pub const TCP_OPT_KINDS: [(u64, &'static str); 9] = [
    (0, "End of Option List (EOL)"),
    (1, "No-Operation (NOP)"),
    (2, "Maximum segment size"),
    (3, "Window scale"),
    (4, "SACK permitted"),
    (5, "SACK"),
    (8, "Time Stamp Option"),
    (30, "Multipath TCP"),
    (34, "TCP Fast Open Cookie"),
];

/// Names for the values of a field.
pub const DNS_TYPES: [(u64, &'static str); 16] = [
    (1, "A"),
    (2, "NS"),
    (5, "CNAME"),
    (6, "SOA"),
    (12, "PTR"),
    (15, "MX"),
    (16, "TXT"),
    (28, "AAAA"),
    (33, "SRV"),
    (41, "OPT"),
    (43, "DS"),
    (46, "RRSIG"),
    (47, "NSEC"),
    (48, "DNSKEY"),
    (65, "HTTPS"),
    (255, "ANY"),
];

/// Names for the values of a field.
pub const DNS_CLASSES: [(u64, &'static str); 4] = [
    (1, "IN"),
    (3, "CH"),
    (4, "HS"),
    (255, "ANY"),
];

/// Names for the values of a field.
pub const DNS_OPCODES: [(u64, &'static str); 5] = [
    (0, "Standard query"),
    (1, "Inverse query"),
    (2, "Server status request"),
    (4, "Notify"),
    (5, "Update"),
];

/// Names for the values of a field.
pub const DNS_RCODES: [(u64, &'static str); 6] = [
    (0, "No error"),
    (1, "Format error"),
    (2, "Server failure"),
    (3, "No such name"),
    (4, "Not implemented"),
    (5, "Refused"),
];

/// Names for the values of a field.
pub const DHCP_OPS: [(u64, &'static str); 2] = [
    (1, "Boot Request"),
    (2, "Boot Reply"),
];

/// Names for the values of a field.
pub const DHCP_MSG_TYPES: [(u64, &'static str); 8] = [
    (1, "Discover"),
    (2, "Offer"),
    (3, "Request"),
    (4, "Decline"),
    (5, "ACK"),
    (6, "NAK"),
    (7, "Release"),
    (8, "Inform"),
];

/// Names for the values of a field.
pub const DHCP_OPTIONS: [(u64, &'static str); 19] = [
    (0, "Pad"),
    (1, "Subnet Mask"),
    (3, "Router"),
    (6, "Domain Name Server"),
    (12, "Host Name"),
    (15, "Domain Name"),
    (28, "Broadcast Address"),
    (42, "NTP Servers"),
    (50, "Requested IP Address"),
    (51, "IP Address Lease Time"),
    (53, "DHCP Message Type"),
    (54, "DHCP Server Identifier"),
    (55, "Parameter Request List"),
    (57, "Maximum DHCP Message Size"),
    (58, "Renewal Time Value"),
    (59, "Rebinding Time Value"),
    (60, "Vendor class identifier"),
    (61, "Client identifier"),
    (255, "End"),
];

/// Names for the values of a field.
pub const TLS_CONTENT_TYPES: [(u64, &'static str); 5] = [
    (20, "Change Cipher Spec"),
    (21, "Alert"),
    (22, "Handshake"),
    (23, "Application Data"),
    (24, "Heartbeat"),
];

/// Names for the values of a field.
pub const TLS_VERSIONS: [(u64, &'static str); 5] = [
    (0x0300, "SSL 3.0"),
    (0x0301, "TLS 1.0"),
    (0x0302, "TLS 1.1"),
    (0x0303, "TLS 1.2"),
    (0x0304, "TLS 1.3"),
];

/// Names for the values of a field.
pub const TLS_HANDSHAKE_TYPES: [(u64, &'static str); 12] = [
    (0, "Hello Request"),
    (1, "Client Hello"),
    (2, "Server Hello"),
    (4, "New Session Ticket"),
    (8, "Encrypted Extensions"),
    (11, "Certificate"),
    (12, "Server Key Exchange"),
    (13, "Certificate Request"),
    (14, "Server Hello Done"),
    (15, "Certificate Verify"),
    (16, "Client Key Exchange"),
    (20, "Finished"),
];

/// Names for the values of a field.
pub const TLS_ALERT_LEVELS: [(u64, &'static str); 2] = [
    (1, "Warning"),
    (2, "Fatal"),
];

/// Names for the values of a field.
pub const TLS_ALERT_DESCS: [(u64, &'static str); 10] = [
    (0, "Close Notify"),
    (10, "Unexpected Message"),
    (20, "Bad Record MAC"),
    (40, "Handshake Failure"),
    (42, "Bad Certificate"),
    (46, "Certificate Unknown"),
    (48, "Unknown CA"),
    (70, "Protocol Version"),
    (80, "Internal Error"),
    (112, "Unrecognized Name"),
];

/// Names for the values of a field.
pub const TLS_EXTENSIONS: [(u64, &'static str); 21] = [
    (0, "server_name"),
    (1, "max_fragment_length"),
    (5, "status_request"),
    (10, "supported_groups"),
    (11, "ec_point_formats"),
    (13, "signature_algorithms"),
    (16, "application_layer_protocol_negotiation"),
    (18, "signed_certificate_timestamp"),
    (21, "padding"),
    (23, "extended_master_secret"),
    (27, "compress_certificate"),
    (35, "session_ticket"),
    (41, "pre_shared_key"),
    (42, "early_data"),
    (43, "supported_versions"),
    (44, "cookie"),
    (45, "psk_key_exchange_modes"),
    (49, "post_handshake_auth"),
    (50, "signature_algorithms_cert"),
    (51, "key_share"),
    (65281, "renegotiation_info"),
];

/// Names for the values of a field.
pub const TLS_CIPHER_SUITES: [(u64, &'static str); 28] = [
    (0x0000, "TLS_NULL_WITH_NULL_NULL"),
    (0x0005, "TLS_RSA_WITH_RC4_128_SHA"),
    (0x000A, "TLS_RSA_WITH_3DES_EDE_CBC_SHA"),
    (0x002F, "TLS_RSA_WITH_AES_128_CBC_SHA"),
    (0x0035, "TLS_RSA_WITH_AES_256_CBC_SHA"),
    (0x003C, "TLS_RSA_WITH_AES_128_CBC_SHA256"),
    (0x003D, "TLS_RSA_WITH_AES_256_CBC_SHA256"),
    (0x009C, "TLS_RSA_WITH_AES_128_GCM_SHA256"),
    (0x009D, "TLS_RSA_WITH_AES_256_GCM_SHA384"),
    (0x00FF, "TLS_EMPTY_RENEGOTIATION_INFO_SCSV"),
    (0x1301, "TLS_AES_128_GCM_SHA256"),
    (0x1302, "TLS_AES_256_GCM_SHA384"),
    (0x1303, "TLS_CHACHA20_POLY1305_SHA256"),
    (0x1304, "TLS_AES_128_CCM_SHA256"),
    (0xC009, "TLS_ECDHE_ECDSA_WITH_AES_128_CBC_SHA"),
    (0xC00A, "TLS_ECDHE_ECDSA_WITH_AES_256_CBC_SHA"),
    (0xC013, "TLS_ECDHE_RSA_WITH_AES_128_CBC_SHA"),
    (0xC014, "TLS_ECDHE_RSA_WITH_AES_256_CBC_SHA"),
    (0xC023, "TLS_ECDHE_ECDSA_WITH_AES_128_CBC_SHA256"),
    (0xC024, "TLS_ECDHE_ECDSA_WITH_AES_256_CBC_SHA384"),
    (0xC027, "TLS_ECDHE_RSA_WITH_AES_128_CBC_SHA256"),
    (0xC028, "TLS_ECDHE_RSA_WITH_AES_256_CBC_SHA384"),
    (0xC02B, "TLS_ECDHE_ECDSA_WITH_AES_128_GCM_SHA256"),
    (0xC02C, "TLS_ECDHE_ECDSA_WITH_AES_256_GCM_SHA384"),
    (0xC02F, "TLS_ECDHE_RSA_WITH_AES_128_GCM_SHA256"),
    (0xC030, "TLS_ECDHE_RSA_WITH_AES_256_GCM_SHA384"),
    (0xCCA8, "TLS_ECDHE_RSA_WITH_CHACHA20_POLY1305_SHA256"),
    (0xCCA9, "TLS_ECDHE_ECDSA_WITH_CHACHA20_POLY1305_SHA256"),
];

/// Field kind code.
pub const PROTOCOL: u8 = 0;

/// Field kind code.
pub const GROUP: u8 = 1;

/// Field kind code.
pub const BOOL: u8 = 2;

/// Field kind code.
pub const UNSIGNED_DEC: u8 = 3;

/// Field kind code.
pub const UNSIGNED_HEX: u8 = 4;

/// Field kind code.
pub const UNSIGNED_HEXDEC: u8 = 5;

/// Field kind code.
pub const SIGNED: u8 = 6;

/// Field kind code.
pub const STR: u8 = 7;

/// Field kind code.
pub const BYTES: u8 = 8;

/// Field kind code.
pub const IPV4: u8 = 9;

/// Field kind code.
pub const IPV6: u8 = 10;

/// Field kind code.
pub const MAC: u8 = 11;

/// Field kind code.
pub const ENUM_DEC: u8 = 12;

/// Field kind code.
pub const ENUM_HEX: u8 = 13;

/// Field kind code.
pub const ENUM_NAME: u8 = 14;

/// How many fields are registered.
pub const FIELD_COUNT: usize = 396;

/// Every registered field: its filter name, its display name, the code of its
/// kind, and which value table an enumerated kind uses.
pub const FIELDS: [(&'static str, &'static str, u8, u8); 396] = [
    ("frame", "Frame", PROTOCOL, 0),
    ("frame.number", "Frame Number", UNSIGNED_DEC, 0),
    ("frame.time_epoch", "Epoch Time", STR, 0),
    ("frame.len", "Frame Length", UNSIGNED_DEC, 0),
    ("frame.cap_len", "Capture Length", UNSIGNED_DEC, 0),
    ("frame.encap_type", "Encapsulation type", ENUM_DEC, 0),
    ("frame.protocols", "Protocols in frame", STR, 0),
    ("_ws.malformed", "Malformed Packet", PROTOCOL, 0),
    ("_ws.expert", "Expert Info", GROUP, 0),
    ("_ws.expert.severity", "Severity level", ENUM_NAME, 27),
    ("_ws.expert.group", "Group", ENUM_NAME, 28),
    ("_ws.checksum.bad", "Bad checksum", GROUP, 0),
    ("data", "Data", PROTOCOL, 0),
    ("data.data", "Data", BYTES, 0),
    ("data.len", "Length", UNSIGNED_DEC, 0),
    ("null", "Null/Loopback", PROTOCOL, 0),
    ("null.family", "Family", UNSIGNED_DEC, 0),
    ("eth", "Ethernet II", PROTOCOL, 0),
    ("eth.addr", "Source or Destination", MAC, 0),
    ("eth.dst", "Destination", MAC, 0),
    ("eth.src", "Source", MAC, 0),
    ("eth.type", "Type", ENUM_HEX, 1),
    ("eth.len", "Length", UNSIGNED_DEC, 0),
    ("eth.padding", "Padding", BYTES, 0),
    ("eth.trailer", "Trailer", BYTES, 0),
    ("vlan", "802.1Q Virtual LAN", PROTOCOL, 0),
    ("vlan.priority", "Priority", UNSIGNED_DEC, 0),
    ("vlan.dei", "DEI", BOOL, 0),
    ("vlan.id", "ID", UNSIGNED_DEC, 0),
    ("vlan.etype", "Type", ENUM_HEX, 1),
    ("llc", "Logical-Link Control", PROTOCOL, 0),
    ("llc.dsap", "DSAP", UNSIGNED_HEX, 0),
    ("llc.ssap", "SSAP", UNSIGNED_HEX, 0),
    ("llc.control", "Control field", UNSIGNED_HEX, 0),
    ("llc.oui", "Organization Code", UNSIGNED_HEX, 0),
    ("llc.type", "Type", ENUM_HEX, 1),
    ("llc.pid", "Protocol ID", UNSIGNED_HEX, 0),
    ("arp", "Address Resolution Protocol", PROTOCOL, 0),
    ("arp.hw.type", "Hardware type", ENUM_DEC, 4),
    ("arp.proto.type", "Protocol type", ENUM_HEX, 1),
    ("arp.hw.size", "Hardware size", UNSIGNED_DEC, 0),
    ("arp.proto.size", "Protocol size", UNSIGNED_DEC, 0),
    ("arp.opcode", "Opcode", ENUM_DEC, 5),
    ("arp.src.hw_mac", "Sender MAC address", MAC, 0),
    ("arp.addr", "Sender or Target IP address", IPV4, 0),
    ("arp.src.proto_ipv4", "Sender IP address", IPV4, 0),
    ("arp.dst.hw_mac", "Target MAC address", MAC, 0),
    ("arp.dst.proto_ipv4", "Target IP address", IPV4, 0),
    ("arp.src.hw", "Sender hardware address", BYTES, 0),
    ("arp.src.proto", "Sender protocol address", BYTES, 0),
    ("arp.dst.hw", "Target hardware address", BYTES, 0),
    ("arp.dst.proto", "Target protocol address", BYTES, 0),
    ("ip", "Internet Protocol Version 4", PROTOCOL, 0),
    ("ip.version", "Version", UNSIGNED_DEC, 0),
    ("ip.hdr_len", "Header Length", UNSIGNED_DEC, 0),
    ("ip.dsfield", "Differentiated Services Field", UNSIGNED_HEX, 0),
    ("ip.dsfield.dscp", "Differentiated Services Codepoint", UNSIGNED_DEC, 0),
    ("ip.dsfield.ecn", "Explicit Congestion Notification", UNSIGNED_DEC, 0),
    ("ip.len", "Total Length", UNSIGNED_DEC, 0),
    ("ip.len_tso", "Segmentation offload", BOOL, 0),
    ("ip.id", "Identification", UNSIGNED_HEXDEC, 0),
    ("ip.flags", "Flags", UNSIGNED_HEX, 0),
    ("ip.flags.rb", "Reserved bit", BOOL, 0),
    ("ip.flags.df", "Don't fragment", BOOL, 0),
    ("ip.flags.mf", "More fragments", BOOL, 0),
    ("ip.frag_offset", "Fragment Offset", UNSIGNED_DEC, 0),
    ("ip.ttl", "Time to Live", UNSIGNED_DEC, 0),
    ("ip.proto", "Protocol", ENUM_DEC, 2),
    ("ip.checksum", "Header Checksum", UNSIGNED_HEX, 0),
    ("ip.checksum.status", "Header checksum status", ENUM_NAME, 3),
    ("ip.addr", "Source or Destination Address", IPV4, 0),
    ("ip.src", "Source Address", IPV4, 0),
    ("ip.dst", "Destination Address", IPV4, 0),
    ("ip.options", "Options", GROUP, 0),
    ("ip.opt", "Option", GROUP, 0),
    ("ip.opt.type", "Type", ENUM_DEC, 6),
    ("ip.opt.len", "Length", UNSIGNED_DEC, 0),
    ("ip.opt.data", "Option data", BYTES, 0),
    ("ip.opt.ra", "Router Alert", UNSIGNED_DEC, 0),
    ("ip.opt.padding", "Padding", BYTES, 0),
    ("ip.opt.ptr", "Pointer", UNSIGNED_DEC, 0),
    ("ip.opt.route", "Route address", IPV4, 0),
    ("ip.fragment", "IPv4 Fragment", GROUP, 0),
    ("ip.fragments", "IPv4 Fragments", GROUP, 0),
    ("ip.fragment.count", "Fragment count", UNSIGNED_DEC, 0),
    ("ip.reassembled.length", "Reassembled IPv4 length", UNSIGNED_DEC, 0),
    ("ip.reassembled.data", "Reassembled IPv4 data", BYTES, 0),
    ("ipv6", "Internet Protocol Version 6", PROTOCOL, 0),
    ("ipv6.version", "Version", UNSIGNED_DEC, 0),
    ("ipv6.tclass", "Traffic Class", UNSIGNED_HEX, 0),
    ("ipv6.flow", "Flow Label", UNSIGNED_HEX, 0),
    ("ipv6.plen", "Payload Length", UNSIGNED_DEC, 0),
    ("ipv6.nxt", "Next Header", ENUM_DEC, 2),
    ("ipv6.hlim", "Hop Limit", UNSIGNED_DEC, 0),
    ("ipv6.addr", "Source or Destination Address", IPV6, 0),
    ("ipv6.src", "Source Address", IPV6, 0),
    ("ipv6.dst", "Destination Address", IPV6, 0),
    ("ipv6.hopopts", "Hop-by-Hop Options", GROUP, 0),
    ("ipv6.hopopts.nxt", "Next Header", ENUM_DEC, 2),
    ("ipv6.hopopts.len", "Length", UNSIGNED_DEC, 0),
    ("ipv6.dstopts", "Destination Options", GROUP, 0),
    ("ipv6.dstopts.nxt", "Next Header", ENUM_DEC, 2),
    ("ipv6.dstopts.len", "Length", UNSIGNED_DEC, 0),
    ("ipv6.opt", "Option", GROUP, 0),
    ("ipv6.opt.type", "Type", ENUM_DEC, 7),
    ("ipv6.opt.length", "Length", UNSIGNED_DEC, 0),
    ("ipv6.opt.data", "Data", BYTES, 0),
    ("ipv6.opt.router_alert", "Router Alert", UNSIGNED_DEC, 0),
    ("ipv6.routing", "Routing Header", GROUP, 0),
    ("ipv6.routing.nxt", "Next Header", ENUM_DEC, 2),
    ("ipv6.routing.len", "Length", UNSIGNED_DEC, 0),
    ("ipv6.routing.type", "Type", ENUM_DEC, 8),
    ("ipv6.routing.segleft", "Segments Left", UNSIGNED_DEC, 0),
    ("ipv6.routing.data", "Type-specific data", BYTES, 0),
    ("ipv6.routing.addr", "Address", IPV6, 0),
    ("ipv6.fraghdr", "Fragment Header", GROUP, 0),
    ("ipv6.fraghdr.nxt", "Next header", ENUM_DEC, 2),
    ("ipv6.fraghdr.reserved_octet", "Reserved octet", UNSIGNED_HEX, 0),
    ("ipv6.fraghdr.offset", "Offset", UNSIGNED_DEC, 0),
    ("ipv6.fraghdr.reserved_bits", "Reserved bits", UNSIGNED_DEC, 0),
    ("ipv6.fraghdr.more", "More Fragments", BOOL, 0),
    ("ipv6.fraghdr.ident", "Identification", UNSIGNED_HEX, 0),
    ("icmp", "Internet Control Message Protocol", PROTOCOL, 0),
    ("icmp.type", "Type", ENUM_DEC, 9),
    ("icmp.code", "Code", UNSIGNED_DEC, 0),
    ("icmp.checksum", "Checksum", UNSIGNED_HEX, 0),
    ("icmp.checksum.status", "Checksum Status", ENUM_NAME, 3),
    ("icmp.ident", "Identifier", UNSIGNED_DEC, 0),
    ("icmp.seq", "Sequence Number", UNSIGNED_DEC, 0),
    ("icmp.unused", "Unused", UNSIGNED_HEX, 0),
    ("icmp.mtu", "MTU of next hop", UNSIGNED_DEC, 0),
    ("icmp.gateway", "Gateway Address", IPV4, 0),
    ("icmp.pointer", "Pointer", UNSIGNED_DEC, 0),
    ("icmp.data", "Data", BYTES, 0),
    ("icmpv6", "Internet Control Message Protocol v6", PROTOCOL, 0),
    ("icmpv6.type", "Type", ENUM_DEC, 10),
    ("icmpv6.code", "Code", UNSIGNED_DEC, 0),
    ("icmpv6.checksum", "Checksum", UNSIGNED_HEX, 0),
    ("icmpv6.checksum.status", "Checksum Status", ENUM_NAME, 3),
    ("icmpv6.reserved", "Reserved", UNSIGNED_HEX, 0),
    ("icmpv6.echo.identifier", "Identifier", UNSIGNED_DEC, 0),
    ("icmpv6.echo.sequence_number", "Sequence", UNSIGNED_DEC, 0),
    ("icmpv6.mtu", "MTU", UNSIGNED_DEC, 0),
    ("icmpv6.pointer", "Pointer", UNSIGNED_DEC, 0),
    ("icmpv6.nd.ns.target_address", "Target Address", IPV6, 0),
    ("icmpv6.nd.na.target_address", "Target Address", IPV6, 0),
    ("icmpv6.nd.na.flag", "Flags", UNSIGNED_HEX, 0),
    ("icmpv6.nd.na.flag.r", "Router", BOOL, 0),
    ("icmpv6.nd.na.flag.s", "Solicited", BOOL, 0),
    ("icmpv6.nd.na.flag.o", "Override", BOOL, 0),
    ("icmpv6.nd.ra.cur_hop_limit", "Cur hop limit", UNSIGNED_DEC, 0),
    ("icmpv6.nd.ra.flag", "Flags", UNSIGNED_HEX, 0),
    ("icmpv6.nd.ra.flag.m", "Managed address configuration", BOOL, 0),
    ("icmpv6.nd.ra.flag.o", "Other configuration", BOOL, 0),
    ("icmpv6.nd.ra.router_lifetime", "Router lifetime (s)", UNSIGNED_DEC, 0),
    ("icmpv6.nd.ra.reachable_time", "Reachable time (ms)", UNSIGNED_DEC, 0),
    ("icmpv6.nd.ra.retrans_timer", "Retrans timer (ms)", UNSIGNED_DEC, 0),
    ("icmpv6.nd.rd.target_address", "Target Address", IPV6, 0),
    ("icmpv6.nd.rd.destination_address", "Destination Address", IPV6, 0),
    ("icmpv6.opt", "ICMPv6 Option", GROUP, 0),
    ("icmpv6.opt.type", "Type", ENUM_DEC, 11),
    ("icmpv6.opt.length", "Length", UNSIGNED_DEC, 0),
    ("icmpv6.opt.linkaddr", "Link-layer address", MAC, 0),
    ("icmpv6.opt.mtu", "MTU", UNSIGNED_DEC, 0),
    ("icmpv6.opt.prefix.length", "Prefix Length", UNSIGNED_DEC, 0),
    ("icmpv6.opt.prefix.valid_lifetime", "Valid Lifetime", UNSIGNED_DEC, 0),
    ("icmpv6.opt.prefix.preferred_lifetime", "Preferred Lifetime", UNSIGNED_DEC, 0),
    ("icmpv6.opt.prefix", "Prefix", IPV6, 0),
    ("icmpv6.opt.data", "Data", BYTES, 0),
    ("icmpv6.data", "Data", BYTES, 0),
    ("udp", "User Datagram Protocol", PROTOCOL, 0),
    ("udp.srcport", "Source Port", UNSIGNED_DEC, 0),
    ("udp.dstport", "Destination Port", UNSIGNED_DEC, 0),
    ("udp.port", "Port", UNSIGNED_DEC, 0),
    ("udp.stream", "Stream index", UNSIGNED_DEC, 0),
    ("udp.length", "Length", UNSIGNED_DEC, 0),
    ("udp.checksum", "Checksum", UNSIGNED_HEX, 0),
    ("udp.checksum.status", "Checksum Status", ENUM_NAME, 3),
    ("udp.payload", "UDP payload", BYTES, 0),
    ("tcp", "Transmission Control Protocol", PROTOCOL, 0),
    ("tcp.srcport", "Source Port", UNSIGNED_DEC, 0),
    ("tcp.dstport", "Destination Port", UNSIGNED_DEC, 0),
    ("tcp.port", "Port", UNSIGNED_DEC, 0),
    ("tcp.stream", "Stream index", UNSIGNED_DEC, 0),
    ("tcp.analysis", "SEQ/ACK analysis", GROUP, 0),
    ("tcp.analysis.retransmission", "Retransmission", GROUP, 0),
    ("tcp.analysis.fast_retransmission", "Fast retransmission", GROUP, 0),
    ("tcp.analysis.spurious_retransmission", "Spurious retransmission", GROUP, 0),
    ("tcp.analysis.out_of_order", "Out-of-order segment", GROUP, 0),
    ("tcp.analysis.overlap", "Overlapping segment", GROUP, 0),
    ("tcp.analysis.lost_segment", "Previous segment not captured", GROUP, 0),
    ("tcp.analysis.duplicate_ack", "Duplicate ACK", GROUP, 0),
    ("tcp.analysis.duplicate_ack_num", "Duplicate ACK number", UNSIGNED_DEC, 0),
    ("tcp.analysis.duplicate_ack_frame", "Duplicate to the ACK in frame", UNSIGNED_DEC, 0),
    ("tcp.analysis.zero_window", "Zero window", GROUP, 0),
    ("tcp.analysis.window_full", "Window full", GROUP, 0),
    ("tcp.analysis.keep_alive", "Keep-alive", GROUP, 0),
    ("tcp.analysis.ack_lost_segment", "ACKed segment not captured", GROUP, 0),
    ("tcp.analysis.bytes_in_flight", "Bytes in flight", UNSIGNED_DEC, 0),
    ("tcp.len", "TCP Segment Len", UNSIGNED_DEC, 0),
    ("tcp.seq", "Sequence Number (raw)", UNSIGNED_DEC, 0),
    ("tcp.ack", "Acknowledgment Number (raw)", UNSIGNED_DEC, 0),
    ("tcp.hdr_len", "Header Length", UNSIGNED_DEC, 0),
    ("tcp.flags", "Flags", UNSIGNED_HEX, 0),
    ("tcp.flags.res", "Reserved", BOOL, 0),
    ("tcp.flags.ae", "Accurate ECN", BOOL, 0),
    ("tcp.flags.cwr", "Congestion Window Reduced", BOOL, 0),
    ("tcp.flags.ece", "ECN-Echo", BOOL, 0),
    ("tcp.flags.urg", "Urgent", BOOL, 0),
    ("tcp.flags.ack", "Acknowledgment", BOOL, 0),
    ("tcp.flags.push", "Push", BOOL, 0),
    ("tcp.flags.reset", "Reset", BOOL, 0),
    ("tcp.flags.syn", "Syn", BOOL, 0),
    ("tcp.flags.fin", "Fin", BOOL, 0),
    ("tcp.window_size_value", "Window", UNSIGNED_DEC, 0),
    ("tcp.checksum", "Checksum", UNSIGNED_HEX, 0),
    ("tcp.checksum.status", "Checksum Status", ENUM_NAME, 3),
    ("tcp.urgent_pointer", "Urgent Pointer", UNSIGNED_DEC, 0),
    ("tcp.options", "Options", GROUP, 0),
    ("tcp.option_kind", "Kind", ENUM_DEC, 12),
    ("tcp.option_len", "Length", UNSIGNED_DEC, 0),
    ("tcp.options.eol", "End of Option List (EOL)", GROUP, 0),
    ("tcp.options.nop", "No-Operation (NOP)", GROUP, 0),
    ("tcp.options.mss", "Maximum segment size", GROUP, 0),
    ("tcp.options.mss_val", "MSS Value", UNSIGNED_DEC, 0),
    ("tcp.options.wscale", "Window scale", GROUP, 0),
    ("tcp.options.wscale.shift", "Shift count", UNSIGNED_DEC, 0),
    ("tcp.options.wscale.multiplier", "Multiplier", UNSIGNED_DEC, 0),
    ("tcp.options.sack_perm", "SACK permitted", GROUP, 0),
    ("tcp.options.sack", "SACK", GROUP, 0),
    ("tcp.options.sack_le", "SACK Left Edge", UNSIGNED_DEC, 0),
    ("tcp.options.sack_re", "SACK Right Edge", UNSIGNED_DEC, 0),
    ("tcp.options.timestamp", "Timestamps", GROUP, 0),
    ("tcp.options.timestamp.tsval", "Timestamp value", UNSIGNED_DEC, 0),
    ("tcp.options.timestamp.tsecr", "Timestamp echo reply", UNSIGNED_DEC, 0),
    ("tcp.options.unknown", "Unknown option", GROUP, 0),
    ("tcp.options.data", "Option data", BYTES, 0),
    ("tcp.payload", "TCP payload", BYTES, 0),
    ("dns", "Domain Name System", PROTOCOL, 0),
    ("dns.id", "Transaction ID", UNSIGNED_HEX, 0),
    ("dns.flags", "Flags", UNSIGNED_HEX, 0),
    ("dns.flags.response", "Response", BOOL, 0),
    ("dns.flags.opcode", "Opcode", ENUM_DEC, 15),
    ("dns.flags.authoritative", "Authoritative", BOOL, 0),
    ("dns.flags.truncated", "Truncated", BOOL, 0),
    ("dns.flags.recdesired", "Recursion desired", BOOL, 0),
    ("dns.flags.recavail", "Recursion available", BOOL, 0),
    ("dns.flags.z", "Z", BOOL, 0),
    ("dns.flags.authenticated", "Answer authenticated", BOOL, 0),
    ("dns.flags.checkdisable", "Non-authenticated data", BOOL, 0),
    ("dns.flags.rcode", "Reply code", ENUM_DEC, 16),
    ("dns.count.queries", "Questions", UNSIGNED_DEC, 0),
    ("dns.count.answers", "Answer RRs", UNSIGNED_DEC, 0),
    ("dns.count.auth_rr", "Authority RRs", UNSIGNED_DEC, 0),
    ("dns.count.add_rr", "Additional RRs", UNSIGNED_DEC, 0),
    ("dns.queries", "Queries", GROUP, 0),
    ("dns.answers", "Answers", GROUP, 0),
    ("dns.authority", "Authoritative nameservers", GROUP, 0),
    ("dns.additional", "Additional records", GROUP, 0),
    ("dns.qry", "Query", GROUP, 0),
    ("dns.qry.name", "Name", STR, 0),
    ("dns.qry.type", "Type", ENUM_DEC, 13),
    ("dns.qry.class", "Class", ENUM_HEX, 14),
    ("dns.resp", "Resource record", GROUP, 0),
    ("dns.resp.name", "Name", STR, 0),
    ("dns.resp.type", "Type", ENUM_DEC, 13),
    ("dns.resp.class", "Class", ENUM_HEX, 14),
    ("dns.resp.ttl", "Time to live", UNSIGNED_DEC, 0),
    ("dns.resp.len", "Data length", UNSIGNED_DEC, 0),
    ("dns.a", "Address", IPV4, 0),
    ("dns.aaaa", "AAAA Address", IPV6, 0),
    ("dns.cname", "CNAME", STR, 0),
    ("dns.ns", "Name Server", STR, 0),
    ("dns.ptr.domain_name", "Domain Name", STR, 0),
    ("dns.mx.preference", "Preference", UNSIGNED_DEC, 0),
    ("dns.mx.mail_exchange", "Mail Exchange", STR, 0),
    ("dns.txt", "TXT", STR, 0),
    ("dns.soa.mname", "Primary name server", STR, 0),
    ("dns.soa.rname", "Responsible authority's mailbox", STR, 0),
    ("dns.soa.serial_number", "Serial Number", UNSIGNED_DEC, 0),
    ("dns.soa.refresh_interval", "Refresh Interval", UNSIGNED_DEC, 0),
    ("dns.soa.retry_interval", "Retry Interval", UNSIGNED_DEC, 0),
    ("dns.soa.expire_limit", "Expire limit", UNSIGNED_DEC, 0),
    ("dns.soa.minimum_ttl", "Minimum TTL", UNSIGNED_DEC, 0),
    ("dns.srv.priority", "Priority", UNSIGNED_DEC, 0),
    ("dns.srv.weight", "Weight", UNSIGNED_DEC, 0),
    ("dns.srv.port", "Port", UNSIGNED_DEC, 0),
    ("dns.srv.target", "Target", STR, 0),
    ("dns.resp.data", "Data", BYTES, 0),
    ("dhcp", "Dynamic Host Configuration Protocol", PROTOCOL, 0),
    ("dhcp.type", "Message type", ENUM_DEC, 17),
    ("dhcp.hw.type", "Hardware type", ENUM_HEX, 4),
    ("dhcp.hw.len", "Hardware address length", UNSIGNED_DEC, 0),
    ("dhcp.hops", "Hops", UNSIGNED_DEC, 0),
    ("dhcp.id", "Transaction ID", UNSIGNED_HEX, 0),
    ("dhcp.secs", "Seconds elapsed", UNSIGNED_DEC, 0),
    ("dhcp.flags", "Bootp flags", UNSIGNED_HEX, 0),
    ("dhcp.flags.bc", "Broadcast flag", BOOL, 0),
    ("dhcp.ip.client", "Client IP address", IPV4, 0),
    ("dhcp.ip.your", "Your (client) IP address", IPV4, 0),
    ("dhcp.ip.server", "Next server IP address", IPV4, 0),
    ("dhcp.ip.relay", "Relay agent IP address", IPV4, 0),
    ("dhcp.hw.mac_addr", "Client MAC address", MAC, 0),
    ("dhcp.hw.addr_padding", "Client hardware address padding", BYTES, 0),
    ("dhcp.server", "Server host name", STR, 0),
    ("dhcp.file", "Boot file name", STR, 0),
    ("dhcp.cookie", "Magic cookie", UNSIGNED_HEX, 0),
    ("dhcp.option", "Option", GROUP, 0),
    ("dhcp.option.type", "Option", ENUM_DEC, 19),
    ("dhcp.option.length", "Length", UNSIGNED_DEC, 0),
    ("dhcp.option.value", "Value", BYTES, 0),
    ("dhcp.option.dhcp", "DHCP", ENUM_DEC, 18),
    ("dhcp.option.subnet_mask", "Subnet Mask", IPV4, 0),
    ("dhcp.option.router", "Router", IPV4, 0),
    ("dhcp.option.domain_name_server", "Domain Name Server", IPV4, 0),
    ("dhcp.option.broadcast_address", "Broadcast Address", IPV4, 0),
    ("dhcp.option.ntp_server", "NTP Server", IPV4, 0),
    ("dhcp.option.requested_ip_address", "Requested IP Address", IPV4, 0),
    ("dhcp.option.ip_address_lease_time", "IP Address Lease Time", UNSIGNED_DEC, 0),
    ("dhcp.option.renewal_time_value", "Renewal Time Value", UNSIGNED_DEC, 0),
    ("dhcp.option.rebinding_time_value", "Rebinding Time Value", UNSIGNED_DEC, 0),
    ("dhcp.option.dhcp_server_id", "DHCP Server Identifier", IPV4, 0),
    ("dhcp.option.dhcp_max_message_size", "Maximum DHCP Message Size", UNSIGNED_DEC, 0),
    ("dhcp.option.hostname", "Host Name", STR, 0),
    ("dhcp.option.domain_name", "Domain Name", STR, 0),
    ("dhcp.option.vendor_class_id", "Vendor class identifier", STR, 0),
    ("dhcp.option.client_id", "Client identifier", BYTES, 0),
    ("dhcp.option.request_list_item", "Parameter Request List Item", ENUM_DEC, 19),
    ("dhcp.option.end", "Option End", GROUP, 0),
    ("dhcp.option.padding", "Padding", BYTES, 0),
    ("http", "Hypertext Transfer Protocol", PROTOCOL, 0),
    ("http.request", "Request", GROUP, 0),
    ("http.request.method", "Request Method", STR, 0),
    ("http.request.uri", "Request URI", STR, 0),
    ("http.request.version", "Request Version", STR, 0),
    ("http.request.line", "Request line", STR, 0),
    ("http.response", "Response", GROUP, 0),
    ("http.response.version", "Response Version", STR, 0),
    ("http.response.code", "Status Code", UNSIGNED_DEC, 0),
    ("http.response.phrase", "Response Phrase", STR, 0),
    ("http.response.line", "Response line", STR, 0),
    ("http.host", "Host", STR, 0),
    ("http.user_agent", "User-Agent", STR, 0),
    ("http.content_type", "Content-Type", STR, 0),
    ("http.content_length", "Content-Length", UNSIGNED_DEC, 0),
    ("http.server", "Server", STR, 0),
    ("http.connection", "Connection", STR, 0),
    ("http.file_data", "File Data", BYTES, 0),
    ("http.transfer_encoding", "Transfer-Encoding", STR, 0),
    ("http.segment", "Segment of a reassembled PDU", GROUP, 0),
    ("http.segment.len", "Segment length", UNSIGNED_DEC, 0),
    ("tls", "Transport Layer Security", PROTOCOL, 0),
    ("tls.record", "TLS Record Layer", GROUP, 0),
    ("tls.record.content_type", "Content Type", ENUM_DEC, 20),
    ("tls.record.version", "Version", ENUM_HEX, 21),
    ("tls.record.length", "Length", UNSIGNED_DEC, 0),
    ("tls.record.opaque_type", "Opaque Type", ENUM_DEC, 20),
    ("tls.change_cipher_spec", "Change Cipher Spec Message", GROUP, 0),
    ("tls.alert_message", "Alert Message", GROUP, 0),
    ("tls.alert_message.level", "Level", ENUM_DEC, 23),
    ("tls.alert_message.desc", "Description", ENUM_DEC, 24),
    ("tls.handshake", "Handshake Protocol", GROUP, 0),
    ("tls.handshake.type", "Handshake Type", ENUM_DEC, 22),
    ("tls.handshake.length", "Length", UNSIGNED_DEC, 0),
    ("tls.handshake.version", "Version", ENUM_HEX, 21),
    ("tls.handshake.random", "Random", BYTES, 0),
    ("tls.handshake.session_id_length", "Session ID Length", UNSIGNED_DEC, 0),
    ("tls.handshake.session_id", "Session ID", BYTES, 0),
    ("tls.handshake.cipher_suites_length", "Cipher Suites Length", UNSIGNED_DEC, 0),
    ("tls.handshake.ciphersuites", "Cipher Suites", GROUP, 0),
    ("tls.handshake.ciphersuite", "Cipher Suite", ENUM_HEX, 26),
    ("tls.handshake.comp_methods_length", "Compression Methods Length", UNSIGNED_DEC, 0),
    ("tls.handshake.comp_methods", "Compression Methods", GROUP, 0),
    ("tls.handshake.comp_method", "Compression Method", UNSIGNED_DEC, 0),
    ("tls.handshake.extensions_length", "Extensions Length", UNSIGNED_DEC, 0),
    ("tls.handshake.extension", "Extension", GROUP, 0),
    ("tls.handshake.extension.type", "Type", ENUM_DEC, 25),
    ("tls.handshake.extension.len", "Length", UNSIGNED_DEC, 0),
    ("tls.handshake.extension.data", "Data", BYTES, 0),
    ("tls.handshake.extensions_server_name_list_len", "Server Name list length", UNSIGNED_DEC, 0),
    ("tls.handshake.extensions_server_name_type", "Server Name Type", UNSIGNED_DEC, 0),
    ("tls.handshake.extensions_server_name_len", "Server Name length", UNSIGNED_DEC, 0),
    ("tls.handshake.extensions_server_name", "Server Name", STR, 0),
    ("tls.handshake.extensions.supported_versions_len", "Supported Versions length", UNSIGNED_DEC, 0),
    ("tls.handshake.extensions.supported_version", "Supported Version", ENUM_HEX, 21),
    ("tls.handshake.extensions_alpn_len", "ALPN Extension Length", UNSIGNED_DEC, 0),
    ("tls.handshake.extensions_alpn_str_len", "ALPN string length", UNSIGNED_DEC, 0),
    ("tls.handshake.extensions_alpn_str", "ALPN Next Protocol", STR, 0),
    ("tls.handshake.certificates_length", "Certificates Length", UNSIGNED_DEC, 0),
    ("tls.handshake.certificate_length", "Certificate Length", UNSIGNED_DEC, 0),
    ("tls.handshake.certificate", "Certificate", BYTES, 0),
    ("tls.app_data", "Encrypted Application Data", BYTES, 0),
    ("tls.handshake.encrypted", "Encrypted handshake data", BYTES, 0),
    ("tls.continuation_data", "Continuation Data", BYTES, 0),
    ("tls.segment", "Segment of a reassembled PDU", GROUP, 0),
    ("tls.segment.len", "Segment length", UNSIGNED_DEC, 0),
];

/// The filter name of field `i`.
#[verifier::opaque]
pub open spec fn abbrev_at(i: int) -> Seq<char> {
    FIELDS@[i].0@
}

/// The display name of field `i`.
#[verifier::opaque]
pub open spec fn title_at(i: int) -> Seq<char> {
    FIELDS@[i].1@
}

/// The kind code of field `i`.
#[verifier::opaque]
pub open spec fn code_at(i: int) -> u8 {
    FIELDS@[i].2
}

/// The number of the value table of field `i`.
#[verifier::opaque]
pub open spec fn table_at(i: int) -> u8 {
    FIELDS@[i].3
}

/// Field `i`.
pub fn field_entry(i: usize) -> (r: (&'static str, &'static str, u8, u8))
    requires
        i < FIELD_COUNT,
    ensures
        r.0@ == abbrev_at(i as int),
        r.1@ == title_at(i as int),
        r.2 == code_at(i as int),
        r.3 == table_at(i as int),
{
    proof {
        reveal(abbrev_at);
        reveal(title_at);
        reveal(code_at);
        reveal(table_at);
    }
    FIELDS[i]
}

/// Filter-only names, each standing for two real fields.
pub const ALIASES: [(&'static str, &'static str, &'static str); 6] = [
    ("eth.addr", "eth.src", "eth.dst"),
    ("arp.addr", "arp.src.proto_ipv4", "arp.dst.proto_ipv4"),
    ("ip.addr", "ip.src", "ip.dst"),
    ("ipv6.addr", "ipv6.src", "ipv6.dst"),
    ("udp.port", "udp.srcport", "udp.dstport"),
    ("tcp.port", "tcp.srcport", "tcp.dstport"),
];

/// The value table with number `i`.
pub open spec fn table_view(i: u8) -> Seq<(u64, &'static str)> {
    if i == 0 {
        LINK_TYPES@
    } else if i == 1 {
        ETHERTYPES@
    } else if i == 2 {
        IPPROTOS@
    } else if i == 3 {
        CHECKSUM_STATUS@
    } else if i == 4 {
        ARP_HWTYPES@
    } else if i == 5 {
        ARP_OPCODES@
    } else if i == 6 {
        IP_OPTS@
    } else if i == 7 {
        IPV6_OPTS@
    } else if i == 8 {
        IPV6_ROUTING_TYPES@
    } else if i == 9 {
        ICMP_TYPES@
    } else if i == 10 {
        ICMPV6_TYPES@
    } else if i == 11 {
        ICMPV6_OPT_TYPES@
    } else if i == 12 {
        TCP_OPT_KINDS@
    } else if i == 13 {
        DNS_TYPES@
    } else if i == 14 {
        DNS_CLASSES@
    } else if i == 15 {
        DNS_OPCODES@
    } else if i == 16 {
        DNS_RCODES@
    } else if i == 17 {
        DHCP_OPS@
    } else if i == 18 {
        DHCP_MSG_TYPES@
    } else if i == 19 {
        DHCP_OPTIONS@
    } else if i == 20 {
        TLS_CONTENT_TYPES@
    } else if i == 21 {
        TLS_VERSIONS@
    } else if i == 22 {
        TLS_HANDSHAKE_TYPES@
    } else if i == 23 {
        TLS_ALERT_LEVELS@
    } else if i == 24 {
        TLS_ALERT_DESCS@
    } else if i == 25 {
        TLS_EXTENSIONS@
    } else if i == 26 {
        TLS_CIPHER_SUITES@
    } else if i == 27 {
        SEVERITIES@
    } else if i == 28 {
        GROUPS@
    } else {
        Seq::empty()
    }
}

/// No names.
pub const NO_NAMES: [(u64, &'static str); 0] = [];

/// The value table with number `i`.
pub fn table(i: u8) -> (r: &'static [(u64, &'static str)])
    ensures
        r@ == table_view(i),
{
    if i == 0 {
        &LINK_TYPES
    } else if i == 1 {
        &ETHERTYPES
    } else if i == 2 {
        &IPPROTOS
    } else if i == 3 {
        &CHECKSUM_STATUS
    } else if i == 4 {
        &ARP_HWTYPES
    } else if i == 5 {
        &ARP_OPCODES
    } else if i == 6 {
        &IP_OPTS
    } else if i == 7 {
        &IPV6_OPTS
    } else if i == 8 {
        &IPV6_ROUTING_TYPES
    } else if i == 9 {
        &ICMP_TYPES
    } else if i == 10 {
        &ICMPV6_TYPES
    } else if i == 11 {
        &ICMPV6_OPT_TYPES
    } else if i == 12 {
        &TCP_OPT_KINDS
    } else if i == 13 {
        &DNS_TYPES
    } else if i == 14 {
        &DNS_CLASSES
    } else if i == 15 {
        &DNS_OPCODES
    } else if i == 16 {
        &DNS_RCODES
    } else if i == 17 {
        &DHCP_OPS
    } else if i == 18 {
        &DHCP_MSG_TYPES
    } else if i == 19 {
        &DHCP_OPTIONS
    } else if i == 20 {
        &TLS_CONTENT_TYPES
    } else if i == 21 {
        &TLS_VERSIONS
    } else if i == 22 {
        &TLS_HANDSHAKE_TYPES
    } else if i == 23 {
        &TLS_ALERT_LEVELS
    } else if i == 24 {
        &TLS_ALERT_DESCS
    } else if i == 25 {
        &TLS_EXTENSIONS
    } else if i == 26 {
        &TLS_CIPHER_SUITES
    } else if i == 27 {
        &SEVERITIES
    } else if i == 28 {
        &GROUPS
    } else {
        assert(NO_NAMES@ =~= Seq::empty());
        &NO_NAMES
    }
}

/// Protocol-layer labels derived from child fields. `{abbrev}` is replaced by
/// the display of the first direct child with that field.
pub const LAYER_TEMPLATES: [(&'static str, &'static str); 10] = [
    (
        "frame",
        "Frame {frame.number}: {frame.len} bytes on wire, {frame.cap_len} bytes captured",
    ),
    (
        "eth",
        "Ethernet II, Src: {eth.src}, Dst: {eth.dst}",
    ),
    (
        "ip",
        "Internet Protocol Version 4, Src: {ip.src}, Dst: {ip.dst}",
    ),
    (
        "ipv6",
        "Internet Protocol Version 6, Src: {ipv6.src}, Dst: {ipv6.dst}",
    ),
    (
        "arp",
        "Address Resolution Protocol ({arp.opcode})",
    ),
    (
        "udp",
        "User Datagram Protocol, Src Port: {udp.srcport}, Dst Port: {udp.dstport}",
    ),
    (
        "tcp",
        "Transmission Control Protocol, Src Port: {tcp.srcport}, Dst Port: {tcp.dstport}, Seq: {tcp.seq}, Ack: {tcp.ack}, Len: {tcp.len}",
    ),
    (
        "icmp",
        "Internet Control Message Protocol",
    ),
    (
        "icmpv6",
        "Internet Control Message Protocol v6",
    ),
    (
        "data",
        "Data ({data.len} bytes)",
    ),
];

} // verus!
