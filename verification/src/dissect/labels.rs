//! No row of a dissected frame is shown without a label.

use vstd::prelude::*;

use crate::capture::{LinkType, RawView};
use crate::dissect::ctx::Options;
use crate::dissect::node::{stands_for, Row};
use crate::dissect::ranges::frame::dissecting_stays_sound;
use crate::dissect::ranges::names::known;
use crate::dissect::reassembly::tidy;
use crate::dissect::registry::{
    char_index, index_of, index_of_is_a_row, label_of, rendered, template_from,
};
use crate::dissect::state::StateView;
use crate::dissect::tables::{title_at, FIELD_COUNT, LAYER_TEMPLATES};
use crate::dissect::{dissected, frame_from, FrameView};

verus! {

proof fn titles_0()
    ensures
        forall|i: int| 0 <= i < 33 ==> (#[trigger] title_at(i)).len() > 0,
{
    reveal(title_at);
    reveal_strlit("Frame");
    reveal_strlit("Frame Number");
    reveal_strlit("Epoch Time");
    reveal_strlit("Frame Length");
    reveal_strlit("Capture Length");
    reveal_strlit("Encapsulation type");
    reveal_strlit("Protocols in frame");
    reveal_strlit("Malformed Packet");
    reveal_strlit("Expert Info");
    reveal_strlit("Severity level");
    reveal_strlit("Group");
    reveal_strlit("Bad checksum");
    reveal_strlit("Data");
    reveal_strlit("Length");
    reveal_strlit("Null/Loopback");
    reveal_strlit("Family");
    reveal_strlit("Ethernet II");
    reveal_strlit("Source or Destination");
    reveal_strlit("Destination");
    reveal_strlit("Source");
    reveal_strlit("Type");
    reveal_strlit("Padding");
    reveal_strlit("Trailer");
    reveal_strlit("802.1Q Virtual LAN");
    reveal_strlit("Priority");
    reveal_strlit("DEI");
    reveal_strlit("ID");
    reveal_strlit("Logical-Link Control");
    reveal_strlit("DSAP");
    reveal_strlit("SSAP");
    assert(title_at(0) == "Frame"@);
    assert(title_at(1) == "Frame Number"@);
    assert(title_at(2) == "Epoch Time"@);
    assert(title_at(3) == "Frame Length"@);
    assert(title_at(4) == "Capture Length"@);
    assert(title_at(5) == "Encapsulation type"@);
    assert(title_at(6) == "Protocols in frame"@);
    assert(title_at(7) == "Malformed Packet"@);
    assert(title_at(8) == "Expert Info"@);
    assert(title_at(9) == "Severity level"@);
    assert(title_at(10) == "Group"@);
    assert(title_at(11) == "Bad checksum"@);
    assert(title_at(12) == "Data"@);
    assert(title_at(13) == "Data"@);
    assert(title_at(14) == "Length"@);
    assert(title_at(15) == "Null/Loopback"@);
    assert(title_at(16) == "Family"@);
    assert(title_at(17) == "Ethernet II"@);
    assert(title_at(18) == "Source or Destination"@);
    assert(title_at(19) == "Destination"@);
    assert(title_at(20) == "Source"@);
    assert(title_at(21) == "Type"@);
    assert(title_at(22) == "Length"@);
    assert(title_at(23) == "Padding"@);
    assert(title_at(24) == "Trailer"@);
    assert(title_at(25) == "802.1Q Virtual LAN"@);
    assert(title_at(26) == "Priority"@);
    assert(title_at(27) == "DEI"@);
    assert(title_at(28) == "ID"@);
    assert(title_at(29) == "Type"@);
    assert(title_at(30) == "Logical-Link Control"@);
    assert(title_at(31) == "DSAP"@);
    assert(title_at(32) == "SSAP"@);
}

proof fn titles_33()
    ensures
        forall|i: int| 33 <= i < 66 ==> (#[trigger] title_at(i)).len() > 0,
{
    reveal(title_at);
    reveal_strlit("Control field");
    reveal_strlit("Organization Code");
    reveal_strlit("Type");
    reveal_strlit("Protocol ID");
    reveal_strlit("Address Resolution Protocol");
    reveal_strlit("Hardware type");
    reveal_strlit("Protocol type");
    reveal_strlit("Hardware size");
    reveal_strlit("Protocol size");
    reveal_strlit("Opcode");
    reveal_strlit("Sender MAC address");
    reveal_strlit("Sender or Target IP address");
    reveal_strlit("Sender IP address");
    reveal_strlit("Target MAC address");
    reveal_strlit("Target IP address");
    reveal_strlit("Sender hardware address");
    reveal_strlit("Sender protocol address");
    reveal_strlit("Target hardware address");
    reveal_strlit("Target protocol address");
    reveal_strlit("Internet Protocol Version 4");
    reveal_strlit("Version");
    reveal_strlit("Header Length");
    reveal_strlit("Differentiated Services Field");
    reveal_strlit("Differentiated Services Codepoint");
    reveal_strlit("Explicit Congestion Notification");
    reveal_strlit("Total Length");
    reveal_strlit("Segmentation offload");
    reveal_strlit("Identification");
    reveal_strlit("Flags");
    reveal_strlit("Reserved bit");
    reveal_strlit("Don't fragment");
    reveal_strlit("More fragments");
    reveal_strlit("Fragment Offset");
    assert(title_at(33) == "Control field"@);
    assert(title_at(34) == "Organization Code"@);
    assert(title_at(35) == "Type"@);
    assert(title_at(36) == "Protocol ID"@);
    assert(title_at(37) == "Address Resolution Protocol"@);
    assert(title_at(38) == "Hardware type"@);
    assert(title_at(39) == "Protocol type"@);
    assert(title_at(40) == "Hardware size"@);
    assert(title_at(41) == "Protocol size"@);
    assert(title_at(42) == "Opcode"@);
    assert(title_at(43) == "Sender MAC address"@);
    assert(title_at(44) == "Sender or Target IP address"@);
    assert(title_at(45) == "Sender IP address"@);
    assert(title_at(46) == "Target MAC address"@);
    assert(title_at(47) == "Target IP address"@);
    assert(title_at(48) == "Sender hardware address"@);
    assert(title_at(49) == "Sender protocol address"@);
    assert(title_at(50) == "Target hardware address"@);
    assert(title_at(51) == "Target protocol address"@);
    assert(title_at(52) == "Internet Protocol Version 4"@);
    assert(title_at(53) == "Version"@);
    assert(title_at(54) == "Header Length"@);
    assert(title_at(55) == "Differentiated Services Field"@);
    assert(title_at(56) == "Differentiated Services Codepoint"@);
    assert(title_at(57) == "Explicit Congestion Notification"@);
    assert(title_at(58) == "Total Length"@);
    assert(title_at(59) == "Segmentation offload"@);
    assert(title_at(60) == "Identification"@);
    assert(title_at(61) == "Flags"@);
    assert(title_at(62) == "Reserved bit"@);
    assert(title_at(63) == "Don't fragment"@);
    assert(title_at(64) == "More fragments"@);
    assert(title_at(65) == "Fragment Offset"@);
}

proof fn titles_66()
    ensures
        forall|i: int| 66 <= i < 99 ==> (#[trigger] title_at(i)).len() > 0,
{
    reveal(title_at);
    reveal_strlit("Time to Live");
    reveal_strlit("Protocol");
    reveal_strlit("Header Checksum");
    reveal_strlit("Header checksum status");
    reveal_strlit("Source or Destination Address");
    reveal_strlit("Source Address");
    reveal_strlit("Destination Address");
    reveal_strlit("Options");
    reveal_strlit("Option");
    reveal_strlit("Type");
    reveal_strlit("Length");
    reveal_strlit("Option data");
    reveal_strlit("Router Alert");
    reveal_strlit("Padding");
    reveal_strlit("Pointer");
    reveal_strlit("Route address");
    reveal_strlit("IPv4 Fragment");
    reveal_strlit("IPv4 Fragments");
    reveal_strlit("Fragment count");
    reveal_strlit("Reassembled IPv4 length");
    reveal_strlit("Reassembled IPv4 data");
    reveal_strlit("Internet Protocol Version 6");
    reveal_strlit("Version");
    reveal_strlit("Traffic Class");
    reveal_strlit("Flow Label");
    reveal_strlit("Payload Length");
    reveal_strlit("Next Header");
    reveal_strlit("Hop Limit");
    reveal_strlit("Hop-by-Hop Options");
    assert(title_at(66) == "Time to Live"@);
    assert(title_at(67) == "Protocol"@);
    assert(title_at(68) == "Header Checksum"@);
    assert(title_at(69) == "Header checksum status"@);
    assert(title_at(70) == "Source or Destination Address"@);
    assert(title_at(71) == "Source Address"@);
    assert(title_at(72) == "Destination Address"@);
    assert(title_at(73) == "Options"@);
    assert(title_at(74) == "Option"@);
    assert(title_at(75) == "Type"@);
    assert(title_at(76) == "Length"@);
    assert(title_at(77) == "Option data"@);
    assert(title_at(78) == "Router Alert"@);
    assert(title_at(79) == "Padding"@);
    assert(title_at(80) == "Pointer"@);
    assert(title_at(81) == "Route address"@);
    assert(title_at(82) == "IPv4 Fragment"@);
    assert(title_at(83) == "IPv4 Fragments"@);
    assert(title_at(84) == "Fragment count"@);
    assert(title_at(85) == "Reassembled IPv4 length"@);
    assert(title_at(86) == "Reassembled IPv4 data"@);
    assert(title_at(87) == "Internet Protocol Version 6"@);
    assert(title_at(88) == "Version"@);
    assert(title_at(89) == "Traffic Class"@);
    assert(title_at(90) == "Flow Label"@);
    assert(title_at(91) == "Payload Length"@);
    assert(title_at(92) == "Next Header"@);
    assert(title_at(93) == "Hop Limit"@);
    assert(title_at(94) == "Source or Destination Address"@);
    assert(title_at(95) == "Source Address"@);
    assert(title_at(96) == "Destination Address"@);
    assert(title_at(97) == "Hop-by-Hop Options"@);
    assert(title_at(98) == "Next Header"@);
}

proof fn titles_99()
    ensures
        forall|i: int| 99 <= i < 132 ==> (#[trigger] title_at(i)).len() > 0,
{
    reveal(title_at);
    reveal_strlit("Length");
    reveal_strlit("Destination Options");
    reveal_strlit("Next Header");
    reveal_strlit("Option");
    reveal_strlit("Type");
    reveal_strlit("Data");
    reveal_strlit("Router Alert");
    reveal_strlit("Routing Header");
    reveal_strlit("Segments Left");
    reveal_strlit("Type-specific data");
    reveal_strlit("Address");
    reveal_strlit("Fragment Header");
    reveal_strlit("Next header");
    reveal_strlit("Reserved octet");
    reveal_strlit("Offset");
    reveal_strlit("Reserved bits");
    reveal_strlit("More Fragments");
    reveal_strlit("Identification");
    reveal_strlit("Internet Control Message Protocol");
    reveal_strlit("Code");
    reveal_strlit("Checksum");
    reveal_strlit("Checksum Status");
    reveal_strlit("Identifier");
    reveal_strlit("Sequence Number");
    reveal_strlit("Unused");
    reveal_strlit("MTU of next hop");
    reveal_strlit("Gateway Address");
    assert(title_at(99) == "Length"@);
    assert(title_at(100) == "Destination Options"@);
    assert(title_at(101) == "Next Header"@);
    assert(title_at(102) == "Length"@);
    assert(title_at(103) == "Option"@);
    assert(title_at(104) == "Type"@);
    assert(title_at(105) == "Length"@);
    assert(title_at(106) == "Data"@);
    assert(title_at(107) == "Router Alert"@);
    assert(title_at(108) == "Routing Header"@);
    assert(title_at(109) == "Next Header"@);
    assert(title_at(110) == "Length"@);
    assert(title_at(111) == "Type"@);
    assert(title_at(112) == "Segments Left"@);
    assert(title_at(113) == "Type-specific data"@);
    assert(title_at(114) == "Address"@);
    assert(title_at(115) == "Fragment Header"@);
    assert(title_at(116) == "Next header"@);
    assert(title_at(117) == "Reserved octet"@);
    assert(title_at(118) == "Offset"@);
    assert(title_at(119) == "Reserved bits"@);
    assert(title_at(120) == "More Fragments"@);
    assert(title_at(121) == "Identification"@);
    assert(title_at(122) == "Internet Control Message Protocol"@);
    assert(title_at(123) == "Type"@);
    assert(title_at(124) == "Code"@);
    assert(title_at(125) == "Checksum"@);
    assert(title_at(126) == "Checksum Status"@);
    assert(title_at(127) == "Identifier"@);
    assert(title_at(128) == "Sequence Number"@);
    assert(title_at(129) == "Unused"@);
    assert(title_at(130) == "MTU of next hop"@);
    assert(title_at(131) == "Gateway Address"@);
}

proof fn titles_132()
    ensures
        forall|i: int| 132 <= i < 165 ==> (#[trigger] title_at(i)).len() > 0,
{
    reveal(title_at);
    reveal_strlit("Pointer");
    reveal_strlit("Data");
    reveal_strlit("Internet Control Message Protocol v6");
    reveal_strlit("Type");
    reveal_strlit("Code");
    reveal_strlit("Checksum");
    reveal_strlit("Checksum Status");
    reveal_strlit("Reserved");
    reveal_strlit("Identifier");
    reveal_strlit("Sequence");
    reveal_strlit("MTU");
    reveal_strlit("Target Address");
    reveal_strlit("Flags");
    reveal_strlit("Router");
    reveal_strlit("Solicited");
    reveal_strlit("Override");
    reveal_strlit("Cur hop limit");
    reveal_strlit("Managed address configuration");
    reveal_strlit("Other configuration");
    reveal_strlit("Router lifetime (s)");
    reveal_strlit("Reachable time (ms)");
    reveal_strlit("Retrans timer (ms)");
    reveal_strlit("Destination Address");
    reveal_strlit("ICMPv6 Option");
    reveal_strlit("Length");
    reveal_strlit("Link-layer address");
    reveal_strlit("Prefix Length");
    assert(title_at(132) == "Pointer"@);
    assert(title_at(133) == "Data"@);
    assert(title_at(134) == "Internet Control Message Protocol v6"@);
    assert(title_at(135) == "Type"@);
    assert(title_at(136) == "Code"@);
    assert(title_at(137) == "Checksum"@);
    assert(title_at(138) == "Checksum Status"@);
    assert(title_at(139) == "Reserved"@);
    assert(title_at(140) == "Identifier"@);
    assert(title_at(141) == "Sequence"@);
    assert(title_at(142) == "MTU"@);
    assert(title_at(143) == "Pointer"@);
    assert(title_at(144) == "Target Address"@);
    assert(title_at(145) == "Target Address"@);
    assert(title_at(146) == "Flags"@);
    assert(title_at(147) == "Router"@);
    assert(title_at(148) == "Solicited"@);
    assert(title_at(149) == "Override"@);
    assert(title_at(150) == "Cur hop limit"@);
    assert(title_at(151) == "Flags"@);
    assert(title_at(152) == "Managed address configuration"@);
    assert(title_at(153) == "Other configuration"@);
    assert(title_at(154) == "Router lifetime (s)"@);
    assert(title_at(155) == "Reachable time (ms)"@);
    assert(title_at(156) == "Retrans timer (ms)"@);
    assert(title_at(157) == "Target Address"@);
    assert(title_at(158) == "Destination Address"@);
    assert(title_at(159) == "ICMPv6 Option"@);
    assert(title_at(160) == "Type"@);
    assert(title_at(161) == "Length"@);
    assert(title_at(162) == "Link-layer address"@);
    assert(title_at(163) == "MTU"@);
    assert(title_at(164) == "Prefix Length"@);
}

proof fn titles_165()
    ensures
        forall|i: int| 165 <= i < 198 ==> (#[trigger] title_at(i)).len() > 0,
{
    reveal(title_at);
    reveal_strlit("Valid Lifetime");
    reveal_strlit("Preferred Lifetime");
    reveal_strlit("Prefix");
    reveal_strlit("Data");
    reveal_strlit("User Datagram Protocol");
    reveal_strlit("Source Port");
    reveal_strlit("Destination Port");
    reveal_strlit("Port");
    reveal_strlit("Stream index");
    reveal_strlit("Length");
    reveal_strlit("Checksum");
    reveal_strlit("Checksum Status");
    reveal_strlit("UDP payload");
    reveal_strlit("Transmission Control Protocol");
    reveal_strlit("SEQ/ACK analysis");
    reveal_strlit("Retransmission");
    reveal_strlit("Fast retransmission");
    reveal_strlit("Spurious retransmission");
    reveal_strlit("Out-of-order segment");
    reveal_strlit("Overlapping segment");
    reveal_strlit("Previous segment not captured");
    reveal_strlit("Duplicate ACK");
    reveal_strlit("Duplicate ACK number");
    reveal_strlit("Duplicate to the ACK in frame");
    reveal_strlit("Zero window");
    reveal_strlit("Window full");
    reveal_strlit("Keep-alive");
    reveal_strlit("ACKed segment not captured");
    assert(title_at(165) == "Valid Lifetime"@);
    assert(title_at(166) == "Preferred Lifetime"@);
    assert(title_at(167) == "Prefix"@);
    assert(title_at(168) == "Data"@);
    assert(title_at(169) == "Data"@);
    assert(title_at(170) == "User Datagram Protocol"@);
    assert(title_at(171) == "Source Port"@);
    assert(title_at(172) == "Destination Port"@);
    assert(title_at(173) == "Port"@);
    assert(title_at(174) == "Stream index"@);
    assert(title_at(175) == "Length"@);
    assert(title_at(176) == "Checksum"@);
    assert(title_at(177) == "Checksum Status"@);
    assert(title_at(178) == "UDP payload"@);
    assert(title_at(179) == "Transmission Control Protocol"@);
    assert(title_at(180) == "Source Port"@);
    assert(title_at(181) == "Destination Port"@);
    assert(title_at(182) == "Port"@);
    assert(title_at(183) == "Stream index"@);
    assert(title_at(184) == "SEQ/ACK analysis"@);
    assert(title_at(185) == "Retransmission"@);
    assert(title_at(186) == "Fast retransmission"@);
    assert(title_at(187) == "Spurious retransmission"@);
    assert(title_at(188) == "Out-of-order segment"@);
    assert(title_at(189) == "Overlapping segment"@);
    assert(title_at(190) == "Previous segment not captured"@);
    assert(title_at(191) == "Duplicate ACK"@);
    assert(title_at(192) == "Duplicate ACK number"@);
    assert(title_at(193) == "Duplicate to the ACK in frame"@);
    assert(title_at(194) == "Zero window"@);
    assert(title_at(195) == "Window full"@);
    assert(title_at(196) == "Keep-alive"@);
    assert(title_at(197) == "ACKed segment not captured"@);
}

proof fn titles_198()
    ensures
        forall|i: int| 198 <= i < 231 ==> (#[trigger] title_at(i)).len() > 0,
{
    reveal(title_at);
    reveal_strlit("Bytes in flight");
    reveal_strlit("TCP Segment Len");
    reveal_strlit("Sequence Number (raw)");
    reveal_strlit("Acknowledgment Number (raw)");
    reveal_strlit("Header Length");
    reveal_strlit("Flags");
    reveal_strlit("Reserved");
    reveal_strlit("Accurate ECN");
    reveal_strlit("Congestion Window Reduced");
    reveal_strlit("ECN-Echo");
    reveal_strlit("Urgent");
    reveal_strlit("Acknowledgment");
    reveal_strlit("Push");
    reveal_strlit("Reset");
    reveal_strlit("Syn");
    reveal_strlit("Fin");
    reveal_strlit("Window");
    reveal_strlit("Checksum");
    reveal_strlit("Checksum Status");
    reveal_strlit("Urgent Pointer");
    reveal_strlit("Options");
    reveal_strlit("Kind");
    reveal_strlit("Length");
    reveal_strlit("End of Option List (EOL)");
    reveal_strlit("No-Operation (NOP)");
    reveal_strlit("Maximum segment size");
    reveal_strlit("MSS Value");
    reveal_strlit("Window scale");
    reveal_strlit("Shift count");
    reveal_strlit("Multiplier");
    reveal_strlit("SACK permitted");
    reveal_strlit("SACK");
    reveal_strlit("SACK Left Edge");
    assert(title_at(198) == "Bytes in flight"@);
    assert(title_at(199) == "TCP Segment Len"@);
    assert(title_at(200) == "Sequence Number (raw)"@);
    assert(title_at(201) == "Acknowledgment Number (raw)"@);
    assert(title_at(202) == "Header Length"@);
    assert(title_at(203) == "Flags"@);
    assert(title_at(204) == "Reserved"@);
    assert(title_at(205) == "Accurate ECN"@);
    assert(title_at(206) == "Congestion Window Reduced"@);
    assert(title_at(207) == "ECN-Echo"@);
    assert(title_at(208) == "Urgent"@);
    assert(title_at(209) == "Acknowledgment"@);
    assert(title_at(210) == "Push"@);
    assert(title_at(211) == "Reset"@);
    assert(title_at(212) == "Syn"@);
    assert(title_at(213) == "Fin"@);
    assert(title_at(214) == "Window"@);
    assert(title_at(215) == "Checksum"@);
    assert(title_at(216) == "Checksum Status"@);
    assert(title_at(217) == "Urgent Pointer"@);
    assert(title_at(218) == "Options"@);
    assert(title_at(219) == "Kind"@);
    assert(title_at(220) == "Length"@);
    assert(title_at(221) == "End of Option List (EOL)"@);
    assert(title_at(222) == "No-Operation (NOP)"@);
    assert(title_at(223) == "Maximum segment size"@);
    assert(title_at(224) == "MSS Value"@);
    assert(title_at(225) == "Window scale"@);
    assert(title_at(226) == "Shift count"@);
    assert(title_at(227) == "Multiplier"@);
    assert(title_at(228) == "SACK permitted"@);
    assert(title_at(229) == "SACK"@);
    assert(title_at(230) == "SACK Left Edge"@);
}

proof fn titles_231()
    ensures
        forall|i: int| 231 <= i < 264 ==> (#[trigger] title_at(i)).len() > 0,
{
    reveal(title_at);
    reveal_strlit("SACK Right Edge");
    reveal_strlit("Timestamps");
    reveal_strlit("Timestamp value");
    reveal_strlit("Timestamp echo reply");
    reveal_strlit("Unknown option");
    reveal_strlit("Option data");
    reveal_strlit("TCP payload");
    reveal_strlit("Domain Name System");
    reveal_strlit("Transaction ID");
    reveal_strlit("Flags");
    reveal_strlit("Response");
    reveal_strlit("Opcode");
    reveal_strlit("Authoritative");
    reveal_strlit("Truncated");
    reveal_strlit("Recursion desired");
    reveal_strlit("Recursion available");
    reveal_strlit("Z");
    reveal_strlit("Answer authenticated");
    reveal_strlit("Non-authenticated data");
    reveal_strlit("Reply code");
    reveal_strlit("Questions");
    reveal_strlit("Answer RRs");
    reveal_strlit("Authority RRs");
    reveal_strlit("Additional RRs");
    reveal_strlit("Queries");
    reveal_strlit("Answers");
    reveal_strlit("Authoritative nameservers");
    reveal_strlit("Additional records");
    reveal_strlit("Query");
    reveal_strlit("Name");
    reveal_strlit("Type");
    reveal_strlit("Class");
    reveal_strlit("Resource record");
    assert(title_at(231) == "SACK Right Edge"@);
    assert(title_at(232) == "Timestamps"@);
    assert(title_at(233) == "Timestamp value"@);
    assert(title_at(234) == "Timestamp echo reply"@);
    assert(title_at(235) == "Unknown option"@);
    assert(title_at(236) == "Option data"@);
    assert(title_at(237) == "TCP payload"@);
    assert(title_at(238) == "Domain Name System"@);
    assert(title_at(239) == "Transaction ID"@);
    assert(title_at(240) == "Flags"@);
    assert(title_at(241) == "Response"@);
    assert(title_at(242) == "Opcode"@);
    assert(title_at(243) == "Authoritative"@);
    assert(title_at(244) == "Truncated"@);
    assert(title_at(245) == "Recursion desired"@);
    assert(title_at(246) == "Recursion available"@);
    assert(title_at(247) == "Z"@);
    assert(title_at(248) == "Answer authenticated"@);
    assert(title_at(249) == "Non-authenticated data"@);
    assert(title_at(250) == "Reply code"@);
    assert(title_at(251) == "Questions"@);
    assert(title_at(252) == "Answer RRs"@);
    assert(title_at(253) == "Authority RRs"@);
    assert(title_at(254) == "Additional RRs"@);
    assert(title_at(255) == "Queries"@);
    assert(title_at(256) == "Answers"@);
    assert(title_at(257) == "Authoritative nameservers"@);
    assert(title_at(258) == "Additional records"@);
    assert(title_at(259) == "Query"@);
    assert(title_at(260) == "Name"@);
    assert(title_at(261) == "Type"@);
    assert(title_at(262) == "Class"@);
    assert(title_at(263) == "Resource record"@);
}

proof fn titles_264()
    ensures
        forall|i: int| 264 <= i < 297 ==> (#[trigger] title_at(i)).len() > 0,
{
    reveal(title_at);
    reveal_strlit("Name");
    reveal_strlit("Type");
    reveal_strlit("Class");
    reveal_strlit("Time to live");
    reveal_strlit("Data length");
    reveal_strlit("Address");
    reveal_strlit("AAAA Address");
    reveal_strlit("CNAME");
    reveal_strlit("Name Server");
    reveal_strlit("Domain Name");
    reveal_strlit("Preference");
    reveal_strlit("Mail Exchange");
    reveal_strlit("TXT");
    reveal_strlit("Primary name server");
    reveal_strlit("Responsible authority's mailbox");
    reveal_strlit("Serial Number");
    reveal_strlit("Refresh Interval");
    reveal_strlit("Retry Interval");
    reveal_strlit("Expire limit");
    reveal_strlit("Minimum TTL");
    reveal_strlit("Priority");
    reveal_strlit("Weight");
    reveal_strlit("Port");
    reveal_strlit("Target");
    reveal_strlit("Data");
    reveal_strlit("Dynamic Host Configuration Protocol");
    reveal_strlit("Message type");
    reveal_strlit("Hardware type");
    reveal_strlit("Hardware address length");
    reveal_strlit("Hops");
    reveal_strlit("Transaction ID");
    reveal_strlit("Seconds elapsed");
    reveal_strlit("Bootp flags");
    assert(title_at(264) == "Name"@);
    assert(title_at(265) == "Type"@);
    assert(title_at(266) == "Class"@);
    assert(title_at(267) == "Time to live"@);
    assert(title_at(268) == "Data length"@);
    assert(title_at(269) == "Address"@);
    assert(title_at(270) == "AAAA Address"@);
    assert(title_at(271) == "CNAME"@);
    assert(title_at(272) == "Name Server"@);
    assert(title_at(273) == "Domain Name"@);
    assert(title_at(274) == "Preference"@);
    assert(title_at(275) == "Mail Exchange"@);
    assert(title_at(276) == "TXT"@);
    assert(title_at(277) == "Primary name server"@);
    assert(title_at(278) == "Responsible authority's mailbox"@);
    assert(title_at(279) == "Serial Number"@);
    assert(title_at(280) == "Refresh Interval"@);
    assert(title_at(281) == "Retry Interval"@);
    assert(title_at(282) == "Expire limit"@);
    assert(title_at(283) == "Minimum TTL"@);
    assert(title_at(284) == "Priority"@);
    assert(title_at(285) == "Weight"@);
    assert(title_at(286) == "Port"@);
    assert(title_at(287) == "Target"@);
    assert(title_at(288) == "Data"@);
    assert(title_at(289) == "Dynamic Host Configuration Protocol"@);
    assert(title_at(290) == "Message type"@);
    assert(title_at(291) == "Hardware type"@);
    assert(title_at(292) == "Hardware address length"@);
    assert(title_at(293) == "Hops"@);
    assert(title_at(294) == "Transaction ID"@);
    assert(title_at(295) == "Seconds elapsed"@);
    assert(title_at(296) == "Bootp flags"@);
}

proof fn titles_297()
    ensures
        forall|i: int| 297 <= i < 330 ==> (#[trigger] title_at(i)).len() > 0,
{
    reveal(title_at);
    reveal_strlit("Broadcast flag");
    reveal_strlit("Client IP address");
    reveal_strlit("Your (client) IP address");
    reveal_strlit("Next server IP address");
    reveal_strlit("Relay agent IP address");
    reveal_strlit("Client MAC address");
    reveal_strlit("Client hardware address padding");
    reveal_strlit("Server host name");
    reveal_strlit("Boot file name");
    reveal_strlit("Magic cookie");
    reveal_strlit("Option");
    reveal_strlit("Length");
    reveal_strlit("Value");
    reveal_strlit("DHCP");
    reveal_strlit("Subnet Mask");
    reveal_strlit("Router");
    reveal_strlit("Domain Name Server");
    reveal_strlit("Broadcast Address");
    reveal_strlit("NTP Server");
    reveal_strlit("Requested IP Address");
    reveal_strlit("IP Address Lease Time");
    reveal_strlit("Renewal Time Value");
    reveal_strlit("Rebinding Time Value");
    reveal_strlit("DHCP Server Identifier");
    reveal_strlit("Maximum DHCP Message Size");
    reveal_strlit("Host Name");
    reveal_strlit("Domain Name");
    reveal_strlit("Vendor class identifier");
    reveal_strlit("Client identifier");
    reveal_strlit("Parameter Request List Item");
    reveal_strlit("Option End");
    reveal_strlit("Padding");
    assert(title_at(297) == "Broadcast flag"@);
    assert(title_at(298) == "Client IP address"@);
    assert(title_at(299) == "Your (client) IP address"@);
    assert(title_at(300) == "Next server IP address"@);
    assert(title_at(301) == "Relay agent IP address"@);
    assert(title_at(302) == "Client MAC address"@);
    assert(title_at(303) == "Client hardware address padding"@);
    assert(title_at(304) == "Server host name"@);
    assert(title_at(305) == "Boot file name"@);
    assert(title_at(306) == "Magic cookie"@);
    assert(title_at(307) == "Option"@);
    assert(title_at(308) == "Option"@);
    assert(title_at(309) == "Length"@);
    assert(title_at(310) == "Value"@);
    assert(title_at(311) == "DHCP"@);
    assert(title_at(312) == "Subnet Mask"@);
    assert(title_at(313) == "Router"@);
    assert(title_at(314) == "Domain Name Server"@);
    assert(title_at(315) == "Broadcast Address"@);
    assert(title_at(316) == "NTP Server"@);
    assert(title_at(317) == "Requested IP Address"@);
    assert(title_at(318) == "IP Address Lease Time"@);
    assert(title_at(319) == "Renewal Time Value"@);
    assert(title_at(320) == "Rebinding Time Value"@);
    assert(title_at(321) == "DHCP Server Identifier"@);
    assert(title_at(322) == "Maximum DHCP Message Size"@);
    assert(title_at(323) == "Host Name"@);
    assert(title_at(324) == "Domain Name"@);
    assert(title_at(325) == "Vendor class identifier"@);
    assert(title_at(326) == "Client identifier"@);
    assert(title_at(327) == "Parameter Request List Item"@);
    assert(title_at(328) == "Option End"@);
    assert(title_at(329) == "Padding"@);
}

proof fn titles_330()
    ensures
        forall|i: int| 330 <= i < 363 ==> (#[trigger] title_at(i)).len() > 0,
{
    reveal(title_at);
    reveal_strlit("Hypertext Transfer Protocol");
    reveal_strlit("Request");
    reveal_strlit("Request Method");
    reveal_strlit("Request URI");
    reveal_strlit("Request Version");
    reveal_strlit("Request line");
    reveal_strlit("Response");
    reveal_strlit("Response Version");
    reveal_strlit("Status Code");
    reveal_strlit("Response Phrase");
    reveal_strlit("Response line");
    reveal_strlit("Host");
    reveal_strlit("User-Agent");
    reveal_strlit("Content-Type");
    reveal_strlit("Content-Length");
    reveal_strlit("Server");
    reveal_strlit("Connection");
    reveal_strlit("File Data");
    reveal_strlit("Transfer-Encoding");
    reveal_strlit("Segment of a reassembled PDU");
    reveal_strlit("Segment length");
    reveal_strlit("Transport Layer Security");
    reveal_strlit("TLS Record Layer");
    reveal_strlit("Content Type");
    reveal_strlit("Version");
    reveal_strlit("Length");
    reveal_strlit("Opaque Type");
    reveal_strlit("Change Cipher Spec Message");
    reveal_strlit("Alert Message");
    reveal_strlit("Level");
    reveal_strlit("Description");
    reveal_strlit("Handshake Protocol");
    reveal_strlit("Handshake Type");
    assert(title_at(330) == "Hypertext Transfer Protocol"@);
    assert(title_at(331) == "Request"@);
    assert(title_at(332) == "Request Method"@);
    assert(title_at(333) == "Request URI"@);
    assert(title_at(334) == "Request Version"@);
    assert(title_at(335) == "Request line"@);
    assert(title_at(336) == "Response"@);
    assert(title_at(337) == "Response Version"@);
    assert(title_at(338) == "Status Code"@);
    assert(title_at(339) == "Response Phrase"@);
    assert(title_at(340) == "Response line"@);
    assert(title_at(341) == "Host"@);
    assert(title_at(342) == "User-Agent"@);
    assert(title_at(343) == "Content-Type"@);
    assert(title_at(344) == "Content-Length"@);
    assert(title_at(345) == "Server"@);
    assert(title_at(346) == "Connection"@);
    assert(title_at(347) == "File Data"@);
    assert(title_at(348) == "Transfer-Encoding"@);
    assert(title_at(349) == "Segment of a reassembled PDU"@);
    assert(title_at(350) == "Segment length"@);
    assert(title_at(351) == "Transport Layer Security"@);
    assert(title_at(352) == "TLS Record Layer"@);
    assert(title_at(353) == "Content Type"@);
    assert(title_at(354) == "Version"@);
    assert(title_at(355) == "Length"@);
    assert(title_at(356) == "Opaque Type"@);
    assert(title_at(357) == "Change Cipher Spec Message"@);
    assert(title_at(358) == "Alert Message"@);
    assert(title_at(359) == "Level"@);
    assert(title_at(360) == "Description"@);
    assert(title_at(361) == "Handshake Protocol"@);
    assert(title_at(362) == "Handshake Type"@);
}

proof fn titles_363()
    ensures
        forall|i: int| 363 <= i < 396 ==> (#[trigger] title_at(i)).len() > 0,
{
    reveal(title_at);
    reveal_strlit("Length");
    reveal_strlit("Version");
    reveal_strlit("Random");
    reveal_strlit("Session ID Length");
    reveal_strlit("Session ID");
    reveal_strlit("Cipher Suites Length");
    reveal_strlit("Cipher Suites");
    reveal_strlit("Cipher Suite");
    reveal_strlit("Compression Methods Length");
    reveal_strlit("Compression Methods");
    reveal_strlit("Compression Method");
    reveal_strlit("Extensions Length");
    reveal_strlit("Extension");
    reveal_strlit("Type");
    reveal_strlit("Data");
    reveal_strlit("Server Name list length");
    reveal_strlit("Server Name Type");
    reveal_strlit("Server Name length");
    reveal_strlit("Server Name");
    reveal_strlit("Supported Versions length");
    reveal_strlit("Supported Version");
    reveal_strlit("ALPN Extension Length");
    reveal_strlit("ALPN string length");
    reveal_strlit("ALPN Next Protocol");
    reveal_strlit("Certificates Length");
    reveal_strlit("Certificate Length");
    reveal_strlit("Certificate");
    reveal_strlit("Encrypted Application Data");
    reveal_strlit("Encrypted handshake data");
    reveal_strlit("Continuation Data");
    reveal_strlit("Segment of a reassembled PDU");
    reveal_strlit("Segment length");
    assert(title_at(363) == "Length"@);
    assert(title_at(364) == "Version"@);
    assert(title_at(365) == "Random"@);
    assert(title_at(366) == "Session ID Length"@);
    assert(title_at(367) == "Session ID"@);
    assert(title_at(368) == "Cipher Suites Length"@);
    assert(title_at(369) == "Cipher Suites"@);
    assert(title_at(370) == "Cipher Suite"@);
    assert(title_at(371) == "Compression Methods Length"@);
    assert(title_at(372) == "Compression Methods"@);
    assert(title_at(373) == "Compression Method"@);
    assert(title_at(374) == "Extensions Length"@);
    assert(title_at(375) == "Extension"@);
    assert(title_at(376) == "Type"@);
    assert(title_at(377) == "Length"@);
    assert(title_at(378) == "Data"@);
    assert(title_at(379) == "Server Name list length"@);
    assert(title_at(380) == "Server Name Type"@);
    assert(title_at(381) == "Server Name length"@);
    assert(title_at(382) == "Server Name"@);
    assert(title_at(383) == "Supported Versions length"@);
    assert(title_at(384) == "Supported Version"@);
    assert(title_at(385) == "ALPN Extension Length"@);
    assert(title_at(386) == "ALPN string length"@);
    assert(title_at(387) == "ALPN Next Protocol"@);
    assert(title_at(388) == "Certificates Length"@);
    assert(title_at(389) == "Certificate Length"@);
    assert(title_at(390) == "Certificate"@);
    assert(title_at(391) == "Encrypted Application Data"@);
    assert(title_at(392) == "Encrypted handshake data"@);
    assert(title_at(393) == "Continuation Data"@);
    assert(title_at(394) == "Segment of a reassembled PDU"@);
    assert(title_at(395) == "Segment length"@);
}

/// Every registered field has a display name.
pub proof fn every_field_has_a_title()
    ensures
        forall|i: int| 0 <= i < FIELD_COUNT ==> (#[trigger] title_at(i)).len() > 0,
{
    titles_0();
    titles_33();
    titles_66();
    titles_99();
    titles_132();
    titles_165();
    titles_198();
    titles_231();
    titles_264();
    titles_297();
    titles_330();
    titles_363();
}

/// A template that opens with text of its own.
spec fn opens_with_text(t: Seq<char>) -> bool {
    t.len() > 0 && t[0] != '{'
}

proof fn lemma_rendered(t: Seq<char>, rows: Seq<Row>, at: int, data: Seq<u8>)
    requires
        opens_with_text(t),
    ensures
        rendered(t, rows, at, data).len() > 0,
{
    lemma_index_from(t, '{', 1);
    lemma_index_from(t, '}', char_index(t, '{', 0));
}

proof fn lemma_index_from(t: Seq<char>, c: char, i: int)
    requires
        0 <= i <= t.len(),
    ensures
        i <= char_index(t, c, i) <= t.len(),
    decreases t.len() - i,
{
    if i < t.len() && t[i] != c {
        lemma_index_from(t, c, i + 1);
    }
}

proof fn every_template_opens_with_text()
    ensures
        forall|i: int|
            0 <= i < LAYER_TEMPLATES@.len() ==> opens_with_text(
                (#[trigger] LAYER_TEMPLATES@[i]).1@,
            ),
{
    reveal_strlit(
        "Frame {frame.number}: {frame.len} bytes on wire, {frame.cap_len} bytes captured",
    );
    reveal_strlit("Ethernet II, Src: {eth.src}, Dst: {eth.dst}");
    reveal_strlit("Internet Protocol Version 4, Src: {ip.src}, Dst: {ip.dst}");
    reveal_strlit("Internet Protocol Version 6, Src: {ipv6.src}, Dst: {ipv6.dst}");
    reveal_strlit("Address Resolution Protocol ({arp.opcode})");
    reveal_strlit("User Datagram Protocol, Src Port: {udp.srcport}, Dst Port: {udp.dstport}");
    reveal_strlit(
        "Transmission Control Protocol, Src Port: {tcp.srcport}, Dst Port: {tcp.dstport}, Seq: {tcp.seq}, Ack: {tcp.ack}, Len: {tcp.len}",
    );
    reveal_strlit("Internet Control Message Protocol");
    reveal_strlit("Internet Control Message Protocol v6");
    reveal_strlit("Data ({data.len} bytes)");
    assert(opens_with_text(LAYER_TEMPLATES@[0].1@));
    assert(opens_with_text(LAYER_TEMPLATES@[1].1@));
    assert(opens_with_text(LAYER_TEMPLATES@[2].1@));
    assert(opens_with_text(LAYER_TEMPLATES@[3].1@));
    assert(opens_with_text(LAYER_TEMPLATES@[4].1@));
    assert(opens_with_text(LAYER_TEMPLATES@[5].1@));
    assert(opens_with_text(LAYER_TEMPLATES@[6].1@));
    assert(opens_with_text(LAYER_TEMPLATES@[7].1@));
    assert(opens_with_text(LAYER_TEMPLATES@[8].1@));
    assert(opens_with_text(LAYER_TEMPLATES@[9].1@));
}

proof fn lemma_template_from(abbrev: Seq<char>, i: int)
    requires
        0 <= i,
    ensures
        template_from(abbrev, i) matches Some(t) ==> exists|k: int|
            0 <= k < LAYER_TEMPLATES@.len() && t == (#[trigger] LAYER_TEMPLATES@[k]).1@,
    decreases LAYER_TEMPLATES@.len() - i,
{
    if i < LAYER_TEMPLATES@.len() && LAYER_TEMPLATES@[i].0@ != abbrev {
        lemma_template_from(abbrev, i + 1);
    }
}

/// A row whose field is registered, and whose own label if it has one is not
/// empty, has a label.
pub proof fn registered_rows_have_labels(rows: Seq<Row>, at: int, data: Seq<u8>)
    requires
        index_of(rows[at].abbrev) is Some,
        rows[at].text matches Some(t) ==> t.len() > 0,
    ensures
        label_of(rows, at, data).len() > 0,
{
    let abbrev = rows[at].abbrev;
    index_of_is_a_row(abbrev);
    every_field_has_a_title();
    assert(title_at(index_of(abbrev)->Some_0).len() > 0);
    if let Some(t) = template_from(abbrev, 0) {
        lemma_template_from(abbrev, 0);
        every_template_opens_with_text();
        lemma_rendered(t, rows, at, data);
    }
}

/// Every row of a dissected frame has a label, whatever bytes it is shown
/// with.
pub proof fn every_row_has_a_label(
    link_type: LinkType,
    number: u32,
    raw: RawView,
    state: StateView,
    options: Options,
    f: FrameView,
    after: StateView,
)
    requires
        tidy(state.reassembly),
        ({
            let m = dissected(
                link_type,
                number,
                raw.ts,
                raw.orig_len,
                raw.bytes,
                state,
                options,
            );
            frame_from(m, number, raw, f, after)
        }),
    ensures
        forall|i: int, data: Seq<u8>|
            0 <= i < f.rows.len() ==> (#[trigger] label_of(f.rows, i, data)).len() > 0,
{
    let m = dissected(link_type, number, raw.ts, raw.orig_len, raw.bytes, state, options);
    dissecting_stays_sound(
        link_type,
        number,
        raw.ts,
        raw.orig_len,
        raw.bytes,
        state,
        options,
    );
    assert forall|i: int, data: Seq<u8>| 0 <= i < f.rows.len() implies (#[trigger] label_of(
        f.rows,
        i,
        data,
    )).len() > 0 by {
        assert(stands_for(f.rows[i], m.trace.rows[i]));
        assert(known(m.trace.rows[i].abbrev));
        reveal(known);
        registered_rows_have_labels(f.rows, i, data);
    }
}

} // verus!
