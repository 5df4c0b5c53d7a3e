//! Observed frames reduced to metadata.
//!
//! A frame is parsed along the chain link layer, IPv4 header, TCP or UDP
//! header; what the chain extracts is held in a `PacketMeta`. Frames outside
//! that chain keep their original length and carry a descriptive transport
//! tag with no address fields.

use vstd::prelude::*;
use vstd::slice::slice_index_get;
use crate::net::IpAddress;
use crate::text::{spec_decimal, spec_hex, decimal_string, hex_string};

verus! {

/// The transport-layer tag of a frame.
#[derive(Clone, Debug)]
pub enum TransportTag {
    Tcp,
    Udp,
    Icmp,
    /// Anything else, described in words.
    Other(String),
}

/// An observed frame reduced to timestamp, length, transport tag and the
/// optional four-tuple.
#[derive(Clone, Debug)]
pub struct PacketMeta {
    /// Seconds since the epoch at which the frame was observed.
    pub timestamp: u64,
    /// The original frame length in bytes.
    pub length: usize,
    pub tag: TransportTag,
    pub src_ip: Option<IpAddress>,
    pub dst_ip: Option<IpAddress>,
    pub src_port: Option<u16>,
    pub dst_port: Option<u16>,
}

impl PacketMeta {
    /// Build a packet record field by field.
    pub fn new(
        timestamp: u64,
        length: usize,
        tag: TransportTag,
        src_ip: Option<IpAddress>,
        dst_ip: Option<IpAddress>,
        src_port: Option<u16>,
        dst_port: Option<u16>,
    ) -> (r: PacketMeta)
        ensures
            r == (PacketMeta { timestamp, length, tag, src_ip, dst_ip, src_port, dst_port }),
    {
        PacketMeta { timestamp, length, tag, src_ip, dst_ip, src_port, dst_port }
    }

    /// A synthetic TCP packet of length zero standing for a socket-table
    /// entry, so that observability works without live capture.
    pub fn synthetic_tcp(timestamp: u64, src: crate::net::Endpoint, dst: crate::net::Endpoint) -> (
        r: PacketMeta)
        ensures
            r.timestamp == timestamp,
            r.length == 0,
            r.tag is Tcp,
            r.src_ip == Some(src.ip),
            r.dst_ip == Some(dst.ip),
            r.src_port == Some(src.port),
            r.dst_port == Some(dst.port),
    {
        PacketMeta {
            timestamp,
            length: 0,
            tag: TransportTag::Tcp,
            src_ip: Some(src.ip),
            dst_ip: Some(dst.ip),
            src_port: Some(src.port),
            dst_port: Some(dst.port),
        }
    }
}

/// A big-endian 16-bit value read at an offset of a byte sequence.
pub open spec fn spec_be16(s: Seq<u8>, i: int) -> int {
    s[i] * 0x100 + s[i + 1]
}

/// A big-endian 32-bit value read at an offset of a byte sequence.
pub open spec fn spec_be32(s: Seq<u8>, i: int) -> int {
    s[i] * 0x1000000 + s[i + 1] * 0x10000 + s[i + 2] * 0x100 + s[i + 3]
}

/// What the parsing chain finds in a raw frame.
pub enum FrameShape {
    /// An IPv4 TCP segment with its four-tuple.
    Tcp { src: u32, dst: u32, src_port: u16, dst_port: u16 },
    /// An IPv4 UDP datagram with its four-tuple.
    Udp { src: u32, dst: u32, src_port: u16, dst_port: u16 },
    /// An IPv4 packet of another protocol: addresses but no ports.
    OtherIpv4 { src: u32, dst: u32, protocol: u8 },
    /// An IPv6 packet, not parsed further.
    Ipv6,
    /// Another link-layer type, identified by its type value.
    OtherEther { ethertype: u16 },
    /// Too short or malformed for the chain.
    Unknown,
}

/// The parsing chain as a function of the raw bytes: link-layer type at
/// offset 12; for IPv4, header length from the low nibble of the first
/// header byte, protocol at offset 9, addresses at offsets 12 and 16; for
/// TCP and UDP, the two ports at the start of the transport header.
pub open spec fn spec_parse_frame(s: Seq<u8>) -> FrameShape {
    if s.len() < 14 {
        FrameShape::Unknown
    } else {
        let ethertype = spec_be16(s, 12int);
        if ethertype == 0x0800 {
            if s.len() < 14 + 20 {
                FrameShape::Unknown
            } else {
                let ihl = s[14] % 16;
                let header_len = ihl * 4;
                let protocol = s[(14 + 9) as int];
                let src = spec_be32(s, (14 + 12) as int);
                let dst = spec_be32(s, (14 + 16) as int);
                if protocol == 6 {
                    if ihl >= 5 && 14 + header_len + 20 <= s.len() {
                        FrameShape::Tcp {
                            src: src as u32,
                            dst: dst as u32,
                            src_port: spec_be16(s, (14 + header_len) as int) as u16,
                            dst_port: spec_be16(s, (14 + header_len + 2) as int) as u16,
                        }
                    } else {
                        FrameShape::Unknown
                    }
                } else if protocol == 17 {
                    if ihl >= 5 && 14 + header_len + 8 <= s.len() {
                        FrameShape::Udp {
                            src: src as u32,
                            dst: dst as u32,
                            src_port: spec_be16(s, (14 + header_len) as int) as u16,
                            dst_port: spec_be16(s, (14 + header_len + 2) as int) as u16,
                        }
                    } else {
                        FrameShape::Unknown
                    }
                } else {
                    FrameShape::OtherIpv4 { src: src as u32, dst: dst as u32, protocol }
                }
            }
        } else if ethertype == 0x86DD {
            FrameShape::Ipv6
        } else {
            FrameShape::OtherEther { ethertype: ethertype as u16 }
        }
    }
}

/// Read a big-endian 16-bit value at an offset.
fn be16(data: &[u8], i: usize) -> (r: u16)
    requires
        i + 2 <= data@.len(),
    ensures
        r == spec_be16(data@, i as int),
{
    let n = data.len();
    let hi = *slice_index_get(data, i);
    let lo = *slice_index_get(data, i + 1);
    (hi as u16) * 0x100 + (lo as u16)
}

/// Read a big-endian 32-bit value at an offset.
fn be32(data: &[u8], i: usize) -> (r: u32)
    requires
        i + 4 <= data@.len(),
    ensures
        r == spec_be32(data@, i as int),
{
    let n = data.len();
    let b0 = *slice_index_get(data, i);
    let b1 = *slice_index_get(data, i + 1);
    let b2 = *slice_index_get(data, i + 2);
    let b3 = *slice_index_get(data, i + 3);
    (b0 as u32) * 0x1000000 + (b1 as u32) * 0x10000 + (b2 as u32) * 0x100 + (b3 as u32)
}

/// Parse a raw frame into its metadata: the four-tuple for IPv4 TCP and
/// UDP, addresses alone for other IPv4 protocols, and a descriptive tag
/// with no fields for everything else. The length is the original frame
/// length and the timestamp is the given observation time.
pub fn parse_packet(data: &[u8], timestamp: u64) -> (r: PacketMeta)
    ensures
        r.timestamp == timestamp,
        r.length == data@.len(),
        (spec_parse_frame(data@) matches FrameShape::Tcp { src, dst, src_port, dst_port } ==> {
            &&& r.tag is Tcp
            &&& r.src_ip == Some(IpAddress::V4(src))
            &&& r.dst_ip == Some(IpAddress::V4(dst))
            &&& r.src_port == Some(src_port)
            &&& r.dst_port == Some(dst_port)
        }),
        (spec_parse_frame(data@) matches FrameShape::Udp { src, dst, src_port, dst_port } ==> {
            &&& r.tag is Udp
            &&& r.src_ip == Some(IpAddress::V4(src))
            &&& r.dst_ip == Some(IpAddress::V4(dst))
            &&& r.src_port == Some(src_port)
            &&& r.dst_port == Some(dst_port)
        }),
        (spec_parse_frame(data@) matches FrameShape::OtherIpv4 { src, dst, protocol } ==> {
            &&& (r.tag matches TransportTag::Other(p) && p@ == "IPv4-"@ + spec_decimal(
                protocol as int,
            ))
            &&& r.src_ip == Some(IpAddress::V4(src))
            &&& r.dst_ip == Some(IpAddress::V4(dst))
            &&& r.src_port is None
            &&& r.dst_port is None
        }),
        (spec_parse_frame(data@) is Ipv6 ==> {
            &&& (r.tag matches TransportTag::Other(p) && p@ == "IPv6"@)
            &&& r.src_ip is None
            &&& r.dst_ip is None
            &&& r.src_port is None
            &&& r.dst_port is None
        }),
        (spec_parse_frame(data@) matches FrameShape::OtherEther { ethertype } ==> {
            &&& (r.tag matches TransportTag::Other(p) && p@ == "Ethernet-0x"@ + spec_hex(
                ethertype as int,
            ))
            &&& r.src_ip is None
            &&& r.dst_ip is None
            &&& r.src_port is None
            &&& r.dst_port is None
        }),
        (spec_parse_frame(data@) is Unknown ==> {
            &&& (r.tag matches TransportTag::Other(p) && p@ == "Unknown"@)
            &&& r.src_ip is None
            &&& r.dst_ip is None
            &&& r.src_port is None
            &&& r.dst_port is None
        }),
{
    let length = data.len();
    if length < 14 {
        return PacketMeta {
            timestamp,
            length,
            tag: TransportTag::Other("Unknown".to_owned()),
            src_ip: None,
            dst_ip: None,
            src_port: None,
            dst_port: None,
        };
    }
    let ethertype = be16(data, 12);
    if ethertype == 0x0800 {
        if length < 34 {
            return PacketMeta {
                timestamp,
                length,
                tag: TransportTag::Other("Unknown".to_owned()),
                src_ip: None,
                dst_ip: None,
                src_port: None,
                dst_port: None,
            };
        }
        let ihl = *slice_index_get(data, 14) % 16;
        let header_len: usize = (ihl as usize) * 4;
        let protocol = *slice_index_get(data, 14 + 9);
        let src = be32(data, 14 + 12);
        let dst = be32(data, 14 + 16);
        if protocol == 6 {
            if ihl >= 5 && 14 + header_len + 20 <= length {
                let sp = be16(data, 14 + header_len);
                let dp = be16(data, 14 + header_len + 2);
                return PacketMeta {
                    timestamp,
                    length,
                    tag: TransportTag::Tcp,
                    src_ip: Some(IpAddress::V4(src)),
                    dst_ip: Some(IpAddress::V4(dst)),
                    src_port: Some(sp),
                    dst_port: Some(dp),
                };
            }
        } else if protocol == 17 {
            if ihl >= 5 && 14 + header_len + 8 <= length {
                let sp = be16(data, 14 + header_len);
                let dp = be16(data, 14 + header_len + 2);
                return PacketMeta {
                    timestamp,
                    length,
                    tag: TransportTag::Udp,
                    src_ip: Some(IpAddress::V4(src)),
                    dst_ip: Some(IpAddress::V4(dst)),
                    src_port: Some(sp),
                    dst_port: Some(dp),
                };
            }
        } else {
            let label = "IPv4-".to_owned().concat(decimal_string(protocol as u64).as_str());
            return PacketMeta {
                timestamp,
                length,
                tag: TransportTag::Other(label),
                src_ip: Some(IpAddress::V4(src)),
                dst_ip: Some(IpAddress::V4(dst)),
                src_port: None,
                dst_port: None,
            };
        }
        PacketMeta {
            timestamp,
            length,
            tag: TransportTag::Other("Unknown".to_owned()),
            src_ip: None,
            dst_ip: None,
            src_port: None,
            dst_port: None,
        }
    } else if ethertype == 0x86DD {
        PacketMeta {
            timestamp,
            length,
            tag: TransportTag::Other("IPv6".to_owned()),
            src_ip: None,
            dst_ip: None,
            src_port: None,
            dst_port: None,
        }
    } else {
        let label = "Ethernet-0x".to_owned().concat(hex_string(ethertype as u64).as_str());
        PacketMeta {
            timestamp,
            length,
            tag: TransportTag::Other(label),
            src_ip: None,
            dst_ip: None,
            src_port: None,
            dst_port: None,
        }
    }
}

} // verus!
