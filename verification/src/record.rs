//! The discovery connection descriptor and its two closed enumerations.

use crate::ipv4::Ipv4Address;
use vstd::prelude::*;

verus! {

/// Fabric transport used to reach the discovery target.
#[derive(Clone, Copy, PartialEq, Eq, Structural, Debug)]
pub enum TransportType {
    Rdma,
    Fc,
    Tcp,
    Loop,
}

impl TransportType {
    /// The fixed numeric tag each transport carries on the wire.
    pub open spec fn spec_wire_tag(self) -> u8 {
        match self {
            TransportType::Rdma => 1,
            TransportType::Fc => 2,
            TransportType::Tcp => 3,
            TransportType::Loop => 254,
        }
    }

    pub fn wire_tag(self) -> (t: u8)
        ensures
            t == self.spec_wire_tag(),
    {
        match self {
            TransportType::Rdma => 1,
            TransportType::Fc => 2,
            TransportType::Tcp => 3,
            TransportType::Loop => 254,
        }
    }

    /// The closed set of accepted texts for `--trtype`, and what each maps
    /// to; anything else is rejected.
    pub open spec fn spec_of_text(s: Seq<char>) -> Option<TransportType> {
        if s == "RDMA"@ {
            Some(TransportType::Rdma)
        } else if s == "FC"@ {
            Some(TransportType::Fc)
        } else if s == "TCP"@ {
            Some(TransportType::Tcp)
        } else if s == "Loop"@ {
            Some(TransportType::Loop)
        } else {
            None
        }
    }

    /// Exact, case-sensitive match of `s` against the accepted transport
    /// texts.
    pub fn from_text(s: &str) -> (r: Option<TransportType>)
        ensures
            r == TransportType::spec_of_text(s@),
    {
        let owned = s.to_owned();
        if owned == "RDMA".to_owned() {
            Some(TransportType::Rdma)
        } else if owned == "FC".to_owned() {
            Some(TransportType::Fc)
        } else if owned == "TCP".to_owned() {
            Some(TransportType::Tcp)
        } else if owned == "Loop".to_owned() {
            Some(TransportType::Loop)
        } else {
            None
        }
    }
}

/// Addressing scheme used to express the transport address.
#[derive(Clone, Copy, PartialEq, Eq, Structural, Debug)]
pub enum AddressFamily {
    Ipv4,
    Ipv6,
    InfiniBand,
    Fc,
    Loop,
}

impl AddressFamily {
    /// The fixed numeric tag each address family carries on the wire.
    pub open spec fn spec_wire_tag(self) -> u8 {
        match self {
            AddressFamily::Ipv4 => 1,
            AddressFamily::Ipv6 => 2,
            AddressFamily::InfiniBand => 3,
            AddressFamily::Fc => 4,
            AddressFamily::Loop => 254,
        }
    }

    pub fn wire_tag(self) -> (t: u8)
        ensures
            t == self.spec_wire_tag(),
    {
        match self {
            AddressFamily::Ipv4 => 1,
            AddressFamily::Ipv6 => 2,
            AddressFamily::InfiniBand => 3,
            AddressFamily::Fc => 4,
            AddressFamily::Loop => 254,
        }
    }

    /// The closed set of accepted texts for `--adrfam`, and what each maps
    /// to; anything else is rejected.
    pub open spec fn spec_of_text(s: Seq<char>) -> Option<AddressFamily> {
        if s == "IPv4"@ {
            Some(AddressFamily::Ipv4)
        } else if s == "IPv6"@ {
            Some(AddressFamily::Ipv6)
        } else if s == "IB"@ {
            Some(AddressFamily::InfiniBand)
        } else if s == "FC"@ {
            Some(AddressFamily::Fc)
        } else if s == "Loop"@ {
            Some(AddressFamily::Loop)
        } else {
            None
        }
    }

    /// Exact, case-sensitive match of `s` against the accepted address
    /// family texts.
    pub fn from_text(s: &str) -> (r: Option<AddressFamily>)
        ensures
            r == AddressFamily::spec_of_text(s@),
    {
        let owned = s.to_owned();
        if owned == "IPv4".to_owned() {
            Some(AddressFamily::Ipv4)
        } else if owned == "IPv6".to_owned() {
            Some(AddressFamily::Ipv6)
        } else if owned == "IB".to_owned() {
            Some(AddressFamily::InfiniBand)
        } else if owned == "FC".to_owned() {
            Some(AddressFamily::Fc)
        } else if owned == "Loop".to_owned() {
            Some(AddressFamily::Loop)
        } else {
            None
        }
    }
}

/// The validated discovery connection descriptor: always fully populated,
/// each field holding either its documented default or an explicitly
/// supplied value.
#[derive(Clone, PartialEq, Eq, Debug)]
pub struct DiscoveryRecord {
    /// NVMe Qualified Name of the discovery service to query.
    pub nqn: String,
    /// Fabric transport type.
    pub trtype: TransportType,
    /// Address family of `traddr`.
    pub adrfam: AddressFamily,
    /// IPv4 transport address.
    pub traddr: Ipv4Address,
    /// Service (port) number.
    pub trsvcid: u32,
}

/// Mathematical model of a [`DiscoveryRecord`]: the NQN as a character
/// sequence, every other field as itself.
pub ghost struct RecordModel {
    pub nqn: Seq<char>,
    pub trtype: TransportType,
    pub adrfam: AddressFamily,
    pub traddr: Ipv4Address,
    pub trsvcid: u32,
}

impl View for DiscoveryRecord {
    type V = RecordModel;

    open spec fn view(&self) -> RecordModel {
        RecordModel {
            nqn: self.nqn@,
            trtype: self.trtype,
            adrfam: self.adrfam,
            traddr: self.traddr,
            trsvcid: self.trsvcid,
        }
    }
}

impl DiscoveryRecord {
    /// The documented defaults: the well-known discovery NQN, TCP over
    /// IPv4, address 127.0.0.1, service id 8009.
    pub open spec fn spec_default() -> RecordModel {
        RecordModel {
            nqn: "nqn.2014-08.org.nvmexpress.discovery"@,
            trtype: TransportType::Tcp,
            adrfam: AddressFamily::Ipv4,
            traddr: Ipv4Address { a: 127, b: 0, c: 0, d: 1 },
            trsvcid: 8009,
        }
    }
}

impl Default for DiscoveryRecord {
    /// A record populated with every documented default.
    fn default() -> (r: DiscoveryRecord)
        ensures
            r@ == DiscoveryRecord::spec_default(),
    {
        DiscoveryRecord {
            nqn: "nqn.2014-08.org.nvmexpress.discovery".to_owned(),
            trtype: TransportType::Tcp,
            adrfam: AddressFamily::Ipv4,
            traddr: Ipv4Address { a: 127, b: 0, c: 0, d: 1 },
            trsvcid: 8009,
        }
    }
}

} // verus!
