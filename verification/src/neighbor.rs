//! Structured neighbor records: named, independently optional attributes
//! of a discovered device.

use vstd::prelude::*;

verus! {

/// MNDP 'unpack' field describing packing (compression) type.
#[derive(Copy, Clone, Debug, Eq, PartialEq, Structural)]
pub enum Unpack {
    /// No packing.
    No,
    /// Simple packing.
    Simple,
    /// A packing variant whose wire encoding is not characterized.
    /// It is never produced by decoding and is omitted when encoding.
    Unsupported,
}

/// Mathematical view of a neighbor record: every attribute as a plain,
/// independently optional value. Text attributes are character sequences,
/// address attributes raw byte sequences, uptime a count of seconds.
#[verifier::ext_equal]
pub ghost struct NeighborView {
    /// Board type / hardware model.
    pub board: Option<Seq<char>>,
    /// Identity or hostname.
    pub identity: Option<Seq<char>>,
    /// Name of the neighbor's interface.
    pub interface_name: Option<Seq<char>>,
    /// IPv4 address, 4 octets.
    pub ipv4_address: Option<Seq<u8>>,
    /// IPv6 address, 16 octets.
    pub ipv6_address: Option<Seq<u8>>,
    /// MAC address, 6 octets.
    pub mac_address: Option<Seq<u8>>,
    /// Platform or operating system.
    pub platform: Option<Seq<char>>,
    /// Software ID.
    pub software_id: Option<Seq<char>>,
    /// Packing (compression) setting.
    pub unpack: Option<Unpack>,
    /// Uptime in whole seconds.
    pub uptime: Option<u64>,
    /// Software version.
    pub version: Option<Seq<char>>,
}

impl NeighborView {
    /// The record with every attribute absent.
    pub open spec fn empty() -> NeighborView {
        NeighborView {
            board: None,
            identity: None,
            interface_name: None,
            ipv4_address: None,
            ipv6_address: None,
            mac_address: None,
            platform: None,
            software_id: None,
            unpack: None,
            uptime: None,
            version: None,
        }
    }
}

/// High-level representation of an MNDP neighbor.
///
/// Addresses are held as raw octets; uptime as whole seconds.
#[derive(Clone, Debug, Eq, PartialEq)]
pub struct Neighbor {
    /// Board type/hardware model; e.g. 'CRS226-24G-2S+'.
    pub board: Option<String>,
    /// Identity or hostname.
    pub identity: Option<String>,
    /// Name of neighbor interface; e.g. 'ether1'.
    pub interface_name: Option<String>,
    /// IPv4 address of neighbor interface.
    pub ipv4_address: Option<[u8; 4]>,
    /// IPv6 address of neighbor interface.
    pub ipv6_address: Option<[u8; 16]>,
    /// MAC address of MNDP interface.
    pub mac_address: Option<[u8; 6]>,
    /// Platform or operating system; e.g. 'MikroTik'.
    pub platform: Option<String>,
    /// Software ID or unique identifier; e.g. 'ZYX1-234W'.
    pub software_id: Option<String>,
    /// Compression setting on neighbor.
    pub unpack: Option<Unpack>,
    /// Current uptime of neighbor, in whole seconds.
    pub uptime: Option<u64>,
    /// Software version; e.g. '6.47.9 (long-term)'.
    pub version: Option<String>,
}

impl View for Neighbor {
    type V = NeighborView;

    open spec fn view(&self) -> NeighborView {
        NeighborView {
            board: match self.board {
                Some(s) => Some(s@),
                None => None,
            },
            identity: match self.identity {
                Some(s) => Some(s@),
                None => None,
            },
            interface_name: match self.interface_name {
                Some(s) => Some(s@),
                None => None,
            },
            ipv4_address: match self.ipv4_address {
                Some(a) => Some(a@),
                None => None,
            },
            ipv6_address: match self.ipv6_address {
                Some(a) => Some(a@),
                None => None,
            },
            mac_address: match self.mac_address {
                Some(a) => Some(a@),
                None => None,
            },
            platform: match self.platform {
                Some(s) => Some(s@),
                None => None,
            },
            software_id: match self.software_id {
                Some(s) => Some(s@),
                None => None,
            },
            unpack: self.unpack,
            uptime: self.uptime,
            version: match self.version {
                Some(s) => Some(s@),
                None => None,
            },
        }
    }
}

impl Neighbor {
    /// Create a new blank Neighbor.
    pub fn new() -> (r: Neighbor)
        ensures
            r@ == NeighborView::empty(),
    {
        Neighbor {
            board: None,
            identity: None,
            interface_name: None,
            ipv4_address: None,
            ipv6_address: None,
            mac_address: None,
            platform: None,
            software_id: None,
            unpack: None,
            uptime: None,
            version: None,
        }
    }

    /// Create a new neighbor builder (convenience alias for `Builder::new()`).
    pub fn builder() -> (r: Builder)
        ensures
            r.inner@ == NeighborView::empty(),
    {
        Builder::new()
    }
}

/// Builder structure for a `Neighbor`: each setter overwrites one named slot.
#[derive(Clone, Debug, Eq, PartialEq)]
pub struct Builder {
    /// The record assembled so far.
    pub inner: Neighbor,
}

impl Builder {
    /// Create a new `Builder` to start building a `Neighbor` instance.
    pub fn new() -> (r: Self)
        ensures
            r.inner@ == NeighborView::empty(),
    {
        Builder { inner: Neighbor::new() }
    }

    /// Set the board for this instance.
    pub fn board(self, value: String) -> (r: Self)
        ensures
            r.inner@ == (NeighborView { board: Some(value@), ..self.inner@ }),
    {
        let mut inner = self.inner;
        inner.board = Some(value);
        Builder { inner }
    }

    /// Set the identity for this instance.
    pub fn identity(self, value: String) -> (r: Self)
        ensures
            r.inner@ == (NeighborView { identity: Some(value@), ..self.inner@ }),
    {
        let mut inner = self.inner;
        inner.identity = Some(value);
        Builder { inner }
    }

    /// Set the interface name for this instance.
    pub fn interface_name(self, value: String) -> (r: Self)
        ensures
            r.inner@ == (NeighborView { interface_name: Some(value@), ..self.inner@ }),
    {
        let mut inner = self.inner;
        inner.interface_name = Some(value);
        Builder { inner }
    }

    /// Set the IPv4 address for this instance.
    pub fn ipv4_address(self, value: [u8; 4]) -> (r: Self)
        ensures
            r.inner@ == (NeighborView { ipv4_address: Some(value@), ..self.inner@ }),
    {
        let mut inner = self.inner;
        inner.ipv4_address = Some(value);
        Builder { inner }
    }

    /// Set the IPv6 address for this instance.
    pub fn ipv6_address(self, value: [u8; 16]) -> (r: Self)
        ensures
            r.inner@ == (NeighborView { ipv6_address: Some(value@), ..self.inner@ }),
    {
        let mut inner = self.inner;
        inner.ipv6_address = Some(value);
        Builder { inner }
    }

    /// Set the MAC address for this instance.
    pub fn mac_address(self, value: [u8; 6]) -> (r: Self)
        ensures
            r.inner@ == (NeighborView { mac_address: Some(value@), ..self.inner@ }),
    {
        let mut inner = self.inner;
        inner.mac_address = Some(value);
        Builder { inner }
    }

    /// Set the platform name for this instance.
    pub fn platform(self, value: String) -> (r: Self)
        ensures
            r.inner@ == (NeighborView { platform: Some(value@), ..self.inner@ }),
    {
        let mut inner = self.inner;
        inner.platform = Some(value);
        Builder { inner }
    }

    /// Set the software ID for this instance.
    pub fn software_id(self, value: String) -> (r: Self)
        ensures
            r.inner@ == (NeighborView { software_id: Some(value@), ..self.inner@ }),
    {
        let mut inner = self.inner;
        inner.software_id = Some(value);
        Builder { inner }
    }

    /// Set the unpack (compression type) for this instance.
    pub fn unpack(self, value: Unpack) -> (r: Self)
        ensures
            r.inner@ == (NeighborView { unpack: Some(value), ..self.inner@ }),
    {
        let mut inner = self.inner;
        inner.unpack = Some(value);
        Builder { inner }
    }

    /// Set the uptime for this instance, in whole seconds.
    pub fn uptime(self, value: u64) -> (r: Self)
        ensures
            r.inner@ == (NeighborView { uptime: Some(value), ..self.inner@ }),
    {
        let mut inner = self.inner;
        inner.uptime = Some(value);
        Builder { inner }
    }

    /// Set the version string for this instance.
    pub fn version(self, value: String) -> (r: Self)
        ensures
            r.inner@ == (NeighborView { version: Some(value@), ..self.inner@ }),
    {
        let mut inner = self.inner;
        inner.version = Some(value);
        Builder { inner }
    }

    /// Return the finished `Neighbor` instance.
    pub fn build(self) -> (r: Neighbor)
        ensures
            r@ == self.inner@,
    {
        self.inner
    }
}

} // verus!
