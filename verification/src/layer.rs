//! What every protocol layer offers: its tag, its encoded size, and its
//! bytes in a caller-owned buffer.

use vstd::prelude::*;

verus! {

/// The protocols a layer can belong to.
#[derive(Clone, Copy, Debug, PartialEq, Eq, Structural)]
pub enum LayerType {
    Ethernet,
    Arp,
    Ipv4,
    Tcp,
    Udp,
}

impl LayerType {
    /// The name a protocol is shown by.
    pub open spec fn spec_name(self) -> Seq<char> {
        match self {
            LayerType::Ethernet => "Ethernet"@,
            LayerType::Arp => "ARP"@,
            LayerType::Ipv4 => "IPv4"@,
            LayerType::Tcp => "TCP"@,
            LayerType::Udp => "UDP"@,
        }
    }

    /// The name a protocol is shown by.
    pub fn name(&self) -> (name: &'static str)
        ensures
            name@ == self.spec_name(),
    {
        match self {
            LayerType::Ethernet => "Ethernet",
            LayerType::Arp => "ARP",
            LayerType::Ipv4 => "IPv4",
            LayerType::Tcp => "TCP",
            LayerType::Udp => "UDP",
        }
    }
}

/// Why a layer could not be written.
#[derive(Clone, Copy, Debug, PartialEq, Eq, Structural)]
pub enum SerializeError {
    /// The buffer is shorter than what has to be written.
    BufferTooSmall,
    /// A length does not fit the header field that has to hold it.
    HeaderTooLarge,
    /// The length of the whole packet does not fit its 16-bit field.
    TotalLengthTooLarge,
}

/// A protocol layer: a header that knows its size and writes itself.
pub trait Layer {
    /// The encoded size of the header, options included.
    spec fn spec_size(&self) -> nat;

    /// The protocol of the layer.
    spec fn spec_type(&self) -> LayerType;

    /// The protocol of the layer.
    fn get_type(&self) -> (tag: LayerType)
        ensures
            tag == self.spec_type(),
    ;

    /// The encoded size of the header in bytes, options included.
    fn get_size(&self) -> (size: usize)
        requires
            self.spec_size() <= usize::MAX,
        ensures
            size == self.spec_size(),
    ;

    /// Writes the header at the start of `buffer` and returns its size.
    /// A buffer shorter than the header is refused, and a refused call
    /// leaves the buffer as it was. Nothing behind the header is touched.
    fn serialize(&self, buffer: &mut [u8], n: usize) -> (written: Result<usize, SerializeError>)
        ensures
            final(buffer)@.len() == old(buffer)@.len(),
            written == Err::<usize, SerializeError>(SerializeError::BufferTooSmall) <==> old(
                buffer,
            )@.len() < self.spec_size(),
            written is Err ==> final(buffer)@ == old(buffer)@,
            written matches Ok(size) ==> size == self.spec_size() && final(buffer)@.skip(
                size as int,
            ) == old(buffer)@.skip(size as int),
    ;

    /// Writes the header at the start of `buffer`, with `payload` taken
    /// into account, and returns the number of bytes that now belong to the
    /// layer. A refused call leaves the buffer as it was.
    fn serialize_with_payload(&self, buffer: &mut [u8], payload: &[u8], n: usize) -> (written:
        Result<usize, SerializeError>)
        ensures
            final(buffer)@.len() == old(buffer)@.len(),
            written is Err ==> final(buffer)@ == old(buffer)@,
            written matches Ok(size) ==> self.spec_size() <= size <= old(buffer)@.len()
                && final(buffer)@.skip(size as int) == old(buffer)@.skip(size as int),
    ;
}

} // verus!
