use vstd::prelude::*;

verus! {

/// Failure of a serial link (or of a reply that could not be understood).
#[derive(Debug, PartialEq, Eq, Structural, Clone, Copy)]
pub enum SerialError {
    Undefined,
}

/// A byte link to a device.
///
/// `read` fills the whole buffer or fails; `write` sends the whole buffer
/// or fails. What the device answers is up to the device: a link states it
/// through `wrote` and `was_read`, the steps that a write and a read can
/// take it through. A link that keeps the defaults says nothing of its
/// device: any step is possible.
pub trait Serial where Self: Sized {
    /// The link can go from `self` to `post` when `buf` is written to it
    /// and the write returns `r`.
    open spec fn wrote(self, post: Self, buf: Seq<u8>, r: Result<(), SerialError>) -> bool {
        true
    }

    /// The link can go from `self` to `post` when it is read into a buffer
    /// that holds `before`, the read returning `r` and leaving `after` in
    /// the buffer.
    open spec fn was_read(
        self,
        post: Self,
        before: Seq<u8>,
        after: Seq<u8>,
        r: Result<(), SerialError>,
    ) -> bool {
        true
    }

    fn read(&mut self, buf: &mut [u8]) -> (r: Result<(), SerialError>)
        ensures
            final(buf)@.len() == old(buf)@.len(),
            old(self).was_read(*final(self), old(buf)@, final(buf)@, r),
    ;

    fn write(&mut self, buf: &[u8]) -> (r: Result<(), SerialError>)
        ensures
            old(self).wrote(*final(self), buf@, r),
    ;
}

/// The number of bytes that a value takes on the wire.
pub trait MySize where Self: Sized {
    /// The wire size of the type, in bytes.
    spec fn byte_size() -> nat;

    fn size() -> (n: usize)
        requires
            Self::byte_size() <= usize::MAX,
        ensures
            n == Self::byte_size(),
    ;
}

/// A value with a fixed-size wire encoding.
pub trait Sendable where Self: MySize {
    /// The bytes that stand for `self` on the wire.
    spec fn encoding(self) -> Seq<u8>;

    /// The value that a run of `byte_size()` bytes stands for.
    spec fn decoding(bytes: Seq<u8>) -> Self;

    /// Every value is encoded in exactly `byte_size()` bytes.
    proof fn lemma_encoding_len(x: Self)
        ensures
            x.encoding().len() == Self::byte_size(),
    ;

    /// Decoding gives back what was encoded.
    proof fn lemma_decode_encode(x: Self)
        ensures
            Self::decoding(x.encoding()) == x,
    ;

    /// Encoding gives back the bytes that were decoded.
    proof fn lemma_encode_decode(bytes: Seq<u8>)
        requires
            bytes.len() == Self::byte_size(),
        ensures
            Self::decoding(bytes).encoding() == bytes,
    ;

    fn into_byte(self) -> (bytes: Vec<u8>)
        ensures
            bytes@ == self.encoding(),
    ;

    fn from_byte(bytes: &[u8]) -> (x: Self)
        requires
            bytes@.len() == Self::byte_size(),
        ensures
            x == Self::decoding(bytes@),
    ;
}

} // verus!
