use vstd::prelude::*;
use crate::serialtrait::{MySize, Sendable};

verus! {

impl MySize for u8 {
    open spec fn byte_size() -> nat {
        1
    }

    fn size() -> (n: usize) {
        1
    }
}

impl Sendable for u8 {
    open spec fn encoding(self) -> Seq<u8> {
        seq![self]
    }

    open spec fn decoding(bytes: Seq<u8>) -> u8 {
        bytes[0]
    }

    proof fn lemma_encoding_len(x: u8) {
    }

    proof fn lemma_decode_encode(x: u8) {
    }

    proof fn lemma_encode_decode(bytes: Seq<u8>) {
        assert(seq![bytes[0]] =~= bytes);
    }

    fn into_byte(self) -> (bytes: Vec<u8>) {
        vec![self]
    }

    fn from_byte(bytes: &[u8]) -> (x: u8) {
        bytes[0]
    }
}

} // verus!

verus! {

/// The value of two bytes read as a big-endian number.
pub open spec fn be2(b0: u8, b1: u8) -> int {
    b0 * 256 + b1
}

/// The value of four bytes read as a big-endian number.
pub open spec fn be4(b0: u8, b1: u8, b2: u8, b3: u8) -> int {
    b0 * 0x100_0000 + b1 * 0x1_0000 + b2 * 0x100 + b3
}

impl MySize for u16 {
    open spec fn byte_size() -> nat {
        2
    }

    fn size() -> (n: usize) {
        2
    }
}

impl Sendable for u16 {
    open spec fn encoding(self) -> Seq<u8> {
        seq![(self / 256) as u8, (self % 256) as u8]
    }

    open spec fn decoding(bytes: Seq<u8>) -> u16 {
        be2(bytes[0], bytes[1]) as u16
    }

    proof fn lemma_encoding_len(x: u16) {
    }

    proof fn lemma_decode_encode(x: u16) {
    }

    proof fn lemma_encode_decode(bytes: Seq<u8>) {
        let v = be2(bytes[0], bytes[1]);
        assert(v / 256 == bytes[0] && v % 256 == bytes[1]) by (nonlinear_arith)
            requires
                v == bytes[0] * 256 + bytes[1],
                0 <= bytes[0] < 256,
                0 <= bytes[1] < 256,
        ;
        assert(seq![(v / 256) as u8, (v % 256) as u8] =~= bytes);
    }

    fn into_byte(self) -> (bytes: Vec<u8>) {
        vec![(self / 256) as u8, (self % 256) as u8]
    }

    fn from_byte(bytes: &[u8]) -> (x: u16) {
        bytes[0] as u16 * 256 + bytes[1] as u16
    }
}

impl MySize for u32 {
    open spec fn byte_size() -> nat {
        4
    }

    fn size() -> (n: usize) {
        4
    }
}

impl Sendable for u32 {
    open spec fn encoding(self) -> Seq<u8> {
        seq![
            (self / 0x100_0000) as u8,
            ((self / 0x1_0000) % 256) as u8,
            ((self / 0x100) % 256) as u8,
            (self % 256) as u8,
        ]
    }

    open spec fn decoding(bytes: Seq<u8>) -> u32 {
        be4(bytes[0], bytes[1], bytes[2], bytes[3]) as u32
    }

    proof fn lemma_encoding_len(x: u32) {
    }

    proof fn lemma_decode_encode(x: u32) {
        assert(x == (x / 0x100_0000) * 0x100_0000 + ((x / 0x1_0000) % 256) * 0x1_0000 + ((x
            / 0x100) % 256) * 0x100 + x % 256) by (bit_vector);
        assert(x / 0x100_0000 < 256) by (bit_vector);
    }

    proof fn lemma_encode_decode(bytes: Seq<u8>) {
        let (b0, b1, b2, b3) = (bytes[0], bytes[1], bytes[2], bytes[3]);
        let v = be4(b0, b1, b2, b3);
        assert(v / 0x100_0000 == b0 && (v / 0x1_0000) % 256 == b1 && (v / 0x100) % 256 == b2 && v
            % 256 == b3) by (nonlinear_arith)
            requires
                v == b0 * 0x100_0000 + b1 * 0x1_0000 + b2 * 0x100 + b3,
                0 <= b0 < 256,
                0 <= b1 < 256,
                0 <= b2 < 256,
                0 <= b3 < 256,
        ;
        assert(Self::decoding(bytes).encoding() =~= bytes);
    }

    fn into_byte(self) -> (bytes: Vec<u8>) {
        vec![
            (self / 0x100_0000) as u8,
            ((self / 0x1_0000) % 256) as u8,
            ((self / 0x100) % 256) as u8,
            (self % 256) as u8,
        ]
    }

    fn from_byte(bytes: &[u8]) -> (x: u32) {
        bytes[0] as u32 * 0x100_0000 + bytes[1] as u32 * 0x1_0000 + bytes[2] as u32 * 0x100
            + bytes[3] as u32
    }
}

} // verus!

verus! {

/// The two's-complement bit pattern of a 16-bit signed value.
pub open spec fn i16_bits(x: i16) -> u16 {
    (if x < 0 { x + 0x1_0000 } else { x as int }) as u16
}

/// The signed value of a 16-bit two's-complement bit pattern.
pub open spec fn i16_of_bits(u: u16) -> i16 {
    (if u >= 0x8000 { u - 0x1_0000 } else { u as int }) as i16
}

/// The two's-complement bit pattern of a 32-bit signed value.
pub open spec fn i32_bits(x: i32) -> u32 {
    (if x < 0 { x + 0x1_0000_0000 } else { x as int }) as u32
}

/// The signed value of a 32-bit two's-complement bit pattern.
pub open spec fn i32_of_bits(u: u32) -> i32 {
    (if u >= 0x8000_0000 { u - 0x1_0000_0000 } else { u as int }) as i32
}

impl MySize for i16 {
    open spec fn byte_size() -> nat {
        2
    }

    fn size() -> (n: usize) {
        2
    }
}

impl Sendable for i16 {
    open spec fn encoding(self) -> Seq<u8> {
        i16_bits(self).encoding()
    }

    open spec fn decoding(bytes: Seq<u8>) -> i16 {
        i16_of_bits(u16::decoding(bytes))
    }

    proof fn lemma_encoding_len(x: i16) {
    }

    proof fn lemma_decode_encode(x: i16) {
        u16::lemma_decode_encode(i16_bits(x));
    }

    proof fn lemma_encode_decode(bytes: Seq<u8>) {
        u16::lemma_encode_decode(bytes);
    }

    fn into_byte(self) -> (bytes: Vec<u8>) {
        let u: u16 = if self < 0 {
            (self as i32 + 0x1_0000) as u16
        } else {
            self as u16
        };
        u.into_byte()
    }

    fn from_byte(bytes: &[u8]) -> (x: i16) {
        let u = u16::from_byte(bytes);
        if u >= 0x8000 {
            (u as i32 - 0x1_0000) as i16
        } else {
            u as i16
        }
    }
}

impl MySize for i32 {
    open spec fn byte_size() -> nat {
        4
    }

    fn size() -> (n: usize) {
        4
    }
}

impl Sendable for i32 {
    open spec fn encoding(self) -> Seq<u8> {
        i32_bits(self).encoding()
    }

    open spec fn decoding(bytes: Seq<u8>) -> i32 {
        i32_of_bits(u32::decoding(bytes))
    }

    proof fn lemma_encoding_len(x: i32) {
    }

    proof fn lemma_decode_encode(x: i32) {
        u32::lemma_decode_encode(i32_bits(x));
    }

    proof fn lemma_encode_decode(bytes: Seq<u8>) {
        u32::lemma_encode_decode(bytes);
    }

    fn into_byte(self) -> (bytes: Vec<u8>) {
        let u: u32 = if self < 0 {
            (self as i64 + 0x1_0000_0000) as u32
        } else {
            self as u32
        };
        u.into_byte()
    }

    fn from_byte(bytes: &[u8]) -> (x: i32) {
        let u = u32::from_byte(bytes);
        if u >= 0x8000_0000 {
            (u as i64 - 0x1_0000_0000) as i32
        } else {
            u as i32
        }
    }
}

impl MySize for () {
    open spec fn byte_size() -> nat {
        0
    }

    fn size() -> (n: usize) {
        0
    }
}

impl Sendable for () {
    open spec fn encoding(self) -> Seq<u8> {
        Seq::empty()
    }

    open spec fn decoding(bytes: Seq<u8>) -> () {
        ()
    }

    proof fn lemma_encoding_len(x: ()) {
    }

    proof fn lemma_decode_encode(x: ()) {
    }

    proof fn lemma_encode_decode(bytes: Seq<u8>) {
        assert(bytes =~= Seq::<u8>::empty());
    }

    fn into_byte(self) -> (bytes: Vec<u8>) {
        Vec::new()
    }

    fn from_byte(bytes: &[u8]) -> (x: ()) {
    }
}

impl<X: MySize, Y: MySize> MySize for (X, Y) {
    open spec fn byte_size() -> nat {
        X::byte_size() + Y::byte_size()
    }

    fn size() -> (n: usize) {
        X::size() + Y::size()
    }
}

impl<X: Sendable, Y: Sendable> Sendable for (X, Y) {
    open spec fn encoding(self) -> Seq<u8> {
        self.0.encoding() + self.1.encoding()
    }

    open spec fn decoding(bytes: Seq<u8>) -> (X, Y) {
        (
            X::decoding(bytes.subrange(0, X::byte_size() as int)),
            Y::decoding(bytes.subrange(X::byte_size() as int, bytes.len() as int)),
        )
    }

    proof fn lemma_encoding_len(x: (X, Y)) {
        X::lemma_encoding_len(x.0);
        Y::lemma_encoding_len(x.1);
    }

    proof fn lemma_decode_encode(x: (X, Y)) {
        X::lemma_encoding_len(x.0);
        X::lemma_decode_encode(x.0);
        Y::lemma_decode_encode(x.1);
        let e = x.encoding();
        assert(e.subrange(0, X::byte_size() as int) =~= x.0.encoding());
        assert(e.subrange(X::byte_size() as int, e.len() as int) =~= x.1.encoding());
    }

    proof fn lemma_encode_decode(bytes: Seq<u8>) {
        let n = X::byte_size() as int;
        X::lemma_encode_decode(bytes.subrange(0, n));
        Y::lemma_encode_decode(bytes.subrange(n, bytes.len() as int));
        assert(bytes.subrange(0, n) + bytes.subrange(n, bytes.len() as int) =~= bytes);
    }

    fn into_byte(self) -> (bytes: Vec<u8>) {
        let mut bytes = self.0.into_byte();
        let mut rest = self.1.into_byte();
        bytes.append(&mut rest);
        bytes
    }

    fn from_byte(bytes: &[u8]) -> (x: (X, Y)) {
        let len = bytes.len();
        let n = X::size();
        let x = X::from_byte(vstd::slice::slice_subrange(bytes, 0, n));
        let y = Y::from_byte(vstd::slice::slice_subrange(bytes, n, len));
        (x, y)
    }
}

} // verus!
