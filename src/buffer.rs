//! The buffer: a growable byte store with a read cursor.
//!
//! The wire format is fixed: multi-byte integers are big-endian, signed
//! integers are two's complement, and strings carry one byte per character
//! (the low byte of its scalar value), so only characters up to U+00FF come
//! back unchanged. The byte order, string encoding and terminator given at
//! construction are recorded as the owner's configuration and do not change
//! the format.
use crate::byte_order::ByteOrder;
use crate::encoding::{
    as_signed, as_unsigned, be_bytes, be_value, chars_of, decode_be, lemma_be_bytes_len,
    lemma_be_value_bound, lemma_pow256_values, low_byte, low_bytes, pow256, push_be, stops_at_zero,
};
use vstd::prelude::*;

verus! {

/// A growable byte store with a read cursor.
///
/// Writes append at the end; reads start at the cursor and move it forward.
pub struct Buffer {
    data: Vec<u8>,
    length: usize,
    capacity: usize,
    position: usize,
    mark: Option<usize>,
    byte_order: ByteOrder,
    string_encoding: &'static str,
    string_terminator: &'static str,
}

/// The capacity that `Buffer::new` reserves.
pub const DEFAULT_CAPACITY: usize = 1024;

impl Buffer {
    /// The buffer is well formed: `length` counts the stored bytes, the cursor
    /// lies within them, and no mark is set.
    pub closed spec fn wf(&self) -> bool {
        &&& self.data@.len() == self.length
        &&& self.position <= self.length
        &&& self.mark is None
    }

    /// The bytes written so far, in order.
    pub closed spec fn written(&self) -> Seq<u8> {
        self.data@
    }

    /// The read cursor: the index of the next byte to read.
    pub closed spec fn cursor(&self) -> nat {
        self.position as nat
    }

    /// The capacity requested at construction.
    pub closed spec fn capacity_hint(&self) -> nat {
        self.capacity as nat
    }

    /// The byte order recorded at construction.
    pub closed spec fn byte_order_tag(&self) -> ByteOrder {
        self.byte_order
    }

    /// The string encoding label recorded at construction.
    pub closed spec fn encoding_tag(&self) -> Seq<char> {
        self.string_encoding@
    }

    /// The string terminator label recorded at construction.
    pub closed spec fn terminator_tag(&self) -> Seq<char> {
        self.string_terminator@
    }

    /// The number of bytes between the cursor and the end of the written data.
    pub open spec fn remaining(self) -> int {
        self.written().len() - self.cursor()
    }

    /// The `n` bytes that start at the cursor.
    pub open spec fn window(self, n: nat) -> Seq<u8> {
        self.written().subrange(self.cursor() as int, (self.cursor() + n) as int)
    }

    /// The configuration recorded at construction is the same in both buffers.
    pub open spec fn same_settings(self, other: Self) -> bool {
        &&& self.capacity_hint() == other.capacity_hint()
        &&& self.byte_order_tag() == other.byte_order_tag()
        &&& self.encoding_tag() == other.encoding_tag()
        &&& self.terminator_tag() == other.terminator_tag()
    }

    /// `after` is this buffer with the cursor moved forward by `k` bytes and
    /// nothing else changed.
    pub open spec fn advanced(self, after: Self, k: nat) -> bool {
        &&& after.wf()
        &&& after.written() == self.written()
        &&& after.cursor() == self.cursor() + k
        &&& after.cursor() <= after.written().len()
        &&& after.same_settings(self)
    }

    /// `after` is this buffer with the bytes `s` appended and nothing else
    /// changed.
    pub open spec fn appended(self, after: Self, s: Seq<u8>) -> bool {
        &&& after.wf()
        &&& after.written() == self.written() + s
        &&& after.cursor() == self.cursor()
        &&& after.cursor() <= after.written().len()
        &&& after.same_settings(self)
    }

    /// An empty buffer that reserves the default capacity, with big-endian
    /// byte order, the "utf-8" encoding label and a zero-byte terminator label.
    pub fn new() -> (r: Buffer)
        ensures
            r.wf(),
            r.written() == Seq::<u8>::empty(),
            r.cursor() == 0,
            r.capacity_hint() == DEFAULT_CAPACITY,
            r.byte_order_tag() == ByteOrder::BigEndian,
            r.encoding_tag() == "utf-8"@,
            r.terminator_tag() == "\0"@,
    {
        Buffer {
            data: Vec::with_capacity(DEFAULT_CAPACITY),
            length: 0,
            capacity: DEFAULT_CAPACITY,
            position: 0,
            mark: None,
            byte_order: ByteOrder::BigEndian,
            string_encoding: "utf-8",
            string_terminator: "\0",
        }
    }

    /// An empty buffer that reserves `capacity` bytes and records the given
    /// configuration.
    pub fn new_with_all_args(
        capacity: usize,
        byte_order: ByteOrder,
        string_encoding: &'static str,
        string_terminator: &'static str,
    ) -> (r: Buffer)
        ensures
            r.wf(),
            r.written() == Seq::<u8>::empty(),
            r.cursor() == 0,
            r.capacity_hint() == capacity,
            r.byte_order_tag() == byte_order,
            r.encoding_tag() == string_encoding@,
            r.terminator_tag() == string_terminator@,
    {
        Buffer {
            data: Vec::with_capacity(capacity),
            length: 0,
            capacity: capacity,
            position: 0,
            mark: None,
            byte_order: byte_order,
            string_encoding: string_encoding,
            string_terminator: string_terminator,
        }
    }

    /// The bytes written so far.
    pub fn data(&self) -> (r: &Vec<u8>)
        requires
            self.wf(),
        ensures
            r@ == self.written(),
    {
        &self.data
    }

    /// Reads `n` bytes at the cursor as a big-endian unsigned value.
    fn take_be(&mut self, n: usize) -> (r: Option<u64>)
        requires
            old(self).wf(),
            n <= 8,
        ensures
            old(self).remaining() >= n ==> r == Some(be_value(old(self).window(n as nat)) as u64)
                && be_value(old(self).window(n as nat)) < pow256(n as nat)
                && old(self).advanced(*final(self), n as nat),
            old(self).remaining() < n ==> r is None && old(self).advanced(*final(self), 0),
    {
        if n <= self.length - self.position {
            let v = decode_be(&self.data, self.position, n);
            proof {
                lemma_be_value_bound(self.window(n as nat));
            }
            self.position = self.position + n;
            Some(v)
        } else {
            None
        }
    }

    /// Reads one byte.
    pub fn read_byte(&mut self) -> (r: Option<u8>)
        requires
            old(self).wf(),
        ensures
            old(self).remaining() >= 1 ==> r == Some(old(self).written()[old(self).cursor() as int])
                && old(self).advanced(*final(self), 1),
            old(self).remaining() < 1 ==> r is None && old(self).advanced(*final(self), 0),
    {
        if self.position < self.length {
            let byte = self.data[self.position];
            self.position = self.position + 1;
            Some(byte)
        } else {
            None
        }
    }

    /// Reads `n` bytes; when fewer remain, reads nothing.
    pub fn read_bytes(&mut self, n: usize) -> (r: Option<Vec<u8>>)
        requires
            old(self).wf(),
        ensures
            old(self).remaining() >= n ==> r is Some && r->0@ == old(self).window(n as nat)
                && old(self).advanced(*final(self), n as nat),
            old(self).remaining() < n ==> r is None && old(self).advanced(*final(self), 0),
    {
        if n <= self.length - self.position {
            let mut bytes: Vec<u8> = Vec::with_capacity(n);
            let mut i: usize = 0;
            while i < n
                invariant
                    self.wf(),
                    i <= n <= self.length - self.position,
                    bytes@ == self.written().subrange(
                        self.cursor() as int,
                        self.cursor() + i,
                    ),
                decreases n - i,
            {
                bytes.push(self.data[self.position + i]);
                i = i + 1;
                assert(bytes@ =~= self.written().subrange(self.cursor() as int, self.cursor() + i));
            }
            self.position = self.position + n;
            Some(bytes)
        } else {
            None
        }
    }

    /// Reads one byte as a boolean: true exactly when the byte is not zero.
    pub fn read_boolean(&mut self) -> (r: Option<bool>)
        requires
            old(self).wf(),
        ensures
            old(self).remaining() >= 1 ==> r == Some(old(self).written()[old(self).cursor() as int]
                != 0) && old(self).advanced(*final(self), 1),
            old(self).remaining() < 1 ==> r is None && old(self).advanced(*final(self), 0),
    {
        match self.read_byte() {
            Some(byte) => Some(byte != 0),
            None => None,
        }
    }

    /// Reads a signed 8-bit integer (two's complement).
    pub fn read_i8(&mut self) -> (r: Option<i8>)
        requires
            old(self).wf(),
        ensures
            old(self).remaining() >= 1 ==> r == Some(
                as_signed(be_value(old(self).window(1)), 1) as i8,
            ) && old(self).advanced(*final(self), 1),
            old(self).remaining() < 1 ==> r is None && old(self).advanced(*final(self), 0),
    {
        proof {
            lemma_pow256_values();
        }
        match self.take_be(1) {
            Some(v) => if v >= 0x80 {
                Some((v as i16 - 0x100) as i8)
            } else {
                Some(v as i8)
            },
            None => None,
        }
    }

    /// Reads a signed 16-bit integer (big-endian, two's complement).
    pub fn read_i16(&mut self) -> (r: Option<i16>)
        requires
            old(self).wf(),
        ensures
            old(self).remaining() >= 2 ==> r == Some(
                as_signed(be_value(old(self).window(2)), 2) as i16,
            ) && old(self).advanced(*final(self), 2),
            old(self).remaining() < 2 ==> r is None && old(self).advanced(*final(self), 0),
    {
        proof {
            lemma_pow256_values();
        }
        match self.take_be(2) {
            Some(v) => if v >= 0x8000 {
                Some((v as i32 - 0x1_0000) as i16)
            } else {
                Some(v as i16)
            },
            None => None,
        }
    }

    /// Reads a signed 32-bit integer (big-endian, two's complement).
    pub fn read_i32(&mut self) -> (r: Option<i32>)
        requires
            old(self).wf(),
        ensures
            old(self).remaining() >= 4 ==> r == Some(
                as_signed(be_value(old(self).window(4)), 4) as i32,
            ) && old(self).advanced(*final(self), 4),
            old(self).remaining() < 4 ==> r is None && old(self).advanced(*final(self), 0),
    {
        proof {
            lemma_pow256_values();
        }
        match self.take_be(4) {
            Some(v) => if v >= 0x8000_0000 {
                Some((v as i64 - 0x1_0000_0000) as i32)
            } else {
                Some(v as i32)
            },
            None => None,
        }
    }

    /// Reads a signed 64-bit integer (big-endian, two's complement).
    pub fn read_i64(&mut self) -> (r: Option<i64>)
        requires
            old(self).wf(),
        ensures
            old(self).remaining() >= 8 ==> r == Some(
                as_signed(be_value(old(self).window(8)), 8) as i64,
            ) && old(self).advanced(*final(self), 8),
            old(self).remaining() < 8 ==> r is None && old(self).advanced(*final(self), 0),
    {
        proof {
            lemma_pow256_values();
        }
        match self.take_be(8) {
            Some(v) => if v >= 0x8000_0000_0000_0000 {
                Some((v - 0x8000_0000_0000_0000) as i64 + i64::MIN)
            } else {
                Some(v as i64)
            },
            None => None,
        }
    }

    /// Reads an unsigned 8-bit integer.
    pub fn read_u8(&mut self) -> (r: Option<u8>)
        requires
            old(self).wf(),
        ensures
            old(self).remaining() >= 1 ==> r == Some(be_value(old(self).window(1)) as u8)
                && old(self).advanced(*final(self), 1),
            old(self).remaining() < 1 ==> r is None && old(self).advanced(*final(self), 0),
    {
        proof {
            lemma_pow256_values();
        }
        match self.take_be(1) {
            Some(v) => Some(v as u8),
            None => None,
        }
    }

    /// Reads an unsigned 16-bit integer (big-endian).
    pub fn read_u16(&mut self) -> (r: Option<u16>)
        requires
            old(self).wf(),
        ensures
            old(self).remaining() >= 2 ==> r == Some(be_value(old(self).window(2)) as u16)
                && old(self).advanced(*final(self), 2),
            old(self).remaining() < 2 ==> r is None && old(self).advanced(*final(self), 0),
    {
        proof {
            lemma_pow256_values();
        }
        match self.take_be(2) {
            Some(v) => Some(v as u16),
            None => None,
        }
    }

    /// Reads an unsigned 32-bit integer (big-endian).
    pub fn read_u32(&mut self) -> (r: Option<u32>)
        requires
            old(self).wf(),
        ensures
            old(self).remaining() >= 4 ==> r == Some(be_value(old(self).window(4)) as u32)
                && old(self).advanced(*final(self), 4),
            old(self).remaining() < 4 ==> r is None && old(self).advanced(*final(self), 0),
    {
        proof {
            lemma_pow256_values();
        }
        match self.take_be(4) {
            Some(v) => Some(v as u32),
            None => None,
        }
    }

    /// Reads an unsigned 64-bit integer (big-endian).
    pub fn read_u64(&mut self) -> (r: Option<u64>)
        requires
            old(self).wf(),
        ensures
            old(self).remaining() >= 8 ==> r == Some(be_value(old(self).window(8)) as u64)
                && old(self).advanced(*final(self), 8),
            old(self).remaining() < 8 ==> r is None && old(self).advanced(*final(self), 0),
    {
        self.take_be(8)
    }
    /// Reads characters, one byte each, up to the first zero byte, which is
    /// consumed and not returned; with no zero byte it reads to the end.
    ///
    /// Unlike every other read this one never fails: with nothing left to
    /// read it returns an empty string.
    pub fn read_string(&mut self) -> (r: Option<String>)
        requires
            old(self).wf(),
        ensures
            r is Some,
            ({
                let rest = old(self).window(old(self).remaining() as nat);
                let k = r->0@.len();
                &&& stops_at_zero(rest, k)
                &&& r->0@ == chars_of(rest.take(k as int))
                &&& old(self).advanced(
                    *final(self),
                    if k < rest.len() {
                        k + 1
                    } else {
                        k
                    },
                )
            }),
    {
        let ghost before = *self;
        let start = self.position;
        let mut string = String::new();
        let mut found = false;
        while !found && self.position < self.length
            invariant
                before.wf(),
                start == before.cursor(),
                before.advanced(*self, (self.position - start) as nat),
                found ==> self.position == start + string@.len() + 1 && self.written()[self.position
                    - 1] == 0,
                !found ==> self.position == start + string@.len(),
                forall|i: int| start <= i < start + string@.len() ==> self.written()[i] != 0,
                string@ == chars_of(self.written().subrange(start as int, start + string@.len())),
            decreases self.length - self.position,
        {
            let byte = self.data[self.position];
            self.position = self.position + 1;
            if byte == 0 {
                found = true;
            } else {
                push_char(&mut string, byte as char);
                assert(string@ =~= chars_of(
                    self.written().subrange(start as int, start + string@.len()),
                ));
            }
        }
        proof {
            let rest = before.window(before.remaining() as nat);
            let k = string@.len();
            assert(rest.take(k as int) =~= self.written().subrange(start as int, start + k));
            assert(stops_at_zero(rest, k));
        }
        Some(string)
    }

    /// Reads a 4-byte big-endian character count, then that many characters
    /// of one byte each.
    ///
    /// Without the 4 bytes of the count it reads nothing. When fewer
    /// characters than the count remain it fails after consuming all the
    /// bytes that remain.
    pub fn read_string_with_length(&mut self) -> (r: Option<String>)
        requires
            old(self).wf(),
        ensures
            old(self).remaining() < 4 ==> r is None && old(self).advanced(*final(self), 0),
            old(self).remaining() >= 4 ==> ({
                let n = be_value(old(self).window(4));
                let start = old(self).cursor() + 4;
                if old(self).remaining() - 4 >= n {
                    &&& r is Some
                    &&& r->0@ == chars_of(old(self).written().subrange(start as int, start + n as int))
                    &&& old(self).advanced(*final(self), 4 + n)
                } else {
                    r is None && old(self).advanced(*final(self), old(self).remaining() as nat)
                }
            }),
    {
        proof {
            lemma_pow256_values();
            if self.remaining() >= 4 {
                lemma_be_value_bound(self.window(4));
            }
        }
        let length = match self.read_u32() {
            Some(l) => l,
            None => {
                return None;
            },
        };
        let ghost mid = *self;
        let mut string = String::new();
        let mut i: u32 = 0;
        while i < length
            invariant
                mid.wf(),
                i <= length,
                length as nat == be_value(old(self).window(4)),
                old(self).remaining() >= 4,
                old(self).advanced(mid, 4),
                i <= mid.remaining(),
                mid.advanced(*self, i as nat),
                string@ == chars_of(mid.window(i as nat)),
            decreases length - i,
        {
            match self.read_byte() {
                Some(b) => {
                    push_char(&mut string, b as char);
                },
                None => {
                    return None;
                },
            }
            i = i + 1;
            assert(string@ =~= chars_of(mid.window(i as nat)));
        }
        Some(string)
    }
    /// Appends the `n` low bytes of `v`, most significant byte first.
    fn append_be(&mut self, v: u64, n: usize)
        requires
            old(self).wf(),
            n <= 8,
            old(self).written().len() + n <= usize::MAX,
        ensures
            old(self).appended(*final(self), be_bytes(v as nat, n as nat)),
    {
        proof {
            lemma_be_bytes_len(v as nat, n as nat);
        }
        push_be(&mut self.data, v, n);
        self.length = self.length + n;
    }

    /// Appends the low byte of each character of `string`, in order.
    fn append_low_bytes(&mut self, string: &str)
        requires
            old(self).wf(),
            old(self).written().len() + string@.len() <= usize::MAX,
        ensures
            old(self).appended(*final(self), low_bytes(string@)),
    {
        let ghost before = *self;
        for c in it: string.chars()
            invariant
                before.wf(),
                before.written().len() + string@.len() <= usize::MAX,
                it.seq() == string@,
                before.appended(*self, low_bytes(string@.take(it.index() as int))),
        {
            let ghost done = string@.take(it.index() as int);
            self.data.push((c as u32 % 256) as u8);
            self.length = self.length + 1;
            assert(string@.take(it.index() as int + 1) =~= done.push(c));
            assert(low_bytes(done.push(c)) =~= low_bytes(done).push(low_byte(c)));
        }
        assert(string@.take(string@.len() as int) =~= string@);
    }

    /// Appends one byte.
    pub fn write_byte(&mut self, byte: u8)
        requires
            old(self).wf(),
            old(self).written().len() + 1 <= usize::MAX,
        ensures
            old(self).appended(*final(self), seq![byte]),
    {
        self.data.push(byte);
        self.length = self.length + 1;
        assert(self.data@ =~= old(self).data@ + seq![byte]);
    }

    /// Appends the bytes of `bytes`, in order.
    pub fn write_bytes(&mut self, bytes: &[u8])
        requires
            old(self).wf(),
            old(self).written().len() + bytes@.len() <= usize::MAX,
        ensures
            old(self).appended(*final(self), bytes@),
    {
        let ghost before = *self;
        let n = bytes.len();
        let mut i: usize = 0;
        while i < n
            invariant
                before.wf(),
                n == bytes@.len(),
                i <= n,
                before.written().len() + n <= usize::MAX,
                before.appended(*self, bytes@.take(i as int)),
            decreases n - i,
        {
            self.data.push(bytes[i]);
            self.length = self.length + 1;
            i = i + 1;
            assert(self.data@ =~= before.written() + bytes@.take(i as int));
        }
        assert(bytes@.take(n as int) =~= bytes@);
    }

    /// Appends a signed 8-bit integer (two's complement).
    pub fn write_i8(&mut self, value: i8)
        requires
            old(self).wf(),
            old(self).written().len() + 1 <= usize::MAX,
        ensures
            old(self).appended(*final(self), be_bytes(as_unsigned(value as int, 1), 1)),
    {
        proof {
            lemma_pow256_values();
        }
        let u: u64 = if value < 0 {
            (value as i16 + 0x100) as u64
        } else {
            value as u64
        };
        self.append_be(u, 1);
    }

    /// Appends a signed 16-bit integer (big-endian, two's complement).
    pub fn write_i16(&mut self, value: i16)
        requires
            old(self).wf(),
            old(self).written().len() + 2 <= usize::MAX,
        ensures
            old(self).appended(*final(self), be_bytes(as_unsigned(value as int, 2), 2)),
    {
        proof {
            lemma_pow256_values();
        }
        let u: u64 = if value < 0 {
            (value as i32 + 0x1_0000) as u64
        } else {
            value as u64
        };
        self.append_be(u, 2);
    }

    /// Appends a signed 32-bit integer (big-endian, two's complement).
    pub fn write_i32(&mut self, value: i32)
        requires
            old(self).wf(),
            old(self).written().len() + 4 <= usize::MAX,
        ensures
            old(self).appended(*final(self), be_bytes(as_unsigned(value as int, 4), 4)),
    {
        proof {
            lemma_pow256_values();
        }
        let u: u64 = if value < 0 {
            (value as i64 + 0x1_0000_0000) as u64
        } else {
            value as u64
        };
        self.append_be(u, 4);
    }

    /// Appends a signed 64-bit integer (big-endian, two's complement).
    pub fn write_i64(&mut self, value: i64)
        requires
            old(self).wf(),
            old(self).written().len() + 8 <= usize::MAX,
        ensures
            old(self).appended(*final(self), be_bytes(as_unsigned(value as int, 8), 8)),
    {
        proof {
            lemma_pow256_values();
        }
        let u: u64 = if value < 0 {
            (value - i64::MIN) as u64 + 0x8000_0000_0000_0000
        } else {
            value as u64
        };
        self.append_be(u, 8);
    }

    /// Appends an unsigned 8-bit integer.
    pub fn write_u8(&mut self, value: u8)
        requires
            old(self).wf(),
            old(self).written().len() + 1 <= usize::MAX,
        ensures
            old(self).appended(*final(self), be_bytes(value as nat, 1)),
    {
        self.append_be(value as u64, 1);
    }

    /// Appends an unsigned 16-bit integer (big-endian).
    pub fn write_u16(&mut self, value: u16)
        requires
            old(self).wf(),
            old(self).written().len() + 2 <= usize::MAX,
        ensures
            old(self).appended(*final(self), be_bytes(value as nat, 2)),
    {
        self.append_be(value as u64, 2);
    }

    /// Appends an unsigned 32-bit integer (big-endian).
    pub fn write_u32(&mut self, value: u32)
        requires
            old(self).wf(),
            old(self).written().len() + 4 <= usize::MAX,
        ensures
            old(self).appended(*final(self), be_bytes(value as nat, 4)),
    {
        self.append_be(value as u64, 4);
    }

    /// Appends an unsigned 64-bit integer (big-endian).
    pub fn write_u64(&mut self, value: u64)
        requires
            old(self).wf(),
            old(self).written().len() + 8 <= usize::MAX,
        ensures
            old(self).appended(*final(self), be_bytes(value as nat, 8)),
    {
        self.append_be(value, 8);
    }

    /// Appends the low byte of each character of `string`, then a zero byte.
    pub fn write_string(&mut self, string: &str)
        requires
            old(self).wf(),
            old(self).written().len() + string@.len() + 1 <= usize::MAX,
        ensures
            old(self).appended(*final(self), low_bytes(string@).push(0)),
    {
        self.append_low_bytes(string);
        self.write_byte(0);
        assert(old(self).written() + low_bytes(string@).push(0) =~= old(self).written()
            + low_bytes(string@) + seq![0u8]);
    }

    /// Appends the number of characters of `string` as a 4-byte big-endian
    /// unsigned integer, then the low byte of each character; no terminator.
    pub fn write_string_with_length(&mut self, string: &str)
        requires
            old(self).wf(),
            string@.len() <= u32::MAX,
            old(self).written().len() + 4 + string@.len() <= usize::MAX,
        ensures
            old(self).appended(
                *final(self),
                be_bytes(string@.len(), 4) + low_bytes(string@),
            ),
    {
        let count = string.unicode_len();
        self.write_u32(count as u32);
        proof {
            lemma_be_bytes_len(string@.len(), 4);
        }
        self.append_low_bytes(string);
        assert(old(self).written() + (be_bytes(string@.len(), 4) + low_bytes(string@))
            =~= old(self).written() + be_bytes(string@.len(), 4) + low_bytes(string@));
    }
}

/// Relies on `String::push`: the character is appended at the end.
#[verifier::external_body]
fn push_char(s: &mut String, c: char)
    ensures
        final(s)@ == old(s)@.push(c),
{
    s.push(c)
}

} // verus!
