//! Patch Encoder: serialize the address-sorted code records into the binary
//! patch-list format — an 8-byte magic header, one encoded record per
//! non-empty code, and an 8-byte terminator.

use crate::codes::{code_views, Code, CodeView};
use vstd::prelude::*;

verus! {

/// The addressable region base; every encoded address is relative to it.
pub const ADDRESS_BASE: u32 = 0x8000_0000;

pub open spec fn magic_bytes() -> Seq<u8> {
    seq![0x00u8, 0xD0u8, 0xC0u8, 0xDEu8, 0x00u8, 0xD0u8, 0xC0u8, 0xDEu8]
}

pub open spec fn terminator_bytes() -> Seq<u8> {
    seq![0xF0u8, 0u8, 0u8, 0u8, 0u8, 0u8, 0u8, 0u8]
}

/// A no-op instruction, used to pad an even-word payload to a whole line.
pub open spec fn nop_bytes() -> Seq<u8> {
    seq![0x60u8, 0u8, 0u8, 0u8]
}

pub open spec fn zero_bytes() -> Seq<u8> {
    seq![0u8, 0u8, 0u8, 0u8]
}

pub open spec fn be32(x: u32) -> Seq<u8> {
    seq![
        (((x >> 24) & 0xff) as u8),
        (((x >> 16) & 0xff) as u8),
        (((x >> 8) & 0xff) as u8),
        ((x & 0xff) as u8),
    ]
}

/// The 4-byte field holding the record tag in its high byte, ORed over the
/// high byte of the 24-bit offset from the address base.
pub open spec fn tagged_addr(addr: u32, tag: u8) -> Seq<u8> {
    let off = (addr - ADDRESS_BASE) as u32;
    seq![
        ((((off >> 24) & 0xff) as u8) | tag),
        (((off >> 16) & 0xff) as u8),
        (((off >> 8) & 0xff) as u8),
        ((off & 0xff) as u8),
    ]
}

/// How many 8-byte lines a multi-word record's payload occupies, padding
/// included.
pub open spec fn line_count(words: int) -> int {
    if words % 2 == 0 {
        (words + 2) / 2
    } else {
        (words + 1) / 2
    }
}

/// The encoding of one record. A record with empty code contributes nothing.
/// A single-word record is the `0x04`-tagged address followed by its 4 code
/// bytes. Any other record is the `0xC2`-tagged address, the big-endian line
/// count, the code bytes, a no-op pad when the word count is even, and a
/// 4-byte zero filler.
pub open spec fn record_bytes(c: CodeView) -> Seq<u8> {
    if c.code.len() == 0 {
        Seq::empty()
    } else if c.code.len() == 4 {
        tagged_addr(c.addr, 0x04) + c.code
    } else {
        let words = c.code.len() as int / 4;
        tagged_addr(c.addr, 0xC2) + be32(line_count(words) as u32) + c.code + (if words % 2 == 0 {
            nop_bytes()
        } else {
            Seq::<u8>::empty()
        }) + zero_bytes()
    }
}

pub open spec fn records_bytes(s: Seq<CodeView>) -> Seq<u8>
    decreases s.len(),
{
    if s.len() == 0 {
        Seq::empty()
    } else {
        records_bytes(s.drop_last()) + record_bytes(s.last())
    }
}

/// The whole output file for a record sequence.
pub open spec fn encode_spec(s: Seq<CodeView>) -> Seq<u8> {
    magic_bytes() + records_bytes(s) + terminator_bytes()
}

/// A record the encoder accepts: non-empty code is a whole number of words,
/// its address lies in the addressable region, and its length leaves the
/// 4-byte line-count field in range.
pub open spec fn encodable(c: CodeView) -> bool {
    c.code.len() > 0 ==> {
        &&& c.code.len() % 4 == 0
        &&& c.addr >= ADDRESS_BASE
        &&& c.code.len() <= 0xFFFF_FFF0
    }
}

pub open spec fn all_encodable(s: Seq<CodeView>) -> bool {
    forall|i: int| 0 <= i < s.len() ==> encodable(#[trigger] s[i])
}

/// Check that every record meets the encoder's alignment and address rules.
pub fn codes_encodable(codes: &Vec<Code>) -> (b: bool)
    ensures
        b == all_encodable(code_views(codes@)),
{
    let ghost views = code_views(codes@);
    let mut i: usize = 0;
    while i < codes.len()
        invariant
            i <= codes.len(),
            views == code_views(codes@),
            forall|t: int| 0 <= t < i ==> encodable(#[trigger] views[t]),
        decreases codes.len() - i,
    {
        let len = codes[i].code.len();
        if len > 0 && !(len % 4 == 0 && codes[i].addr >= ADDRESS_BASE && len <= 0xFFFF_FFF0) {
            assert(!encodable(views[i as int]));
            return false;
        }
        assert(encodable(views[i as int]));
        i = i + 1;
    }
    true
}

/// Append the big-endian bytes of `x`.
fn push_be32(data: &mut Vec<u8>, x: u32)
    ensures
        final(data)@ == old(data)@ + be32(x),
{
    proof {
        assert((x >> 24) & 0xff < 256 && (x >> 16) & 0xff < 256 && (x >> 8) & 0xff < 256 && x
            & 0xff < 256) by (bit_vector);
    }
    data.push(((x >> 24) & 0xff) as u8);
    data.push(((x >> 16) & 0xff) as u8);
    data.push(((x >> 8) & 0xff) as u8);
    data.push((x & 0xff) as u8);
    proof {
        assert(data@ =~= old(data)@ + be32(x));
    }
}

/// Append the tagged address field for a record.
fn push_tagged_addr(data: &mut Vec<u8>, addr: u32, tag: u8)
    requires
        addr >= ADDRESS_BASE,
    ensures
        final(data)@ == old(data)@ + tagged_addr(addr, tag),
{
    let off: u32 = addr - ADDRESS_BASE;
    proof {
        assert((off >> 24) & 0xff < 256 && (off >> 16) & 0xff < 256 && (off >> 8) & 0xff < 256
            && off & 0xff < 256) by (bit_vector);
    }
    data.push((((off >> 24) & 0xff) as u8) | tag);
    data.push(((off >> 16) & 0xff) as u8);
    data.push(((off >> 8) & 0xff) as u8);
    data.push((off & 0xff) as u8);
    proof {
        assert(data@ =~= old(data)@ + tagged_addr(addr, tag));
    }
}

/// Encode the record sequence into the exact bytes of the output file.
/// Encoding is a pure function of the records, so the same sorted record
/// set always produces byte-identical output.
pub fn encode_codes(codes: &Vec<Code>) -> (r: Vec<u8>)
    requires
        all_encodable(code_views(codes@)),
    ensures
        r@ == encode_spec(code_views(codes@)),
{
    let ghost views = code_views(codes@);
    let mut data: Vec<u8> = Vec::new();
    data.push(0x00);
    data.push(0xD0);
    data.push(0xC0);
    data.push(0xDE);
    data.push(0x00);
    data.push(0xD0);
    data.push(0xC0);
    data.push(0xDE);
    proof {
        assert(data@ =~= magic_bytes() + records_bytes(views.take(0)));
    }
    let mut i: usize = 0;
    while i < codes.len()
        invariant
            i <= codes.len(),
            views == code_views(codes@),
            all_encodable(views),
            data@ == magic_bytes() + records_bytes(views.take(i as int)),
        decreases codes.len() - i,
    {
        let ghost before = data@;
        let len = codes[i].code.len();
        assert(views[i as int] == codes@[i as int]@);
        assert(encodable(views[i as int]));
        if len == 0 {
            proof {
                assert(record_bytes(views[i as int]) =~= Seq::<u8>::empty());
            }
        } else if len == 4 {
            push_tagged_addr(&mut data, codes[i].addr, 0x04);
            data.extend_from_slice(codes[i].code.as_slice());
            proof {
                assert(data@ =~= before + record_bytes(views[i as int]));
            }
        } else {
            push_tagged_addr(&mut data, codes[i].addr, 0xC2);
            let words: u32 = (len / 4) as u32;
            let lines: u32 = if words % 2 == 0 {
                (words + 2) / 2
            } else {
                (words + 1) / 2
            };
            assert(lines == line_count(len as int / 4));
            push_be32(&mut data, lines);
            data.extend_from_slice(codes[i].code.as_slice());
            if words % 2 == 0 {
                data.push(0x60);
                data.push(0x00);
                data.push(0x00);
                data.push(0x00);
            }
            data.push(0x00);
            data.push(0x00);
            data.push(0x00);
            data.push(0x00);
            proof {
                assert(data@ =~= before + record_bytes(views[i as int]));
            }
        }
        proof {
            assert(views.take(i + 1).drop_last() =~= views.take(i as int));
            assert(views.take(i + 1).last() == views[i as int]);
            assert(data@ =~= magic_bytes() + records_bytes(views.take(i + 1)));
        }
        i = i + 1;
    }
    data.push(0xF0);
    data.push(0x00);
    data.push(0x00);
    data.push(0x00);
    data.push(0x00);
    data.push(0x00);
    data.push(0x00);
    data.push(0x00);
    proof {
        assert(views.take(views.len() as int) =~= views);
        assert(data@ =~= encode_spec(views));
    }
    data
}

/// Law: encoding is idempotent — two encodings of the same record sequence
/// are byte-identical, because the output is a pure function of the records.
pub proof fn lemma_encode_deterministic(a: Seq<CodeView>, b: Seq<CodeView>)
    requires
        a == b,
    ensures
        encode_spec(a) == encode_spec(b),
{
}

} // verus!
