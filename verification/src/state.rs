use crate::trusted::bytes_to_string;
use vstd::bytes::{
    lemma_auto_spec_u32_to_from_le_bytes, spec_u32_from_le_bytes, spec_u32_to_le_bytes,
    u32_from_le_bytes, u32_to_le_bytes,
};
use vstd::prelude::*;
use vstd::slice::{slice_subrange, slice_to_vec};
use vstd::string::StrSliceExecFns;
use vstd::utf8::{decode_utf8, encode_utf8, valid_utf8};

verus! {

/// The persisted record: a DNA sequence and the two strands derived
/// from it.  `rna` and `complement` are recomputed from `dna` on every
/// write, so a stored record is always internally consistent.
pub struct NucleotideState {
    pub dna: String,
    pub rna: String,
    pub complement: String,
}

/// The number of bytes the serialized record occupies when each of its
/// three string fields is budgeted at the byte length of `s`: three
/// slots of a four-byte length prefix plus the string's bytes.
pub open spec fn spec_account_size(s: Seq<char>) -> int {
    (4 + encode_utf8(s).len() as int) * 3
}

impl NucleotideState {
    /// The sole sizing authority: how many bytes to reserve for a
    /// record whose fields are budgeted at the length of `nucleotide`.
    pub fn get_account_size(nucleotide: String) -> (r: usize)
        requires
            spec_account_size(nucleotide@) <= usize::MAX,
        ensures
            r == spec_account_size(nucleotide@),
    {
        (4 + nucleotide.as_str().len()) * 3
    }
}

/// A string's wire form: a four-byte little-endian length prefix
/// followed by the string's UTF-8 bytes.
pub open spec fn spec_ser_string(s: Seq<char>) -> Seq<u8> {
    spec_u32_to_le_bytes(encode_utf8(s).len() as u32) + encode_utf8(s)
}

/// A record's wire form: its three string fields in order.
pub open spec fn spec_ser_record(dna: Seq<char>, rna: Seq<char>, complement: Seq<char>) -> Seq<u8> {
    spec_ser_string(dna) + spec_ser_string(rna) + spec_ser_string(complement)
}

/// Reads one length-prefixed string starting at `off`: the decoded
/// string and the offset just past it, or nothing when the prefix is
/// truncated, the payload is shorter than announced, or the payload
/// is not valid UTF-8.
pub open spec fn spec_parse_string_at(bytes: Seq<u8>, off: int) -> Option<(Seq<char>, int)> {
    if 0 <= off && off + 4 <= bytes.len() {
        let n = spec_u32_from_le_bytes(bytes.subrange(off, off + 4)) as int;
        if off + 4 + n <= bytes.len() && valid_utf8(bytes.subrange(off + 4, off + 4 + n)) {
            Some((decode_utf8(bytes.subrange(off + 4, off + 4 + n)), off + 4 + n))
        } else {
            None
        }
    } else {
        None
    }
}

/// Reads a record from the front of `bytes`, ignoring whatever
/// follows its three fields.
pub open spec fn spec_parse_record(bytes: Seq<u8>) -> Option<(Seq<char>, Seq<char>, Seq<char>)> {
    match spec_parse_string_at(bytes, 0) {
        None => None,
        Some((dna, o1)) => match spec_parse_string_at(bytes, o1) {
            None => None,
            Some((rna, o2)) => match spec_parse_string_at(bytes, o2) {
                None => None,
                Some((complement, _o3)) => Some((dna, rna, complement)),
            },
        },
    }
}

fn ser_string_into(out: &mut Vec<u8>, s: &String)
    requires
        encode_utf8(s@).len() < 0x1_0000_0000,
    ensures
        final(out)@ == old(out)@ + spec_ser_string(s@),
{
    let bytes = s.as_str().as_bytes_vec();
    let n: u32 = bytes.len() as u32;
    let mut prefix = u32_to_le_bytes(n);
    out.append(&mut prefix);
    let mut body = bytes;
    out.append(&mut body);
}

pub(crate) fn parse_string_at(data: &[u8], off: usize) -> (r: Option<(String, usize)>)
    requires
        off <= data@.len(),
    ensures
        match spec_parse_string_at(data@, off as int) {
            Some(t) => r matches Some(p) && p.0@ == t.0 && p.1 == t.1,
            None => r is None,
        },
{
    if data.len() - off < 4 {
        return None;
    }
    let prefix = slice_subrange(data, off, off + 4);
    let n32 = u32_from_le_bytes(prefix);
    let n = n32 as usize;
    if data.len() - off - 4 < n {
        return None;
    }
    let body = slice_subrange(data, off + 4, off + 4 + n);
    match bytes_to_string(slice_to_vec(body)) {
        Some(s) => Some((s, off + 4 + n)),
        None => None,
    }
}

impl NucleotideState {
    /// The record's serialized bytes.
    pub fn serialize(&self) -> (r: Vec<u8>)
        requires
            encode_utf8(self.dna@).len() < 0x1_0000_0000,
            encode_utf8(self.rna@).len() < 0x1_0000_0000,
            encode_utf8(self.complement@).len() < 0x1_0000_0000,
        ensures
            r@ == spec_ser_record(self.dna@, self.rna@, self.complement@),
    {
        let mut out: Vec<u8> = Vec::new();
        ser_string_into(&mut out, &self.dna);
        ser_string_into(&mut out, &self.rna);
        ser_string_into(&mut out, &self.complement);
        proof {
            assert(out@ =~= spec_ser_record(self.dna@, self.rna@, self.complement@));
        }
        out
    }

    /// Reads a record back from the front of `data`, ignoring any
    /// trailing bytes; fails exactly where the wire form is
    /// malformed.
    pub fn deserialize(data: &[u8]) -> (r: Option<NucleotideState>)
        ensures
            match spec_parse_record(data@) {
                Some(t) => r matches Some(st) && st.dna@ == t.0 && st.rna@ == t.1
                    && st.complement@ == t.2,
                None => r is None,
            },
    {
        let (dna, o1) = match parse_string_at(data, 0) {
            Some(p) => p,
            None => {
                return None;
            },
        };
        let (rna, o2) = match parse_string_at(data, o1) {
            Some(p) => p,
            None => {
                return None;
            },
        };
        let (complement, _o3) = match parse_string_at(data, o2) {
            Some(p) => p,
            None => {
                return None;
            },
        };
        Some(NucleotideState { dna, rna, complement })
    }
}

/// The serialized record is exactly twelve prefix bytes plus the
/// bytes of its three fields.
pub proof fn lemma_ser_record_len(dna: Seq<char>, rna: Seq<char>, complement: Seq<char>)
    ensures
        spec_ser_record(dna, rna, complement).len() == 12 + encode_utf8(dna).len() + encode_utf8(
            rna,
        ).len() + encode_utf8(complement).len(),
{
    lemma_auto_spec_u32_to_from_le_bytes();
}

proof fn lemma_parse_ser_string(bytes: Seq<u8>, off: int, s: Seq<char>)
    requires
        0 <= off,
        encode_utf8(s).len() < 0x1_0000_0000,
        off + spec_ser_string(s).len() <= bytes.len(),
        bytes.subrange(off, off + spec_ser_string(s).len() as int) == spec_ser_string(s),
    ensures
        spec_parse_string_at(bytes, off) == Some((s, off + spec_ser_string(s).len() as int)),
{
    lemma_auto_spec_u32_to_from_le_bytes();
    broadcast use vstd::utf8::encode_utf8_valid_utf8;
    broadcast use vstd::utf8::encode_utf8_decode_utf8;

    let eb = encode_utf8(s);
    let n = eb.len() as u32;
    let pre = spec_u32_to_le_bytes(n);
    let ser = spec_ser_string(s);
    assert(ser.len() == 4 + eb.len());
    assert(forall|i: int|
        0 <= i < ser.len() ==> bytes[off + i] == #[trigger] bytes.subrange(
            off,
            off + ser.len() as int,
        )[i]);
    assert(bytes.subrange(off, off + 4) =~= pre);
    assert(spec_u32_from_le_bytes(bytes.subrange(off, off + 4)) == n);
    assert forall|j: int| 0 <= j < eb.len() implies bytes[off + 4 + j] == eb[j] by {
        assert(bytes.subrange(off, off + ser.len() as int)[4 + j] == bytes[off + (4 + j)]);
        assert(ser[4 + j] == eb[j]);
    }
    assert(bytes.subrange(off + 4, off + 4 + eb.len() as int) =~= eb);
    assert(valid_utf8(eb));
    assert(decode_utf8(eb) == s);
}

/// Serializing a record and reading it back, possibly with other
/// bytes after it, yields the same three fields.
pub proof fn lemma_record_round_trip(
    dna: Seq<char>,
    rna: Seq<char>,
    complement: Seq<char>,
    tail: Seq<u8>,
)
    requires
        encode_utf8(dna).len() < 0x1_0000_0000,
        encode_utf8(rna).len() < 0x1_0000_0000,
        encode_utf8(complement).len() < 0x1_0000_0000,
    ensures
        spec_parse_record(spec_ser_record(dna, rna, complement) + tail) == Some(
            (dna, rna, complement),
        ),
{
    let s1 = spec_ser_string(dna);
    let s2 = spec_ser_string(rna);
    let s3 = spec_ser_string(complement);
    let bytes = spec_ser_record(dna, rna, complement) + tail;
    assert(bytes.subrange(0, s1.len() as int) =~= s1);
    assert(bytes.subrange(s1.len() as int, (s1.len() + s2.len()) as int) =~= s2);
    assert(bytes.subrange(
        (s1.len() + s2.len()) as int,
        (s1.len() + s2.len() + s3.len()) as int,
    ) =~= s3);
    lemma_parse_ser_string(bytes, 0, dna);
    lemma_parse_ser_string(bytes, s1.len() as int, rna);
    lemma_parse_ser_string(bytes, (s1.len() + s2.len()) as int, complement);
}

} // verus!
