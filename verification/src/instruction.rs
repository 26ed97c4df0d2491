use crate::error::ProgramError;
use crate::state::{parse_string_at, spec_parse_string_at};
use vstd::prelude::*;
use vstd::slice::{slice_index_get, slice_subrange};

verus! {

/// The five operations an instruction can request: the three pure
/// transforms, record creation, and record overwrite.
pub enum DNAOperation {
    TranscribeRNA { rna: String },
    ComplementDNA { dna: String },
    TranscribeDNA { dna: String },
    CreateNucleotideInfo { dna: String },
    StoreNucleotideInfo { dna: String },
}

/// The payload of every operation: exactly one length-prefixed
/// string, with no bytes left over.
pub open spec fn spec_payload_string(payload: Seq<u8>) -> Option<Seq<char>> {
    match spec_parse_string_at(payload, 0) {
        Some((s, end)) => if end == payload.len() {
            Some(s)
        } else {
            None
        },
        None => None,
    }
}

impl DNAOperation {
    /// Decodes instruction bytes: the first byte selects the
    /// operation, the remaining bytes are its single-string payload.
    /// Fails exactly when the input is empty, the tag is outside
    /// 0 through 4, or the payload is not one well-formed string.
    pub fn unpack(input: &[u8]) -> (r: Result<DNAOperation, ProgramError>)
        ensures
            r is Ok <==> (input@.len() >= 1 && input@[0] <= 4 && spec_payload_string(
                input@.skip(1),
            ) is Some),
            r matches Ok(op) ==> {
                let s = spec_payload_string(input@.skip(1)).unwrap();
                match op {
                    DNAOperation::TranscribeDNA { dna } => input@[0] == 0 && dna@ == s,
                    DNAOperation::ComplementDNA { dna } => input@[0] == 1 && dna@ == s,
                    DNAOperation::TranscribeRNA { rna } => input@[0] == 2 && rna@ == s,
                    DNAOperation::CreateNucleotideInfo { dna } => input@[0] == 3 && dna@ == s,
                    DNAOperation::StoreNucleotideInfo { dna } => input@[0] == 4 && dna@ == s,
                }
            },
            r matches Err(e) ==> e == ProgramError::InvalidInstructionData,
    {
        if input.len() < 1 {
            return Err(ProgramError::InvalidInstructionData);
        }
        let variant = *slice_index_get(input, 0);
        if variant > 4 {
            return Err(ProgramError::InvalidInstructionData);
        }
        let rest = slice_subrange(input, 1, input.len());
        proof {
            assert(rest@ =~= input@.skip(1));
        }
        let (s, end) = match parse_string_at(rest, 0) {
            Some(p) => p,
            None => {
                return Err(ProgramError::InvalidInstructionData);
            },
        };
        if end != rest.len() {
            return Err(ProgramError::InvalidInstructionData);
        }
        if variant == 0 {
            Ok(DNAOperation::TranscribeDNA { dna: s })
        } else if variant == 1 {
            Ok(DNAOperation::ComplementDNA { dna: s })
        } else if variant == 2 {
            Ok(DNAOperation::TranscribeRNA { rna: s })
        } else if variant == 3 {
            Ok(DNAOperation::CreateNucleotideInfo { dna: s })
        } else {
            Ok(DNAOperation::StoreNucleotideInfo { dna: s })
        }
    }
}

} // verus!
