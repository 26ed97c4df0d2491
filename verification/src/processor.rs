use crate::error::{ProcessingError, ProgramError, ProgramResult};
use crate::instruction::{spec_payload_string, DNAOperation};
use crate::ledger::{keys_equal, AccountInfo, AccountView, Ledger};
use crate::state::{
    lemma_record_round_trip, lemma_ser_record_len, spec_account_size, spec_parse_record,
    spec_ser_record, NucleotideState,
};
use crate::trusted::{derive_pda, pda_of, rent_min_of, rent_minimum_balance};
use vstd::prelude::*;
use vstd::slice::slice_index_get;
use vstd::string::StrSliceExecFns;
use vstd::utf8::encode_utf8;

verus! {

/// Transcription maps thymine to uracil; every other character passes
/// through unchanged.
pub open spec fn transcribe_char(c: char) -> char {
    if c == 'T' {
        'U'
    } else {
        c
    }
}

/// Complementation swaps adenine with thymine and cytosine with
/// guanine; every other character passes through unchanged.
pub open spec fn complement_char(c: char) -> char {
    if c == 'A' {
        'T'
    } else if c == 'T' {
        'A'
    } else if c == 'C' {
        'G'
    } else if c == 'G' {
        'C'
    } else {
        c
    }
}

/// Reverse transcription maps uracil back to thymine; every other
/// character passes through unchanged.
pub open spec fn rev_transcribe_char(c: char) -> char {
    if c == 'U' {
        'T'
    } else {
        c
    }
}

pub open spec fn spec_transcribe(s: Seq<char>) -> Seq<char> {
    s.map_values(|c: char| transcribe_char(c))
}

pub open spec fn spec_complement(s: Seq<char>) -> Seq<char> {
    s.map_values(|c: char| complement_char(c))
}

pub open spec fn spec_rev_transcribe(s: Seq<char>) -> Seq<char> {
    s.map_values(|c: char| rev_transcribe_char(c))
}

/// The RNA strand transcribed from a DNA sequence.
pub fn dtranscribe1(dna: &String) -> (r: String)
    ensures
        r@ == spec_transcribe(dna@),
{
    let s = dna.as_str();
    let n = s.unicode_len();
    let mut out = String::new();
    let mut i: usize = 0;
    while i < n
        invariant
            s@ == dna@,
            n == dna@.len(),
            i <= n,
            out@ == spec_transcribe(dna@.take(i as int)),
        decreases n - i,
    {
        let c = s.get_char(i);
        if c == 'T' {
            out.push('U');
        } else {
            out.push(c);
        }
        proof {
            assert(spec_transcribe(dna@.take(i + 1)) =~= spec_transcribe(
                dna@.take(i as int),
            ).push(transcribe_char(dna@[i as int])));
        }
        i = i + 1;
    }
    proof {
        assert(dna@.take(n as int) =~= dna@);
    }
    out
}

/// The complementary strand of a DNA sequence.
pub fn complement1(dna: &String) -> (r: String)
    ensures
        r@ == spec_complement(dna@),
{
    let s = dna.as_str();
    let n = s.unicode_len();
    let mut out = String::new();
    let mut i: usize = 0;
    while i < n
        invariant
            s@ == dna@,
            n == dna@.len(),
            i <= n,
            out@ == spec_complement(dna@.take(i as int)),
        decreases n - i,
    {
        let c = s.get_char(i);
        if c == 'A' {
            out.push('T');
        } else if c == 'T' {
            out.push('A');
        } else if c == 'C' {
            out.push('G');
        } else if c == 'G' {
            out.push('C');
        } else {
            out.push(c);
        }
        proof {
            assert(spec_complement(dna@.take(i + 1)) =~= spec_complement(
                dna@.take(i as int),
            ).push(complement_char(dna@[i as int])));
        }
        i = i + 1;
    }
    proof {
        assert(dna@.take(n as int) =~= dna@);
    }
    out
}

/// The DNA sequence recovered from an RNA strand.
fn rev_transcribe1(rna: &String) -> (r: String)
    ensures
        r@ == spec_rev_transcribe(rna@),
{
    let s = rna.as_str();
    let n = s.unicode_len();
    let mut out = String::new();
    let mut i: usize = 0;
    while i < n
        invariant
            s@ == rna@,
            n == rna@.len(),
            i <= n,
            out@ == spec_rev_transcribe(rna@.take(i as int)),
        decreases n - i,
    {
        let c = s.get_char(i);
        if c == 'U' {
            out.push('T');
        } else {
            out.push(c);
        }
        proof {
            assert(spec_rev_transcribe(rna@.take(i + 1)) =~= spec_rev_transcribe(
                rna@.take(i as int),
            ).push(rev_transcribe_char(rna@[i as int])));
        }
        i = i + 1;
    }
    proof {
        assert(rna@.take(n as int) =~= rna@);
    }
    out
}

/// Both transforms map single-byte characters to single-byte
/// characters and leave every other character unchanged, so they
/// preserve a sequence's encoded byte length.
pub proof fn lemma_transform_byte_len(s: Seq<char>)
    ensures
        encode_utf8(spec_transcribe(s)).len() == encode_utf8(s).len(),
        encode_utf8(spec_complement(s)).len() == encode_utf8(s).len(),
    decreases s.len(),
{
    if s.len() == 0 {
        assert(spec_transcribe(s) =~= Seq::<char>::empty());
        assert(spec_complement(s) =~= Seq::<char>::empty());
    } else {
        lemma_transform_byte_len(s.drop_first());
        assert(spec_transcribe(s).drop_first() =~= spec_transcribe(s.drop_first()));
        assert(spec_complement(s).drop_first() =~= spec_complement(s.drop_first()));
        assert(spec_transcribe(s)[0] == transcribe_char(s[0]));
        assert(spec_complement(s)[0] == complement_char(s[0]));
        let c = s[0];
        if c == 'T' || c == 'U' || c == 'A' || c == 'C' || c == 'G' {
            assert(vstd::utf8::has_width_1_encoding(c as u32));
            assert(vstd::utf8::has_width_1_encoding(transcribe_char(c) as u32));
            assert(vstd::utf8::has_width_1_encoding(complement_char(c) as u32));
        }
        assert(vstd::utf8::encode_scalar(transcribe_char(c) as u32).len() == vstd::utf8::encode_scalar(
            c as u32,
        ).len());
        assert(vstd::utf8::encode_scalar(complement_char(c) as u32).len() == vstd::utf8::encode_scalar(
            c as u32,
        ).len());
    }
}

/// Complementing twice gives the original sequence back, whenever the
/// sequence holds only the four DNA bases.
pub proof fn lemma_complement_involutive(s: Seq<char>)
    requires
        forall|i: int|
            0 <= i < s.len() ==> (s[i] == 'A' || s[i] == 'T' || s[i] == 'C' || s[i] == 'G'),
    ensures
        spec_complement(spec_complement(s)) == s,
{
    assert(spec_complement(spec_complement(s)) =~= s);
}

/// Reverse transcription undoes transcription, whenever the sequence
/// holds only characters from the nucleotide alphabet and no uracil.
pub proof fn lemma_rev_transcribe_transcribe(s: Seq<char>)
    requires
        forall|i: int|
            0 <= i < s.len() ==> (s[i] == 'A' || s[i] == 'T' || s[i] == 'C' || s[i] == 'G' || s[i]
                == 'U'),
        forall|i: int| 0 <= i < s.len() ==> s[i] != 'U',
    ensures
        spec_rev_transcribe(spec_transcribe(s)) == s,
{
    assert(spec_rev_transcribe(spec_transcribe(s)) =~= s);
}

/// The fixed seed label that scopes one derived address per
/// authority, as UTF-8 bytes.
pub open spec fn spec_seed() -> Seq<u8> {
    encode_utf8("nucleotides"@)
}

/// The derived address for an authority under this program, if the
/// bump search finds one.
pub open spec fn spec_derived(authority: Seq<u8>, program_id: Seq<u8>) -> Option<Seq<u8>> {
    pda_of(authority, spec_seed(), program_id)
}

/// The bytes a record derived from `dna` occupies on the wire.
pub open spec fn spec_record_bytes(dna: Seq<char>) -> Seq<u8> {
    spec_ser_record(dna, spec_transcribe(dna), spec_complement(dna))
}

/// The fixed byte capacity of every record account.
pub open spec fn spec_capacity() -> int {
    1000
}

/// A record derived from `dna` occupies on the wire exactly the
/// bytes the sizing function reserves for it, because both derived
/// strands keep the byte length of `dna`.
pub proof fn lemma_record_bytes_size(dna: Seq<char>)
    ensures
        spec_record_bytes(dna).len() == spec_account_size(dna),
{
    lemma_transform_byte_len(dna);
    lemma_ser_record_len(dna, spec_transcribe(dna), spec_complement(dna));
}

/// What `create` leaves in the ledger and returns: the account list
/// must supply the signing authority, the target account and the
/// allocator; the target's address must equal the derived one; the
/// sized record must fit the fixed capacity; the address must be
/// unoccupied.  Then a new account exists there, rent-exempt funded,
/// owned by this program, holding the serialized record ahead of
/// zeroed padding.
pub open spec fn spec_create(
    l0: Map<Seq<u8>, AccountView>,
    program_id: Seq<u8>,
    accounts: Seq<AccountInfo>,
    dna: Seq<char>,
) -> (Map<Seq<u8>, AccountView>, ProgramResult) {
    if accounts.len() < 3 {
        (l0, Err(ProgramError::NotEnoughAccountKeys))
    } else if !accounts[0].is_signer {
        (l0, Err(ProgramError::MissingRequiredSignature))
    } else {
        match spec_derived(accounts[0].key@, program_id) {
            None => (l0, Err(ProgramError::Custom(ProcessingError::InvalidPDA.spec_code()))),
            Some(pda) => if accounts[1].key@ != pda {
                (l0, Err(ProgramError::Custom(ProcessingError::InvalidPDA.spec_code())))
            } else if spec_account_size(dna) > spec_capacity() {
                (l0, Err(ProgramError::Custom(ProcessingError::InvalidDataLength.spec_code())))
            } else if l0.dom().contains(pda) {
                (l0, Err(ProgramError::AccountAlreadyInUse))
            } else {
                (
                    l0.insert(
                        pda,
                        AccountView {
                            lamports: rent_min_of(spec_capacity() as nat),
                            owner: program_id,
                            data: spec_record_bytes(dna) + Seq::new(
                                (spec_capacity() - spec_record_bytes(dna).len()) as nat,
                                |i: int| 0u8,
                            ),
                        },
                    ),
                    Ok(()),
                )
            },
        }
    }
}

/// What `store` leaves in the ledger and returns: the authority must
/// sign, the target's address must equal the derived one, the sized
/// record must fit the fixed capacity, and a parseable record must
/// already be stored there.  Then the record recomputed from `dna`
/// overwrites the stored one, leaving the bytes beyond it and the
/// account's funding and owner as they were.
pub open spec fn spec_store(
    l0: Map<Seq<u8>, AccountView>,
    program_id: Seq<u8>,
    accounts: Seq<AccountInfo>,
    dna: Seq<char>,
) -> (Map<Seq<u8>, AccountView>, ProgramResult) {
    if accounts.len() < 2 {
        (l0, Err(ProgramError::NotEnoughAccountKeys))
    } else if !accounts[0].is_signer {
        (l0, Err(ProgramError::MissingRequiredSignature))
    } else {
        match spec_derived(accounts[0].key@, program_id) {
            None => (l0, Err(ProgramError::Custom(ProcessingError::InvalidPDA.spec_code()))),
            Some(pda) => if accounts[1].key@ != pda {
                (l0, Err(ProgramError::Custom(ProcessingError::InvalidPDA.spec_code())))
            } else if spec_account_size(dna) > spec_capacity() {
                (l0, Err(ProgramError::Custom(ProcessingError::InvalidDataLength.spec_code())))
            } else if !l0.dom().contains(pda) || spec_parse_record(l0[pda].data) is None {
                (
                    l0,
                    Err(ProgramError::Custom(ProcessingError::UninitializedAccount.spec_code())),
                )
            } else if spec_record_bytes(dna).len() > l0[pda].data.len() {
                (l0, Err(ProgramError::Custom(ProcessingError::InvalidDataLength.spec_code())))
            } else {
                (
                    l0.insert(
                        pda,
                        AccountView {
                            lamports: l0[pda].lamports,
                            owner: l0[pda].owner,
                            data: spec_record_bytes(dna) + l0[pda].data.skip(
                                spec_record_bytes(dna).len() as int,
                            ),
                        },
                    ),
                    Ok(()),
                )
            },
        }
    }
}

/// An account is created at most once: after a successful creation,
/// any further creation request at the same derived address fails
/// because the address is occupied, and leaves the ledger untouched.
/// The sequence offered the second time must itself fit the
/// capacity, since an oversized one is rejected before the address
/// is ever consulted.
pub proof fn lemma_create_once(
    l0: Map<Seq<u8>, AccountView>,
    program_id: Seq<u8>,
    accounts: Seq<AccountInfo>,
    dna: Seq<char>,
    dna2: Seq<char>,
)
    requires
        spec_create(l0, program_id, accounts, dna).1 is Ok,
        spec_account_size(dna2) <= spec_capacity(),
    ensures
        spec_create(spec_create(l0, program_id, accounts, dna).0, program_id, accounts, dna2) == (
            spec_create(l0, program_id, accounts, dna).0,
            Err::<(), ProgramError>(ProgramError::AccountAlreadyInUse),
        ),
{
}

/// Overwriting a record with the same sequence a second time leaves
/// the ledger exactly as the first overwrite left it: on success,
/// `store` is idempotent.
pub proof fn lemma_store_idempotent(
    l0: Map<Seq<u8>, AccountView>,
    program_id: Seq<u8>,
    accounts: Seq<AccountInfo>,
    dna: Seq<char>,
)
    requires
        spec_store(l0, program_id, accounts, dna).1 is Ok,
    ensures
        spec_store(spec_store(l0, program_id, accounts, dna).0, program_id, accounts, dna) == (
            spec_store(l0, program_id, accounts, dna).0,
            Ok::<(), ProgramError>(()),
        ),
{
    let l1 = spec_store(l0, program_id, accounts, dna).0;
    let pda = spec_derived(accounts[0].key@, program_id).unwrap();
    let rb = spec_record_bytes(dna);
    lemma_record_bytes_size(dna);
    lemma_transform_byte_len(dna);
    lemma_record_round_trip(
        dna,
        spec_transcribe(dna),
        spec_complement(dna),
        l0[pda].data.skip(rb.len() as int),
    );
    assert(l1[pda].data == rb + l0[pda].data.skip(rb.len() as int));
    assert(l1[pda].data.skip(rb.len() as int) =~= l0[pda].data.skip(rb.len() as int));
    assert(rb + l1[pda].data.skip(rb.len() as int) =~= l1[pda].data);
    let again = AccountView {
        lamports: l1[pda].lamports,
        owner: l1[pda].owner,
        data: rb + l1[pda].data.skip(rb.len() as int),
    };
    assert(again == l1[pda]);
    assert(l1.insert(pda, again) =~= l1);
}

/// Emits the RNA strand transcribed from `dna` on the message
/// side-channel.
pub fn dtranscribe(dna: String, log: &mut Vec<String>) -> (r: ProgramResult)
    ensures
        r == Ok::<(), ProgramError>(()),
        final(log).deep_view() == old(log).deep_view().push(spec_transcribe(dna@)),
{
    let out = dtranscribe1(&dna);
    log.push(out);
    proof {
        assert(final(log).deep_view() =~= old(log).deep_view().push(spec_transcribe(dna@)));
    }
    Ok(())
}

/// Emits the complementary strand of `dna` on the message
/// side-channel.
pub fn complement(dna: String, log: &mut Vec<String>) -> (r: ProgramResult)
    ensures
        r == Ok::<(), ProgramError>(()),
        final(log).deep_view() == old(log).deep_view().push(spec_complement(dna@)),
{
    let out = complement1(&dna);
    log.push(out);
    proof {
        assert(final(log).deep_view() =~= old(log).deep_view().push(spec_complement(dna@)));
    }
    Ok(())
}

/// Emits the DNA sequence recovered from `rna` on the message
/// side-channel.
pub fn rtranscribe(rna: String, log: &mut Vec<String>) -> (r: ProgramResult)
    ensures
        r == Ok::<(), ProgramError>(()),
        final(log).deep_view() == old(log).deep_view().push(spec_rev_transcribe(rna@)),
{
    let out = rev_transcribe1(&rna);
    log.push(out);
    proof {
        assert(final(log).deep_view() =~= old(log).deep_view().push(spec_rev_transcribe(rna@)));
    }
    Ok(())
}

/// Reads a record from the front of raw account bytes, mapping a
/// malformed wire form to a typed failure.
pub fn try_from_slice_unchecked(data: &[u8]) -> (r: Result<NucleotideState, ProgramError>)
    ensures
        match spec_parse_record(data@) {
            Some(t) => r matches Ok(st) && st.dna@ == t.0 && st.rna@ == t.1 && st.complement@
                == t.2,
            None => r matches Err(e) && e == ProgramError::InvalidInstructionData,
        },
{
    match NucleotideState::deserialize(data) {
        Some(st) => Ok(st),
        None => Err(ProgramError::InvalidInstructionData),
    }
}

/// Creates the record account for the signing authority at its
/// derived address and writes the record computed from `dna` into it.
pub fn create(
    program_id: &Vec<u8>,
    accounts: &[AccountInfo],
    dna: String,
    ledger: &mut Ledger,
) -> (r: ProgramResult)
    requires
        program_id@.len() == 32,
        old(ledger).wf(),
    ensures
        final(ledger).wf(),
        final(ledger)@ == spec_create(old(ledger)@, program_id@, accounts@, dna@).0,
        r == spec_create(old(ledger)@, program_id@, accounts@, dna@).1,
{
    if accounts.len() < 3 {
        return Err(ProgramError::NotEnoughAccountKeys);
    }
    let initializer = slice_index_get(accounts, 0);
    let pda_account = slice_index_get(accounts, 1);
    if !initializer.is_signer {
        return Err(ProgramError::MissingRequiredSignature);
    }
    let seed = ("nucleotides").as_bytes_vec();
    let pda = match derive_pda(&initializer.key, &seed, program_id) {
        Some(v) => v,
        None => {
            return Err(ProgramError::from(ProcessingError::InvalidPDA));
        },
    };
    if !keys_equal(&pda, &pda_account.key) {
        return Err(ProgramError::from(ProcessingError::InvalidPDA));
    }
    let account_len: usize = 1000;
    // `(4 + n) * 3` exceeds the capacity exactly when the byte length
    // `n` exceeds `account_len / 3 - 4`; testing the length first
    // keeps the size computation from overflowing.
    if dna.as_str().as_bytes().len() > account_len / 3 - 4 {
        return Err(ProgramError::from(ProcessingError::InvalidDataLength));
    }
    if ledger.contains(&pda_account.key) {
        return Err(ProgramError::AccountAlreadyInUse);
    }
    let rent_lamports = rent_minimum_balance(account_len);
    ledger.create_account(&pda_account.key, rent_lamports, account_len, program_id);
    let rna = dtranscribe1(&dna);
    let complement = complement1(&dna);
    let counter_data = NucleotideState { dna, rna, complement };
    proof {
        lemma_transform_byte_len(counter_data.dna@);
        lemma_ser_record_len(counter_data.dna@, counter_data.rna@, counter_data.complement@);
    }
    let ser = counter_data.serialize();
    ledger.write_data_prefix(&pda_account.key, &ser);
    proof {
        let l0 = old(ledger)@;
        let key = accounts@[1].key@;
        let target = spec_create(l0, program_id@, accounts@, counter_data.dna@).0;
        assert(ser@ + Seq::new(1000, |i: int| 0u8).skip(ser@.len() as int) =~= spec_record_bytes(
            counter_data.dna@,
        ) + Seq::new((spec_capacity() - spec_record_bytes(counter_data.dna@).len()) as nat, |i: int| 0u8));
        assert(final(ledger)@ =~= target);
    }
    Ok(())
}

/// Overwrites the record stored at the signing authority's derived
/// address with the record recomputed from `dna`.
pub fn store(
    program_id: &Vec<u8>,
    accounts: &[AccountInfo],
    dna: String,
    ledger: &mut Ledger,
) -> (r: ProgramResult)
    requires
        program_id@.len() == 32,
        old(ledger).wf(),
    ensures
        final(ledger).wf(),
        final(ledger)@ == spec_store(old(ledger)@, program_id@, accounts@, dna@).0,
        r == spec_store(old(ledger)@, program_id@, accounts@, dna@).1,
{
    if accounts.len() < 2 {
        return Err(ProgramError::NotEnoughAccountKeys);
    }
    let initializer = slice_index_get(accounts, 0);
    let pda_account = slice_index_get(accounts, 1);
    if !initializer.is_signer {
        return Err(ProgramError::MissingRequiredSignature);
    }
    let seed = ("nucleotides").as_bytes_vec();
    let pda = match derive_pda(&initializer.key, &seed, program_id) {
        Some(v) => v,
        None => {
            return Err(ProgramError::from(ProcessingError::InvalidPDA));
        },
    };
    if !keys_equal(&pda, &pda_account.key) {
        return Err(ProgramError::from(ProcessingError::InvalidPDA));
    }
    let account_len: usize = 1000;
    // as in `create`: test the byte length so the size computation
    // cannot overflow.
    if dna.as_str().as_bytes().len() > account_len / 3 - 4 {
        return Err(ProgramError::from(ProcessingError::InvalidDataLength));
    }
    let data = match ledger.read_data(&pda_account.key) {
        Some(d) => d,
        None => {
            return Err(ProgramError::from(ProcessingError::UninitializedAccount));
        },
    };
    let mut counter_data = match NucleotideState::deserialize(data.as_slice()) {
        Some(st) => st,
        None => {
            return Err(ProgramError::from(ProcessingError::UninitializedAccount));
        },
    };
    counter_data.rna = dtranscribe1(&dna);
    counter_data.complement = complement1(&dna);
    counter_data.dna = dna;
    proof {
        lemma_transform_byte_len(counter_data.dna@);
        lemma_ser_record_len(counter_data.dna@, counter_data.rna@, counter_data.complement@);
    }
    let ser = counter_data.serialize();
    if ser.len() > data.len() {
        return Err(ProgramError::from(ProcessingError::InvalidDataLength));
    }
    ledger.write_data_prefix(&pda_account.key, &ser);
    proof {
        let target = spec_store(old(ledger)@, program_id@, accounts@, counter_data.dna@).0;
        assert(final(ledger)@ =~= target);
    }
    Ok(())
}

/// Decodes the instruction bytes and routes them: the pure
/// transforms emit their result on the message side-channel and
/// leave the ledger alone; creation and overwrite touch only the
/// account at the derived address.
pub fn process_instruction(
    program_id: &Vec<u8>,
    accounts: &[AccountInfo],
    instruction_data: &[u8],
    ledger: &mut Ledger,
    log: &mut Vec<String>,
) -> (r: ProgramResult)
    requires
        program_id@.len() == 32,
        old(ledger).wf(),
    ensures
        final(ledger).wf(),
        ({
            let inp = instruction_data@;
            if !(inp.len() >= 1 && inp[0] <= 4 && spec_payload_string(inp.skip(1)) is Some) {
                &&& r == Err::<(), ProgramError>(ProgramError::InvalidInstructionData)
                &&& final(ledger)@ == old(ledger)@
                &&& final(log).deep_view() == old(log).deep_view()
            } else {
                let s = spec_payload_string(inp.skip(1)).unwrap();
                if inp[0] == 0 {
                    &&& r == Ok::<(), ProgramError>(())
                    &&& final(ledger)@ == old(ledger)@
                    &&& final(log).deep_view() == old(log).deep_view().push(spec_transcribe(s))
                } else if inp[0] == 1 {
                    &&& r == Ok::<(), ProgramError>(())
                    &&& final(ledger)@ == old(ledger)@
                    &&& final(log).deep_view() == old(log).deep_view().push(spec_complement(s))
                } else if inp[0] == 2 {
                    &&& r == Ok::<(), ProgramError>(())
                    &&& final(ledger)@ == old(ledger)@
                    &&& final(log).deep_view() == old(log).deep_view().push(
                        spec_rev_transcribe(s),
                    )
                } else if inp[0] == 3 {
                    &&& final(ledger)@ == spec_create(old(ledger)@, program_id@, accounts@, s).0
                    &&& r == spec_create(old(ledger)@, program_id@, accounts@, s).1
                    &&& final(log).deep_view() == old(log).deep_view()
                } else {
                    &&& final(ledger)@ == spec_store(old(ledger)@, program_id@, accounts@, s).0
                    &&& r == spec_store(old(ledger)@, program_id@, accounts@, s).1
                    &&& final(log).deep_view() == old(log).deep_view()
                }
            }
        }),
{
    let instruction = match DNAOperation::unpack(instruction_data) {
        Ok(op) => op,
        Err(e) => {
            return Err(e);
        },
    };
    match instruction {
        DNAOperation::TranscribeDNA { dna } => dtranscribe(dna, log),
        DNAOperation::ComplementDNA { dna } => complement(dna, log),
        DNAOperation::TranscribeRNA { rna } => rtranscribe(rna, log),
        DNAOperation::CreateNucleotideInfo { dna } => create(program_id, accounts, dna, ledger),
        DNAOperation::StoreNucleotideInfo { dna } => store(program_id, accounts, dna, ledger),
    }
}

} // verus!
