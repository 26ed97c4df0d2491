use nucleotides::error::{ProcessingError, ProgramError};
use nucleotides::instruction::DNAOperation;
use nucleotides::ledger::{AccountInfo, Ledger};
use nucleotides::processor::{
    complement, complement1, create, dtranscribe, dtranscribe1, process_instruction, rtranscribe,
    store, try_from_slice_unchecked,
};
use nucleotides::state::NucleotideState;
use solana_program::pubkey::Pubkey;
use solana_program::rent::Rent;

const PROGRAM_ID: [u8; 32] = [7u8; 32];
const AUTHORITY: [u8; 32] = [1u8; 32];

fn pda_for(authority: &[u8; 32], program_id: &[u8; 32]) -> Vec<u8> {
    let pid = Pubkey::new_from_array(*program_id);
    let (pda, _bump) = Pubkey::find_program_address(&[authority.as_ref(), b"nucleotides"], &pid);
    pda.to_bytes().to_vec()
}

fn accounts_for(target: Vec<u8>, signer: bool) -> Vec<AccountInfo> {
    vec![
        AccountInfo { key: AUTHORITY.to_vec(), is_signer: signer },
        AccountInfo { key: target, is_signer: false },
        AccountInfo { key: [0u8; 32].to_vec(), is_signer: false },
    ]
}

fn instruction_bytes(tag: u8, s: &str) -> Vec<u8> {
    let mut v = vec![tag];
    v.extend_from_slice(&borsh::to_vec(&s.to_string()).unwrap());
    v
}

fn stored_record(ledger: &Ledger, key: &Vec<u8>) -> NucleotideState {
    let data = ledger.read_data(key).expect("account exists");
    try_from_slice_unchecked(data.as_slice()).expect("record parses")
}

#[test]
fn transcribe_maps_t_to_u() {
    let out = dtranscribe1(&String::from("ATCG"));
    assert_eq!(out, "AUCG");
}

#[test]
fn transcribe_passes_other_characters_through() {
    let out = dtranscribe1(&String::from("TXYZT\u{e9}"));
    assert_eq!(out, "UXYZU\u{e9}");
}

#[test]
fn complement_swaps_pairs() {
    let out = complement1(&String::from("ATCG"));
    assert_eq!(out, "TAGC");
}

#[test]
fn complement_twice_is_identity() {
    let s = String::from("ATCGGCTA");
    let once = complement1(&s);
    let twice = complement1(&once);
    assert_eq!(twice, s);
}

#[test]
fn reverse_transcription_undoes_transcription() {
    let s = String::from("ATCG");
    let rna = dtranscribe1(&s);
    assert_eq!(rna, "AUCG");
    let mut log: Vec<String> = Vec::new();
    rtranscribe(rna, &mut log).expect("pure transform succeeds");
    assert_eq!(log, vec![String::from("ATCG")]);
}

#[test]
fn transform_operations_emit_messages() {
    let mut log: Vec<String> = Vec::new();
    dtranscribe(String::from("ATCG"), &mut log).expect("ok");
    complement(String::from("ATCG"), &mut log).expect("ok");
    assert_eq!(log, vec![String::from("AUCG"), String::from("TAGC")]);
}

#[test]
fn account_size_formula() {
    assert_eq!(NucleotideState::get_account_size(String::from("ATCG")), 24);
    assert_eq!(NucleotideState::get_account_size(String::new()), 12);
    assert_eq!(NucleotideState::get_account_size("A".repeat(329)), 999);
    assert_eq!(NucleotideState::get_account_size("A".repeat(330)), 1002);
}

#[test]
fn serialization_round_trips() {
    let record = NucleotideState {
        dna: String::from("ATCG"),
        rna: String::from("AUCG"),
        complement: String::from("TAGC"),
    };
    let bytes = record.serialize();
    let back = NucleotideState::deserialize(bytes.as_slice()).expect("parses");
    assert_eq!(back.dna, record.dna);
    assert_eq!(back.rna, record.rna);
    assert_eq!(back.complement, record.complement);
}

#[test]
fn serialization_matches_borsh_wire_form() {
    let record = NucleotideState {
        dna: String::from("ATCG"),
        rna: String::from("AUCG"),
        complement: String::from("TAGC"),
    };
    let bytes = record.serialize();
    let reference = borsh::to_vec(&(
        String::from("ATCG"),
        String::from("AUCG"),
        String::from("TAGC"),
    ))
    .unwrap();
    assert_eq!(bytes, reference);
}

#[test]
fn deserialize_ignores_trailing_bytes() {
    let record = NucleotideState {
        dna: String::from("AT"),
        rna: String::from("AU"),
        complement: String::from("TA"),
    };
    let mut bytes = record.serialize();
    bytes.resize(1000, 0u8);
    let back = NucleotideState::deserialize(bytes.as_slice()).expect("parses");
    assert_eq!(back.dna, "AT");
}

#[test]
fn serialization_round_trips_multibyte_text() {
    let record = NucleotideState {
        dna: String::from("A\u{e9}T"),
        rna: String::from("A\u{e9}U"),
        complement: String::from("T\u{e9}A"),
    };
    let bytes = record.serialize();
    // the length prefix counts bytes, not characters
    assert_eq!(bytes[0], 4);
    let back = NucleotideState::deserialize(bytes.as_slice()).expect("parses");
    assert_eq!(back.dna, "A\u{e9}T");
    assert_eq!(back.rna, "A\u{e9}U");
    assert_eq!(back.complement, "T\u{e9}A");
}

#[test]
fn unpack_decodes_multibyte_utf8() {
    let bytes = instruction_bytes(0, "AT\u{e9}");
    assert!(matches!(
        DNAOperation::unpack(&bytes),
        Ok(DNAOperation::TranscribeDNA { dna }) if dna == "AT\u{e9}"
    ));
}

#[test]
fn deserialize_rejects_truncated_bytes() {
    assert!(NucleotideState::deserialize(&[4, 0, 0, 0, b'A']).is_none());
}

#[test]
fn unpack_selects_operations_by_tag() {
    let bytes = instruction_bytes(0, "ATCG");
    assert!(matches!(
        DNAOperation::unpack(&bytes),
        Ok(DNAOperation::TranscribeDNA { dna }) if dna == "ATCG"
    ));
    let bytes = instruction_bytes(1, "ATCG");
    assert!(matches!(
        DNAOperation::unpack(&bytes),
        Ok(DNAOperation::ComplementDNA { dna }) if dna == "ATCG"
    ));
    let bytes = instruction_bytes(2, "AUCG");
    assert!(matches!(
        DNAOperation::unpack(&bytes),
        Ok(DNAOperation::TranscribeRNA { rna }) if rna == "AUCG"
    ));
    let bytes = instruction_bytes(3, "ATCG");
    assert!(matches!(
        DNAOperation::unpack(&bytes),
        Ok(DNAOperation::CreateNucleotideInfo { dna }) if dna == "ATCG"
    ));
    let bytes = instruction_bytes(4, "ATCG");
    assert!(matches!(
        DNAOperation::unpack(&bytes),
        Ok(DNAOperation::StoreNucleotideInfo { dna }) if dna == "ATCG"
    ));
}

#[test]
fn unpack_rejects_empty_and_out_of_range_tags() {
    assert!(matches!(
        DNAOperation::unpack(&[]),
        Err(ProgramError::InvalidInstructionData)
    ));
    let bytes = instruction_bytes(5, "ATCG");
    assert!(matches!(
        DNAOperation::unpack(&bytes),
        Err(ProgramError::InvalidInstructionData)
    ));
}

#[test]
fn unpack_rejects_malformed_payloads() {
    // truncated length prefix
    assert!(matches!(
        DNAOperation::unpack(&[0, 4, 0]),
        Err(ProgramError::InvalidInstructionData)
    ));
    // payload shorter than announced
    assert!(matches!(
        DNAOperation::unpack(&[0, 4, 0, 0, 0, b'A']),
        Err(ProgramError::InvalidInstructionData)
    ));
    // bytes left over after the string
    let mut bytes = instruction_bytes(0, "ATCG");
    bytes.push(0);
    assert!(matches!(
        DNAOperation::unpack(&bytes),
        Err(ProgramError::InvalidInstructionData)
    ));
    // not UTF-8
    assert!(matches!(
        DNAOperation::unpack(&[0, 2, 0, 0, 0, 0xff, 0xfe]),
        Err(ProgramError::InvalidInstructionData)
    ));
}

#[test]
fn create_stores_derived_record() {
    let program_id = PROGRAM_ID.to_vec();
    let pda = pda_for(&AUTHORITY, &PROGRAM_ID);
    let accounts = accounts_for(pda.clone(), true);
    let mut ledger = Ledger::new();
    create(&program_id, &accounts, String::from("ATCG"), &mut ledger).expect("create succeeds");
    let record = stored_record(&ledger, &pda);
    assert_eq!(record.dna, "ATCG");
    assert_eq!(record.rna, "AUCG");
    assert_eq!(record.complement, "TAGC");
    let data = ledger.read_data(&pda).unwrap();
    assert_eq!(data.len(), 1000);
    assert_eq!(ledger.owner_of(&pda).unwrap(), program_id);
    assert_eq!(
        ledger.lamports_of(&pda).unwrap(),
        Rent::default().minimum_balance(1000)
    );
}

#[test]
fn create_twice_fails_and_keeps_state() {
    let program_id = PROGRAM_ID.to_vec();
    let pda = pda_for(&AUTHORITY, &PROGRAM_ID);
    let accounts = accounts_for(pda.clone(), true);
    let mut ledger = Ledger::new();
    create(&program_id, &accounts, String::from("ATCG"), &mut ledger).expect("first create");
    let before = ledger.read_data(&pda).unwrap();
    let second = create(&program_id, &accounts, String::from("GGGG"), &mut ledger);
    assert_eq!(second, Err(ProgramError::AccountAlreadyInUse));
    let after = ledger.read_data(&pda).unwrap();
    assert_eq!(before, after);
    let record = stored_record(&ledger, &pda);
    assert_eq!(record.dna, "ATCG");
}

#[test]
fn store_respects_the_size_bound() {
    let program_id = PROGRAM_ID.to_vec();
    let pda = pda_for(&AUTHORITY, &PROGRAM_ID);
    let accounts = accounts_for(pda.clone(), true);
    let mut ledger = Ledger::new();
    create(&program_id, &accounts, String::from("ATCG"), &mut ledger).expect("create");
    let long = "A".repeat(329);
    store(&program_id, &accounts, long.clone(), &mut ledger).expect("329 bases fit");
    let record = stored_record(&ledger, &pda);
    assert_eq!(record.dna, long);
    assert_eq!(record.rna, long);
    assert_eq!(record.complement, "T".repeat(329));
    let too_long = "A".repeat(330);
    let res = store(&program_id, &accounts, too_long, &mut ledger);
    assert_eq!(
        res,
        Err(ProgramError::Custom(ProcessingError::InvalidDataLength.code()))
    );
    let record = stored_record(&ledger, &pda);
    assert_eq!(record.dna, long);
}

#[test]
fn create_rejects_oversized_input() {
    let program_id = PROGRAM_ID.to_vec();
    let pda = pda_for(&AUTHORITY, &PROGRAM_ID);
    let accounts = accounts_for(pda, true);
    let mut ledger = Ledger::new();
    let res = create(&program_id, &accounts, "A".repeat(330), &mut ledger);
    assert_eq!(res, Err(ProgramError::Custom(2)));
}

#[test]
fn mismatched_address_is_rejected() {
    let program_id = PROGRAM_ID.to_vec();
    let wrong = [9u8; 32].to_vec();
    let accounts = accounts_for(wrong, true);
    let mut ledger = Ledger::new();
    let res = create(&program_id, &accounts, String::from("ATCG"), &mut ledger);
    assert_eq!(res, Err(ProgramError::Custom(ProcessingError::InvalidPDA.code())));
    let res = store(&program_id, &accounts, String::from("ATCG"), &mut ledger);
    assert_eq!(res, Err(ProgramError::Custom(1)));
    assert!(!ledger.contains(&[9u8; 32].to_vec()));
}

#[test]
fn missing_signature_is_rejected() {
    let program_id = PROGRAM_ID.to_vec();
    let pda = pda_for(&AUTHORITY, &PROGRAM_ID);
    let accounts = accounts_for(pda, false);
    let mut ledger = Ledger::new();
    let res = create(&program_id, &accounts, String::from("ATCG"), &mut ledger);
    assert_eq!(res, Err(ProgramError::MissingRequiredSignature));
    let res = store(&program_id, &accounts, String::from("ATCG"), &mut ledger);
    assert_eq!(res, Err(ProgramError::MissingRequiredSignature));
}

#[test]
fn short_account_lists_are_rejected() {
    let program_id = PROGRAM_ID.to_vec();
    let pda = pda_for(&AUTHORITY, &PROGRAM_ID);
    let mut accounts = accounts_for(pda, true);
    accounts.pop();
    let mut ledger = Ledger::new();
    // `create` needs three accounts, `store` only two
    let res = create(&program_id, &accounts, String::from("ATCG"), &mut ledger);
    assert_eq!(res, Err(ProgramError::NotEnoughAccountKeys));
    accounts.pop();
    let res = store(&program_id, &accounts, String::from("ATCG"), &mut ledger);
    assert_eq!(res, Err(ProgramError::NotEnoughAccountKeys));
}

#[test]
fn store_before_create_fails() {
    let program_id = PROGRAM_ID.to_vec();
    let pda = pda_for(&AUTHORITY, &PROGRAM_ID);
    let accounts = accounts_for(pda, true);
    let mut ledger = Ledger::new();
    let res = store(&program_id, &accounts, String::from("ATCG"), &mut ledger);
    assert_eq!(
        res,
        Err(ProgramError::Custom(ProcessingError::UninitializedAccount.code()))
    );
}

#[test]
fn store_is_idempotent() {
    let program_id = PROGRAM_ID.to_vec();
    let pda = pda_for(&AUTHORITY, &PROGRAM_ID);
    let accounts = accounts_for(pda.clone(), true);
    let mut ledger = Ledger::new();
    create(&program_id, &accounts, String::from("ATCG"), &mut ledger).expect("create");
    store(&program_id, &accounts, String::from("GATTACA"), &mut ledger).expect("first store");
    let first = ledger.read_data(&pda).unwrap();
    store(&program_id, &accounts, String::from("GATTACA"), &mut ledger).expect("second store");
    let second = ledger.read_data(&pda).unwrap();
    assert_eq!(first, second);
}

#[test]
fn processing_error_codes() {
    assert_eq!(ProcessingError::UninitializedAccount.code(), 0);
    assert_eq!(ProcessingError::InvalidPDA.code(), 1);
    assert_eq!(ProcessingError::InvalidDataLength.code(), 2);
    assert_eq!(
        ProgramError::from(ProcessingError::InvalidPDA),
        ProgramError::Custom(1)
    );
}

#[test]
fn process_instruction_dispatches_transforms() {
    let program_id = PROGRAM_ID.to_vec();
    let mut ledger = Ledger::new();
    let mut log: Vec<String> = Vec::new();
    let bytes = instruction_bytes(0, "ATCG");
    process_instruction(&program_id, &[], &bytes, &mut ledger, &mut log).expect("ok");
    let bytes = instruction_bytes(1, "ATCG");
    process_instruction(&program_id, &[], &bytes, &mut ledger, &mut log).expect("ok");
    let bytes = instruction_bytes(2, "AUCG");
    process_instruction(&program_id, &[], &bytes, &mut ledger, &mut log).expect("ok");
    assert_eq!(
        log,
        vec![
            String::from("AUCG"),
            String::from("TAGC"),
            String::from("ATCG")
        ]
    );
}

#[test]
fn process_instruction_creates_and_stores() {
    let program_id = PROGRAM_ID.to_vec();
    let pda = pda_for(&AUTHORITY, &PROGRAM_ID);
    let accounts = accounts_for(pda.clone(), true);
    let mut ledger = Ledger::new();
    let mut log: Vec<String> = Vec::new();
    let bytes = instruction_bytes(3, "ATCG");
    process_instruction(&program_id, &accounts, &bytes, &mut ledger, &mut log).expect("create");
    let bytes = instruction_bytes(4, "GATTACA");
    process_instruction(&program_id, &accounts, &bytes, &mut ledger, &mut log).expect("store");
    let record = stored_record(&ledger, &pda);
    assert_eq!(record.dna, "GATTACA");
    assert_eq!(record.rna, "GAUUACA");
    assert_eq!(record.complement, "CTAATGT");
    assert!(log.is_empty());
}

#[test]
fn process_instruction_rejects_malformed_bytes() {
    let program_id = PROGRAM_ID.to_vec();
    let mut ledger = Ledger::new();
    let mut log: Vec<String> = Vec::new();
    let res = process_instruction(&program_id, &[], &[], &mut ledger, &mut log);
    assert_eq!(res, Err(ProgramError::InvalidInstructionData));
    let bytes = instruction_bytes(5, "ATCG");
    let res = process_instruction(&program_id, &[], &bytes, &mut ledger, &mut log);
    assert_eq!(res, Err(ProgramError::InvalidInstructionData));
    assert!(log.is_empty());
}
