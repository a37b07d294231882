use mule_cli::packing::{
    pack_instructions, pack_instructions_checked, AccountMeta, Instruction, PackingViolation,
    MAX_TX_SIZE, SIGNATURE_SIZE,
};
use solana_sdk::instruction::{AccountMeta as SdkAccountMeta, Instruction as SdkInstruction};
use solana_sdk::pubkey::Pubkey;
use solana_sdk::transaction::Transaction;

fn ix_with_data(len: usize) -> Instruction {
    Instruction { program_id: [7u8; 32], accounts: vec![], data: vec![0u8; len] }
}

fn sdk_tx_len(batch: &[Instruction], payer: &[u8; 32]) -> usize {
    let ixs: Vec<SdkInstruction> = batch
        .iter()
        .map(|ix| SdkInstruction {
            program_id: Pubkey::new_from_array(ix.program_id),
            accounts: ix
                .accounts
                .iter()
                .map(|a: &AccountMeta| SdkAccountMeta {
                    pubkey: Pubkey::new_from_array(a.pubkey),
                    is_signer: a.is_signer,
                    is_writable: a.is_writable,
                })
                .collect(),
            data: ix.data.clone(),
        })
        .collect();
    let tx = Transaction::new_with_payer(&ixs, Some(&Pubkey::new_from_array(*payer)));
    bincode::serialize(&tx).unwrap().len()
}

#[test]
fn empty_list_packs_to_one_empty_batch() {
    let payer = [1u8; 32];
    let batches = pack_instructions(1, &payer, vec![]);
    assert_eq!(batches, vec![Vec::<Instruction>::new()]);
}

#[test]
fn three_medium_instructions_split_into_two_batches() {
    let payer = [1u8; 32];
    let ixs = vec![ix_with_data(400), ix_with_data(400), ix_with_data(400)];
    let batches = pack_instructions(1, &payer, ixs.clone());
    assert_eq!(batches.len(), 2);
    let flat: Vec<Instruction> = batches.iter().flat_map(|b| b.iter().cloned()).collect();
    assert_eq!(flat, ixs);
}

#[test]
fn concatenation_preserves_order_and_count() {
    let payer = [9u8; 32];
    let mut ixs = Vec::new();
    for i in 0..20u8 {
        ixs.push(Instruction { program_id: [i; 32], accounts: vec![], data: vec![i; 150] });
    }
    let batches = pack_instructions(1, &payer, ixs.clone());
    assert!(batches.len() > 1);
    let flat: Vec<Instruction> = batches.iter().flat_map(|b| b.iter().cloned()).collect();
    assert_eq!(flat, ixs);
}

#[test]
fn sealed_batches_stay_within_budget() {
    let payer = [9u8; 32];
    let num_signers: u32 = 1;
    let mut ixs = Vec::new();
    for i in 0..20u8 {
        ixs.push(Instruction { program_id: [i; 32], accounts: vec![], data: vec![i; 150] });
    }
    let batches = pack_instructions(num_signers, &payer, ixs);
    let max_payload = MAX_TX_SIZE - SIGNATURE_SIZE * num_signers as usize;
    for batch in &batches[..batches.len() - 1] {
        assert!(sdk_tx_len(batch, &payer) <= max_payload);
    }
}

#[test]
fn packing_twice_gives_identical_partitions() {
    let payer = [3u8; 32];
    let mut ixs = Vec::new();
    for i in 0..12u8 {
        ixs.push(Instruction { program_id: [i; 32], accounts: vec![], data: vec![i; 200] });
    }
    let first = pack_instructions(2, &payer, ixs.clone());
    let second = pack_instructions(2, &payer, ixs);
    assert_eq!(first, second);
}

#[test]
fn oversized_instruction_becomes_a_solo_batch() {
    let payer = [1u8; 32];
    let big = ix_with_data(1_300);
    let batches = pack_instructions(1, &payer, vec![big.clone()]);
    assert_eq!(batches.len(), 2);
    assert!(batches[0].is_empty());
    assert_eq!(batches[1], vec![big]);
}

#[test]
fn instructions_with_accounts_pack_like_the_wire_format_says() {
    let payer = [2u8; 32];
    let meta = AccountMeta { pubkey: [5u8; 32], is_signer: false, is_writable: true };
    let ix = Instruction { program_id: [7u8; 32], accounts: vec![meta; 8], data: vec![0u8; 300] };
    let ixs = vec![ix.clone(), ix.clone(), ix.clone(), ix];
    let batches = pack_instructions(1, &payer, ixs.clone());
    let flat: Vec<Instruction> = batches.iter().flat_map(|b| b.iter().cloned()).collect();
    assert_eq!(flat, ixs);
    let max_payload = MAX_TX_SIZE - SIGNATURE_SIZE;
    for batch in &batches[..batches.len() - 1] {
        assert!(sdk_tx_len(batch, &payer) <= max_payload);
    }
}

#[test]
fn checked_packing_matches_plain_packing_when_everything_fits() {
    let payer = [1u8; 32];
    let ixs = vec![ix_with_data(400), ix_with_data(400), ix_with_data(400)];
    let checked = pack_instructions_checked(1, &payer, ixs.clone()).unwrap();
    let plain = pack_instructions(1, &payer, ixs);
    assert_eq!(checked, plain);
}

#[test]
fn checked_packing_reports_the_first_oversized_position() {
    let payer = [1u8; 32];
    let ixs = vec![ix_with_data(100), ix_with_data(1_300), ix_with_data(100)];
    let err = pack_instructions_checked(1, &payer, ixs).unwrap_err();
    assert_eq!(err, PackingViolation { index: 1 });
}

#[test]
fn medium_priority_three_instruction_scenario() {
    // Priority Medium bids 200,000; three 400-byte instructions need two
    // batches for one signer, neither one nor three.
    assert_eq!(
        mule_cli::fees::get_priority_fee(&mule_cli::fees::Priority::Medium),
        200_000
    );
    let payer = [1u8; 32];
    let ixs = vec![ix_with_data(400), ix_with_data(400), ix_with_data(400)];
    let batches = pack_instructions(1, &payer, ixs.clone());
    assert_eq!(batches.len(), 2);
    let flat: Vec<Instruction> = batches.iter().flat_map(|b| b.iter().cloned()).collect();
    assert_eq!(flat, ixs);
}

#[test]
fn oversized_instruction_never_shares_a_batch() {
    let payer = [4u8; 32];
    let ixs = vec![ix_with_data(100), ix_with_data(1_300), ix_with_data(100)];
    let batches = pack_instructions(1, &payer, ixs.clone());
    let flat: Vec<Instruction> = batches.iter().flat_map(|b| b.iter().cloned()).collect();
    assert_eq!(flat, ixs);
    for batch in &batches {
        if batch.iter().any(|ix| ix.data.len() == 1_300) {
            assert_eq!(batch.len(), 1);
        }
    }
}

#[test]
fn greedy_packing_does_not_oversplit() {
    // Two 400-byte instructions fit one transaction, so greedy must not
    // split them: the minimal batch count is one.
    let payer = [1u8; 32];
    let ixs = vec![ix_with_data(400), ix_with_data(400)];
    let batches = pack_instructions(1, &payer, ixs.clone());
    assert_eq!(batches.len(), 1);
    assert_eq!(batches[0], ixs);
}
