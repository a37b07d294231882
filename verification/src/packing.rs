//! Greedy, order-preserving packing of instructions into the fewest
//! transaction batches that stay under the network's payload ceiling.

use vstd::prelude::*;

use solana_sdk::instruction::{AccountMeta as SdkAccountMeta, Instruction as SdkInstruction};
use solana_sdk::pubkey::Pubkey;
use solana_sdk::transaction::Transaction;

verus! {

/// Hard ceiling on a serialized transaction's size, a protocol constant (bytes).
pub const MAX_TX_SIZE: usize = 1232;

/// Serialized size of one ed25519 signature (bytes).
pub const SIGNATURE_SIZE: usize = 64;

/// One account an instruction touches: its address and access flags.
#[derive(Debug, Clone, PartialEq, Eq)]
pub struct AccountMeta {
    pub pubkey: [u8; 32],
    pub is_signer: bool,
    pub is_writable: bool,
}

/// An already-encoded unit of on-chain work. The packer never inspects it;
/// only its size contribution inside a serialized transaction matters.
#[derive(Debug, Clone, PartialEq, Eq)]
pub struct Instruction {
    pub program_id: [u8; 32],
    pub accounts: Vec<AccountMeta>,
    pub data: Vec<u8>,
}

/// Mathematical image of an `AccountMeta`.
pub ghost struct AccountMetaModel {
    pub pubkey: Seq<u8>,
    pub is_signer: bool,
    pub is_writable: bool,
}

/// Mathematical image of an `Instruction`.
pub ghost struct InstructionModel {
    pub program_id: Seq<u8>,
    pub accounts: Seq<AccountMetaModel>,
    pub data: Seq<u8>,
}

impl View for AccountMeta {
    type V = AccountMetaModel;

    open spec fn view(&self) -> AccountMetaModel {
        AccountMetaModel {
            pubkey: self.pubkey@,
            is_signer: self.is_signer,
            is_writable: self.is_writable,
        }
    }
}

impl View for Instruction {
    type V = InstructionModel;

    open spec fn view(&self) -> InstructionModel {
        InstructionModel {
            program_id: self.program_id@,
            accounts: self.accounts@.map_values(|a: AccountMeta| a@),
            data: self.data@,
        }
    }
}

/// The images of a run of instructions.
pub open spec fn instr_views(s: Seq<Instruction>) -> Seq<InstructionModel> {
    s.map_values(|ix: Instruction| ix@)
}

/// The images of a run of batches.
pub open spec fn batch_views(s: Seq<Vec<Instruction>>) -> Seq<Seq<InstructionModel>> {
    s.map_values(|b: Vec<Instruction>| instr_views(b@))
}

/// How many account references the instructions of `batch` carry in all,
/// multiplicity included.
pub open spec fn accounts_count(batch: Seq<InstructionModel>) -> int
    decreases batch.len(),
{
    if batch.len() == 0 {
        0
    } else {
        batch.first().accounts.len() + accounts_count(batch.drop_first())
    }
}

proof fn lemma_accounts_count_nonneg(batch: Seq<InstructionModel>)
    ensures
        accounts_count(batch) >= 0,
    decreases batch.len(),
{
    if batch.len() != 0 {
        lemma_accounts_count_nonneg(batch.drop_first());
    }
}

proof fn lemma_accounts_count_push(batch: Seq<InstructionModel>, ix: InstructionModel)
    ensures
        accounts_count(batch.push(ix)) == accounts_count(batch) + ix.accounts.len(),
    decreases batch.len(),
{
    if batch.len() == 0 {
        assert(batch.push(ix).drop_first() =~= batch);
    } else {
        assert(batch.push(ix).drop_first() =~= batch.drop_first().push(ix));
        lemma_accounts_count_push(batch.drop_first(), ix);
    }
}

proof fn lemma_accounts_count_singleton(ix: InstructionModel)
    ensures
        accounts_count(seq![ix]) == ix.accounts.len(),
{
    assert(Seq::<InstructionModel>::empty().push(ix) =~= seq![ix]);
    lemma_accounts_count_push(Seq::empty(), ix);
}

proof fn lemma_accounts_count_elem(batch: Seq<InstructionModel>, i: int)
    requires
        0 <= i < batch.len(),
    ensures
        batch[i].accounts.len() <= accounts_count(batch),
    decreases i,
{
    lemma_accounts_count_nonneg(batch.drop_first());
    if i == 0 {
        assert(batch[0] == batch.first());
    } else {
        lemma_accounts_count_elem(batch.drop_first(), i - 1);
        assert(batch.drop_first()[i - 1] == batch[i]);
    }
}

/// The wire format's hard limits on one transaction's content: account
/// indices are single bytes, so the payer, the program ids, and every
/// account reference must fit in 255 keys together, and each instruction's
/// data length must fit the format's two-byte length prefix. Past these the
/// encoder refuses the transaction outright instead of measuring it.
pub open spec fn spec_wire_fits(batch: Seq<InstructionModel>) -> bool {
    &&& 1 + batch.len() + accounts_count(batch) <= 255
    &&& forall|j: int| 0 <= j < batch.len() ==> (#[trigger] batch[j].data.len()) <= 65535
}

/// Serialized size of the unsigned transaction holding `batch` with `payer`
/// as fee payer. The wire encoding is fixed, so this is a function of both.
pub uninterp spec fn tx_len_of(batch: Seq<InstructionModel>, payer: Seq<u8>) -> nat;

/// Relies on `solana_sdk::transaction::Transaction::new_with_payer` and
/// `bincode::serialize`: the byte length of the encoded unsigned transaction,
/// a pure function of the instruction list and the payer address. Both
/// refuse content past the wire format's limits (more than 255 distinct keys,
/// or a length past the two-byte prefix), so such batches are excluded here;
/// `spec_wire_fits` keeps every count under those caps.
#[verifier::external_body]
fn serialized_tx_len(batch: &Vec<Instruction>, payer: &[u8; 32]) -> (n: usize)
    requires
        spec_wire_fits(instr_views(batch@)),
    ensures
        n as nat == tx_len_of(instr_views(batch@), payer@),
{
    let ixs: Vec<SdkInstruction> = batch.iter().map(|ix| SdkInstruction {
        program_id: Pubkey::new_from_array(ix.program_id),
        accounts: ix.accounts.iter().map(|a| SdkAccountMeta {
            pubkey: Pubkey::new_from_array(a.pubkey),
            is_signer: a.is_signer,
            is_writable: a.is_writable,
        }).collect(),
        data: ix.data.clone(),
    }).collect();
    let tx = Transaction::new_with_payer(&ixs, Some(&Pubkey::new_from_array(*payer)));
    bincode::serialize(&tx).unwrap().len()
}

/// Payload ceiling once signature space for `num_signers` is reserved.
pub open spec fn spec_max_payload(num_signers: u32) -> int {
    MAX_TX_SIZE as int - SIGNATURE_SIZE as int * num_signers as int
}

/// One greedy step at a time: grow the current batch while the trial
/// transaction stays within the ceiling; otherwise seal the current batch and
/// start a new one holding only the instruction that did not fit.
pub open spec fn pack_rec(
    sealed: Seq<Seq<InstructionModel>>,
    cur: Seq<InstructionModel>,
    rest: Seq<InstructionModel>,
    payer: Seq<u8>,
    max_payload: int,
) -> Seq<Seq<InstructionModel>>
    decreases rest.len(),
{
    if rest.len() == 0 {
        sealed.push(cur)
    } else {
        let trial = cur.push(rest.first());
        if tx_len_of(trial, payer) > max_payload {
            pack_rec(sealed.push(cur), seq![rest.first()], rest.drop_first(), payer, max_payload)
        } else {
            pack_rec(sealed, trial, rest.drop_first(), payer, max_payload)
        }
    }
}

/// The greedy packing of `ixs`, starting from an empty batch.
pub open spec fn spec_pack(
    ixs: Seq<InstructionModel>,
    payer: Seq<u8>,
    max_payload: int,
) -> Seq<Seq<InstructionModel>> {
    pack_rec(Seq::empty(), Seq::empty(), ixs, payer, max_payload)
}

/// Partitions `ixs`, in order, into batches whose trial transactions stay
/// within `MAX_TX_SIZE` minus the signature space for `num_signers`.
///
/// An instruction whose own transaction already exceeds the ceiling is not
/// rejected here: it comes back as an oversized batch of its own, to be
/// refused downstream — `pack_instructions_checked` closes that gap.
pub fn pack_instructions(num_signers: u32, payer: &[u8; 32], ixs: Vec<Instruction>) -> (batches:
    Vec<Vec<Instruction>>)
    requires
        SIGNATURE_SIZE as int * num_signers as int <= MAX_TX_SIZE as int,
        spec_wire_fits(instr_views(ixs@)),
    ensures
        batch_views(batches@) == spec_pack(
            instr_views(ixs@),
            payer@,
            spec_max_payload(num_signers),
        ),
{
    let max_payload: usize = MAX_TX_SIZE - SIGNATURE_SIZE * (num_signers as usize);
    let ghost all_ixs = instr_views(ixs@);
    let ghost mp = spec_max_payload(num_signers);
    let mut sealed: Vec<Vec<Instruction>> = Vec::new();
    let mut cur: Vec<Instruction> = Vec::new();
    let mut rest = ixs;
    proof {
        assert(batch_views(sealed@) =~= Seq::<Seq<InstructionModel>>::empty());
        assert(instr_views(cur@) =~= Seq::<InstructionModel>::empty());
        assert(instr_views(rest@) == all_ixs);
        assert(accounts_count(instr_views(cur@)) == 0);
    }
    while rest.len() > 0
        invariant
            max_payload as int == mp,
            pack_rec(batch_views(sealed@), instr_views(cur@), instr_views(rest@), payer@, mp)
                == spec_pack(all_ixs, payer@, mp),
            1 + instr_views(cur@).len() + instr_views(rest@).len() + accounts_count(
                instr_views(cur@),
            ) + accounts_count(instr_views(rest@)) <= 255,
            forall|j: int|
                0 <= j < instr_views(cur@).len() ==> (#[trigger] instr_views(
                    cur@,
                )[j].data.len()) <= 65535,
            forall|j: int|
                0 <= j < instr_views(rest@).len() ==> (#[trigger] instr_views(
                    rest@,
                )[j].data.len()) <= 65535,
        decreases rest@.len(),
    {
        let ghost old_sealed = batch_views(sealed@);
        let ghost old_cur = instr_views(cur@);
        let ghost old_rest = instr_views(rest@);
        let ix = rest.remove(0);
        proof {
            assert(instr_views(rest@) =~= old_rest.drop_first());
            assert(ix@ == old_rest.first());
            assert(accounts_count(old_rest) == ix@.accounts.len() + accounts_count(
                old_rest.drop_first(),
            ));
        }
        cur.push(ix);
        proof {
            assert(instr_views(cur@) =~= old_cur.push(ix@));
            lemma_accounts_count_push(old_cur, ix@);
            lemma_accounts_count_nonneg(instr_views(rest@));
            assert(old_rest[0].data.len() <= 65535);
            assert(spec_wire_fits(instr_views(cur@)));
        }
        let n = serialized_tx_len(&cur, payer);
        if n > max_payload {
            let evicted = cur.pop().unwrap();
            proof {
                assert(instr_views(cur@) =~= old_cur);
                assert(evicted@ == ix@);
            }
            sealed.push(cur);
            cur = Vec::new();
            cur.push(evicted);
            proof {
                assert(batch_views(sealed@) =~= old_sealed.push(old_cur));
                assert(instr_views(cur@) =~= seq![old_rest.first()]);
                lemma_accounts_count_singleton(old_rest.first());
                lemma_accounts_count_nonneg(old_cur);
                assert(pack_rec(old_sealed, old_cur, old_rest, payer@, mp) == pack_rec(
                    old_sealed.push(old_cur),
                    seq![old_rest.first()],
                    old_rest.drop_first(),
                    payer@,
                    mp,
                ));
            }
        } else {
            proof {
                assert(pack_rec(old_sealed, old_cur, old_rest, payer@, mp) == pack_rec(
                    old_sealed,
                    old_cur.push(old_rest.first()),
                    old_rest.drop_first(),
                    payer@,
                    mp,
                ));
            }
        }
    }
    let ghost last_sealed = batch_views(sealed@);
    let ghost last_cur = instr_views(cur@);
    sealed.push(cur);
    proof {
        assert(instr_views(rest@) =~= Seq::<InstructionModel>::empty());
        assert(batch_views(sealed@) =~= last_sealed.push(last_cur));
    }
    sealed
}

proof fn lemma_pack_rec_flatten(
    sealed: Seq<Seq<InstructionModel>>,
    cur: Seq<InstructionModel>,
    rest: Seq<InstructionModel>,
    payer: Seq<u8>,
    max_payload: int,
)
    ensures
        pack_rec(sealed, cur, rest, payer, max_payload).flatten() == sealed.flatten() + cur
            + rest,
    decreases rest.len(),
{
    if rest.len() == 0 {
        sealed.lemma_flatten_push(cur);
        assert(sealed.flatten() + cur + rest =~= sealed.flatten() + cur);
    } else {
        let trial = cur.push(rest.first());
        if tx_len_of(trial, payer) > max_payload {
            lemma_pack_rec_flatten(
                sealed.push(cur),
                seq![rest.first()],
                rest.drop_first(),
                payer,
                max_payload,
            );
            sealed.lemma_flatten_push(cur);
            assert(sealed.push(cur).flatten() + seq![rest.first()] + rest.drop_first()
                =~= sealed.flatten() + cur + rest);
        } else {
            lemma_pack_rec_flatten(sealed, trial, rest.drop_first(), payer, max_payload);
            assert(sealed.flatten() + trial + rest.drop_first() =~= sealed.flatten() + cur + rest);
        }
    }
}

/// Law: the batches of a packing concatenate back to the input — no
/// instruction is lost, duplicated, or reordered.
pub proof fn lemma_pack_preserves_instructions(
    ixs: Seq<InstructionModel>,
    payer: Seq<u8>,
    max_payload: int,
)
    ensures
        spec_pack(ixs, payer, max_payload).flatten() == ixs,
{
    lemma_pack_rec_flatten(Seq::empty(), Seq::empty(), ixs, payer, max_payload);
    assert(Seq::<Seq<InstructionModel>>::empty().flatten() + Seq::<InstructionModel>::empty()
        + ixs =~= ixs);
}

proof fn lemma_pack_rec_within_budget(
    sealed: Seq<Seq<InstructionModel>>,
    cur: Seq<InstructionModel>,
    rest: Seq<InstructionModel>,
    payer: Seq<u8>,
    max_payload: int,
)
    requires
        forall|j: int|
            0 <= j < sealed.len() ==> tx_len_of(#[trigger] sealed[j], payer) <= max_payload,
        cur.len() > 0 ==> tx_len_of(cur, payer) <= max_payload,
        forall|j: int|
            0 <= j < rest.len() ==> (#[trigger] tx_len_of(seq![rest[j]], payer)) <= max_payload,
    ensures
        forall|j: int|
            0 <= j < pack_rec(sealed, cur, rest, payer, max_payload).len() - 1 ==> tx_len_of(
                #[trigger] pack_rec(sealed, cur, rest, payer, max_payload)[j],
                payer,
            ) <= max_payload,
        cur.len() > 0 || rest.len() > 0 ==> forall|j: int|
            0 <= j < pack_rec(sealed, cur, rest, payer, max_payload).len() ==> tx_len_of(
                #[trigger] pack_rec(sealed, cur, rest, payer, max_payload)[j],
                payer,
            ) <= max_payload,
    decreases rest.len(),
{
    let result = pack_rec(sealed, cur, rest, payer, max_payload);
    if rest.len() == 0 {
        assert forall|j: int| 0 <= j < result.len() - 1 implies tx_len_of(result[j], payer)
            <= max_payload by {
            assert(result[j] == sealed[j]);
        }
        if cur.len() > 0 {
            assert(result[result.len() - 1] == cur);
        }
    } else {
        let trial = cur.push(rest.first());
        assert(tx_len_of(seq![rest[0]], payer) <= max_payload);
        if tx_len_of(trial, payer) > max_payload {
            if cur.len() == 0 {
                assert(trial =~= seq![rest[0]]);
                assert(false);
            }
            let sealed2 = sealed.push(cur);
            assert forall|j: int| 0 <= j < sealed2.len() implies tx_len_of(sealed2[j], payer)
                <= max_payload by {
                if j < sealed.len() {
                    assert(sealed2[j] == sealed[j]);
                } else {
                    assert(sealed2[j] == cur);
                }
            }
            assert forall|j: int| 0 <= j < rest.drop_first().len() implies (#[trigger] tx_len_of(
                seq![rest.drop_first()[j]],
                payer,
            )) <= max_payload by {
                assert(rest.drop_first()[j] == rest[j + 1]);
                assert(tx_len_of(seq![rest[j + 1]], payer) <= max_payload);
            }
            assert(seq![rest.first()].len() > 0 && tx_len_of(seq![rest.first()], payer)
                <= max_payload);
            lemma_pack_rec_within_budget(
                sealed2,
                seq![rest.first()],
                rest.drop_first(),
                payer,
                max_payload,
            );
            assert(result == pack_rec(
                sealed2,
                seq![rest.first()],
                rest.drop_first(),
                payer,
                max_payload,
            ));
        } else {
            assert forall|j: int| 0 <= j < rest.drop_first().len() implies (#[trigger] tx_len_of(
                seq![rest.drop_first()[j]],
                payer,
            )) <= max_payload by {
                assert(rest.drop_first()[j] == rest[j + 1]);
                assert(tx_len_of(seq![rest[j + 1]], payer) <= max_payload);
            }
            lemma_pack_rec_within_budget(sealed, trial, rest.drop_first(), payer, max_payload);
            assert(result == pack_rec(sealed, trial, rest.drop_first(), payer, max_payload));
        }
    }
}

/// Law: when every instruction fits in a transaction of its own, every batch
/// except possibly the last stays within the payload ceiling.
pub proof fn lemma_pack_batches_within_budget(
    ixs: Seq<InstructionModel>,
    payer: Seq<u8>,
    max_payload: int,
)
    requires
        forall|j: int|
            0 <= j < ixs.len() ==> (#[trigger] tx_len_of(seq![ixs[j]], payer)) <= max_payload,
    ensures
        forall|j: int|
            0 <= j < spec_pack(ixs, payer, max_payload).len() - 1 ==> tx_len_of(
                #[trigger] spec_pack(ixs, payer, max_payload)[j],
                payer,
            ) <= max_payload,
        ixs.len() > 0 ==> forall|j: int|
            0 <= j < spec_pack(ixs, payer, max_payload).len() ==> tx_len_of(
                #[trigger] spec_pack(ixs, payer, max_payload)[j],
                payer,
            ) <= max_payload,
{
    lemma_pack_rec_within_budget(Seq::empty(), Seq::empty(), ixs, payer, max_payload);
}

/// Law: packing is deterministic — any two batch runs obtained for the same
/// instructions, payer, and ceiling are identical.
pub proof fn lemma_pack_deterministic(
    batches1: Seq<Seq<InstructionModel>>,
    batches2: Seq<Seq<InstructionModel>>,
    ixs: Seq<InstructionModel>,
    payer: Seq<u8>,
    max_payload: int,
)
    requires
        batches1 == spec_pack(ixs, payer, max_payload),
        batches2 == spec_pack(ixs, payer, max_payload),
    ensures
        batches1 == batches2,
{
}

proof fn lemma_pack_rec_min_len(
    sealed: Seq<Seq<InstructionModel>>,
    cur: Seq<InstructionModel>,
    rest: Seq<InstructionModel>,
    payer: Seq<u8>,
    max_payload: int,
)
    ensures
        pack_rec(sealed, cur, rest, payer, max_payload).len() >= sealed.len() + 1,
    decreases rest.len(),
{
    if rest.len() == 0 {
    } else {
        let trial = cur.push(rest.first());
        if tx_len_of(trial, payer) > max_payload {
            lemma_pack_rec_min_len(
                sealed.push(cur),
                seq![rest.first()],
                rest.drop_first(),
                payer,
                max_payload,
            );
        } else {
            lemma_pack_rec_min_len(sealed, trial, rest.drop_first(), payer, max_payload);
        }
    }
}

proof fn lemma_pack_rec_one_batch(
    sealed: Seq<Seq<InstructionModel>>,
    cur: Seq<InstructionModel>,
    rest: Seq<InstructionModel>,
    payer: Seq<u8>,
    max_payload: int,
)
    requires
        rest.len() > 0,
        pack_rec(sealed, cur, rest, payer, max_payload).len() == sealed.len() + 1,
    ensures
        tx_len_of(cur + rest, payer) <= max_payload,
    decreases rest.len(),
{
    let trial = cur.push(rest.first());
    if tx_len_of(trial, payer) > max_payload {
        lemma_pack_rec_min_len(
            sealed.push(cur),
            seq![rest.first()],
            rest.drop_first(),
            payer,
            max_payload,
        );
        assert(false);
    } else {
        if rest.len() == 1 {
            assert(cur + rest =~= trial);
        } else {
            lemma_pack_rec_one_batch(sealed, trial, rest.drop_first(), payer, max_payload);
            assert(trial + rest.drop_first() =~= cur + rest);
        }
    }
}

/// Law: a non-empty instruction list whose single-transaction size exceeds
/// the ceiling is split into at least two batches.
pub proof fn lemma_pack_splits_when_total_too_large(
    ixs: Seq<InstructionModel>,
    payer: Seq<u8>,
    max_payload: int,
)
    requires
        ixs.len() > 0,
        tx_len_of(ixs, payer) > max_payload,
    ensures
        spec_pack(ixs, payer, max_payload).len() >= 2,
{
    lemma_pack_rec_min_len(Seq::empty(), Seq::empty(), ixs, payer, max_payload);
    if spec_pack(ixs, payer, max_payload).len() == 1 {
        lemma_pack_rec_one_batch(Seq::empty(), Seq::empty(), ixs, payer, max_payload);
        assert(Seq::<InstructionModel>::empty() + ixs =~= ixs);
        assert(false);
    }
}

/// Law: an empty instruction list packs to exactly one empty batch.
pub proof fn lemma_pack_empty(payer: Seq<u8>, max_payload: int)
    ensures
        spec_pack(Seq::<InstructionModel>::empty(), payer, max_payload) =~= seq![
            Seq::<InstructionModel>::empty(),
        ],
{
}

/// Law: a single instruction that alone exceeds the ceiling comes back as a
/// batch of its own, after the empty batch that was current when it failed
/// to fit.
pub proof fn lemma_pack_oversized_solo(ix: InstructionModel, payer: Seq<u8>, max_payload: int)
    requires
        tx_len_of(seq![ix], payer) > max_payload,
    ensures
        spec_pack(seq![ix], payer, max_payload) =~= seq![
            Seq::<InstructionModel>::empty(),
            seq![ix],
        ],
{
    let one = seq![ix];
    assert(one.first() == ix);
    assert(Seq::<InstructionModel>::empty().push(ix) =~= seq![ix]);
    assert(one.drop_first().len() == 0);
    assert(spec_pack(one, payer, max_payload) == pack_rec(
        Seq::<Seq<InstructionModel>>::empty().push(Seq::empty()),
        seq![ix],
        one.drop_first(),
        payer,
        max_payload,
    ));
}

/// Appending an instruction never shrinks the serialized transaction — a
/// monotonicity fact about the wire format that `tx_len_of` alone does not
/// carry; laws that need it take it as a hypothesis.
pub open spec fn spec_push_grows(payer: Seq<u8>) -> bool {
    forall|b: Seq<InstructionModel>, x: InstructionModel|
        tx_len_of(b, payer) <= #[trigger] tx_len_of(b.push(x), payer)
}

/// Dropping the front instruction never grows the serialized transaction —
/// the companion monotonicity hypothesis.
pub open spec fn spec_drop_first_shrinks(payer: Seq<u8>) -> bool {
    forall|b: Seq<InstructionModel>|
        b.len() > 0 ==> tx_len_of(b.drop_first(), payer) <= #[trigger] tx_len_of(b, payer)
}

proof fn lemma_take_len_le(b: Seq<InstructionModel>, i: int, payer: Seq<u8>)
    requires
        spec_push_grows(payer),
        0 <= i <= b.len(),
    ensures
        tx_len_of(b.take(i), payer) <= tx_len_of(b, payer),
    decreases b.len() - i,
{
    if i == b.len() {
        assert(b.take(i) =~= b);
    } else {
        assert(b.take(i + 1) =~= b.take(i).push(b[i]));
        assert(tx_len_of(b.take(i), payer) <= tx_len_of(b.take(i).push(b[i]), payer));
        lemma_take_len_le(b, i + 1, payer);
    }
}

proof fn lemma_skip_len_le(b: Seq<InstructionModel>, i: int, payer: Seq<u8>)
    requires
        spec_drop_first_shrinks(payer),
        0 <= i <= b.len(),
    ensures
        tx_len_of(b.skip(i), payer) <= tx_len_of(b, payer),
    decreases i,
{
    if i > 0 {
        lemma_skip_len_le(b, i - 1, payer);
        assert(b.skip(i - 1).len() > 0);
        assert(b.skip(i - 1).drop_first() =~= b.skip(i));
        assert(tx_len_of(b.skip(i - 1).drop_first(), payer) <= tx_len_of(b.skip(i - 1), payer));
    } else {
        assert(b.skip(0) =~= b);
    }
}

/// How many further instructions of `rest` the greedy step takes into the
/// open batch `cur` before the trial first exceeds the ceiling.
pub open spec fn spec_grow_len(
    cur: Seq<InstructionModel>,
    rest: Seq<InstructionModel>,
    payer: Seq<u8>,
    max_payload: int,
) -> int
    decreases rest.len(),
{
    if rest.len() == 0 {
        0
    } else if tx_len_of(cur.push(rest.first()), payer) > max_payload {
        0
    } else {
        1 + spec_grow_len(cur.push(rest.first()), rest.drop_first(), payer, max_payload)
    }
}

proof fn lemma_grow_len_props(
    cur: Seq<InstructionModel>,
    rest: Seq<InstructionModel>,
    payer: Seq<u8>,
    max_payload: int,
)
    ensures
        0 <= spec_grow_len(cur, rest, payer, max_payload) <= rest.len(),
        spec_grow_len(cur, rest, payer, max_payload) < rest.len() ==> tx_len_of(
            cur + rest.take(spec_grow_len(cur, rest, payer, max_payload) + 1),
            payer,
        ) > max_payload,
    decreases rest.len(),
{
    let u = spec_grow_len(cur, rest, payer, max_payload);
    if rest.len() == 0 {
    } else if tx_len_of(cur.push(rest.first()), payer) > max_payload {
        assert(cur + rest.take(1) =~= cur.push(rest.first()));
    } else {
        lemma_grow_len_props(cur.push(rest.first()), rest.drop_first(), payer, max_payload);
        let u2 = spec_grow_len(cur.push(rest.first()), rest.drop_first(), payer, max_payload);
        if u < rest.len() {
            assert(cur.push(rest.first()) + rest.drop_first().take(u2 + 1) =~= cur + rest.take(
                u + 1,
            ));
        }
    }
}

/// How many batches the greedy run emits from the open batch `cur` and the
/// remaining input `rest` (the final batch included, even when empty).
pub open spec fn spec_batch_count(
    cur: Seq<InstructionModel>,
    rest: Seq<InstructionModel>,
    payer: Seq<u8>,
    max_payload: int,
) -> int
    decreases rest.len(),
{
    if rest.len() == 0 {
        1
    } else if tx_len_of(cur.push(rest.first()), payer) > max_payload {
        1 + spec_batch_count(seq![rest.first()], rest.drop_first(), payer, max_payload)
    } else {
        spec_batch_count(cur.push(rest.first()), rest.drop_first(), payer, max_payload)
    }
}

proof fn lemma_pack_rec_batch_count(
    sealed: Seq<Seq<InstructionModel>>,
    cur: Seq<InstructionModel>,
    rest: Seq<InstructionModel>,
    payer: Seq<u8>,
    max_payload: int,
)
    ensures
        pack_rec(sealed, cur, rest, payer, max_payload).len() == sealed.len() + spec_batch_count(
            cur,
            rest,
            payer,
            max_payload,
        ),
    decreases rest.len(),
{
    if rest.len() == 0 {
    } else {
        let trial = cur.push(rest.first());
        if tx_len_of(trial, payer) > max_payload {
            lemma_pack_rec_batch_count(
                sealed.push(cur),
                seq![rest.first()],
                rest.drop_first(),
                payer,
                max_payload,
            );
        } else {
            lemma_pack_rec_batch_count(sealed, trial, rest.drop_first(), payer, max_payload);
        }
    }
}

proof fn lemma_batch_count_step(
    cur: Seq<InstructionModel>,
    rest: Seq<InstructionModel>,
    payer: Seq<u8>,
    max_payload: int,
)
    requires
        rest.len() > 0,
        spec_grow_len(cur, rest, payer, max_payload) < rest.len() ==> tx_len_of(
            seq![rest[spec_grow_len(cur, rest, payer, max_payload)]],
            payer,
        ) <= max_payload,
    ensures
        spec_grow_len(cur, rest, payer, max_payload) == rest.len() ==> spec_batch_count(
            cur,
            rest,
            payer,
            max_payload,
        ) == 1,
        spec_grow_len(cur, rest, payer, max_payload) < rest.len() ==> spec_batch_count(
            cur,
            rest,
            payer,
            max_payload,
        ) == 1 + spec_batch_count(
            Seq::empty(),
            rest.skip(spec_grow_len(cur, rest, payer, max_payload)),
            payer,
            max_payload,
        ),
    decreases rest.len(),
{
    let u = spec_grow_len(cur, rest, payer, max_payload);
    let trial = cur.push(rest.first());
    if tx_len_of(trial, payer) > max_payload {
        // u == 0: the open batch is sealed at once; the fresh batch opens
        // with rest's head, exactly as a fresh greedy run on rest would.
        assert(u == 0);
        assert(rest.skip(0) =~= rest);
        assert(Seq::<InstructionModel>::empty().push(rest.first()) =~= seq![rest.first()]);
        assert(tx_len_of(seq![rest[0]], payer) <= max_payload);
        assert(spec_batch_count(Seq::empty(), rest, payer, max_payload) == spec_batch_count(
            seq![rest.first()],
            rest.drop_first(),
            payer,
            max_payload,
        ));
    } else {
        let u2 = spec_grow_len(trial, rest.drop_first(), payer, max_payload);
        lemma_grow_len_props(trial, rest.drop_first(), payer, max_payload);
        assert(u == 1 + u2);
        assert(spec_batch_count(cur, rest, payer, max_payload) == spec_batch_count(
            trial,
            rest.drop_first(),
            payer,
            max_payload,
        ));
        if rest.len() == 1 {
            assert(u2 == 0);
            assert(spec_batch_count(trial, rest.drop_first(), payer, max_payload) == 1);
        } else {
            if u < rest.len() {
                assert(rest.drop_first()[u - 1] == rest[u]);
            }
            lemma_batch_count_step(trial, rest.drop_first(), payer, max_payload);
            if u < rest.len() {
                assert(rest.drop_first().skip(u - 1) =~= rest.skip(u));
            } else {
                assert(u2 == rest.drop_first().len());
            }
        }
    }
}
/// The partition `parts` with its first `d` instructions cut away: fully
/// covered batches fall off, a partially covered one keeps its tail.
pub open spec fn spec_cut(parts: Seq<Seq<InstructionModel>>, d: int) -> Seq<
    Seq<InstructionModel>,
>
    decreases parts.len(),
{
    if parts.len() == 0 {
        parts
    } else if d >= parts.first().len() {
        spec_cut(parts.drop_first(), d - parts.first().len())
    } else if d > 0 {
        seq![parts.first().skip(d)] + parts.drop_first()
    } else {
        parts
    }
}

#[verifier::rlimit(50)]
proof fn lemma_cut_props(
    parts: Seq<Seq<InstructionModel>>,
    d: int,
    payer: Seq<u8>,
    max_payload: int,
)
    requires
        spec_drop_first_shrinks(payer),
        0 <= d <= parts.flatten().len(),
        forall|j: int|
            0 <= j < parts.len() ==> (#[trigger] parts[j]).len() > 0 && tx_len_of(
                parts[j],
                payer,
            ) <= max_payload,
    ensures
        spec_cut(parts, d).flatten() == parts.flatten().skip(d),
        spec_cut(parts, d).len() <= parts.len(),
        forall|j: int|
            0 <= j < spec_cut(parts, d).len() ==> (#[trigger] spec_cut(parts, d)[j]).len() > 0
                && tx_len_of(spec_cut(parts, d)[j], payer) <= max_payload,
    decreases parts.len(),
{
    if parts.len() == 0 {
        assert(parts.flatten() =~= Seq::<InstructionModel>::empty());
        assert(parts.flatten().skip(d) =~= parts.flatten());
    } else {
        let c1 = parts.first();
        assert(parts.flatten() == c1 + parts.drop_first().flatten());
        assert(forall|j: int|
            0 <= j < parts.drop_first().len() ==> #[trigger] parts.drop_first()[j] == parts[j
                + 1]);
        if d >= c1.len() {
            lemma_cut_props(parts.drop_first(), d - c1.len(), payer, max_payload);
            assert((c1 + parts.drop_first().flatten()).skip(d) =~= parts.drop_first()
                .flatten().skip(d - c1.len()));
        } else if d > 0 {
            let cut = seq![c1.skip(d)] + parts.drop_first();
            assert(cut.first() == c1.skip(d));
            assert(cut.drop_first() =~= parts.drop_first());
            assert(cut.flatten() == c1.skip(d) + parts.drop_first().flatten());
            assert(c1.skip(d) + parts.drop_first().flatten() =~= (c1
                + parts.drop_first().flatten()).skip(d));
            lemma_skip_len_le(c1, d, payer);
            assert(forall|j: int| 1 <= j < cut.len() ==> #[trigger] cut[j] == parts[j]);
        } else {
            assert(parts.flatten().skip(0) =~= parts.flatten());
        }
    }
}

proof fn lemma_batch_count_dominated(
    ixs: Seq<InstructionModel>,
    payer: Seq<u8>,
    max_payload: int,
    other: Seq<Seq<InstructionModel>>,
)
    requires
        spec_push_grows(payer),
        spec_drop_first_shrinks(payer),
        ixs.len() > 0,
        forall|j: int|
            0 <= j < ixs.len() ==> (#[trigger] tx_len_of(seq![ixs[j]], payer)) <= max_payload,
        other.flatten() == ixs,
        forall|j: int|
            0 <= j < other.len() ==> (#[trigger] other[j]).len() > 0 && tx_len_of(
                other[j],
                payer,
            ) <= max_payload,
    ensures
        spec_batch_count(Seq::empty(), ixs, payer, max_payload) <= other.len(),
    decreases other.len(),
{
    assert(other.len() > 0) by {
        if other.len() == 0 {
            assert(other.flatten() =~= Seq::<InstructionModel>::empty());
        }
    }
    let c1 = other.first();
    assert(other.flatten() == c1 + other.drop_first().flatten());
    assert(c1 =~= ixs.take(c1.len() as int));
    let u = spec_grow_len(Seq::empty(), ixs, payer, max_payload);
    lemma_grow_len_props(Seq::empty(), ixs, payer, max_payload);
    // The greedy first batch reaches at least as far as `c1`: a shorter stop
    // would mean some prefix of the feasible `c1` already exceeds the ceiling.
    assert(u >= c1.len()) by {
        if u < c1.len() {
            assert(Seq::<InstructionModel>::empty() + ixs.take(u + 1) =~= ixs.take(u + 1));
            assert(tx_len_of(ixs.take(u + 1), payer) > max_payload);
            assert(ixs.take(u + 1) =~= c1.take(u + 1));
            lemma_take_len_le(c1, u + 1, payer);
        }
    }
    assert(u < ixs.len() ==> tx_len_of(seq![ixs[u]], payer) <= max_payload);
    lemma_batch_count_step(Seq::empty(), ixs, payer, max_payload);
    if u < ixs.len() {
        let rest2 = ixs.skip(u);
        let other2 = spec_cut(other.drop_first(), u - c1.len());
        assert(forall|j: int|
            0 <= j < other.drop_first().len() ==> #[trigger] other.drop_first()[j] == other[j
                + 1]);
        assert(other.drop_first().flatten() =~= ixs.skip(c1.len() as int));
        lemma_cut_props(other.drop_first(), u - c1.len(), payer, max_payload);
        assert(ixs.skip(c1.len() as int).skip(u - c1.len()) =~= rest2);
        assert(rest2.len() > 0);
        assert(forall|j: int|
            0 <= j < rest2.len() ==> (#[trigger] tx_len_of(seq![rest2[j]], payer))
                <= max_payload) by {
            assert(forall|j: int| 0 <= j < rest2.len() ==> #[trigger] rest2[j] == ixs[j + u]);
        }
        lemma_batch_count_dominated(rest2, payer, max_payload, other2);
    }
}

/// Law: the greedy packing is minimal. Granted the wire format's
/// monotonicity — appending an instruction never shrinks the serialized
/// transaction, dropping the front never grows it — no order-preserving
/// split of a non-empty instruction list into non-empty batches that each
/// fit the ceiling uses fewer batches than the greedy one, when every
/// instruction fits alone.
pub proof fn lemma_pack_minimal(
    ixs: Seq<InstructionModel>,
    payer: Seq<u8>,
    max_payload: int,
    other: Seq<Seq<InstructionModel>>,
)
    requires
        spec_push_grows(payer),
        spec_drop_first_shrinks(payer),
        ixs.len() > 0,
        forall|j: int|
            0 <= j < ixs.len() ==> (#[trigger] tx_len_of(seq![ixs[j]], payer)) <= max_payload,
        other.flatten() == ixs,
        forall|j: int|
            0 <= j < other.len() ==> (#[trigger] other[j]).len() > 0 && tx_len_of(
                other[j],
                payer,
            ) <= max_payload,
    ensures
        spec_pack(ixs, payer, max_payload).len() <= other.len(),
{
    lemma_pack_rec_batch_count(Seq::empty(), Seq::empty(), ixs, payer, max_payload);
    lemma_batch_count_dominated(ixs, payer, max_payload, other);
}

proof fn lemma_singleton_len_le(b: Seq<InstructionModel>, i: int, payer: Seq<u8>)
    requires
        spec_push_grows(payer),
        spec_drop_first_shrinks(payer),
        0 <= i < b.len(),
    ensures
        tx_len_of(seq![b[i]], payer) <= tx_len_of(b, payer),
{
    lemma_skip_len_le(b, i, payer);
    lemma_take_len_le(b.skip(i), 1, payer);
    assert(b.skip(i).take(1) =~= seq![b[i]]);
}

proof fn lemma_pack_rec_solo(
    sealed: Seq<Seq<InstructionModel>>,
    cur: Seq<InstructionModel>,
    rest: Seq<InstructionModel>,
    payer: Seq<u8>,
    max_payload: int,
)
    requires
        spec_push_grows(payer),
        spec_drop_first_shrinks(payer),
        forall|j: int, t: int|
            0 <= j < sealed.len() && sealed[j].len() > 1 && 0 <= t < sealed[j].len()
                ==> (#[trigger] tx_len_of(seq![sealed[j][t]], payer)) <= max_payload,
        cur.len() > 1 ==> forall|t: int|
            0 <= t < cur.len() ==> (#[trigger] tx_len_of(seq![cur[t]], payer)) <= max_payload,
    ensures
        forall|j: int, t: int|
            0 <= j < pack_rec(sealed, cur, rest, payer, max_payload).len() && pack_rec(
                sealed,
                cur,
                rest,
                payer,
                max_payload,
            )[j].len() > 1 && 0 <= t < pack_rec(sealed, cur, rest, payer, max_payload)[j].len()
                ==> (#[trigger] tx_len_of(
                seq![pack_rec(sealed, cur, rest, payer, max_payload)[j][t]],
                payer,
            )) <= max_payload,
    decreases rest.len(),
{
    let result = pack_rec(sealed, cur, rest, payer, max_payload);
    if rest.len() == 0 {
        assert forall|j: int, t: int|
            0 <= j < result.len() && result[j].len() > 1 && 0 <= t
                < result[j].len() implies (#[trigger] tx_len_of(seq![result[j][t]], payer))
            <= max_payload by {
            if j < sealed.len() {
                assert(result[j] == sealed[j]);
            } else {
                assert(result[j] == cur);
            }
        }
    } else {
        let trial = cur.push(rest.first());
        if tx_len_of(trial, payer) > max_payload {
            let sealed2 = sealed.push(cur);
            assert forall|j: int, t: int|
                0 <= j < sealed2.len() && sealed2[j].len() > 1 && 0 <= t
                    < sealed2[j].len() implies (#[trigger] tx_len_of(seq![sealed2[j][t]], payer))
                <= max_payload by {
                if j < sealed.len() {
                    assert(sealed2[j] == sealed[j]);
                } else {
                    assert(sealed2[j] == cur);
                }
            }
            lemma_pack_rec_solo(
                sealed2,
                seq![rest.first()],
                rest.drop_first(),
                payer,
                max_payload,
            );
            assert(result == pack_rec(
                sealed2,
                seq![rest.first()],
                rest.drop_first(),
                payer,
                max_payload,
            ));
        } else {
            assert forall|t: int|
                0 <= t < trial.len() implies (#[trigger] tx_len_of(seq![trial[t]], payer))
                <= max_payload by {
                lemma_singleton_len_le(trial, t, payer);
            }
            lemma_pack_rec_solo(sealed, trial, rest.drop_first(), payer, max_payload);
            assert(result == pack_rec(sealed, trial, rest.drop_first(), payer, max_payload));
        }
    }
}

/// Law: granted the wire format's monotonicity, an instruction whose own
/// transaction exceeds the ceiling never shares a batch — every batch of two
/// or more instructions holds only instructions that fit alone. So an
/// oversized instruction of any list, not just a singleton one, comes back
/// as a solo batch.
pub proof fn lemma_pack_never_mixes_oversized(
    ixs: Seq<InstructionModel>,
    payer: Seq<u8>,
    max_payload: int,
)
    requires
        spec_push_grows(payer),
        spec_drop_first_shrinks(payer),
    ensures
        forall|j: int, t: int|
            0 <= j < spec_pack(ixs, payer, max_payload).len() && spec_pack(
                ixs,
                payer,
                max_payload,
            )[j].len() > 1 && 0 <= t < spec_pack(ixs, payer, max_payload)[j].len() ==> (
            #[trigger] tx_len_of(seq![spec_pack(ixs, payer, max_payload)[j][t]], payer))
                <= max_payload,
{
    lemma_pack_rec_solo(Seq::empty(), Seq::empty(), ixs, payer, max_payload);
}

/// Error for an instruction whose own transaction already exceeds the
/// payload ceiling, reported before any packing is attempted.
#[derive(Debug, Clone, PartialEq, Eq, Structural)]
pub struct PackingViolation {
    pub index: usize,
}

/// Packs like `pack_instructions`, but validates each instruction against
/// the budget first and fails fast with the offending position instead of
/// deferring an oversized solo batch to the network.
pub fn pack_instructions_checked(num_signers: u32, payer: &[u8; 32], ixs: Vec<Instruction>) -> (r:
    Result<Vec<Vec<Instruction>>, PackingViolation>)
    requires
        SIGNATURE_SIZE as int * num_signers as int <= MAX_TX_SIZE as int,
        spec_wire_fits(instr_views(ixs@)),
    ensures
        match r {
            Ok(batches) => {
                &&& forall|j: int|
                    0 <= j < ixs@.len() ==> (#[trigger] tx_len_of(
                        seq![instr_views(ixs@)[j]],
                        payer@,
                    )) <= spec_max_payload(num_signers)
                &&& batch_views(batches@) == spec_pack(
                    instr_views(ixs@),
                    payer@,
                    spec_max_payload(num_signers),
                )
                &&& forall|j: int|
                    0 <= j < batch_views(batches@).len() - 1 ==> tx_len_of(
                        #[trigger] batch_views(batches@)[j],
                        payer@,
                    ) <= spec_max_payload(num_signers)
            },
            Err(v) => {
                &&& v.index < ixs@.len()
                &&& tx_len_of(seq![instr_views(ixs@)[v.index as int]], payer@)
                    > spec_max_payload(num_signers)
                &&& forall|j: int|
                    0 <= j < v.index ==> (#[trigger] tx_len_of(seq![instr_views(ixs@)[j]], payer@))
                        <= spec_max_payload(num_signers)
            },
        },
{
    let max_payload: usize = MAX_TX_SIZE - SIGNATURE_SIZE * (num_signers as usize);
    let ghost all_ixs = instr_views(ixs@);
    let ghost mp = spec_max_payload(num_signers);
    let mut checked: Vec<Instruction> = Vec::new();
    let mut probe: Vec<Instruction> = Vec::new();
    let mut rest = ixs;
    proof {
        assert(instr_views(rest@) =~= all_ixs.skip(0));
        assert(instr_views(checked@) =~= all_ixs.take(0));
    }
    while rest.len() > 0
        invariant
            max_payload as int == mp,
            mp == spec_max_payload(num_signers),
            all_ixs == instr_views(ixs@),
            spec_wire_fits(all_ixs),
            probe@.len() == 0,
            checked@.len() + rest@.len() == all_ixs.len(),
            instr_views(checked@) == all_ixs.take(checked@.len() as int),
            instr_views(rest@) == all_ixs.skip(checked@.len() as int),
            forall|j: int|
                0 <= j < checked@.len() ==> (#[trigger] tx_len_of(seq![all_ixs[j]], payer@)) <= mp,
        decreases rest@.len(),
    {
        let ghost k = checked@.len() as int;
        let ix = rest.remove(0);
        proof {
            assert(instr_views(rest@) =~= all_ixs.skip(k).drop_first());
            assert(all_ixs.skip(k).drop_first() =~= all_ixs.skip(k + 1));
            assert(ix@ == all_ixs.skip(k).first());
            assert(all_ixs.skip(k).first() == all_ixs[k]);
        }
        probe.push(ix);
        proof {
            assert(instr_views(probe@) =~= seq![all_ixs[k]]);
            lemma_accounts_count_singleton(all_ixs[k]);
            lemma_accounts_count_elem(all_ixs, k);
            assert(all_ixs[k].data.len() <= 65535);
            assert(spec_wire_fits(instr_views(probe@)));
        }
        let n = serialized_tx_len(&probe, payer);
        let ix_back = probe.pop().unwrap();
        if n > max_payload {
            proof {
                assert(k < all_ixs.len());
                assert(tx_len_of(seq![all_ixs[k]], payer@) > mp);
                assert(all_ixs == instr_views(ixs@));
            }
            return Err(PackingViolation { index: checked.len() });
        }
        checked.push(ix_back);
        proof {
            assert(probe@.len() == 0);
            assert(ix_back@ == all_ixs[k]);
            assert(instr_views(checked@) =~= all_ixs.take(k + 1));
        }
    }
    proof {
        assert(instr_views(checked@) =~= all_ixs);
        lemma_pack_batches_within_budget(all_ixs, payer@, mp);
    }
    let batches = pack_instructions(num_signers, payer, checked);
    Ok(batches)
}

} // verus!
