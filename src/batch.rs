use vstd::prelude::*;

use crate::error::WalletError;

verus! {

/// The plaintexts of the entries of a batch that decrypted, in batch order.
pub open spec fn successes(batch: Seq<Result<String, WalletError>>) -> Seq<String>
    decreases batch.len(),
{
    if batch.len() == 0 {
        Seq::empty()
    } else {
        match batch.last() {
            Ok(p) => successes(batch.drop_last()).push(p),
            Err(_) => successes(batch.drop_last()),
        }
    }
}

/// The positions of the entries of a batch that failed, in increasing order.
pub open spec fn failures(batch: Seq<Result<String, WalletError>>) -> Seq<usize>
    decreases batch.len(),
{
    if batch.len() == 0 {
        Seq::empty()
    } else {
        match batch.last() {
            Ok(_) => failures(batch.drop_last()),
            Err(_) => failures(batch.drop_last()).push((batch.len() - 1) as usize),
        }
    }
}

/// The outcome of decrypting a batch entry by entry: what decrypted, and
/// which entries did not.
pub struct BatchOutcome {
    pub plaintexts: Vec<String>,
    pub failed: Vec<usize>,
}

/// Separates the per-entry outcomes of a batch: one failed entry does not
/// void the others.
pub fn split_batch(batch: &Vec<Result<String, WalletError>>) -> (r: BatchOutcome)
    ensures
        r.plaintexts@ == successes(batch@),
        r.failed@ == failures(batch@),
{
    let ghost b = batch@;
    let mut plaintexts: Vec<String> = Vec::new();
    let mut failed: Vec<usize> = Vec::new();
    let mut i: usize = 0;
    while i < batch.len()
        invariant
            b == batch@,
            i <= b.len(),
            plaintexts@ == successes(b.subrange(0, i as int)),
            failed@ == failures(b.subrange(0, i as int)),
        decreases b.len() - i,
    {
        proof {
            let pre = b.subrange(0, i + 1);
            assert(pre.drop_last() =~= b.subrange(0, i as int));
        }
        match &batch[i] {
            Ok(p) => plaintexts.push(p.clone()),
            Err(_) => failed.push(i),
        }
        i = i + 1;
    }
    assert(b.subrange(0, b.len() as int) =~= b);
    BatchOutcome { plaintexts, failed }
}

/// Every entry of a batch is accounted for exactly once: as a plaintext or as
/// a failure.
pub proof fn lemma_batch_accounts_for_all(batch: Seq<Result<String, WalletError>>)
    ensures
        successes(batch).len() + failures(batch).len() == batch.len(),
    decreases batch.len(),
{
    if batch.len() > 0 {
        lemma_batch_accounts_for_all(batch.drop_last());
    }
}

} // verus!
