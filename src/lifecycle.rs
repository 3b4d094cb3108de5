use vstd::prelude::*;

use crate::error::WalletError;
use crate::txid::{parse_tx_slate_id, uuid_of};

verus! {

/// Where a local transaction stands in its negotiation.
#[derive(Clone, Copy, Debug, PartialEq, Eq, Structural)]
pub enum TxStatus {
    Created,
    Sent,
    Received,
    Posted,
    Cancelled,
}

/// Posted and cancelled transactions admit no further transition.
pub open spec fn is_terminal(st: TxStatus) -> bool {
    st == TxStatus::Posted || st == TxStatus::Cancelled
}

/// A local transaction record, keyed by its slate identifier.
#[derive(Debug)]
pub struct Transaction {
    pub id: u128,
    pub status: TxStatus,
    pub amount: u64,
    pub fee: u64,
    pub is_self_send: bool,
    /// The current slate of the negotiation, as the wire carries it.
    pub slate: String,
}

/// A decrypted slate that a counterparty sent back.
#[derive(Debug)]
pub struct ReceivedSlate {
    /// The transaction identifier embedded in the slate.
    pub tx_id: u128,
    /// How many participants have contributed to the slate.
    pub participants: u8,
    pub slate: String,
}

/// The participant count that a completed response carries: one for a
/// payment to oneself, two otherwise.
pub open spec fn expected_participants(t: Transaction) -> u8 {
    if t.is_self_send { 1 } else { 2 }
}

pub open spec fn ids_unique(s: Seq<Transaction>) -> bool {
    forall|i: int, j: int| 0 <= i < s.len() && 0 <= j < s.len() && s[i].id == s[j].id ==> i == j
}

pub open spec fn contains_id(s: Seq<Transaction>, id: u128) -> bool {
    exists|i: int| 0 <= i < s.len() && s[i].id == id
}

/// The position of the record with identifier `id` (meaningful when `contains_id`).
pub open spec fn index_of(s: Seq<Transaction>, id: u128) -> int {
    choose|i: int| 0 <= i < s.len() && s[i].id == id
}

pub open spec fn record_of(s: Seq<Transaction>, id: u128) -> Transaction {
    s[index_of(s, id)]
}

pub open spec fn with_status(t: Transaction, st: TxStatus) -> Transaction {
    Transaction {
        id: t.id,
        status: st,
        amount: t.amount,
        fee: t.fee,
        is_self_send: t.is_self_send,
        slate: t.slate,
    }
}

/// The records after the one with identifier `id` has moved to `st`.
pub open spec fn set_status(s: Seq<Transaction>, id: u128, st: TxStatus) -> Seq<Transaction> {
    s.update(index_of(s, id), with_status(record_of(s, id), st))
}

/// Creating a transaction: the outputs must cover amount and fee, and the
/// identifier must be new.
pub open spec fn create_result(
    s: Seq<Transaction>,
    id: u128,
    amount: u64,
    fee: u64,
    is_self_send: bool,
    spendable: u64,
    slate: String,
) -> (Seq<Transaction>, Result<TxStatus, WalletError>) {
    if amount + fee > spendable {
        (s, Err(WalletError::InsufficientFunds))
    } else if contains_id(s, id) {
        (s, Err(WalletError::StateConflict))
    } else {
        (
            s.push(
                Transaction {
                    id,
                    status: TxStatus::Created,
                    amount,
                    fee,
                    is_self_send,
                    slate,
                },
            ),
            Ok(TxStatus::Created),
        )
    }
}

/// Handing the slate to the counterparty: only a created transaction is sent.
pub open spec fn send_result(s: Seq<Transaction>, id: u128) -> (
    Seq<Transaction>,
    Result<TxStatus, WalletError>,
) {
    if !contains_id(s, id) {
        (s, Err(WalletError::UnknownTransaction))
    } else if record_of(s, id).status != TxStatus::Created {
        (s, Err(WalletError::InvalidState))
    } else {
        (set_status(s, id, TxStatus::Sent), Ok(TxStatus::Sent))
    }
}

/// Applying a counterparty's slate. A transaction that already received it
/// stays as it is, so that a slate delivered twice is harmless.
pub open spec fn apply_result(s: Seq<Transaction>, rs: ReceivedSlate) -> (
    Seq<Transaction>,
    Result<TxStatus, WalletError>,
) {
    if !contains_id(s, rs.tx_id) {
        (s, Err(WalletError::UnknownTransaction))
    } else if is_terminal(record_of(s, rs.tx_id).status) {
        (s, Err(WalletError::StaleSlate))
    } else if rs.participants != expected_participants(record_of(s, rs.tx_id)) {
        (s, Err(WalletError::StateConflict))
    } else if record_of(s, rs.tx_id).status == TxStatus::Received {
        (s, Ok(TxStatus::Received))
    } else {
        let t = record_of(s, rs.tx_id);
        (
            s.update(
                index_of(s, rs.tx_id),
                Transaction {
                    id: t.id,
                    status: TxStatus::Received,
                    amount: t.amount,
                    fee: t.fee,
                    is_self_send: t.is_self_send,
                    slate: rs.slate,
                },
            ),
            Ok(TxStatus::Received),
        )
    }
}

/// Posting: only a fully signed (received) transaction is posted.
pub open spec fn post_result(s: Seq<Transaction>, id: u128) -> (
    Seq<Transaction>,
    Result<TxStatus, WalletError>,
) {
    if !contains_id(s, id) {
        (s, Err(WalletError::UnknownTransaction))
    } else if record_of(s, id).status != TxStatus::Received {
        (s, Err(WalletError::InvalidState))
    } else {
        (set_status(s, id, TxStatus::Posted), Ok(TxStatus::Posted))
    }
}

/// Cancelling: any transaction that is not yet posted or cancelled.
pub open spec fn cancel_result(s: Seq<Transaction>, id: u128) -> (
    Seq<Transaction>,
    Result<TxStatus, WalletError>,
) {
    if !contains_id(s, id) {
        (s, Err(WalletError::UnknownTransaction))
    } else if is_terminal(record_of(s, id).status) {
        (s, Err(WalletError::InvalidState))
    } else {
        (set_status(s, id, TxStatus::Cancelled), Ok(TxStatus::Cancelled))
    }
}

pub open spec fn listed(include_cancelled: bool) -> spec_fn(Transaction) -> bool {
    |t: Transaction| include_cancelled || t.status != TxStatus::Cancelled
}

/// With unique identifiers, the record at `i` is the one that `index_of` finds.
pub proof fn lemma_index_of(s: Seq<Transaction>, i: int)
    requires
        ids_unique(s),
        0 <= i < s.len(),
    ensures
        contains_id(s, s[i].id),
        index_of(s, s[i].id) == i,
{
    let id = s[i].id;
    assert(s[i].id == id);
    let j = index_of(s, id);
    assert(0 <= j < s.len() && s[j].id == id);
}

/// Replacing a record by one with the same identifier keeps identifiers unique,
/// and the replacement is then the record found under that identifier.
pub proof fn lemma_update_same_id(s: Seq<Transaction>, i: int, t: Transaction)
    requires
        ids_unique(s),
        0 <= i < s.len(),
        t.id == s[i].id,
    ensures
        ids_unique(s.update(i, t)),
        contains_id(s.update(i, t), t.id),
        record_of(s.update(i, t), t.id) == t,
        forall|id: u128| contains_id(s.update(i, t), id) == contains_id(s, id),
{
    let s2 = s.update(i, t);
    assert forall|a: int, b: int|
        0 <= a < s2.len() && 0 <= b < s2.len() && s2[a].id == s2[b].id implies a == b by {
        assert(s[a].id == s2[a].id && s[b].id == s2[b].id);
    }
    lemma_index_of(s2, i);
    assert forall|id: u128| contains_id(s2, id) == contains_id(s, id) by {
        if contains_id(s, id) {
            let k = choose|k: int| 0 <= k < s.len() && s[k].id == id;
            assert(s2[k].id == id);
        }
        if contains_id(s2, id) {
            let k = choose|k: int| 0 <= k < s2.len() && s2[k].id == id;
            assert(s[k].id == id);
        }
    }
}

/// Moving a known record to a new status keeps identifiers unique and leaves
/// that record in the new status.
pub proof fn lemma_set_status(s: Seq<Transaction>, id: u128, st: TxStatus)
    requires
        ids_unique(s),
        contains_id(s, id),
    ensures
        ids_unique(set_status(s, id, st)),
        contains_id(set_status(s, id, st), id),
        record_of(set_status(s, id, st), id) == with_status(record_of(s, id), st),
        forall|other: u128| contains_id(set_status(s, id, st), other) == contains_id(s, other),
{
    let k = index_of(s, id);
    lemma_update_same_id(s, k, with_status(record_of(s, id), st));
}

/// Delivering the same slate a second time changes nothing: the records and
/// the answer are those of the first delivery.
pub proof fn lemma_apply_idempotent(s: Seq<Transaction>, rs: ReceivedSlate)
    requires
        ids_unique(s),
    ensures
        apply_result(apply_result(s, rs).0, rs) == apply_result(s, rs),
{
    let (s1, r1) = apply_result(s, rs);
    if contains_id(s, rs.tx_id) && !is_terminal(record_of(s, rs.tx_id).status)
        && rs.participants == expected_participants(record_of(s, rs.tx_id))
        && record_of(s, rs.tx_id).status != TxStatus::Received {
        let t = record_of(s, rs.tx_id);
        let k = index_of(s, rs.tx_id);
        let t2 = Transaction {
            id: t.id,
            status: TxStatus::Received,
            amount: t.amount,
            fee: t.fee,
            is_self_send: t.is_self_send,
            slate: rs.slate,
        };
        lemma_update_same_id(s, k, t2);
        assert(record_of(s1, rs.tx_id) == t2);
    }
}

/// The transitions of a local transaction: from `Created` it may be sent,
/// from `Created` or `Sent` a matching slate makes it `Received`, only a
/// `Received` one may be posted, and any one that is neither posted nor
/// cancelled may be cancelled. Each of these succeeds.
pub proof fn lemma_allowed_transitions(s: Seq<Transaction>, id: u128)
    requires
        ids_unique(s),
        contains_id(s, id),
    ensures
        record_of(s, id).status == TxStatus::Created ==> send_result(s, id) == (
            set_status(s, id, TxStatus::Sent),
            Ok::<TxStatus, WalletError>(TxStatus::Sent),
        ),
        record_of(s, id).status == TxStatus::Received ==> post_result(s, id) == (
            set_status(s, id, TxStatus::Posted),
            Ok::<TxStatus, WalletError>(TxStatus::Posted),
        ),
        !is_terminal(record_of(s, id).status) ==> cancel_result(s, id) == (
            set_status(s, id, TxStatus::Cancelled),
            Ok::<TxStatus, WalletError>(TxStatus::Cancelled),
        ),
        forall|rs: ReceivedSlate|
            rs.tx_id == id && (record_of(s, id).status == TxStatus::Created || record_of(s, id).status
                == TxStatus::Sent) && rs.participants == expected_participants(record_of(s, id))
                ==> #[trigger] apply_result(s, rs).1 == Ok::<TxStatus, WalletError>(TxStatus::Received),
{
}

/// Posting a transaction that is not `Received` fails with `InvalidState`, and
/// cancelling a posted one does too; neither changes the records.
pub proof fn lemma_refused_transitions(s: Seq<Transaction>, id: u128)
    requires
        ids_unique(s),
        contains_id(s, id),
    ensures
        record_of(s, id).status != TxStatus::Received ==> post_result(s, id) == (
            s,
            Err::<TxStatus, WalletError>(WalletError::InvalidState),
        ),
        record_of(s, id).status == TxStatus::Posted ==> cancel_result(s, id) == (
            s,
            Err::<TxStatus, WalletError>(WalletError::InvalidState),
        ),
{
}

/// A posted or cancelled transaction stays as it is: every transition on it
/// fails and leaves the records unchanged.
pub proof fn lemma_terminal_is_final(s: Seq<Transaction>, id: u128, rs: ReceivedSlate)
    requires
        ids_unique(s),
        contains_id(s, id),
        is_terminal(record_of(s, id).status),
        rs.tx_id == id,
    ensures
        send_result(s, id) == (s, Err::<TxStatus, WalletError>(WalletError::InvalidState)),
        post_result(s, id) == (s, Err::<TxStatus, WalletError>(WalletError::InvalidState)),
        cancel_result(s, id) == (s, Err::<TxStatus, WalletError>(WalletError::InvalidState)),
        apply_result(s, rs) == (s, Err::<TxStatus, WalletError>(WalletError::StaleSlate)),
{
}

/// Each transition succeeds at most once: repeating a successful send, post
/// or cancel on the records it produced fails.
pub proof fn lemma_transitions_once(s: Seq<Transaction>, id: u128)
    requires
        ids_unique(s),
    ensures
        send_result(s, id).1 is Ok ==> send_result(send_result(s, id).0, id) == (
            send_result(s, id).0,
            Err::<TxStatus, WalletError>(WalletError::InvalidState),
        ),
        post_result(s, id).1 is Ok ==> post_result(post_result(s, id).0, id) == (
            post_result(s, id).0,
            Err::<TxStatus, WalletError>(WalletError::InvalidState),
        ),
        cancel_result(s, id).1 is Ok ==> cancel_result(cancel_result(s, id).0, id) == (
            cancel_result(s, id).0,
            Err::<TxStatus, WalletError>(WalletError::InvalidState),
        ),
{
    if contains_id(s, id) {
        lemma_set_status(s, id, TxStatus::Sent);
        lemma_set_status(s, id, TxStatus::Posted);
        lemma_set_status(s, id, TxStatus::Cancelled);
    }
}

impl Transaction {
    /// A field-by-field copy of the record.
    pub fn snapshot(&self) -> (r: Transaction)
        ensures
            r == *self,
    {
        Transaction {
            id: self.id,
            status: self.status,
            amount: self.amount,
            fee: self.fee,
            is_self_send: self.is_self_send,
            slate: self.slate.clone(),
        }
    }
}

/// The local transactions of one wallet, in order of creation.
pub struct TxStore {
    txs: Vec<Transaction>,
}

impl View for TxStore {
    type V = Seq<Transaction>;

    closed spec fn view(&self) -> Seq<Transaction> {
        self.txs@
    }
}

impl TxStore {
    pub open spec fn well_formed(&self) -> bool {
        ids_unique(self@)
    }

    pub fn new() -> (r: TxStore)
        ensures
            r@ == Seq::<Transaction>::empty(),
            r.well_formed(),
    {
        TxStore { txs: Vec::new() }
    }

    /// The position of the record with identifier `id`, if there is one.
    fn find(&self, id: u128) -> (r: Option<usize>)
        requires
            self.well_formed(),
        ensures
            r is None <==> !contains_id(self@, id),
            r matches Some(i) ==> i < self@.len() && i == index_of(self@, id),
    {
        let mut i: usize = 0;
        while i < self.txs.len()
            invariant
                self.well_formed(),
                i <= self.txs@.len(),
                forall|k: int| 0 <= k < i ==> self.txs@[k].id != id,
            decreases self.txs@.len() - i,
        {
            if self.txs[i].id == id {
                proof {
                    lemma_index_of(self@, i as int);
                }
                return Some(i);
            }
            i = i + 1;
        }
        None
    }

    /// The status of the transaction with identifier `id`.
    pub fn status(&self, id: u128) -> (r: Option<TxStatus>)
        requires
            self.well_formed(),
        ensures
            r == (if contains_id(self@, id) {
                Some(record_of(self@, id).status)
            } else {
                None
            }),
    {
        match self.find(id) {
            Some(i) => Some(self.txs[i].status),
            None => None,
        }
    }

    /// Moves the record at `i` to status `st`.
    fn move_to(&mut self, i: usize, st: TxStatus)
        requires
            i < old(self)@.len(),
        ensures
            final(self)@ == old(self)@.update(i as int, with_status(old(self)@[i as int], st)),
    {
        self.txs[i].status = st;
        assert(self@ =~= old(self)@.update(i as int, with_status(old(self)@[i as int], st)));
    }

    /// Records a new transaction with the sender's slate, in status `Created`.
    /// `id` is the freshly allocated slate identifier; `spendable` is what the
    /// wallet's outputs can cover.
    pub fn create(
        &mut self,
        id: u128,
        amount: u64,
        fee: u64,
        is_self_send: bool,
        spendable: u64,
        slate: String,
    ) -> (r: Result<TxStatus, WalletError>)
        requires
            old(self).well_formed(),
        ensures
            final(self).well_formed(),
            (final(self)@, r) == create_result(old(self)@, id, amount, fee, is_self_send, spendable, slate),
            r is Ok ==> contains_id(final(self)@, id) && record_of(final(self)@, id) == final(self)@.last(),
    {
        if amount as u128 + fee as u128 > spendable as u128 {
            return Err(WalletError::InsufficientFunds);
        }
        if self.find(id).is_some() {
            return Err(WalletError::StateConflict);
        }
        let t = Transaction { id, status: TxStatus::Created, amount, fee, is_self_send, slate };
        self.txs.push(t);
        proof {
            let s = self@;
            assert forall|i: int, j: int|
                0 <= i < s.len() && 0 <= j < s.len() && s[i].id == s[j].id implies i == j by {
                if i < s.len() - 1 && j == s.len() - 1 {
                    assert(old(self)@[i].id == id);
                }
                if j < s.len() - 1 && i == s.len() - 1 {
                    assert(old(self)@[j].id == id);
                }
            }
            lemma_index_of(s, s.len() - 1);
        }
        Ok(TxStatus::Created)
    }

    /// Marks a created transaction as sent to its counterparty.
    pub fn mark_sent(&mut self, id: u128) -> (r: Result<TxStatus, WalletError>)
        requires
            old(self).well_formed(),
        ensures
            final(self).well_formed(),
            (final(self)@, r) == send_result(old(self)@, id),
            r is Ok ==> record_of(final(self)@, id) == with_status(record_of(old(self)@, id), TxStatus::Sent),
            forall|other: u128| contains_id(final(self)@, other) == contains_id(old(self)@, other),
    {
        match self.find(id) {
            None => Err(WalletError::UnknownTransaction),
            Some(i) => {
                if self.txs[i].status != TxStatus::Created {
                    Err(WalletError::InvalidState)
                } else {
                    self.move_to(i, TxStatus::Sent);
                    proof {
                        lemma_set_status(old(self)@, id, TxStatus::Sent);
                    }
                    Ok(TxStatus::Sent)
                }
            },
        }
    }

    /// Applies a counterparty's slate to the matching local transaction.
    pub fn apply_received(&mut self, rs: ReceivedSlate) -> (r: Result<TxStatus, WalletError>)
        requires
            old(self).well_formed(),
        ensures
            final(self).well_formed(),
            (final(self)@, r) == apply_result(old(self)@, rs),
            r is Ok ==> record_of(final(self)@, rs.tx_id).status == TxStatus::Received,
            forall|other: u128| contains_id(final(self)@, other) == contains_id(old(self)@, other),
    {
        let ghost rs0 = rs;
        match self.find(rs.tx_id) {
            None => Err(WalletError::UnknownTransaction),
            Some(i) => {
                let st = self.txs[i].status;
                let expected: u8 = if self.txs[i].is_self_send { 1 } else { 2 };
                if st == TxStatus::Posted || st == TxStatus::Cancelled {
                    Err(WalletError::StaleSlate)
                } else if rs.participants != expected {
                    Err(WalletError::StateConflict)
                } else if st == TxStatus::Received {
                    Ok(TxStatus::Received)
                } else {
                    self.txs[i].status = TxStatus::Received;
                    self.txs[i].slate = rs.slate;
                    proof {
                        let t = old(self)@[i as int];
                        assert(self@ =~= old(self)@.update(
                            i as int,
                            Transaction {
                                id: t.id,
                                status: TxStatus::Received,
                                amount: t.amount,
                                fee: t.fee,
                                is_self_send: t.is_self_send,
                                slate: rs0.slate,
                            },
                        ));
                        lemma_update_same_id(old(self)@, i as int, self@[i as int]);
                    }
                    Ok(TxStatus::Received)
                }
            },
        }
    }

    /// Posts a fully signed transaction; this cannot be undone.
    pub fn post(&mut self, id: u128) -> (r: Result<TxStatus, WalletError>)
        requires
            old(self).well_formed(),
        ensures
            final(self).well_formed(),
            (final(self)@, r) == post_result(old(self)@, id),
            r is Ok ==> record_of(final(self)@, id) == with_status(record_of(old(self)@, id), TxStatus::Posted),
            forall|other: u128| contains_id(final(self)@, other) == contains_id(old(self)@, other),
    {
        match self.find(id) {
            None => Err(WalletError::UnknownTransaction),
            Some(i) => {
                if self.txs[i].status != TxStatus::Received {
                    Err(WalletError::InvalidState)
                } else {
                    self.move_to(i, TxStatus::Posted);
                    proof {
                        lemma_set_status(old(self)@, id, TxStatus::Posted);
                    }
                    Ok(TxStatus::Posted)
                }
            },
        }
    }

    /// Cancels a transaction that is neither posted nor cancelled.
    pub fn cancel(&mut self, id: u128) -> (r: Result<TxStatus, WalletError>)
        requires
            old(self).well_formed(),
        ensures
            final(self).well_formed(),
            (final(self)@, r) == cancel_result(old(self)@, id),
            r is Ok ==> record_of(final(self)@, id) == with_status(record_of(old(self)@, id), TxStatus::Cancelled),
            forall|other: u128| contains_id(final(self)@, other) == contains_id(old(self)@, other),
    {
        match self.find(id) {
            None => Err(WalletError::UnknownTransaction),
            Some(i) => {
                let st = self.txs[i].status;
                if st == TxStatus::Posted || st == TxStatus::Cancelled {
                    Err(WalletError::InvalidState)
                } else {
                    self.move_to(i, TxStatus::Cancelled);
                    proof {
                        lemma_set_status(old(self)@, id, TxStatus::Cancelled);
                    }
                    Ok(TxStatus::Cancelled)
                }
            },
        }
    }

    /// The transactions in order of creation, cancelled ones only when asked for.
    pub fn list(&self, include_cancelled: bool) -> (r: Vec<Transaction>)
        ensures
            r@ == self@.filter(listed(include_cancelled)),
    {
        let mut out: Vec<Transaction> = Vec::new();
        let mut i: usize = 0;
        while i < self.txs.len()
            invariant
                i <= self.txs@.len(),
                out@ == self@.subrange(0, i as int).filter(listed(include_cancelled)),
            decreases self.txs@.len() - i,
        {
            proof {
                reveal(Seq::filter);
                assert(self@.subrange(0, i + 1).drop_last() =~= self@.subrange(0, i as int));
            }
            if include_cancelled || self.txs[i].status != TxStatus::Cancelled {
                out.push(self.txs[i].snapshot());
            }
            i = i + 1;
        }
        assert(self@.subrange(0, self@.len() as int) =~= self@);
        out
    }

    /// Posts the transaction whose identifier `tx_slate_id` spells.
    pub fn post_tx(&mut self, tx_slate_id: &str) -> (r: Result<TxStatus, WalletError>)
        requires
            old(self).well_formed(),
        ensures
            final(self).well_formed(),
            uuid_of(tx_slate_id@) is None ==> final(self)@ == old(self)@ && r == Err::<TxStatus, WalletError>(WalletError::Generic),
            uuid_of(tx_slate_id@) matches Some(id) ==> (final(self)@, r) == post_result(old(self)@, id),
    {
        match parse_tx_slate_id(tx_slate_id) {
            Ok(id) => self.post(id),
            Err(e) => Err(e),
        }
    }

    /// Cancels the transaction whose identifier `tx_slate_id` spells.
    pub fn cancel_tx(&mut self, tx_slate_id: &str) -> (r: Result<TxStatus, WalletError>)
        requires
            old(self).well_formed(),
        ensures
            final(self).well_formed(),
            uuid_of(tx_slate_id@) is None ==> final(self)@ == old(self)@ && r == Err::<TxStatus, WalletError>(WalletError::Generic),
            uuid_of(tx_slate_id@) matches Some(id) ==> (final(self)@, r) == cancel_result(old(self)@, id),
    {
        match parse_tx_slate_id(tx_slate_id) {
            Ok(id) => self.cancel(id),
            Err(e) => Err(e),
        }
    }
}

} // verus!
