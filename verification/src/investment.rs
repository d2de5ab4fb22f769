//! Investments: who holds how many tokens of which property, and the
//! transactions that got them there.
use crate::ids::issue;
use crate::ids::level;
use crate::ids::IdAllocator;
use crate::ordered::listing;
use crate::records::can_store;
use crate::records::fetch;
use crate::records::fits;
use crate::records::lemma_fits_by_shape;
use crate::records::records;
use crate::records::scan_where;
use crate::records::store;
use crate::records::views;
use crate::records::Record;
use crate::row::Row;
use crate::row::RowView;
use crate::stable::table_new;
use crate::stable::table_open;
use crate::stable::table_rows;
use crate::stable::MemoryPool;
use crate::stable::Table;
use crate::sums::checked_sum;
use crate::sums::sum_by;
use crate::text::bytes_text;
use crate::text::copy_bytes;
use crate::text::same_bytes;
use crate::text::text_bytes;
use vstd::pervasive::unreached;
use vstd::prelude::*;
use vstd::utf8::decode_utf8;
use vstd::utf8::decode_utf8_encode_utf8;
use vstd::utf8::encode_utf8;
use vstd::utf8::encode_utf8_decode_utf8;
use vstd::utf8::encode_utf8_valid_utf8;
use vstd::utf8::valid_utf8;

verus! {

/// The sequence of investment identifiers.
pub const INVESTMENT_SEQUENCE: u8 = 0;

/// The sequence of transaction identifiers.
pub const TRANSACTION_SEQUENCE: u8 = 1;

/// One holding of tokens of a property by a user. Amounts are in cents.
#[derive(Clone, Debug, PartialEq, Eq)]
pub struct Investment {
    pub id: u64,
    /// The identity of the holder, as raw bytes.
    pub user_id: Vec<u8>,
    pub property_id: u64,
    pub tokens_owned: u64,
    pub investment_amount: u64,
    pub current_value: u64,
    pub purchase_date: u64,
    pub is_active: bool,
}

/// The mathematical value of an [`Investment`].
pub struct InvestmentView {
    pub id: u64,
    pub user_id: Seq<u8>,
    pub property_id: u64,
    pub tokens_owned: u64,
    pub investment_amount: u64,
    pub current_value: u64,
    pub purchase_date: u64,
    pub is_active: bool,
}

impl View for Investment {
    type V = InvestmentView;

    open spec fn view(&self) -> InvestmentView {
        InvestmentView {
            id: self.id,
            user_id: self.user_id@,
            property_id: self.property_id,
            tokens_owned: self.tokens_owned,
            investment_amount: self.investment_amount,
            current_value: self.current_value,
            purchase_date: self.purchase_date,
            is_active: self.is_active,
        }
    }
}

impl Record for Investment {
    open spec fn row_of(v: InvestmentView) -> RowView {
        RowView {
            nums: seq![
                v.id,
                v.property_id,
                v.tokens_owned,
                v.investment_amount,
                v.current_value,
                v.purchase_date,
                if v.is_active { 1u64 } else { 0u64 },
            ],
            blobs: seq![v.user_id],
        }
    }

    open spec fn of_row(row: RowView) -> Option<InvestmentView> {
        if row.nums.len() == 7 && row.blobs.len() == 1 && row.nums[6] <= 1 {
            Some(
                InvestmentView {
                    id: row.nums[0],
                    user_id: row.blobs[0],
                    property_id: row.nums[1],
                    tokens_owned: row.nums[2],
                    investment_amount: row.nums[3],
                    current_value: row.nums[4],
                    purchase_date: row.nums[5],
                    is_active: row.nums[6] == 1,
                },
            )
        } else {
            None
        }
    }

    fn to_row(&self) -> (row: Row) {
        let mut nums: Vec<u64> = Vec::new();
        nums.push(self.id);
        nums.push(self.property_id);
        nums.push(self.tokens_owned);
        nums.push(self.investment_amount);
        nums.push(self.current_value);
        nums.push(self.purchase_date);
        nums.push(if self.is_active { 1 } else { 0 });
        let mut blobs: Vec<Vec<u8>> = Vec::new();
        blobs.push(copy_bytes(&self.user_id));
        let row = Row { nums, blobs };
        proof {
            assert(row@.nums =~= Self::row_of(self@).nums);
            assert(row@.blobs =~= Self::row_of(self@).blobs);
        }
        row
    }

    fn from_row(row: &Row) -> (r: Option<Investment>) {
        if row.nums.len() != 7 || row.blobs.len() != 1 || row.nums[6] > 1 {
            return None;
        }
        assert(row@.blobs[0] == row.blobs@[0]@);
        Some(
            Investment {
                id: row.nums[0],
                user_id: copy_bytes(&row.blobs[0]),
                property_id: row.nums[1],
                tokens_owned: row.nums[2],
                investment_amount: row.nums[3],
                current_value: row.nums[4],
                purchase_date: row.nums[5],
                is_active: row.nums[6] == 1,
            },
        )
    }

    proof fn lemma_of_row_canonical(row: RowView) {
        let back = Self::row_of(Self::of_row(row).unwrap());
        assert(back.nums =~= row.nums);
        assert(back.blobs =~= row.blobs);
    }
}

/// One movement of money or tokens: a purchase, a dividend or a sale.
#[derive(Clone, Debug, PartialEq, Eq)]
pub struct Transaction {
    pub id: u64,
    /// The identity of the user, as raw bytes.
    pub user_id: Vec<u8>,
    pub property_id: u64,
    /// "purchase", "dividend" or "sale".
    pub transaction_type: String,
    pub amount: u64,
    pub tokens: u64,
    pub timestamp: u64,
}

/// The mathematical value of a [`Transaction`].
pub struct TransactionView {
    pub id: u64,
    pub user_id: Seq<u8>,
    pub property_id: u64,
    pub transaction_type: Seq<char>,
    pub amount: u64,
    pub tokens: u64,
    pub timestamp: u64,
}

impl View for Transaction {
    type V = TransactionView;

    open spec fn view(&self) -> TransactionView {
        TransactionView {
            id: self.id,
            user_id: self.user_id@,
            property_id: self.property_id,
            transaction_type: self.transaction_type@,
            amount: self.amount,
            tokens: self.tokens,
            timestamp: self.timestamp,
        }
    }
}

impl Record for Transaction {
    open spec fn row_of(v: TransactionView) -> RowView {
        RowView {
            nums: seq![v.id, v.property_id, v.amount, v.tokens, v.timestamp],
            blobs: seq![v.user_id, encode_utf8(v.transaction_type)],
        }
    }

    open spec fn of_row(row: RowView) -> Option<TransactionView> {
        if row.nums.len() == 5 && row.blobs.len() == 2 && valid_utf8(row.blobs[1]) {
            Some(
                TransactionView {
                    id: row.nums[0],
                    user_id: row.blobs[0],
                    property_id: row.nums[1],
                    transaction_type: decode_utf8(row.blobs[1]),
                    amount: row.nums[2],
                    tokens: row.nums[3],
                    timestamp: row.nums[4],
                },
            )
        } else {
            None
        }
    }

    fn to_row(&self) -> (row: Row) {
        let mut nums: Vec<u64> = Vec::new();
        nums.push(self.id);
        nums.push(self.property_id);
        nums.push(self.amount);
        nums.push(self.tokens);
        nums.push(self.timestamp);
        let mut blobs: Vec<Vec<u8>> = Vec::new();
        blobs.push(copy_bytes(&self.user_id));
        blobs.push(text_bytes(&self.transaction_type));
        let row = Row { nums, blobs };
        proof {
            assert(row@.nums =~= Self::row_of(self@).nums);
            assert(row@.blobs =~= Self::row_of(self@).blobs);
            encode_utf8_valid_utf8(self.transaction_type@);
            encode_utf8_decode_utf8(self.transaction_type@);
        }
        row
    }

    fn from_row(row: &Row) -> (r: Option<Transaction>) {
        if row.nums.len() != 5 || row.blobs.len() != 2 {
            return None;
        }
        assert(forall|i: int| 0 <= i < 2 ==> row@.blobs[i] == #[trigger] row.blobs@[i]@);
        let transaction_type = match bytes_text(&row.blobs[1]) {
            Some(t) => t,
            None => { return None; },
        };
        Some(
            Transaction {
                id: row.nums[0],
                user_id: copy_bytes(&row.blobs[0]),
                property_id: row.nums[1],
                transaction_type,
                amount: row.nums[2],
                tokens: row.nums[3],
                timestamp: row.nums[4],
            },
        )
    }

    proof fn lemma_of_row_canonical(row: RowView) {
        let back = Self::row_of(Self::of_row(row).unwrap());
        decode_utf8_encode_utf8(row.blobs[1]);
        assert(back.nums =~= row.nums);
        assert(back.blobs =~= row.blobs);
    }
}

/// What a caller supplies to buy tokens of a property.
#[derive(Clone, Copy, Debug)]
pub struct CreateInvestmentRequest {
    pub property_id: u64,
    pub tokens_to_purchase: u64,
    pub investment_amount: u64,
}

/// What a user's active investments add up to. Amounts are in cents.
#[derive(Clone, Copy, Debug, PartialEq, Eq, Structural)]
pub struct PortfolioSummary {
    pub total_value: u64,
    pub total_investments: u64,
    pub active_properties: u64,
    pub total_returns: u64,
}

/// Why an operation on the investments was refused.
#[derive(Clone, Copy, Debug, PartialEq, Eq, Structural)]
pub enum InvestmentError {
    /// The investment that was named does not exist.
    NotFound,
}

impl InvestmentError {
    /// What is said to the caller of a refused operation.
    pub open spec fn text(self) -> Seq<char> {
        "Investment not found"@
    }

    /// What is said to the caller of a refused operation.
    pub fn message(&self) -> (s: String)
        ensures
            s@ == self.text(),
    {
        "Investment not found".to_owned()
    }
}

/// The active investments of one user.
pub open spec fn held_by(user_id: Seq<u8>) -> spec_fn(InvestmentView) -> bool {
    |i: InvestmentView| i.user_id == user_id && i.is_active
}

/// The active investments in one property.
pub open spec fn held_in(property_id: u64) -> spec_fn(InvestmentView) -> bool {
    |i: InvestmentView| i.property_id == property_id && i.is_active
}

/// The active investments of one user in one property.
pub open spec fn held_by_in(user_id: Seq<u8>, property_id: u64) -> spec_fn(InvestmentView) -> bool {
    |i: InvestmentView| i.user_id == user_id && i.property_id == property_id && i.is_active
}

/// The transactions of one user.
pub open spec fn moved_by(user_id: Seq<u8>) -> spec_fn(TransactionView) -> bool {
    |t: TransactionView| t.user_id == user_id
}

/// The tokens of an investment.
pub open spec fn tokens_of() -> spec_fn(InvestmentView) -> u64 {
    |i: InvestmentView| i.tokens_owned
}

/// The current value of an investment.
pub open spec fn value_of() -> spec_fn(InvestmentView) -> u64 {
    |i: InvestmentView| i.current_value
}

/// The amount that was paid for an investment.
pub open spec fn amount_of() -> spec_fn(InvestmentView) -> u64 {
    |i: InvestmentView| i.investment_amount
}

/// The investment that a request creates under the identifier `id`, for the
/// user `user_id` at the time `now`: active, and worth what was paid for it.
pub open spec fn new_investment(
    id: u64,
    req: CreateInvestmentRequest,
    user_id: Seq<u8>,
    now: u64,
) -> InvestmentView {
    InvestmentView {
        id,
        user_id,
        property_id: req.property_id,
        tokens_owned: req.tokens_to_purchase,
        investment_amount: req.investment_amount,
        current_value: req.investment_amount,
        purchase_date: now,
        is_active: true,
    }
}

/// The transaction that is recorded under the identifier `id`.
pub open spec fn new_transaction(
    id: u64,
    user_id: Seq<u8>,
    property_id: u64,
    transaction_type: Seq<char>,
    amount: u64,
    tokens: u64,
    now: u64,
) -> TransactionView {
    TransactionView { id, user_id, property_id, transaction_type, amount, tokens, timestamp: now }
}

/// The summary of a list of investments: the sum of their current values,
/// the sum of what was paid for them, how many they are, and by how much the
/// first sum exceeds the second, if it does.
pub open spec fn summary_of(held: Seq<InvestmentView>) -> PortfolioSummary {
    let total_value = sum_by(held, value_of());
    let total_investments = sum_by(held, amount_of());
    PortfolioSummary {
        total_value: total_value as u64,
        total_investments: total_investments as u64,
        active_properties: held.len() as u64,
        total_returns: if total_value > total_investments {
            (total_value - total_investments) as u64
        } else {
            0
        },
    }
}

/// The durable state of the investments: the identifier counters, the
/// investments and the transactions.
pub struct InvestmentStore {
    ids: IdAllocator,
    investments: Table,
    transactions: Table,
}

impl InvestmentStore {
    /// The identifier counters, by sequence.
    pub closed spec fn counters(&self) -> Map<u8, u64> {
        self.ids@
    }

    /// The stored investments, by identifier.
    pub closed spec fn investments(&self) -> Map<u64, InvestmentView> {
        records::<Investment>(table_rows(self.investments))
    }

    /// The stored transactions, by identifier.
    pub closed spec fn transactions(&self) -> Map<u64, TransactionView> {
        records::<Transaction>(table_rows(self.transactions))
    }

    /// Every record is stored under its own identifier, and that identifier
    /// was issued by the allocator.
    pub open spec fn wf(&self) -> bool {
        &&& forall|k: u64| #[trigger]
            self.investments().contains_key(k) ==> self.investments()[k].id == k && 1 <= k
                <= level(self.counters(), INVESTMENT_SEQUENCE)
        &&& forall|k: u64| #[trigger]
            self.transactions().contains_key(k) ==> self.transactions()[k].id == k && 1 <= k
                <= level(self.counters(), TRANSACTION_SEQUENCE)
    }

    /// The identifier that the next investment gets.
    pub open spec fn next_investment_id(&self) -> u64 {
        (level(self.counters(), INVESTMENT_SEQUENCE) + 1) as u64
    }

    /// The identifier that the next transaction gets.
    pub open spec fn next_transaction_id(&self) -> u64 {
        (level(self.counters(), TRANSACTION_SEQUENCE) + 1) as u64
    }

    /// The store can take a transaction of the given user and kind: the next
    /// transaction identifier is within `u64`, and the transaction is short
    /// enough to be stored.
    pub open spec fn room_for_transaction(
        &self,
        user_id: Seq<u8>,
        transaction_type: Seq<char>,
    ) -> bool {
        &&& level(self.counters(), TRANSACTION_SEQUENCE) < u64::MAX
        &&& fits::<Transaction>(
            new_transaction(self.next_transaction_id(), user_id, 0, transaction_type, 0, 0, 0),
        )
    }

    /// The store can take an investment of the given user: the next
    /// investment identifier is within `u64`, the investment is short enough
    /// to be stored, and there is room for the transaction that records the
    /// purchase.
    pub open spec fn room_for_investment(&self, user_id: Seq<u8>) -> bool {
        &&& level(self.counters(), INVESTMENT_SEQUENCE) < u64::MAX
        &&& fits::<Investment>(
            new_investment(
                self.next_investment_id(),
                CreateInvestmentRequest {
                    property_id: 0,
                    tokens_to_purchase: 0,
                    investment_amount: 0,
                },
                user_id,
                0,
            ),
        )
        &&& self.room_for_transaction(user_id, "purchase"@)
    }

    /// The active investments of a user, in ascending order of their
    /// identifiers.
    pub open spec fn holdings_of(&self, user_id: Seq<u8>) -> Seq<InvestmentView> {
        listing(self.investments()).filter(held_by(user_id))
    }

    /// A fresh store in the regions 0, 1 and 2 of the pool, whatever they
    /// held: no investment, no transaction, both counters at zero.
    pub fn new(pool: MemoryPool) -> (s: InvestmentStore)
        ensures
            s.wf(),
            s.investments() == Map::<u64, InvestmentView>::empty(),
            s.transactions() == Map::<u64, TransactionView>::empty(),
            level(s.counters(), INVESTMENT_SEQUENCE) == 0,
            level(s.counters(), TRANSACTION_SEQUENCE) == 0,
    {
        let (counters, investments, transactions) = pool.split(0, 1, 2);
        let mut ids = IdAllocator::new(counters);
        ids.start(INVESTMENT_SEQUENCE);
        ids.start(TRANSACTION_SEQUENCE);
        let s = InvestmentStore {
            ids,
            investments: table_new(investments),
            transactions: table_new(transactions),
        };
        assert(s.investments() =~= Map::<u64, InvestmentView>::empty());
        assert(s.transactions() =~= Map::<u64, TransactionView>::empty());
        s
    }

    /// The store that the regions 0, 1 and 2 of the pool hold: whatever is
    /// stored there, and empty tables where nothing is.
    pub fn open(pool: MemoryPool) -> (s: InvestmentStore) {
        let (counters, investments, transactions) = pool.split(0, 1, 2);
        InvestmentStore {
            ids: IdAllocator::open(counters),
            investments: table_open(investments),
            transactions: table_open(transactions),
        }
    }

    /// Starts both sequences: stores a counter of zero where none is stored,
    /// and leaves a stored counter as it is. Nothing that is stored changes,
    /// and no sequence stands elsewhere afterwards than before.
    pub fn init(&mut self)
        ensures
            final(self).counters().contains_key(INVESTMENT_SEQUENCE),
            final(self).counters().contains_key(TRANSACTION_SEQUENCE),
            forall|k: u8| level(final(self).counters(), k) == level(old(self).counters(), k),
            final(self).investments() == old(self).investments(),
            final(self).transactions() == old(self).transactions(),
            old(self).wf() ==> final(self).wf(),
    {
        self.ids.start(INVESTMENT_SEQUENCE);
        self.ids.start(TRANSACTION_SEQUENCE);
    }

    /// The identifier that was last given to an investment, or zero.
    pub fn last_investment_id(&self) -> (id: u64)
        ensures
            id == level(self.counters(), INVESTMENT_SEQUENCE),
    {
        self.ids.last(INVESTMENT_SEQUENCE)
    }

    /// The identifier that was last given to a transaction, or zero.
    pub fn last_transaction_id(&self) -> (id: u64)
        ensures
            id == level(self.counters(), TRANSACTION_SEQUENCE),
    {
        self.ids.last(TRANSACTION_SEQUENCE)
    }

    /// Whether the store can take a transaction of the given user and kind.
    pub fn has_room_for_transaction(&self, user_id: &Vec<u8>, transaction_type: &String) -> (b:
        bool)
        ensures
            b == self.room_for_transaction(user_id@, transaction_type@),
    {
        let last = self.ids.last(TRANSACTION_SEQUENCE);
        if last == u64::MAX {
            return false;
        }
        let draft = Transaction {
            id: last + 1,
            user_id: copy_bytes(user_id),
            property_id: 0,
            transaction_type: transaction_type.clone(),
            amount: 0,
            tokens: 0,
            timestamp: 0,
        };
        can_store(&draft)
    }

    /// Whether the store can take an investment of the given user.
    pub fn has_room_for_investment(&self, user_id: &Vec<u8>) -> (b: bool)
        ensures
            b == self.room_for_investment(user_id@),
    {
        let last = self.ids.last(INVESTMENT_SEQUENCE);
        if last == u64::MAX {
            return false;
        }
        let draft = Investment {
            id: last + 1,
            user_id: copy_bytes(user_id),
            property_id: 0,
            tokens_owned: 0,
            investment_amount: 0,
            current_value: 0,
            purchase_date: 0,
            is_active: true,
        };
        if !can_store(&draft) {
            return false;
        }
        let kind = "purchase".to_owned();
        self.has_room_for_transaction(user_id, &kind)
    }

    /// Records a transaction under the next transaction identifier, and
    /// returns that identifier.
    pub fn create_transaction_record(
        &mut self,
        user_id: Vec<u8>,
        property_id: u64,
        transaction_type: String,
        amount: u64,
        tokens: u64,
        now: u64,
    ) -> (id: u64)
        requires
            old(self).room_for_transaction(user_id@, transaction_type@),
        ensures
            id == old(self).next_transaction_id(),
            final(self).counters() == issue(old(self).counters(), TRANSACTION_SEQUENCE),
            final(self).investments() == old(self).investments(),
            final(self).transactions() == old(self).transactions().insert(
                id,
                new_transaction(id, user_id@, property_id, transaction_type@, amount, tokens, now),
            ),
            old(self).wf() ==> final(self).wf(),
    {
        let id = self.ids.next(TRANSACTION_SEQUENCE);
        let transaction = Transaction {
            id,
            user_id,
            property_id,
            transaction_type,
            amount,
            tokens,
            timestamp: now,
        };
        proof {
            lemma_fits_by_shape::<Transaction>(
                new_transaction(id, user_id@, 0, transaction_type@, 0, 0, 0),
                transaction@,
            );
        }
        store(&mut self.transactions, id, &transaction);
        proof {
            if old(self).wf() {
                assert forall|k: u64| #[trigger]
                    self.transactions().contains_key(k) implies self.transactions()[k].id == k && 1
                    <= k <= level(self.counters(), TRANSACTION_SEQUENCE) by {
                    if k != id {
                        assert(old(self).transactions().contains_key(k));
                    }
                }
                assert forall|k: u64| #[trigger]
                    self.investments().contains_key(k) implies self.investments()[k].id == k && 1
                    <= k <= level(self.counters(), INVESTMENT_SEQUENCE) by {
                    assert(old(self).investments().contains_key(k));
                }
            }
        }
        id
    }

    /// Creates an investment of `user_id` at the time `now`: stores it under
    /// the next investment identifier, active and worth what was paid, and
    /// records the purchase as a transaction.
    pub fn create_investment(&mut self, req: CreateInvestmentRequest, user_id: Vec<u8>, now: u64) -> (r:
        Result<Investment, InvestmentError>)
        requires
            old(self).room_for_investment(user_id@),
        ensures
            r is Ok,
            r.unwrap()@ == new_investment(old(self).next_investment_id(), req, user_id@, now),
            final(self).counters() == issue(
                issue(old(self).counters(), INVESTMENT_SEQUENCE),
                TRANSACTION_SEQUENCE,
            ),
            final(self).investments() == old(self).investments().insert(
                old(self).next_investment_id(),
                r.unwrap()@,
            ),
            final(self).transactions() == old(self).transactions().insert(
                old(self).next_transaction_id(),
                new_transaction(
                    old(self).next_transaction_id(),
                    user_id@,
                    req.property_id,
                    "purchase"@,
                    req.investment_amount,
                    req.tokens_to_purchase,
                    now,
                ),
            ),
            old(self).wf() ==> final(self).wf(),
    {
        let id = self.ids.next(INVESTMENT_SEQUENCE);
        let investment = Investment {
            id,
            user_id: copy_bytes(&user_id),
            property_id: req.property_id,
            tokens_owned: req.tokens_to_purchase,
            investment_amount: req.investment_amount,
            current_value: req.investment_amount,
            purchase_date: now,
            is_active: true,
        };
        proof {
            lemma_fits_by_shape::<Investment>(
                new_investment(
                    id,
                    CreateInvestmentRequest {
                        property_id: 0,
                        tokens_to_purchase: 0,
                        investment_amount: 0,
                    },
                    user_id@,
                    0,
                ),
                investment@,
            );
        }
        store(&mut self.investments, id, &investment);
        proof {
            if old(self).wf() {
                assert forall|k: u64| #[trigger]
                    self.investments().contains_key(k) implies self.investments()[k].id == k && 1
                    <= k <= level(self.counters(), INVESTMENT_SEQUENCE) by {
                    if k != id {
                        assert(old(self).investments().contains_key(k));
                    }
                }
                assert forall|k: u64| #[trigger]
                    self.transactions().contains_key(k) implies self.transactions()[k].id == k && 1
                    <= k <= level(self.counters(), TRANSACTION_SEQUENCE) by {
                    assert(old(self).transactions().contains_key(k));
                }
                assert(self.wf());
            }
        }
        self.create_transaction_record(
            user_id,
            req.property_id,
            "purchase".to_owned(),
            req.investment_amount,
            req.tokens_to_purchase,
            now,
        );
        Ok(investment)
    }

    /// The investment with the given identifier, if there is one.
    pub fn get_investment(&self, id: u64) -> (r: Option<Investment>)
        ensures
            r is Some <==> self.investments().contains_key(id),
            r is Some ==> r.unwrap()@ == self.investments()[id],
    {
        fetch::<Investment>(&self.investments, id)
    }

    /// The active investments of the given user, in ascending order of their
    /// identifiers.
    pub fn get_user_investments(&self, user_id: &Vec<u8>) -> (out: Vec<Investment>)
        ensures
            views(out@) == self.holdings_of(user_id@),
    {
        let keep = |i: &Investment| -> (b: bool)
            ensures
                b == held_by(user_id@)(i@),
            { same_bytes(&i.user_id, user_id) && i.is_active };
        scan_where::<Investment, _>(&self.investments, keep, Ghost(held_by(user_id@)))
    }

    /// The active investments in the given property, in ascending order of
    /// their identifiers.
    pub fn get_property_investments(&self, property_id: u64) -> (out: Vec<Investment>)
        ensures
            views(out@) == listing(self.investments()).filter(held_in(property_id)),
    {
        let keep = |i: &Investment| -> (b: bool)
            ensures
                b == held_in(property_id)(i@),
            { i.property_id == property_id && i.is_active };
        scan_where::<Investment, _>(&self.investments, keep, Ghost(held_in(property_id)))
    }

    /// The transactions of the given user, in ascending order of their
    /// identifiers.
    pub fn get_user_transactions(&self, user_id: &Vec<u8>) -> (out: Vec<Transaction>)
        ensures
            views(out@) == listing(self.transactions()).filter(moved_by(user_id@)),
    {
        let keep = |t: &Transaction| -> (b: bool)
            ensures
                b == moved_by(user_id@)(t@),
            { same_bytes(&t.user_id, user_id) };
        scan_where::<Transaction, _>(&self.transactions, keep, Ghost(moved_by(user_id@)))
    }

    /// What the active investments of the given user add up to, or `None`
    /// if one of the two sums is beyond `u64`.
    pub fn checked_user_portfolio_summary(&self, user_id: &Vec<u8>) -> (r: Option<PortfolioSummary>)
        ensures
            r is Some <==> sum_by(self.holdings_of(user_id@), value_of()) <= u64::MAX && sum_by(
                self.holdings_of(user_id@),
                amount_of(),
            ) <= u64::MAX,
            r is Some ==> r.unwrap() == summary_of(self.holdings_of(user_id@)),
    {
        let held = self.get_user_investments(user_id);
        let value = |i: &Investment| -> (v: u64)
            ensures
                v == value_of()(i@),
            { i.current_value };
        let amount = |i: &Investment| -> (v: u64)
            ensures
                v == amount_of()(i@),
            { i.investment_amount };
        let total_value = match checked_sum(&held, value, Ghost(value_of())) {
            Some(t) => t,
            None => { return None; },
        };
        let total_investments = match checked_sum(&held, amount, Ghost(amount_of())) {
            Some(t) => t,
            None => { return None; },
        };
        let total_returns = if total_value > total_investments {
            total_value - total_investments
        } else {
            0
        };
        Some(
            PortfolioSummary {
                total_value,
                total_investments,
                active_properties: held.len() as u64,
                total_returns,
            },
        )
    }

    /// What the active investments of the given user add up to.
    pub fn get_user_portfolio_summary(&self, user_id: &Vec<u8>) -> (r: PortfolioSummary)
        requires
            sum_by(self.holdings_of(user_id@), value_of()) <= u64::MAX,
            sum_by(self.holdings_of(user_id@), amount_of()) <= u64::MAX,
        ensures
            r == summary_of(self.holdings_of(user_id@)),
    {
        match self.checked_user_portfolio_summary(user_id) {
            Some(s) => s,
            None => unreached(),
        }
    }

    /// Overwrites the current value of an investment, and returns the
    /// investment as it then is; fails with `NotFound`, and changes nothing,
    /// if there is no such investment.
    pub fn update_investment_value(&mut self, investment_id: u64, new_value: u64) -> (r: Result<
        Investment,
        InvestmentError,
    >)
        ensures
            final(self).counters() == old(self).counters(),
            final(self).transactions() == old(self).transactions(),
            match r {
                Ok(i) => {
                    &&& old(self).investments().contains_key(investment_id)
                    &&& i@ == (InvestmentView {
                        current_value: new_value,
                        ..old(self).investments()[investment_id]
                    })
                    &&& final(self).investments() == old(self).investments().insert(
                        investment_id,
                        i@,
                    )
                },
                Err(e) => {
                    &&& e == InvestmentError::NotFound
                    &&& !old(self).investments().contains_key(investment_id)
                    &&& final(self).investments() == old(self).investments()
                },
            },
            old(self).wf() ==> final(self).wf(),
    {
        match fetch::<Investment>(&self.investments, investment_id) {
            None => Err(InvestmentError::NotFound),
            Some(mut investment) => {
                let ghost before = investment@;
                investment.current_value = new_value;
                proof {
                    lemma_fits_by_shape::<Investment>(before, investment@);
                }
                store(&mut self.investments, investment_id, &investment);
                proof {
                    if old(self).wf() {
                        assert forall|k: u64| #[trigger]
                            self.investments().contains_key(k) implies self.investments()[k].id
                            == k && 1 <= k <= level(self.counters(), INVESTMENT_SEQUENCE) by {
                            assert(old(self).investments().contains_key(k));
                        }
                    }
                }
                Ok(investment)
            },
        }
    }

    /// Records a dividend paid to a user on a property as a transaction
    /// without tokens, and returns the identifier of that transaction.
    pub fn process_dividend(
        &mut self,
        user_id: Vec<u8>,
        property_id: u64,
        dividend_amount: u64,
        now: u64,
    ) -> (r: Result<u64, InvestmentError>)
        requires
            old(self).room_for_transaction(user_id@, "dividend"@),
        ensures
            r == Ok::<u64, InvestmentError>(old(self).next_transaction_id()),
            final(self).counters() == issue(old(self).counters(), TRANSACTION_SEQUENCE),
            final(self).investments() == old(self).investments(),
            final(self).transactions() == old(self).transactions().insert(
                old(self).next_transaction_id(),
                new_transaction(
                    old(self).next_transaction_id(),
                    user_id@,
                    property_id,
                    "dividend"@,
                    dividend_amount,
                    0,
                    now,
                ),
            ),
            old(self).wf() ==> final(self).wf(),
    {
        let id = self.create_transaction_record(
            user_id,
            property_id,
            "dividend".to_owned(),
            dividend_amount,
            0,
            now,
        );
        Ok(id)
    }

    /// The tokens of the given property in active investments, summed, or
    /// `None` if the sum is beyond `u64`.
    pub fn checked_total_tokens_by_property(&self, property_id: u64) -> (r: Option<u64>)
        ensures
            match r {
                Some(t) => t == sum_by(
                    listing(self.investments()).filter(held_in(property_id)),
                    tokens_of(),
                ),
                None => sum_by(
                    listing(self.investments()).filter(held_in(property_id)),
                    tokens_of(),
                ) > u64::MAX,
            },
    {
        let held = self.get_property_investments(property_id);
        let tokens = |i: &Investment| -> (v: u64)
            ensures
                v == tokens_of()(i@),
            { i.tokens_owned };
        checked_sum(&held, tokens, Ghost(tokens_of()))
    }

    /// The tokens of the given property in active investments, summed.
    pub fn get_total_tokens_by_property(&self, property_id: u64) -> (t: u64)
        requires
            sum_by(listing(self.investments()).filter(held_in(property_id)), tokens_of())
                <= u64::MAX,
        ensures
            t == sum_by(listing(self.investments()).filter(held_in(property_id)), tokens_of()),
    {
        match self.checked_total_tokens_by_property(property_id) {
            Some(t) => t,
            None => unreached(),
        }
    }

    /// The tokens of the given property in active investments of the given
    /// user, summed, or `None` if the sum is beyond `u64`.
    pub fn checked_user_tokens_for_property(&self, user_id: &Vec<u8>, property_id: u64) -> (r:
        Option<u64>)
        ensures
            match r {
                Some(t) => t == sum_by(
                    listing(self.investments()).filter(held_by_in(user_id@, property_id)),
                    tokens_of(),
                ),
                None => sum_by(
                    listing(self.investments()).filter(held_by_in(user_id@, property_id)),
                    tokens_of(),
                ) > u64::MAX,
            },
    {
        let keep = |i: &Investment| -> (b: bool)
            ensures
                b == held_by_in(user_id@, property_id)(i@),
            { same_bytes(&i.user_id, user_id) && i.property_id == property_id && i.is_active };
        let held = scan_where::<Investment, _>(
            &self.investments,
            keep,
            Ghost(held_by_in(user_id@, property_id)),
        );
        let tokens = |i: &Investment| -> (v: u64)
            ensures
                v == tokens_of()(i@),
            { i.tokens_owned };
        checked_sum(&held, tokens, Ghost(tokens_of()))
    }

    /// The tokens of the given property in active investments of the given
    /// user, summed.
    pub fn get_user_tokens_for_property(&self, user_id: &Vec<u8>, property_id: u64) -> (t: u64)
        requires
            sum_by(
                listing(self.investments()).filter(held_by_in(user_id@, property_id)),
                tokens_of(),
            ) <= u64::MAX,
        ensures
            t == sum_by(
                listing(self.investments()).filter(held_by_in(user_id@, property_id)),
                tokens_of(),
            ),
    {
        match self.checked_user_tokens_for_property(user_id, property_id) {
            Some(t) => t,
            None => unreached(),
        }
    }
}

} // verus!
