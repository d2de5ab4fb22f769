use tokenized_estate::investment::CreateInvestmentRequest;
use tokenized_estate::investment::Investment;
use tokenized_estate::investment::InvestmentError;
use tokenized_estate::investment::InvestmentStore;
use tokenized_estate::investment::PortfolioSummary;
use tokenized_estate::investment::Transaction;
use tokenized_estate::stable::MemoryPool;

fn who(name: &str) -> Vec<u8> {
    name.as_bytes().to_vec()
}

fn buy(property_id: u64, tokens_to_purchase: u64, investment_amount: u64) -> CreateInvestmentRequest {
    CreateInvestmentRequest { property_id, tokens_to_purchase, investment_amount }
}

#[test]
fn create_investment_stores_the_investment_and_records_the_purchase() {
    let mut store = InvestmentStore::new(MemoryPool::open());
    let inv = store.create_investment(buy(3, 40, 9_000), who("ann"), 77).unwrap();
    assert_eq!(
        inv,
        Investment {
            id: 1,
            user_id: who("ann"),
            property_id: 3,
            tokens_owned: 40,
            investment_amount: 9_000,
            current_value: 9_000,
            purchase_date: 77,
            is_active: true,
        }
    );
    assert_eq!(store.get_investment(1), Some(inv.clone()));
    assert_eq!(store.get_user_investments(&who("ann")), vec![inv]);
    assert_eq!(
        store.get_user_transactions(&who("ann")),
        vec![Transaction {
            id: 1,
            user_id: who("ann"),
            property_id: 3,
            transaction_type: "purchase".to_string(),
            amount: 9_000,
            tokens: 40,
            timestamp: 77,
        }]
    );
    assert_eq!(store.last_investment_id(), 1);
    assert_eq!(store.last_transaction_id(), 1);
}

#[test]
fn process_dividend_records_a_transaction_without_tokens() {
    let mut store = InvestmentStore::new(MemoryPool::open());
    store.create_investment(buy(3, 40, 9_000), who("ann"), 77).unwrap();
    assert_eq!(store.process_dividend(who("ann"), 3, 125, 80), Ok(2));
    assert_eq!(store.process_dividend(who("bob"), 4, 5, 81), Ok(3));
    let mine = store.get_user_transactions(&who("ann"));
    assert_eq!(mine.len(), 2);
    assert_eq!(
        mine[1],
        Transaction {
            id: 2,
            user_id: who("ann"),
            property_id: 3,
            transaction_type: "dividend".to_string(),
            amount: 125,
            tokens: 0,
            timestamp: 80,
        }
    );
    assert_eq!(store.last_investment_id(), 1);
    assert_eq!(store.get_user_transactions(&who("bob")).len(), 1);
    assert!(store.get_user_transactions(&who("eve")).is_empty());
}

#[test]
fn create_transaction_record_returns_the_next_identifier() {
    let mut store = InvestmentStore::new(MemoryPool::open());
    let a = store.create_transaction_record(who("ann"), 1, "sale".to_string(), 10, 2, 5);
    let b = store.create_transaction_record(who("ann"), 2, "sale".to_string(), 20, 3, 6);
    assert_eq!((a, b), (1, 2));
    let all = store.get_user_transactions(&who("ann"));
    assert_eq!(all[1].property_id, 2);
    assert_eq!(all[1].transaction_type, "sale");
    assert_eq!((all[1].amount, all[1].tokens, all[1].timestamp), (20, 3, 6));
}

#[test]
fn update_investment_value_overwrites_the_current_value_only() {
    let mut store = InvestmentStore::new(MemoryPool::open());
    let inv = store.create_investment(buy(3, 40, 9_000), who("ann"), 77).unwrap();
    let up = store.update_investment_value(inv.id, 12_345).unwrap();
    assert_eq!(up, Investment { current_value: 12_345, ..inv });
    assert_eq!(store.get_investment(1), Some(up));
    assert_eq!(store.update_investment_value(2, 1), Err(InvestmentError::NotFound));
    assert_eq!(store.last_transaction_id(), 1);
}

#[test]
fn the_portfolio_summary_adds_up_the_active_investments_of_a_user() {
    let mut store = InvestmentStore::new(MemoryPool::open());
    let a = store.create_investment(buy(1, 10, 1_000), who("ann"), 1).unwrap();
    let b = store.create_investment(buy(2, 20, 2_500), who("ann"), 2).unwrap();
    store.create_investment(buy(1, 99, 7_000), who("bob"), 3).unwrap();
    assert_eq!(
        store.get_user_portfolio_summary(&who("ann")),
        PortfolioSummary {
            total_value: 3_500,
            total_investments: 3_500,
            active_properties: 2,
            total_returns: 0,
        }
    );
    store.update_investment_value(a.id, 1_800).unwrap();
    assert_eq!(
        store.get_user_portfolio_summary(&who("ann")),
        PortfolioSummary {
            total_value: 4_300,
            total_investments: 3_500,
            active_properties: 2,
            total_returns: 800,
        }
    );
    // a loss is no negative return
    store.update_investment_value(b.id, 100).unwrap();
    assert_eq!(
        store.get_user_portfolio_summary(&who("ann")),
        PortfolioSummary {
            total_value: 1_900,
            total_investments: 3_500,
            active_properties: 2,
            total_returns: 0,
        }
    );
    assert_eq!(
        store.get_user_portfolio_summary(&who("eve")),
        PortfolioSummary {
            total_value: 0,
            total_investments: 0,
            active_properties: 0,
            total_returns: 0,
        }
    );
}

#[test]
fn a_sum_beyond_u64_is_told_and_not_wrapped() {
    let mut store = InvestmentStore::new(MemoryPool::open());
    store.create_investment(buy(1, u64::MAX, u64::MAX - 1), who("ann"), 1).unwrap();
    store.create_investment(buy(1, 1, 1), who("ann"), 1).unwrap();
    assert_eq!(store.checked_total_tokens_by_property(1), None);
    assert_eq!(store.checked_user_tokens_for_property(&who("ann"), 1), None);
    assert_eq!(
        store.checked_user_portfolio_summary(&who("ann")),
        Some(PortfolioSummary {
            total_value: u64::MAX,
            total_investments: u64::MAX,
            active_properties: 2,
            total_returns: 0,
        })
    );
    store.create_investment(buy(2, 0, 1), who("ann"), 1).unwrap();
    assert_eq!(store.checked_user_portfolio_summary(&who("ann")), None);
    assert_eq!(store.checked_total_tokens_by_property(2), Some(0));
    assert_eq!(store.checked_user_tokens_for_property(&who("bob"), 1), Some(0));
}

#[test]
fn tokens_are_summed_by_property_and_by_user() {
    let mut store = InvestmentStore::new(MemoryPool::open());
    store.create_investment(buy(1, 10, 1), who("ann"), 1).unwrap();
    store.create_investment(buy(1, 5, 1), who("bob"), 1).unwrap();
    store.create_investment(buy(2, 7, 1), who("ann"), 1).unwrap();
    store.create_investment(buy(1, 3, 1), who("ann"), 1).unwrap();
    assert_eq!(store.get_total_tokens_by_property(1), 18);
    assert_eq!(store.get_total_tokens_by_property(2), 7);
    assert_eq!(store.get_total_tokens_by_property(3), 0);
    assert_eq!(store.get_user_tokens_for_property(&who("ann"), 1), 13);
    assert_eq!(store.get_user_tokens_for_property(&who("bob"), 1), 5);
    assert_eq!(store.get_user_tokens_for_property(&who("bob"), 2), 0);
    let in_one: Vec<u64> = store.get_property_investments(1).iter().map(|i| i.id).collect();
    assert_eq!(in_one, vec![1, 2, 4]);
    let of_ann: Vec<u64> = store.get_user_investments(&who("ann")).iter().map(|i| i.id).collect();
    assert_eq!(of_ann, vec![1, 3, 4]);
}

#[test]
fn room_for_an_investment_ends_with_the_counter() {
    let mut store = InvestmentStore::new(MemoryPool::open());
    assert!(store.has_room_for_investment(&who("ann")));
    assert!(store.has_room_for_transaction(&who("ann"), &"dividend".to_string()));
    store.create_investment(buy(1, 1, 1), who("ann"), 1).unwrap();
    assert!(store.has_room_for_investment(&vec![0u8; 10_000]));
}

#[test]
fn init_sets_the_investment_counters_to_zero() {
    let mut store = InvestmentStore::open(MemoryPool::open());
    store.init();
    assert_eq!(store.last_investment_id(), 0);
    assert_eq!(store.last_transaction_id(), 0);
    let inv = store.create_investment(buy(1, 1, 1), who("ann"), 1).unwrap();
    assert_eq!(inv.id, 1);
}
