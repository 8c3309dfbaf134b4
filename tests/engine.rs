use orderbook::{MatchOutcome, MatchingEngine, Order, OrderType, SubmitError, Trade};

fn sell(id: usize, quantity: u32, price: u32) -> Order {
    Order { id, order_type: OrderType::Sell, price, quantity }
}

fn buy(id: usize, quantity: u32, price: u32) -> Order {
    Order { id, order_type: OrderType::Buy, price, quantity }
}

fn drain(engine: MatchingEngine) -> Vec<Order> {
    let mut book = engine.into_book();
    let mut out = Vec::new();
    while let Some(o) = book.pop() {
        out.push(o);
    }
    out
}

#[test]
fn buy_into_empty_book_is_exhausted() {
    let mut engine = MatchingEngine::new();
    let report = engine.submit_buy(buy(1, 10, 120)).unwrap();
    assert!(report.trades.is_empty());
    assert_eq!(report.outcome, MatchOutcome::BookExhausted { remaining_quantity: 10 });
    assert!(drain(engine).is_empty());
}

#[test]
fn buy_larger_than_book_trades_then_exhausts() {
    let mut engine = MatchingEngine::new();
    engine.submit_sell(sell(2, 5, 100)).unwrap();
    let report = engine.submit_buy(buy(3, 10, 120)).unwrap();
    assert_eq!(report.trades, vec![Trade { buy_id: 3, sell_id: 2, price: 100, quantity_traded: 5 }]);
    assert_eq!(report.outcome, MatchOutcome::BookExhausted { remaining_quantity: 5 });
    assert!(drain(engine).is_empty());
}

#[test]
fn buy_filled_across_two_sells_leaves_remainder() {
    let mut engine = MatchingEngine::new();
    engine.submit_sell(sell(4, 5, 100)).unwrap();
    engine.submit_sell(sell(5, 5, 100)).unwrap();
    let report = engine.submit_buy(buy(6, 7, 100)).unwrap();
    assert_eq!(
        report.trades,
        vec![
            Trade { buy_id: 6, sell_id: 4, price: 100, quantity_traded: 5 },
            Trade { buy_id: 6, sell_id: 5, price: 100, quantity_traded: 2 },
        ]
    );
    assert_eq!(report.outcome, MatchOutcome::Filled);
    assert_eq!(drain(engine), vec![sell(5, 3, 100)]);
}

#[test]
fn buy_below_best_price_is_not_met() {
    let mut engine = MatchingEngine::new();
    engine.submit_sell(sell(7, 5, 150)).unwrap();
    let report = engine.submit_buy(buy(8, 5, 100)).unwrap();
    assert!(report.trades.is_empty());
    assert_eq!(report.outcome, MatchOutcome::PriceNotMet { remaining_quantity: 5 });
    assert_eq!(drain(engine), vec![sell(7, 5, 150)]);
}

#[test]
fn limit_below_every_sell_leaves_book_in_order() {
    let mut engine = MatchingEngine::new();
    engine.submit_sell(sell(1, 3, 140)).unwrap();
    engine.submit_sell(sell(2, 4, 130)).unwrap();
    engine.submit_sell(sell(3, 5, 130)).unwrap();
    let report = engine.submit_buy(buy(4, 9, 129)).unwrap();
    assert!(report.trades.is_empty());
    assert_eq!(report.outcome, MatchOutcome::PriceNotMet { remaining_quantity: 9 });
    assert_eq!(drain(engine), vec![sell(2, 4, 130), sell(3, 5, 130), sell(1, 3, 140)]);
}

#[test]
fn buy_stops_at_price_after_partial_fill() {
    let mut engine = MatchingEngine::new();
    engine.submit_sell(sell(1, 2, 90)).unwrap();
    engine.submit_sell(sell(2, 2, 110)).unwrap();
    let report = engine.submit_buy(buy(3, 5, 100)).unwrap();
    assert_eq!(report.trades, vec![Trade { buy_id: 3, sell_id: 1, price: 90, quantity_traded: 2 }]);
    assert_eq!(report.outcome, MatchOutcome::PriceNotMet { remaining_quantity: 3 });
    assert_eq!(drain(engine), vec![sell(2, 2, 110)]);
}

#[test]
fn exact_fill_empties_the_book() {
    let mut engine = MatchingEngine::new();
    engine.submit_sell(sell(1, 5, 100)).unwrap();
    let report = engine.submit_buy(buy(2, 5, 100)).unwrap();
    assert_eq!(report.outcome, MatchOutcome::Filled);
    assert_eq!(report.trades.len(), 1);
    assert!(drain(engine).is_empty());
}

#[test]
fn wrong_side_and_empty_orders_are_refused() {
    let mut engine = MatchingEngine::new();
    engine.submit_sell(sell(1, 5, 100)).unwrap();
    assert_eq!(engine.submit_sell(buy(2, 5, 100)), Err(SubmitError::WrongSide));
    assert_eq!(engine.submit_sell(sell(3, 0, 100)), Err(SubmitError::ZeroQuantity));
    assert!(matches!(engine.submit_buy(sell(4, 5, 100)), Err(SubmitError::WrongSide)));
    assert!(matches!(engine.submit_buy(buy(5, 0, 100)), Err(SubmitError::ZeroQuantity)));
    assert_eq!(drain(engine), vec![sell(1, 5, 100)]);
}
