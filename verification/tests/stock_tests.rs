//! Tests of the store importer's record and summary.

use datapipe::stock::{count_successes, inserted_response_body, StockPriceItem};

#[test]
fn counts_successful_writes() {
    assert_eq!(count_successes(&vec![]), 0);
    assert_eq!(count_successes(&vec![true, false, true, true]), 3);
    assert_eq!(count_successes(&vec![false, false]), 0);
}

#[test]
fn importer_reply_names_the_count() {
    assert_eq!(inserted_response_body(3), "3 messages inserted into DynamoDB");
    assert_eq!(inserted_response_body(0), "0 messages inserted into DynamoDB");
}

#[test]
fn stock_price_item_default_is_empty() {
    let item = StockPriceItem::default();
    assert_eq!(item.symbol, "");
    assert_eq!(item.time, 0);
    assert_eq!(item.prices, "");
}

#[test]
fn stock_price_item_clones_equal() {
    let item = StockPriceItem { symbol: "ABC".to_string(), time: 7, prices: "1,2,3".to_string() };
    assert_eq!(item.clone(), item);
}
