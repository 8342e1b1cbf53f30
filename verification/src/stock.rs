//! The store importer's record and its summary: price items arrive over
//! HTTP and are written one by one into the store; the reply reports how
//! many writes succeeded.

use vstd::prelude::*;

use crate::numfmt::{dec_digits, u64_to_string};

verus! {

use vstd::string::StringExecFns;

/// One price record to be written into the store, keyed by its symbol.
#[derive(Debug, Clone, PartialEq, Eq)]
pub struct StockPriceItem {
    pub symbol: String,
    pub time: u32,
    pub prices: String,
}

/// The mathematical value of a [`StockPriceItem`].
#[verifier::ext_equal]
pub struct StockPriceItemView {
    pub symbol: Seq<char>,
    pub time: u32,
    pub prices: Seq<char>,
}

impl View for StockPriceItem {
    type V = StockPriceItemView;

    open spec fn view(&self) -> StockPriceItemView {
        StockPriceItemView { symbol: self.symbol@, time: self.time, prices: self.prices@ }
    }
}

impl Default for StockPriceItem {
    /// An empty record: empty symbol, zero time, empty prices.
    fn default() -> (r: Self)
        ensures
            r@.symbol.len() == 0,
            r@.time == 0,
            r@.prices.len() == 0,
    {
        StockPriceItem { symbol: String::new(), time: 0, prices: String::new() }
    }
}

/// How many of the per-record write attempts succeeded.
pub open spec fn spec_count_true(s: Seq<bool>) -> int
    decreases s.len(),
{
    if s.len() == 0 {
        0
    } else {
        spec_count_true(s.drop_last()) + if s.last() {
            1int
        } else {
            0int
        }
    }
}

/// Counts the successful write attempts of a batch.
pub fn count_successes(results: &Vec<bool>) -> (n: usize)
    ensures
        n as int == spec_count_true(results@),
        n <= results@.len(),
{
    let mut n: usize = 0;
    let len = results.len();
    let mut i: usize = 0;
    while i < len
        invariant
            i <= len,
            len == results@.len(),
            n as int == spec_count_true(results@.take(i as int)),
            n <= i,
        decreases len - i,
    {
        proof {
            assert(results@.take(i + 1).drop_last() =~= results@.take(i as int));
        }
        if results[i] {
            n = n + 1;
        }
        i = i + 1;
    }
    proof {
        assert(results@.take(len as int) =~= results@);
    }
    n
}

/// The importer's reply: the count of records written into the store.
pub fn inserted_response_body(count: usize) -> (r: String)
    ensures
        r@ == dec_digits(count as int) + " messages inserted into DynamoDB"@,
{
    let mut r = u64_to_string(count as u64);
    r.append(" messages inserted into DynamoDB");
    r
}

} // verus!
