use vstd::prelude::*;
use crate::rsi::{rsi, rsi_fraction, Rsi};
use crate::window::{recorded, PriceWindows};

verus! {

/// One observed trade. The price is a fixed-point integer, in ticks of
/// whatever unit the caller chose; the time is passed through unread.
pub struct Trade {
    pub token_address: String,
    pub price: i64,
    pub block_time: String,
}

/// The indicator computed on one trade, ready to be sent to subscribers.
pub struct RsiReading {
    pub token: String,
    pub time: String,
    pub price: i64,
    pub rsi: Rsi,
}

impl RsiReading {
    /// `self` is the reading that `trade` yields once `window` is its asset's
    /// window after the trade.
    pub open spec fn reads(self, trade: Trade, window: Seq<i64>) -> bool {
        &&& self.token@ == trade.token_address@
        &&& self.time@ == trade.block_time@
        &&& self.price == trade.price
        &&& self.rsi.fraction() == rsi_fraction(window)
    }
}

/// Records `trade` in `store` and builds the reading it yields: its asset,
/// time and price, and the indicator over its asset's window after the
/// insert.
pub fn process_trade(store: &mut PriceWindows, trade: &Trade) -> (r: RsiReading)
    requires
        old(store).wf(),
    ensures
        final(store).wf(),
        final(store)@ == recorded(old(store)@, trade.token_address@, trade.price),
        r.reads(*trade, final(store)@[trade.token_address@]),
{
    let window = store.record(&trade.token_address, trade.price);
    let value = rsi(&window);
    RsiReading {
        token: trade.token_address.clone(),
        time: trade.block_time.clone(),
        price: trade.price,
        rsi: value,
    }
}

/// One step of the processing loop on a payload that was decoded into
/// `decoded`, or could not be (`None`). An undecodable payload is dropped:
/// the store is left as it was and nothing is to be broadcast.
pub fn process_payload(store: &mut PriceWindows, decoded: Option<Trade>) -> (r: Option<
    RsiReading,
>)
    requires
        old(store).wf(),
    ensures
        final(store).wf(),
        decoded is None ==> r is None && final(store)@ == old(store)@,
        decoded is Some ==> r is Some && final(store)@ == recorded(
            old(store)@,
            decoded->0.token_address@,
            decoded->0.price,
        ) && r->0.reads(decoded->0, final(store)@[decoded->0.token_address@]),
{
    match decoded {
        Some(trade) => Some(process_trade(store, &trade)),
        None => None,
    }
}

} // verus!
