//! The trade sampler: a log of trade prints from which rapid prints at an
//! unchanged price are left out.

use vstd::prelude::*;

verus! {

/// A print is kept when it comes more than this many milliseconds after the
/// last one kept.
pub const SAMPLE_GAP_MS: u64 = 500;

/// A print is kept when its price is at least this far, in fixed-point units,
/// from that of the last one kept: a tenth of one unit of price.
pub const SAMPLE_PRICE_STEP: u64 = 10_000_000;

/// One trade print: its time in milliseconds, its price and its quantity in
/// fixed-point units.
#[derive(Clone, Copy, Debug, PartialEq, Eq, Structural)]
pub struct TradeRecord {
    pub timestamp: u64,
    pub price: u64,
    pub quantity: u64,
}

/// The distance between two prices.
pub open spec fn price_gap(a: u64, b: u64) -> int {
    if a >= b {
        a - b
    } else {
        b - a
    }
}

/// The distance between two prices, computed.
pub fn price_distance(a: u64, b: u64) -> (gap: u64)
    ensures
        gap == price_gap(a, b),
{
    if a >= b {
        a - b
    } else {
        b - a
    }
}

/// Whether `print` is appended to `log`: the log is empty, or the print is
/// late enough after the last record, or far enough from it in price.
pub open spec fn keeps_print(log: Seq<TradeRecord>, print: TradeRecord) -> bool {
    ||| log.len() == 0
    ||| print.timestamp - log.last().timestamp > SAMPLE_GAP_MS
    ||| price_gap(print.price, log.last().price) >= SAMPLE_PRICE_STEP
}

/// The log after `print` was offered to it.
pub open spec fn sample(log: Seq<TradeRecord>, print: TradeRecord) -> Seq<TradeRecord> {
    if keeps_print(log, print) {
        log.push(print)
    } else {
        log
    }
}

/// The log after each of `prints` was offered in turn.
pub open spec fn sample_all(log: Seq<TradeRecord>, prints: Seq<TradeRecord>) -> Seq<TradeRecord>
    decreases prints.len(),
{
    if prints.len() == 0 {
        log
    } else {
        sample(sample_all(log, prints.drop_last()), prints.last())
    }
}

/// Every record but the first came late enough after the one before it,
/// or far enough from it in price.
pub open spec fn spaced(log: Seq<TradeRecord>) -> bool {
    forall|i: int|
        0 < i < log.len() ==> (#[trigger] log[i]).timestamp - log[i - 1].timestamp > SAMPLE_GAP_MS
            || price_gap(log[i].price, log[i - 1].price) >= SAMPLE_PRICE_STEP
}

/// Offering a print never takes a record away or changes one, and keeps a
/// spaced log spaced.
pub proof fn lemma_sample_extends(log: Seq<TradeRecord>, print: TradeRecord)
    ensures
        log.len() <= sample(log, print).len() <= log.len() + 1,
        sample(log, print).take(log.len() as int) == log,
        spaced(log) ==> spaced(sample(log, print)),
{
}

/// A log that was filled from empty by offers alone is spaced.
pub proof fn lemma_sampled_log_is_spaced(prints: Seq<TradeRecord>)
    ensures
        spaced(sample_all(Seq::empty(), prints)),
    decreases prints.len(),
{
    if prints.len() > 0 {
        lemma_sampled_log_is_spaced(prints.drop_last());
        lemma_sample_extends(sample_all(Seq::empty(), prints.drop_last()), prints.last());
    }
}

/// The records kept since the log was last drained, oldest first.
#[derive(Clone, Debug)]
pub struct TradeLog {
    records: Vec<TradeRecord>,
}

impl View for TradeLog {
    type V = Seq<TradeRecord>;

    closed spec fn view(&self) -> Seq<TradeRecord> {
        self.records@
    }
}

impl TradeLog {
    pub fn new() -> (log: Self)
        ensures
            log@ == Seq::<TradeRecord>::empty(),
    {
        TradeLog { records: Vec::new() }
    }

    /// The number of records waiting.
    pub fn len(&self) -> (n: usize)
        ensures
            n == self@.len(),
    {
        self.records.len()
    }

    /// Offers one print to the log, which keeps it or leaves it out.
    pub fn offer(&mut self, print: TradeRecord) -> (kept: bool)
        ensures
            kept == keeps_print(old(self)@, print),
            final(self)@ == sample(old(self)@, print),
    {
        let n = self.records.len();
        let kept = if n == 0 {
            true
        } else {
            let last = self.records[n - 1];
            (print.timestamp > last.timestamp && print.timestamp - last.timestamp > SAMPLE_GAP_MS)
                || price_distance(print.price, last.price) >= SAMPLE_PRICE_STEP
        };
        if kept {
            self.records.push(print);
        }
        kept
    }

    /// Hands out every record and leaves the log empty.
    pub fn drain(&mut self) -> (batch: Vec<TradeRecord>)
        ensures
            batch@ == old(self)@,
            final(self)@ == Seq::<TradeRecord>::empty(),
    {
        let mut batch: Vec<TradeRecord> = Vec::new();
        std::mem::swap(&mut self.records, &mut batch);
        batch
    }
}

} // verus!
