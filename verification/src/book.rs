//! The order book engine: the consolidated book, one book per named
//! sub-stream, and the log of sampled trades, behind a single surface.

use crate::ladder::PriceLevel;
use crate::sides::{
    apply_level, empty_sides, lemma_remove_absent, lemma_uncross_clears, lemma_uncrossed_kept,
    no_empty_levels, uncrossed, LevelUpdate, SidePair, Sides,
};
use crate::snapshot::{depth_view, get_bbo, PqData};
use crate::trades::{sample, TradeLog, TradeRecord};
use vstd::prelude::*;

verus! {

/// The book of one named sub-stream.
#[derive(Clone, Debug)]
struct StreamBook {
    name: String,
    pair: SidePair,
}

/// The state of the engine as plain values: the consolidated view, the view
/// of each sub-stream in the order in which the streams were first seen, and
/// the trades that wait to be drained.
pub struct BookView {
    pub consolidated: Sides,
    pub streams: Seq<(Seq<char>, Sides)>,
    pub trades: Seq<TradeRecord>,
}

/// Where the stream called `name` stands in `streams`, if it is there.
pub open spec fn position(streams: Seq<(Seq<char>, Sides)>, name: Seq<char>) -> Option<int>
    decreases streams.len(),
{
    if streams.len() == 0 {
        None
    } else {
        match position(streams.drop_last(), name) {
            Some(at) => Some(at),
            None => if streams.last().0 == name {
                Some(streams.len() - 1)
            } else {
                None
            },
        }
    }
}

/// The view of the stream called `name`; the empty view where no update has
/// named it yet.
pub open spec fn stream_sides(streams: Seq<(Seq<char>, Sides)>, name: Seq<char>) -> Sides {
    match position(streams, name) {
        Some(at) => streams[at].1,
        None => empty_sides(),
    }
}

/// No two streams share a name.
pub open spec fn distinct_names(streams: Seq<(Seq<char>, Sides)>) -> bool {
    forall|i: int, j: int|
        0 <= i < j < streams.len() ==> (#[trigger] streams[i]).0 != (#[trigger] streams[j]).0
}

/// The streams after `update` came in on the stream called `name`: its view
/// is updated where it stands, and a stream not seen before is added last,
/// starting from the empty view.
pub open spec fn streams_with_level(
    streams: Seq<(Seq<char>, Sides)>,
    name: Seq<char>,
    update: LevelUpdate,
) -> Seq<(Seq<char>, Sides)> {
    match position(streams, name) {
        Some(at) => streams.update(at, (name, apply_level(streams[at].1, update))),
        None => streams.push((name, apply_level(empty_sides(), update))),
    }
}

/// The state after `update` came in on the stream called `name`: the update
/// is applied to the consolidated view and to that stream's view, each on
/// its own.
pub open spec fn with_level(book: BookView, name: Seq<char>, update: LevelUpdate) -> BookView {
    BookView {
        consolidated: apply_level(book.consolidated, update),
        streams: streams_with_level(book.streams, name, update),
        trades: book.trades,
    }
}

/// The state after a trade print was offered to the sampler.
pub open spec fn with_trade(book: BookView, print: TradeRecord) -> BookView {
    BookView {
        consolidated: book.consolidated,
        streams: book.streams,
        trades: sample(book.trades, print),
    }
}

/// The state in which nothing has been seen.
pub open spec fn empty_book() -> BookView {
    BookView { consolidated: empty_sides(), streams: Seq::empty(), trades: Seq::empty() }
}

/// Stream names are distinct and no ladder stores a level of size zero.
pub open spec fn well_formed(book: BookView) -> bool {
    &&& distinct_names(book.streams)
    &&& no_empty_levels(book.consolidated)
    &&& forall|i: int| 0 <= i < book.streams.len() ==> no_empty_levels((#[trigger] book.streams[i]).1)
}

/// What `position` finds: the first stream of that name, and none where it
/// finds nothing.
pub proof fn lemma_position(streams: Seq<(Seq<char>, Sides)>, name: Seq<char>)
    ensures
        match position(streams, name) {
            Some(at) => 0 <= at < streams.len() && streams[at].0 == name && forall|i: int|
                0 <= i < at ==> (#[trigger] streams[i]).0 != name,
            None => forall|i: int| 0 <= i < streams.len() ==> (#[trigger] streams[i]).0 != name,
        },
    decreases streams.len(),
{
    if streams.len() > 0 {
        lemma_position(streams.drop_last(), name);
        match position(streams.drop_last(), name) {
            Some(at) => {
                assert forall|i: int| 0 <= i < at implies (#[trigger] streams[i]).0 != name by {
                    assert(streams.drop_last()[i] == streams[i]);
                }
            },
            None => {
                assert forall|i: int| 0 <= i < streams.len() - 1 implies (#[trigger] streams[i]).0
                    != name by {
                    assert(streams.drop_last()[i] == streams[i]);
                }
            },
        }
    }
}

/// The first stream of a name is where `position` finds it.
pub proof fn lemma_position_found(streams: Seq<(Seq<char>, Sides)>, name: Seq<char>, at: int)
    requires
        0 <= at < streams.len(),
        streams[at].0 == name,
        forall|i: int| 0 <= i < at ==> (#[trigger] streams[i]).0 != name,
    ensures
        position(streams, name) == Some(at),
{
    lemma_position(streams, name);
}

/// An update on one stream changes that stream's view by the rule for one
/// level, starting from the empty view where the stream is new, and leaves
/// every other stream's view as it was.
pub proof fn lemma_streams_apart(
    streams: Seq<(Seq<char>, Sides)>,
    name: Seq<char>,
    update: LevelUpdate,
    other: Seq<char>,
)
    ensures
        stream_sides(streams_with_level(streams, name, update), name) == apply_level(
            stream_sides(streams, name),
            update,
        ),
        other != name ==> stream_sides(streams_with_level(streams, name, update), other)
            == stream_sides(streams, other),
{
    let after = streams_with_level(streams, name, update);
    lemma_position(streams, name);
    lemma_position(streams, other);
    match position(streams, name) {
        Some(at) => lemma_position_found(after, name, at),
        None => lemma_position_found(after, name, streams.len() as int),
    }
    if other != name {
        match position(streams, other) {
            Some(there) => lemma_position_found(after, other, there),
            None => lemma_position(after, other),
        }
    }
}

/// An update keeps a well-formed state well-formed.
pub proof fn lemma_well_formed_kept(book: BookView, name: Seq<char>, update: LevelUpdate)
    requires
        well_formed(book),
    ensures
        well_formed(with_level(book, name, update)),
{
    lemma_position(book.streams, name);
}

/// Removing a price that neither the consolidated view nor the stream's
/// view holds on that side leaves both views as they were.
pub proof fn lemma_remove_absent_level(book: BookView, name: Seq<char>, update: LevelUpdate)
    requires
        update.quantity == 0,
        update.is_bid ==> !book.consolidated.bids.contains_key(update.price) && !stream_sides(
            book.streams,
            name,
        ).bids.contains_key(update.price),
        !update.is_bid ==> !book.consolidated.asks.contains_key(update.price) && !stream_sides(
            book.streams,
            name,
        ).asks.contains_key(update.price),
    ensures
        with_level(book, name, update).consolidated == book.consolidated,
        stream_sides(with_level(book, name, update).streams, name) == stream_sides(
            book.streams,
            name,
        ),
        with_level(book, name, update).trades == book.trades,
{
    lemma_remove_absent(book.consolidated, update);
    lemma_remove_absent(stream_sides(book.streams, name), update);
    lemma_streams_apart(book.streams, name, update, name);
}

/// An update that removes, or that uncrosses, keeps an uncrossed
/// consolidated view uncrossed; one that uncrosses and stores a level
/// leaves it uncrossed whatever it was.
pub proof fn lemma_consolidated_uncrossed(book: BookView, name: Seq<char>, update: LevelUpdate)
    requires
        update.uncross || update.quantity == 0,
        uncrossed(book.consolidated) || update.quantity != 0,
    ensures
        uncrossed(with_level(book, name, update).consolidated),
{
    if update.quantity != 0 {
        lemma_uncross_clears(book.consolidated, update);
    } else {
        lemma_uncrossed_kept(book.consolidated, update);
    }
}

/// What is shown of the book of one sub-stream.
#[derive(Clone, Debug)]
pub struct StreamDepth {
    pub name: String,
    pub bids: Vec<PqData>,
    pub asks: Vec<PqData>,
}

/// A `StreamDepth` as plain values.
pub struct StreamDepthView {
    pub name: Seq<char>,
    pub bids: Seq<PqData>,
    pub asks: Seq<PqData>,
}

impl View for StreamDepth {
    type V = StreamDepthView;

    open spec fn view(&self) -> StreamDepthView {
        StreamDepthView { name: self.name@, bids: self.bids@, asks: self.asks@ }
    }
}

/// One snapshot for a consumer: the symbol, the consolidated book at the
/// requested depth, and each sub-stream's book at that depth, in the order
/// in which the streams were first seen.
#[derive(Clone, Debug)]
pub struct BookStateOutput {
    pub symbol: String,
    pub bids: Vec<PqData>,
    pub asks: Vec<PqData>,
    pub depth_stream_state: Vec<StreamDepth>,
}

/// A `BookStateOutput` as plain values.
pub struct OutputView {
    pub symbol: Seq<char>,
    pub bids: Seq<PqData>,
    pub asks: Seq<PqData>,
    pub streams: Seq<StreamDepthView>,
}

impl View for BookStateOutput {
    type V = OutputView;

    open spec fn view(&self) -> OutputView {
        OutputView {
            symbol: self.symbol@,
            bids: self.bids@,
            asks: self.asks@,
            streams: Seq::new(
                self.depth_stream_state@.len(),
                |i: int| self.depth_stream_state@[i]@,
            ),
        }
    }
}

/// The one symbol that the engine follows.
pub open spec fn symbol_name() -> Seq<char> {
    "btcusdt"@
}

/// What is shown of one view at `depth`, under `name`.
pub open spec fn stream_depth(name: Seq<char>, sides: Sides, depth: nat) -> StreamDepthView {
    StreamDepthView {
        name,
        bids: depth_view(sides.bids, true, depth),
        asks: depth_view(sides.asks, false, depth),
    }
}

/// The snapshot of `book` at `depth`.
pub open spec fn output_of(book: BookView, depth: nat) -> OutputView {
    OutputView {
        symbol: symbol_name(),
        bids: depth_view(book.consolidated.bids, true, depth),
        asks: depth_view(book.consolidated.asks, false, depth),
        streams: Seq::new(
            book.streams.len(),
            |i: int| stream_depth(book.streams[i].0, book.streams[i].1, depth),
        ),
    }
}

/// The consolidated book, the per-stream books and the trade log.
#[derive(Clone, Debug)]
pub struct BookState {
    consolidated: SidePair,
    per_stream: Vec<StreamBook>,
    trades: TradeLog,
}

impl View for BookState {
    type V = BookView;

    closed spec fn view(&self) -> BookView {
        BookView {
            consolidated: self.consolidated@,
            streams: Seq::new(
                self.per_stream@.len(),
                |i: int| (self.per_stream@[i].name@, self.per_stream@[i].pair@),
            ),
            trades: self.trades@,
        }
    }
}

impl BookState {
    /// The invariant of the engine's state.
    pub open spec fn wf(&self) -> bool {
        well_formed(self@)
    }

    /// The state at process start: nothing seen yet.
    pub fn new() -> (book: Self)
        ensures
            book@ == empty_book(),
            book.wf(),
    {
        let book = BookState {
            consolidated: SidePair::new(),
            per_stream: Vec::new(),
            trades: TradeLog::new(),
        };
        proof {
            assert(book@.streams =~= Seq::empty());
        }
        book
    }

    /// Offers one trade print to the sampler.
    pub fn insert_trade(&mut self, timestamp: u64, price: u64, quantity: u64)
        ensures
            final(self)@ == with_trade(old(self)@, (TradeRecord { timestamp, price, quantity })),
            old(self).wf() ==> final(self).wf(),
    {
        self.trades.offer(TradeRecord { timestamp, price, quantity });
    }

    /// Applies one level update to the consolidated book and to the book of
    /// the stream called `stream_name`, which is made on first reference.
    pub fn insert_price_level(
        &mut self,
        stream_name: String,
        is_bid: bool,
        price: u64,
        quantity: u64,
        min_seq_id: u64,
        max_seq_id: u64,
        uncross: bool,
    )
        ensures
            final(self)@ == with_level(
                old(self)@,
                stream_name@,
                (LevelUpdate {
                    is_bid,
                    price,
                    quantity,
                    min_update_id: min_seq_id,
                    max_update_id: max_seq_id,
                    uncross,
                }),
            ),
            old(self).wf() ==> final(self).wf(),
            uncross && quantity != 0 ==> uncrossed(final(self)@.consolidated),
            uncrossed(old(self)@.consolidated) && (uncross || quantity == 0) ==> uncrossed(
                final(self)@.consolidated,
            ),
    {
        let ghost update = LevelUpdate {
            is_bid,
            price,
            quantity,
            min_update_id: min_seq_id,
            max_update_id: max_seq_id,
            uncross,
        };
        let ghost before = self@;
        proof {
            if old(self).wf() {
                lemma_well_formed_kept(before, stream_name@, update);
            }
        }
        let at = self.stream_index(&stream_name);
        self.consolidated.apply_level(is_bid, price, quantity, min_seq_id, max_seq_id, uncross);
        if at == self.per_stream.len() {
            let mut pair = SidePair::new();
            pair.apply_level(is_bid, price, quantity, min_seq_id, max_seq_id, uncross);
            self.per_stream.push(StreamBook { name: stream_name, pair });
        } else {
            self.per_stream[at].pair.apply_level(
                is_bid,
                price,
                quantity,
                min_seq_id,
                max_seq_id,
                uncross,
            );
        }
        proof {
            lemma_position(before.streams, stream_name@);
            assert(final(self)@.streams =~= with_level(before, stream_name@, update).streams);
        }
    }

    /// Where the book of the stream called `name` stands among the
    /// per-stream books; their number where it is not among them.
    fn stream_index(&self, name: &String) -> (at: usize)
        ensures
            at <= self@.streams.len(),
            self@.streams.len() == self.per_stream.len(),
            position(self@.streams, name@) == if at < self@.streams.len() {
                Some(at as int)
            } else {
                None
            },
    {
        let mut at: usize = 0;
        while at < self.per_stream.len() && !(self.per_stream[at].name == *name)
            invariant
                at <= self.per_stream.len(),
                forall|i: int| 0 <= i < at ==> (#[trigger] self@.streams[i]).0 != name@,
            decreases self.per_stream.len() - at,
        {
            at += 1;
        }
        proof {
            if at < self.per_stream.len() {
                lemma_position_found(self@.streams, name@, at as int);
            } else {
                lemma_position(self@.streams, name@);
            }
        }
        at
    }

    /// The snapshot of the state at `depth`; the state is not changed.
    pub fn clone_to_output(&self, depth: usize) -> (output: BookStateOutput)
        ensures
            output@ == output_of(self@, depth as nat),
    {
        let mut depth_stream_state: Vec<StreamDepth> = Vec::new();
        let mut i: usize = 0;
        while i < self.per_stream.len()
            invariant
                i <= self.per_stream.len(),
                depth_stream_state@.len() == i,
                forall|j: int|
                    0 <= j < i ==> (#[trigger] depth_stream_state@[j])@ == stream_depth(
                        self.per_stream@[j].name@,
                        self.per_stream@[j].pair@,
                        depth as nat,
                    ),
            decreases self.per_stream.len() - i,
        {
            let stream = &self.per_stream[i];
            depth_stream_state.push(
                StreamDepth {
                    name: stream.name.clone(),
                    bids: get_bbo(&stream.pair.bids, true, depth),
                    asks: get_bbo(&stream.pair.asks, false, depth),
                },
            );
            i += 1;
        }
        let output = BookStateOutput {
            symbol: "btcusdt".to_string(),
            bids: get_bbo(&self.consolidated.bids, true, depth),
            asks: get_bbo(&self.consolidated.asks, false, depth),
            depth_stream_state,
        };
        proof {
            assert(output@.streams =~= output_of(self@, depth as nat).streams);
        }
        output
    }

    /// Hands out every sampled trade since the last drain and clears the log.
    pub fn drain_trades(&mut self) -> (batch: Vec<TradeRecord>)
        ensures
            batch@ == old(self)@.trades,
            final(self)@ == (BookView {
                consolidated: old(self)@.consolidated,
                streams: old(self)@.streams,
                trades: Seq::empty(),
            }),
            old(self).wf() ==> final(self).wf(),
    {
        let batch = self.trades.drain();
        batch
    }

    /// The consolidated book.
    pub fn consolidated(&self) -> (pair: &SidePair)
        ensures
            pair@ == self@.consolidated,
    {
        &self.consolidated
    }

    /// The book of the stream called `name`, if an update has named it.
    pub fn stream(&self, name: &String) -> (pair: Option<&SidePair>)
        ensures
            pair is Some == position(self@.streams, name@) is Some,
            pair matches Some(found) ==> found@ == stream_sides(self@.streams, name@),
    {
        let at = self.stream_index(name);
        if at < self.per_stream.len() {
            Some(&self.per_stream[at].pair)
        } else {
            None
        }
    }

    /// The number of sampled trades that wait to be drained.
    pub fn pending_trades(&self) -> (n: usize)
        ensures
            n == self@.trades.len(),
    {
        self.trades.len()
    }
}

impl Default for BookState {
    fn default() -> (book: Self)
        ensures
            book@ == empty_book(),
            book.wf(),
    {
        BookState::new()
    }
}

} // verus!
