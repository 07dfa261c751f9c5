//! The single consumer of the channel: it counts what it is handed and, in
//! materialising mode, keeps it.

use vstd::prelude::*;

verus! {

/// What the aggregator does with a message once it has counted it.
#[derive(Clone, Copy, Debug, PartialEq, Eq, Structural)]
pub enum AggregationMode {
    /// Count only, for diagnostics: the message is dropped.
    CountOnly,
    /// Keep every message, in the order of arrival, for the sink.
    Materialize,
}

/// What an aggregator is, mathematically: its mode, every message it was handed so
/// far, oldest first (kept or not), and whether it has handed its collection over.
pub struct AggregatorView<M> {
    pub mode: AggregationMode,
    pub seen: Seq<M>,
    pub delivered: bool,
}

impl<M> AggregatorView<M> {
    /// An aggregator that was handed nothing yet.
    pub open spec fn init(mode: AggregationMode) -> Self {
        AggregatorView { mode, seen: Seq::empty(), delivered: false }
    }

    /// The messages the aggregator holds: in materialising mode all it has seen,
    /// until it hands them over.
    pub open spec fn kept(self) -> Seq<M> {
        if self.mode == AggregationMode::Materialize && !self.delivered {
            self.seen
        } else {
            Seq::empty()
        }
    }

    /// The aggregator after it was handed `message`.
    pub open spec fn collected(self, message: M) -> Self {
        AggregatorView { seen: self.seen.push(message), ..self }
    }

    /// The aggregator after it has handed its collection over.
    pub open spec fn handed_over(self) -> Self {
        AggregatorView { delivered: true, ..self }
    }
}

pub struct Aggregator<M> {
    mode: AggregationMode,
    count: u128,
    messages: Vec<M>,
    delivered: bool,
    seen: Ghost<Seq<M>>,
}

impl<M> View for Aggregator<M> {
    type V = AggregatorView<M>;

    closed spec fn view(&self) -> AggregatorView<M> {
        AggregatorView { mode: self.mode, seen: self.seen@, delivered: self.delivered }
    }
}

impl<M> Aggregator<M> {
    /// The count and the kept messages agree with what was handed in.
    pub closed spec fn wf(&self) -> bool {
        &&& self.count == self.seen@.len()
        &&& (self.mode == AggregationMode::Materialize && !self.delivered) ==> self.messages@
            == self.seen@
    }

    /// An aggregator that has seen nothing yet.
    pub fn new(mode: AggregationMode) -> (aggregator: Self)
        ensures
            aggregator.wf(),
            aggregator@ == AggregatorView::<M>::init(mode),
    {
        Aggregator {
            mode,
            count: 0,
            messages: Vec::new(),
            delivered: false,
            seen: Ghost(Seq::empty()),
        }
    }

    /// Takes one message: counts it, and keeps it in materialising mode as long as
    /// the collection was not handed over.
    pub fn collect(&mut self, message: M)
        requires
            old(self).wf(),
            old(self)@.seen.len() < u128::MAX,
        ensures
            final(self).wf(),
            final(self)@ == old(self)@.collected(message),
    {
        self.seen = Ghost(self.seen@.push(message));
        self.count = self.count + 1;
        match self.mode {
            AggregationMode::Materialize => {
                if !self.delivered {
                    self.messages.push(message);
                }
            },
            AggregationMode::CountOnly => {},
        }
    }

    /// How many messages were handed in.
    pub fn count(&self) -> (n: u128)
        requires
            self.wf(),
        ensures
            n == self@.seen.len(),
    {
        self.count
    }

    /// The mode the aggregator was made with.
    pub fn mode(&self) -> (mode: AggregationMode)
        ensures
            mode == self@.mode,
    {
        self.mode
    }

    /// Hands the collection over: every message seen, oldest first, the first time
    /// this is called in materialising mode; nothing otherwise. The count stays.
    pub fn hand_over(&mut self) -> (messages: Vec<M>)
        requires
            old(self).wf(),
        ensures
            final(self).wf(),
            final(self)@ == old(self)@.handed_over(),
            messages@ == old(self)@.kept(),
    {
        let mut out: Vec<M> = Vec::new();
        match self.mode {
            AggregationMode::Materialize => {
                if !self.delivered {
                    std::mem::swap(&mut self.messages, &mut out);
                }
            },
            AggregationMode::CountOnly => {},
        }
        self.delivered = true;
        out
    }
}

} // verus!
