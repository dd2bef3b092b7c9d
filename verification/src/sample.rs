use vstd::prelude::*;
use vstd::arithmetic::div_mod::{lemma_div_non_zero, lemma_fundamental_div_mod, lemma_mod_twice};
use crate::measure::Measure;
use crate::midi::{
    AbsMidiEvent, MidiNoteTracker, SinkError, TypedMidiMessage, delivered, feed_all,
    held_after_all,
    lemma_held_after_all_in_parts,
};
use crate::quant::Quant;

verus! {

/// A message placed on the grid.
#[derive(Clone, Copy, PartialEq, Eq, Debug, Structural)]
pub struct QuantMidiEvent {
    pub quant: Quant,
    pub message: TypedMidiMessage,
}

/// The events of a recording, each moved to its nearest quant, in the order
/// in which they were recorded.
pub open spec fn quantized(events: Seq<AbsMidiEvent>, measure: Measure) -> Seq<QuantMidiEvent> {
    Seq::new(
        events.len(),
        |i: int|
            (QuantMidiEvent {
                quant: Quant(measure.quant_of(events[i].timestamp as int) as u32),
                message: events[i].message,
            }),
    )
}

/// The latest timestamp of a recording; 0 for an empty one.
pub open spec fn span_millis(events: Seq<AbsMidiEvent>) -> int
    decreases events.len(),
{
    if events.len() == 0 {
        0
    } else {
        let before = span_millis(events.drop_last());
        if events.last().timestamp > before {
            events.last().timestamp as int
        } else {
            before
        }
    }
}

/// `amount` is the smallest positive number of measures, each `measure_millis`
/// long, that reaches `span`.
pub open spec fn covers(amount: int, span: int, measure_millis: int) -> bool {
    &&& amount >= 1
    &&& amount * measure_millis >= span
    &&& amount > 1 ==> (amount - 1) * measure_millis < span
}

/// The number of measures of `measure_millis` each that a recording of
/// length `span` takes up: one at least, and as many as it takes to reach
/// the span.
pub open spec fn measures_needed(span: int, measure_millis: int) -> int {
    if span <= 0 {
        1
    } else {
        (span - 1) / measure_millis + 1
    }
}

/// The messages among `events` that stand at quant `quant` of a layer
/// `length` quants long, in recorded order. An event's quant counts round
/// the layer: one that stands at or beyond the layer's end belongs to the
/// quant that it reaches when the layer has begun again.
pub open spec fn scheduled(events: Seq<QuantMidiEvent>, quant: int, length: int) -> Seq<
    TypedMidiMessage,
>
    decreases events.len(),
{
    if events.len() == 0 {
        Seq::empty()
    } else if events.last().quant.0 as int % length == quant {
        scheduled(events.drop_last(), quant, length).push(events.last().message)
    } else {
        scheduled(events.drop_last(), quant, length)
    }
}

/// An event is among the messages that stand at its own quant, counted
/// round the layer.
pub proof fn lemma_scheduled_holds_event(events: Seq<QuantMidiEvent>, index: int, length: int)
    requires
        0 <= index < events.len(),
    ensures
        scheduled(events, events[index].quant.0 as int % length, length).contains(
            events[index].message,
        ),
    decreases events.len(),
{
    let quant = events[index].quant.0 as int % length;
    let before = scheduled(events.drop_last(), quant, length);
    if index == events.len() - 1 {
        let all = before.push(events.last().message);
        assert(all[all.len() - 1] == events[index].message);
    } else {
        lemma_scheduled_holds_event(events.drop_last(), index, length);
        let at = choose|at: int| 0 <= at < before.len() && before[at] == events[index].message;
        if events.last().quant.0 as int % length == quant {
            assert(before.push(events.last().message)[at] == events[index].message);
        }
    }
}

/// What a layer plays over the quants after `from` up to and including
/// `to`, quant by quant in rising order.
pub open spec fn range_due(sample: Sample, from: int, to: int) -> Seq<TypedMidiMessage>
    decreases to - from,
{
    if to <= from {
        Seq::empty()
    } else {
        range_due(sample, from, to - 1) + sample.due(to)
    }
}

/// What a whole composition plays over the quants after `from` up to and
/// including `to`: layer after layer, each over the whole range.
pub open spec fn composition_due(composition: Seq<Sample>, from: int, to: int) -> Seq<
    TypedMidiMessage,
>
    decreases composition.len(),
{
    if composition.len() == 0 {
        Seq::empty()
    } else {
        composition_due(composition.drop_last(), from, to) + range_due(composition.last(), from, to)
    }
}

/// Playing a range of quants is playing its earlier part and then its later
/// part: no quant is left out and none comes before an earlier one.
pub proof fn lemma_range_due_splits(sample: Sample, from: int, mid: int, to: int)
    requires
        from <= mid <= to,
    ensures
        range_due(sample, from, to) == range_due(sample, from, mid) + range_due(sample, mid, to),
    decreases to - mid,
{
    if to == mid {
        assert(range_due(sample, from, mid) + range_due(sample, mid, to) =~= range_due(
            sample,
            from,
            mid,
        ));
    } else {
        lemma_range_due_splits(sample, from, mid, to - 1);
        assert(range_due(sample, from, mid) + (range_due(sample, mid, to - 1) + sample.due(to))
            =~= (range_due(sample, from, mid) + range_due(sample, mid, to - 1)) + sample.due(to));
    }
}

/// Over a single quant a layer plays what is due at that quant.
pub proof fn lemma_range_due_of_one_quant(sample: Sample, quant: int)
    ensures
        range_due(sample, quant - 1, quant) == sample.due(quant),
{
    assert(range_due(sample, quant - 1, quant - 1) =~= Seq::<TypedMidiMessage>::empty());
    assert(Seq::<TypedMidiMessage>::empty() + sample.due(quant) =~= sample.due(quant));
}

/// Over five quants a layer plays what is due at each of the five, the
/// earliest first.
pub proof fn lemma_five_quants_in_order(sample: Sample, from: int)
    ensures
        range_due(sample, from, from + 5) == sample.due(from + 1) + sample.due(from + 2)
            + sample.due(from + 3) + sample.due(from + 4) + sample.due(from + 5),
{
    lemma_range_due_of_one_quant(sample, from + 1);
    lemma_range_due_splits(sample, from, from + 1, from + 2);
    lemma_range_due_of_one_quant(sample, from + 2);
    lemma_range_due_splits(sample, from, from + 2, from + 3);
    lemma_range_due_of_one_quant(sample, from + 3);
    lemma_range_due_splits(sample, from, from + 3, from + 4);
    lemma_range_due_of_one_quant(sample, from + 4);
    lemma_range_due_splits(sample, from, from + 4, from + 5);
    lemma_range_due_of_one_quant(sample, from + 5);
}

/// One layer of a composition: a recording on the grid, which loops over a
/// whole number of measures.
pub struct Sample {
    /// The recorded messages, each at its quant, in recorded order.
    pub events: Vec<QuantMidiEvent>,
    /// The length of the layer in measures.
    pub amount_of_measures: u32,
    /// The tempo and grid at which the layer is played.
    pub measure: Measure,
}

impl Sample {
    /// The layer is at least one measure long and its measure is playable.
    pub open spec fn well_formed(&self) -> bool {
        &&& self.amount_of_measures >= 1
        &&& self.measure.playable()
    }

    /// The layer holds the recording `events`, placed on the grid of `measure`.
    pub open spec fn is_recording_of(&self, events: Seq<AbsMidiEvent>, measure: Measure) -> bool {
        &&& self.events@ == quantized(events, measure)
        &&& covers(self.amount_of_measures as int, span_millis(events), measure.measure_millis())
        &&& self.measure == measure
    }

    /// The number of quants after which the layer repeats.
    pub open spec fn length_in_quants(&self) -> int {
        self.amount_of_measures * (self.measure.measure_millis() / self.measure.quant_millis())
    }

    /// The messages that the layer plays at quant `quant` of the
    /// composition: those that stand at that quant, counted round the layer.
    pub open spec fn due(&self, quant: int) -> Seq<TypedMidiMessage> {
        scheduled(self.events@, quant % self.length_in_quants(), self.length_in_quants())
    }

    /// No event of a layer is lost: each is played at its own quant, and so
    /// once in every round of the layer, at whatever tempo.
    pub proof fn lemma_every_event_is_due(&self, index: int)
        requires
            self.well_formed(),
            0 <= index < self.events@.len(),
        ensures
            self.due(self.events@[index].quant.0 as int).contains(self.events@[index].message),
            0 <= self.events@[index].quant.0 as int % self.length_in_quants()
                < self.length_in_quants(),
            self.due(self.events@[index].quant.0 as int % self.length_in_quants()).contains(
                self.events@[index].message,
            ),
    {
        self.lemma_length_positive();
        let length = self.length_in_quants();
        let quant = self.events@[index].quant.0 as int;
        lemma_scheduled_holds_event(self.events@, index, length);
        lemma_mod_twice(quant, length);
    }

    /// A well-formed layer has a positive length that fits in 64 bits.
    pub proof fn lemma_length_positive(&self)
        requires
            self.well_formed(),
        ensures
            1 <= self.length_in_quants() <= 0xffff_ffff * 0xffff_ffff,
            1 <= self.measure.measure_millis() / self.measure.quant_millis() <= 0xffff_ffff,
    {
        self.measure.lemma_quant_within_measure();
        let mm = self.measure.measure_millis();
        let qm = self.measure.quant_millis();
        lemma_div_non_zero(mm, qm);
        lemma_fundamental_div_mod(mm, qm);
        let per = mm / qm;
        assert(per <= mm) by (nonlinear_arith)
            requires
                mm == qm * per + mm % qm,
                0 <= mm % qm,
                qm >= 1,
                per >= 1,
        ;
        assert(1 <= self.amount_of_measures * per <= 0xffff_ffff * 0xffff_ffff)
            by (nonlinear_arith)
            requires
                1 <= self.amount_of_measures <= 0xffff_ffff,
                1 <= per <= 0xffff_ffff,
        ;
    }

    /// Builds a layer from a recording: every event goes to its nearest
    /// quant, and the layer is as many measures long as the recording needs.
    /// An event close to the end of the last measure may go to the quant at
    /// which the layer ends; it is played when the layer begins again.
    pub fn new(events: &Vec<AbsMidiEvent>, measure: &Measure) -> (r: Sample)
        requires
            measure.playable(),
        ensures
            r.is_recording_of(events@, *measure),
            r.well_formed(),
            r.amount_of_measures == measures_needed(span_millis(events@), measure.measure_millis()),
    {
        let mut placed: Vec<QuantMidiEvent> = Vec::new();
        let mut span: u32 = 0;
        let mut i: usize = 0;
        assert(events@.take(0) =~= Seq::empty());
        while i < events.len()
            invariant
                measure.playable(),
                0 <= i <= events@.len(),
                placed@ == quantized(events@.take(i as int), *measure),
                span == span_millis(events@.take(i as int)),
            decreases events@.len() - i,
        {
            let event = events[i];
            let quant = measure.timestamp_to_quant(event.timestamp);
            placed.push(QuantMidiEvent { quant, message: event.message });
            if event.timestamp > span {
                span = event.timestamp;
            }
            proof {
                assert(events@.take(i + 1).drop_last() =~= events@.take(i as int));
                assert(events@.take(i + 1).last() == event);
                assert(placed@ =~= quantized(events@.take(i + 1), *measure));
            }
            i = i + 1;
        }
        assert(events@.take(i as int) =~= events@);
        proof {
            measure.lemma_quant_within_measure();
        }
        let size: u32 = measure.measure_size_millis();
        let amount: u32 = if span == 0 {
            1
        } else {
            proof {
                lemma_covering_amount(span as int, size as int);
            }
            (span - 1) / size + 1
        };
        assert(covers(amount as int, span as int, size as int)) by {
            if span == 0 {
                assert(1 * size >= 0);
            } else {
                lemma_covering_amount(span as int, size as int);
            }
        }
        Sample { events: placed, amount_of_measures: amount, measure: *measure }
    }

    /// The messages that the layer plays at quant `quant` of the composition,
    /// in recorded order.
    pub fn messages_due(&self, quant: Quant) -> (r: Vec<TypedMidiMessage>)
        requires
            self.well_formed(),
        ensures
            r@ == self.due(quant.0 as int),
    {
        proof {
            self.lemma_length_positive();
        }
        let per_measure: u32 = self.measure.measure_size_millis() / self.measure.quant_size_millis();
        let length: u64 = (self.amount_of_measures as u64) * (per_measure as u64);
        let local: u64 = (quant.0 as u64) % length;
        let mut due: Vec<TypedMidiMessage> = Vec::new();
        let mut i: usize = 0;
        assert(self.events@.take(0) =~= Seq::empty());
        while i < self.events.len()
            invariant
                0 <= i <= self.events@.len(),
                length == self.length_in_quants(),
                length >= 1,
                due@ == scheduled(self.events@.take(i as int), local as int, length as int),
            decreases self.events@.len() - i,
        {
            let event = self.events[i];
            proof {
                assert(self.events@.take(i + 1).drop_last() =~= self.events@.take(i as int));
                assert(self.events@.take(i + 1).last() == event);
            }
            if (event.quant.0 as u64) % length == local {
                due.push(event.message);
            }
            i = i + 1;
        }
        assert(self.events@.take(i as int) =~= self.events@);
        due
    }

    /// Plays quant `quant` of the composition into `sink`: the layer's
    /// messages due then, in recorded order, up to and including the first
    /// that the sink fails to deliver.
    pub fn replay_quant<T: MidiNoteTracker>(&self, quant: Quant, sink: &mut T) -> (r: Result<
        (),
        SinkError,
    >)
        requires
            self.well_formed(),
            old(sink).well_formed(),
        ensures
            final(sink).well_formed(),
            delivered(old(sink), final(sink), self.due(quant.0 as int), r is Ok),
    {
        let due = self.messages_due(quant);
        feed_all(sink, &due)
    }

    /// Moves the layer to another tempo. Its messages stay at their quants
    /// and it stays as many measures long; only the pace changes.
    pub fn update_measure(&mut self, new_measure: &Measure)
        requires
            old(self).well_formed(),
            new_measure.playable(),
        ensures
            final(self).measure == *new_measure,
            final(self).events == old(self).events,
            final(self).amount_of_measures == old(self).amount_of_measures,
            final(self).well_formed(),
    {
        self.measure = *new_measure;
    }
}

/// What the first `count` layers of a composition play over a range is the
/// beginning of what the whole composition plays; the rest is returned.
pub proof fn lemma_composition_due_begins(
    composition: Seq<Sample>,
    count: int,
    from: int,
    to: int,
) -> (rest: Seq<TypedMidiMessage>)
    requires
        0 <= count <= composition.len(),
    ensures
        composition_due(composition, from, to) == composition_due(
            composition.take(count),
            from,
            to,
        ) + rest,
    decreases composition.len(),
{
    if count == composition.len() {
        assert(composition.take(count) =~= composition);
        let rest = Seq::<TypedMidiMessage>::empty();
        assert(composition_due(composition, from, to) + rest =~= composition_due(
            composition,
            from,
            to,
        ));
        rest
    } else {
        let inner = lemma_composition_due_begins(composition.drop_last(), count, from, to);
        assert(composition.drop_last().take(count) =~= composition.take(count));
        let rest = inner + range_due(composition.last(), from, to);
        assert(composition_due(composition.take(count), from, to) + rest =~= (composition_due(
            composition.take(count),
            from,
            to,
        ) + inner) + range_due(composition.last(), from, to));
        rest
    }
}

/// Plays a composition over the quants after `from` up to and including
/// `to`: layer after layer, each quant by quant in rising order, up to and
/// including the first message that the sink fails to deliver.
pub fn replay_range<T: MidiNoteTracker>(
    composition: &Vec<Sample>,
    from: Quant,
    to: Quant,
    sink: &mut T,
) -> (r: Result<(), SinkError>)
    requires
        forall|i: int| 0 <= i < composition@.len() ==> (#[trigger] composition@[i]).well_formed(),
        old(sink).well_formed(),
    ensures
        final(sink).well_formed(),
        delivered(
            old(sink),
            final(sink),
            composition_due(composition@, from.0 as int, to.0 as int),
            r is Ok,
        ),
{
    let ghost fed_before = sink.fed();
    let ghost held_before = sink.held();
    let ghost first = from.0 as int;
    let ghost last = to.0 as int;
    let ghost total = composition_due(composition@, first, last);
    let mut layer: usize = 0;
    assert(composition@.take(0) =~= Seq::<Sample>::empty());
    assert(fed_before + Seq::<TypedMidiMessage>::empty() =~= fed_before);
    while layer < composition.len()
        invariant
            forall|i: int|
                0 <= i < composition@.len() ==> (#[trigger] composition@[i]).well_formed(),
            sink.well_formed(),
            fed_before == old(sink).fed(),
            held_before == old(sink).held(),
            first == from.0,
            last == to.0,
            total == composition_due(composition@, first, last),
            0 <= layer <= composition@.len(),
            sink.fed() == fed_before + composition_due(composition@.take(layer as int), first, last),
            sink.held() == held_after_all(
                held_before,
                composition_due(composition@.take(layer as int), first, last),
            ),
        decreases composition@.len() - layer,
    {
        let ghost played = composition_due(composition@.take(layer as int), first, last);
        let ghost sample = composition@[layer as int];
        let mut quant: u32 = from.0;
        assert(played + range_due(sample, first, first) =~= played);
        while quant < to.0
            invariant
                forall|i: int|
                    0 <= i < composition@.len() ==> (#[trigger] composition@[i]).well_formed(),
                sink.well_formed(),
                fed_before == old(sink).fed(),
                held_before == old(sink).held(),
                first == from.0,
                last == to.0,
                total == composition_due(composition@, first, last),
                0 <= layer < composition@.len(),
                sample == composition@[layer as int],
                quant == first || first < quant <= last,
                played == composition_due(composition@.take(layer as int), first, last),
                sink.fed() == fed_before + (played + range_due(sample, first, quant as int)),
                sink.held() == held_after_all(
                    held_before,
                    played + range_due(sample, first, quant as int),
                ),
            decreases to.0 - quant,
        {
            let ghost sent = played + range_due(sample, first, quant as int);
            let ghost fed_so_far = sink.fed();
            let ghost held_so_far = sink.held();
            quant = quant + 1;
            let ghost due = sample.due(quant as int);
            assert(sample.well_formed());
            let played_quant = composition[layer].replay_quant(Quant(quant), sink);
            proof {
                assert(played + range_due(sample, first, quant as int) =~= sent + due);
            }
            match played_quant {
                Ok(()) => {
                    proof {
                        lemma_held_after_all_in_parts(held_before, sent, due);
                        assert(fed_so_far + due =~= fed_before + (sent + due));
                    }
                },
                Err(e) => {
                    proof {
                        let n = choose|n: int|
                            0 <= n < due.len() && sink.fed() == fed_so_far + #[trigger] due.take(n)
                                && sink.held() == held_after_all(held_so_far, due.take(n + 1));
                        lemma_range_due_splits(sample, first, quant as int, last);
                        let upto = composition@.take(layer + 1);
                        assert(upto.drop_last() =~= composition@.take(layer as int));
                        assert(upto.last() == sample);
                        let rest = lemma_composition_due_begins(composition@, layer + 1, first, last);
                        let tail = range_due(sample, quant as int, last) + rest;
                        assert(total =~= (sent + due) + tail);
                        let m = sent.len() + n;
                        assert(total.take(m) =~= sent + due.take(n));
                        assert(total.take(m + 1) =~= sent + due.take(n + 1));
                        lemma_held_after_all_in_parts(held_before, sent, due.take(n + 1));
                        assert(fed_so_far + due.take(n) =~= fed_before + total.take(m));
                    }
                    return Err(e);
                },
            }
        }
        proof {
            let upto = composition@.take(layer + 1);
            assert(upto.drop_last() =~= composition@.take(layer as int));
            assert(upto.last() == sample);
            assert(range_due(sample, first, quant as int) == range_due(sample, first, last));
        }
        layer = layer + 1;
    }
    assert(composition@.take(layer as int) =~= composition@);
    Ok(())
}

/// For a positive span, one more than the whole measures before its last
/// millisecond is the smallest number of measures that reaches it, and it is
/// no larger than the span.
pub proof fn lemma_covering_amount(span: int, size: int)
    requires
        span >= 1,
        size >= 1,
    ensures
        covers((span - 1) / size + 1, span, size),
        0 <= (span - 1) / size < span,
{
    let k = (span - 1) / size;
    lemma_fundamental_div_mod(span - 1, size);
    assert(0 <= (span - 1) % size < size);
    assert(0 <= k < span && (k + 1) * size >= span && k * size < span) by (nonlinear_arith)
        requires
            span - 1 == size * k + (span - 1) % size,
            0 <= (span - 1) % size < size,
            span >= 1,
            size >= 1,
    ;
}

} // verus!
