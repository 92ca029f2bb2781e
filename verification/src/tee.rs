//! The fan-out point: one incoming message is delivered to every registered sink.

use vstd::prelude::*;
use crate::content::{cloned_records, Content};
use crate::map::MapPusher;
use crate::push::{borrowed, Push, PushRef};
use crate::queue::Queue;

verus! {

/// The registry of a tee's sinks: those that only observe messages and those
/// that own what they receive, each list in registration order.
pub struct TeeHelper<R, P> {
    ref_outputs: Vec<R>,
    outputs: Vec<P>,
}

impl<R, P> TeeHelper<R, P> {
    /// The observing sinks, in registration order.
    pub closed spec fn ref_outputs(&self) -> Seq<R> {
        self.ref_outputs@
    }

    /// The owning sinks, in registration order.
    pub closed spec fn outputs(&self) -> Seq<P> {
        self.outputs@
    }

    /// A registry without sinks.
    pub fn new() -> (helper: TeeHelper<R, P>)
        ensures
            helper.ref_outputs() == Seq::<R>::empty(),
            helper.outputs() == Seq::<P>::empty(),
    {
        TeeHelper { ref_outputs: Vec::new(), outputs: Vec::new() }
    }

    /// Registers `pusher` behind every observing sink registered so far.
    pub fn add_ref_pusher(&mut self, pusher: R)
        ensures
            final(self).ref_outputs() == old(self).ref_outputs().push(pusher),
            final(self).outputs() == old(self).outputs(),
    {
        self.ref_outputs.push(pusher);
    }

    /// Registers `pusher` behind every owning sink registered so far.
    pub fn add_pusher(&mut self, pusher: P)
        ensures
            final(self).outputs() == old(self).outputs().push(pusher),
            final(self).ref_outputs() == old(self).ref_outputs(),
    {
        self.outputs.push(pusher);
    }

    /// Gives up the registry for its two lists: observing sinks, then owning sinks.
    pub fn into_lists(self) -> (lists: (Vec<R>, Vec<P>))
        ensures
            lists.0@ == self.ref_outputs(),
            lists.1@ == self.outputs(),
    {
        (self.ref_outputs, self.outputs)
    }
}

/// Forwards every message to all sinks of its registry.
pub struct Tee<D, R, P> {
    buffer: Vec<D>,
    targets: TeeHelper<R, P>,
}

/// Whether `sent` is what the owning sink at position `index` out of `count`
/// is handed for `message`: the closure signal for a closure signal; otherwise
/// a clone of the timestamp together with the batch itself for the last sink
/// and with a record-by-record clone of it for every earlier sink.
pub open spec fn delivers<T: Clone, D: Clone>(
    message: Option<(T, Content<D>)>,
    index: int,
    count: int,
    sent: Option<(T, Content<D>)>,
) -> bool {
    match message {
        None => sent is None,
        Some((time, data)) => {
            &&& sent is Some
            &&& cloned(time, sent.unwrap().0)
            &&& if index + 1 < count {
                cloned_records(data@, sent.unwrap().1@)
            } else {
                sent.unwrap().1 == data
            }
        },
    }
}

impl<D, R, P> Tee<D, R, P> {
    /// The registry whose sinks receive what is pushed.
    pub closed spec fn targets(&self) -> TeeHelper<R, P> {
        self.targets
    }

    /// The records waiting in the scratch buffer that copies are made in.
    pub closed spec fn scratch(&self) -> Seq<D> {
        self.buffer@
    }

    /// A tee over the sinks of `targets`, with an empty scratch buffer of the
    /// default length.
    pub fn new(targets: TeeHelper<R, P>) -> (tee: Tee<D, R, P>)
        ensures
            tee.targets() == targets,
            tee.scratch() == Seq::<D>::empty(),
    {
        Tee { buffer: Vec::with_capacity(Content::<D>::default_length()), targets }
    }

    /// Registers `pusher` behind every observing sink registered so far.
    pub fn add_ref_pusher(&mut self, pusher: R)
        ensures
            final(self).targets().ref_outputs() == old(self).targets().ref_outputs().push(pusher),
            final(self).targets().outputs() == old(self).targets().outputs(),
            final(self).scratch() == old(self).scratch(),
    {
        self.targets.add_ref_pusher(pusher);
    }

    /// Registers `pusher` behind every owning sink registered so far.
    pub fn add_pusher(&mut self, pusher: P)
        ensures
            final(self).targets().outputs() == old(self).targets().outputs().push(pusher),
            final(self).targets().ref_outputs() == old(self).targets().ref_outputs(),
            final(self).scratch() == old(self).scratch(),
    {
        self.targets.add_pusher(pusher);
    }

    /// Gives up the tee for its registry.
    pub fn into_helper(self) -> (targets: TeeHelper<R, P>)
        ensures
            targets == self.targets(),
    {
        self.targets
    }
}

/// Whether some message that `delivers` allows for position `index` out of
/// `count` turns the owning sink `before` into `after`.
pub open spec fn fanned<T: Clone, D: Clone, P: Push<(T, Content<D>)>>(
    before: P,
    after: P,
    message: Option<(T, Content<D>)>,
    index: int,
    count: int,
) -> bool {
    exists|sent: Option<(T, Content<D>)>|
        #[trigger] delivers(message, index, count, sent) && before.pushed(sent, after)
}

impl<T: Clone, D: Clone, R: PushRef<(T, Content<D>)>, P: Push<(T, Content<D>)>> Push<(T, Content<D>)> for Tee<
    D,
    R,
    P,
> {
    /// The scratch buffer is empty, every observing sink can observe the
    /// message, and every owning sink accepts what `delivers` allows for it.
    open spec fn accepts(&self, message: Option<(T, Content<D>)>) -> bool {
        &&& self.scratch().len() == 0
        &&& forall|i: int|
            0 <= i < self.targets().ref_outputs().len() ==> (#[trigger] self.targets().ref_outputs()[i]).accepts_ref(
                borrowed(&message),
            )
        &&& forall|i: int, sent: Option<(T, Content<D>)>|
            0 <= i < self.targets().outputs().len() && #[trigger] delivers(
                message,
                i,
                self.targets().outputs().len() as int,
                sent,
            ) ==> self.targets().outputs()[i].accepts(sent)
    }

    /// Both lists keep their length and order; every observing sink has
    /// observed the message, every owning sink has received what `delivers`
    /// allows for its position, and the scratch buffer is empty again.
    open spec fn pushed(&self, message: Option<(T, Content<D>)>, after: Self) -> bool {
        &&& after.scratch().len() == 0
        &&& after.targets().ref_outputs().len() == self.targets().ref_outputs().len()
        &&& after.targets().outputs().len() == self.targets().outputs().len()
        &&& forall|i: int|
            0 <= i < self.targets().ref_outputs().len() ==> (#[trigger] self.targets().ref_outputs()[i]).pushed_ref(
                borrowed(&message),
                after.targets().ref_outputs()[i],
            )
        &&& forall|i: int|
            0 <= i < self.targets().outputs().len() ==> fanned(
                #[trigger] self.targets().outputs()[i],
                after.targets().outputs()[i],
                message,
                i,
                self.targets().outputs().len() as int,
            )
    }

    /// Shows the message to every observing sink, then hands it to every
    /// owning sink: a copy to each but the last, the batch itself to the last.
    /// A closure signal leaves `None` behind. A message that reached at least
    /// one owning sink leaves its timestamp with an empty batch behind; with
    /// no owning sink the message is left as it was.
    fn push(&mut self, message: &mut Option<(T, Content<D>)>)
        ensures
            *old(message) is None ==> *final(message) is None,
            *old(message) is Some ==> {
                &&& *final(message) is Some
                &&& final(message).unwrap().0 == old(message).unwrap().0
                &&& if old(self).targets().outputs().len() == 0 {
                    final(message).unwrap().1 == old(message).unwrap().1
                } else {
                    final(message).unwrap().1@ == Seq::<D>::empty()
                }
            },
    {
        let observers = self.targets.ref_outputs.len();
        let mut seen: usize = 0;
        while seen < observers
            invariant
                seen <= observers,
                old(self).accepts(*old(message)),
                *message == *old(message),
                self.buffer == old(self).buffer,
                self.targets.outputs == old(self).targets.outputs,
                self.targets.ref_outputs@.len() == observers,
                old(self).targets.ref_outputs@.len() == observers,
                forall|j: int|
                    0 <= j < seen ==> (#[trigger] old(self).targets.ref_outputs@[j]).pushed_ref(
                        borrowed(&*old(message)),
                        self.targets.ref_outputs@[j],
                    ),
                forall|j: int|
                    seen <= j < observers ==> self.targets.ref_outputs@[j] == old(self).targets.ref_outputs@[j],
            decreases observers - seen,
        {
            let view = message.as_ref();
            assert(view == borrowed(&*old(message)));
            assert(old(self).targets().ref_outputs()[seen as int].accepts_ref(borrowed(&*old(message))));
            self.targets.ref_outputs[seen].push_ref(view);
            seen += 1;
        }
        let count = self.targets.outputs.len();
        let ghost observed = self.targets.ref_outputs@;
        let ghost mut sents: Seq<Option<(T, Content<D>)>> = Seq::empty();
        match message.take() {
            Some((time, data)) => {
                let mut typed = data.into_typed();
                let mut index: usize = 0;
                while index < count
                    invariant
                        index <= count,
                        old(self).accepts(*old(message)),
                        *old(message) == Some((time, data)),
                        self.targets.ref_outputs@ == observed,
                        self.buffer@.len() == 0,
                        self.targets.outputs@.len() == count,
                        old(self).targets.outputs@.len() == count,
                        index < count || count == 0 ==> typed == data.records,
                        index == count && count > 0 ==> typed@.len() == 0,
                        sents.len() == index,
                        forall|j: int|
                            0 <= j < index ==> delivers(*old(message), j, count as int, #[trigger] sents[j])
                                && old(self).targets.outputs@[j].pushed(sents[j], self.targets.outputs@[j]),
                        forall|j: int|
                            index <= j < count ==> self.targets.outputs@[j] == old(self).targets.outputs@[j],
                    decreases count - index,
                {
                    let stamp = time.clone();
                    if index < count - 1 {
                        self.buffer.extend_from_slice(typed.as_slice());
                        let ghost sent = Some((stamp, Content { records: self.buffer }));
                        assert(delivers(*old(message), index as int, count as int, sent));
                        assert(self.targets.outputs@[index as int] == old(self).targets().outputs()[index as int]);
                        assert(old(self).targets().outputs()[index as int].accepts(sent));
                        Content::push_at(&mut self.buffer, stamp, &mut self.targets.outputs[index]);
                        proof {
                            sents = sents.push(sent);
                        }
                    } else {
                        let ghost sent = Some((stamp, Content { records: typed }));
                        assert(delivers(*old(message), index as int, count as int, sent));
                        assert(self.targets.outputs@[index as int] == old(self).targets().outputs()[index as int]);
                        assert(old(self).targets().outputs()[index as int].accepts(sent));
                        Content::push_at(&mut typed, stamp, &mut self.targets.outputs[index]);
                        proof {
                            sents = sents.push(sent);
                        }
                    }
                    index += 1;
                }
                let rest = Content::from_typed(&mut typed);
                assert(count == 0 ==> rest == data);
                assert(count > 0 ==> rest@ == Seq::<D>::empty());
                *message = Some((time, rest));
            },
            None => {
                let mut index: usize = 0;
                while index < count
                    invariant
                        index <= count,
                        old(self).accepts(*old(message)),
                        *old(message) is None,
                        *message is None,
                        self.targets.ref_outputs@ == observed,
                        self.buffer@.len() == 0,
                        self.targets.outputs@.len() == count,
                        old(self).targets.outputs@.len() == count,
                        sents.len() == index,
                        forall|j: int|
                            0 <= j < index ==> delivers(*old(message), j, count as int, #[trigger] sents[j])
                                && old(self).targets.outputs@[j].pushed(sents[j], self.targets.outputs@[j]),
                        forall|j: int|
                            index <= j < count ==> self.targets.outputs@[j] == old(self).targets.outputs@[j],
                    decreases count - index,
                {
                    let mut closure: Option<(T, Content<D>)> = None;
                    assert(delivers(*old(message), index as int, count as int, closure));
                    assert(self.targets.outputs@[index as int] == old(self).targets().outputs()[index as int]);
                    assert(old(self).targets().outputs()[index as int].accepts(closure));
                    self.targets.outputs[index].push(&mut closure);
                    proof {
                        sents = sents.push(None);
                    }
                    index += 1;
                }
            },
        }
        proof {
            assert forall|i: int| 0 <= i < old(self).targets().outputs().len() implies fanned(
                #[trigger] old(self).targets().outputs()[i],
                self.targets().outputs()[i],
                *old(message),
                i,
                count as int,
            ) by {
                let sent = sents[i];
                assert(delivers(*old(message), i, count as int, sent) && old(self).targets().outputs()[i].pushed(
                    sent,
                    self.targets().outputs()[i],
                ));
            }
        }
    }
}

/// Fan-out to queues: after one push into a tee, every queue behind it holds
/// what it held before, followed by exactly one delivery, and that delivery is
/// the one `delivers` allows for the queue's position. For a closure signal
/// that is one `None` per queue; for a message it is the batch itself at the
/// last position and a record-by-record clone of it at every other.
pub proof fn lemma_fan_out<T: Clone, D: Clone, R: PushRef<(T, Content<D>)>>(
    before: Tee<D, R, Queue<(T, Content<D>)>>,
    message: Option<(T, Content<D>)>,
    after: Tee<D, R, Queue<(T, Content<D>)>>,
    index: int,
)
    requires
        before.pushed(message, after),
        0 <= index < before.targets().outputs().len(),
    ensures
        after.targets().outputs().len() == before.targets().outputs().len(),
        after.targets().outputs()[index]@.len() == before.targets().outputs()[index]@.len() + 1,
        after.targets().outputs()[index]@.drop_last() == before.targets().outputs()[index]@,
        delivers(
            message,
            index,
            before.targets().outputs().len() as int,
            after.targets().outputs()[index]@.last(),
        ),
{
    let old_queue = before.targets().outputs()[index];
    let new_queue = after.targets().outputs()[index];
    assert(fanned(old_queue, new_queue, message, index, before.targets().outputs().len() as int));
    let sent = choose|sent: Option<(T, Content<D>)>|
        #[trigger] delivers(message, index, before.targets().outputs().len() as int, sent) && old_queue.pushed(
            sent,
            new_queue,
        );
    assert(new_queue@ == old_queue@.push(sent));
    assert(new_queue@.drop_last() =~= old_queue@);
}

/// Closure reaches every observer: after a closure signal is pushed into a tee
/// whose observing sinks are queues, each of them holds one more entry, `None`,
/// behind what it held before.
pub proof fn lemma_closure_observed<T: Clone, D: Clone, P: Push<(T, Content<D>)>>(
    before: Tee<D, Queue<(T, Content<D>)>, P>,
    after: Tee<D, Queue<(T, Content<D>)>, P>,
    index: int,
)
    requires
        before.pushed(None::<(T, Content<D>)>, after),
        0 <= index < before.targets().ref_outputs().len(),
    ensures
        after.targets().ref_outputs().len() == before.targets().ref_outputs().len(),
        after.targets().ref_outputs()[index]@ == before.targets().ref_outputs()[index]@.push(None),
{
    let old_queue = before.targets().ref_outputs()[index];
    let new_queue = after.targets().ref_outputs()[index];
    let closure: Option<(T, Content<D>)> = None;
    assert(old_queue.pushed_ref(borrowed(&closure), new_queue));
    assert(new_queue@ =~= old_queue@.push(None));
}

/// Order is kept: after two pushes into a tee, every queue behind it holds
/// what it held before, then its delivery for the first message, then its
/// delivery for the second.
pub proof fn lemma_order_kept<T: Clone, D: Clone, R: PushRef<(T, Content<D>)>>(
    before: Tee<D, R, Queue<(T, Content<D>)>>,
    first: Option<(T, Content<D>)>,
    between: Tee<D, R, Queue<(T, Content<D>)>>,
    second: Option<(T, Content<D>)>,
    after: Tee<D, R, Queue<(T, Content<D>)>>,
    index: int,
)
    requires
        before.pushed(first, between),
        between.pushed(second, after),
        0 <= index < before.targets().outputs().len(),
    ensures
        after.targets().outputs()[index]@.len() == before.targets().outputs()[index]@.len() + 2,
        after.targets().outputs()[index]@.subrange(0, before.targets().outputs()[index]@.len() as int)
            == before.targets().outputs()[index]@,
        delivers(
            first,
            index,
            before.targets().outputs().len() as int,
            after.targets().outputs()[index]@[before.targets().outputs()[index]@.len() as int],
        ),
        delivers(
            second,
            index,
            before.targets().outputs().len() as int,
            after.targets().outputs()[index]@[before.targets().outputs()[index]@.len() as int + 1],
        ),
{
    lemma_fan_out(before, first, between, index);
    lemma_fan_out(between, second, after, index);
    let start = before.targets().outputs()[index]@;
    let middle = between.targets().outputs()[index]@;
    let end = after.targets().outputs()[index]@;
    assert(middle == end.drop_last());
    assert(start == middle.drop_last());
    assert(end.subrange(0, start.len() as int) =~= start);
    assert(end[start.len() as int] == middle.last());
}

/// Order is kept through a transforming pusher in front of a tee: after two
/// messages are pushed into the pusher, every queue behind the tee holds what
/// it held before, then its delivery for a result of the function on the first
/// message, then its delivery for a result of the function on the second.
pub proof fn lemma_chain_order_kept<
    T: Clone,
    D: Clone,
    D1,
    F: Fn(D1) -> (T, Content<D>),
    R: PushRef<(T, Content<D>)>,
>(
    before: MapPusher<F, Tee<D, R, Queue<(T, Content<D>)>>>,
    first: D1,
    between: MapPusher<F, Tee<D, R, Queue<(T, Content<D>)>>>,
    second: D1,
    after: MapPusher<F, Tee<D, R, Queue<(T, Content<D>)>>>,
    index: int,
)
    requires
        before.pushed(Some(first), between),
        between.pushed(Some(second), after),
        0 <= index < before.pusher.targets().outputs().len(),
    ensures
        after.pusher.targets().outputs()[index]@.len() == before.pusher.targets().outputs()[index]@.len() + 2,
        after.pusher.targets().outputs()[index]@.subrange(
            0,
            before.pusher.targets().outputs()[index]@.len() as int,
        ) == before.pusher.targets().outputs()[index]@,
        exists|one: (T, Content<D>), two: (T, Content<D>)|
            {
                &&& #[trigger] before.func.ensures((first,), one)
                &&& #[trigger] before.func.ensures((second,), two)
                &&& delivers(
                    Some(one),
                    index,
                    before.pusher.targets().outputs().len() as int,
                    after.pusher.targets().outputs()[index]@[before.pusher.targets().outputs()[index]@.len() as int],
                )
                &&& delivers(
                    Some(two),
                    index,
                    before.pusher.targets().outputs().len() as int,
                    after.pusher.targets().outputs()[index]@[before.pusher.targets().outputs()[index]@.len() as int + 1],
                )
            },
{
    let one = choose|one: (T, Content<D>)|
        before.func.ensures((first,), one) && before.pusher.pushed(Some(one), between.pusher);
    let two = choose|two: (T, Content<D>)|
        between.func.ensures((second,), two) && between.pusher.pushed(Some(two), after.pusher);
    lemma_order_kept(before.pusher, Some(one), between.pusher, Some(two), after.pusher, index);
    assert(before.func.ensures((first,), one) && before.func.ensures((second,), two));
}

} // verus!
