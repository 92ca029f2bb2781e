//! Batches of records, and the buffer discipline that lets one allocation
//! serve many deliveries.

use vstd::prelude::*;
use crate::push::Push;

verus! {

/// An ordered batch of records that travel together under one timestamp.
pub struct Content<D> {
    pub records: Vec<D>,
}

impl<D> View for Content<D> {
    type V = Seq<D>;

    open spec fn view(&self) -> Seq<D> {
        self.records@
    }
}

impl<D> Content<D> {
    /// The number of records a freshly allocated buffer makes room for.
    pub fn default_length() -> (n: usize)
        ensures
            n == 1024,
    {
        1024
    }

    /// Moves the records out of `typed` into a new batch; `typed` is left empty.
    pub fn from_typed(typed: &mut Vec<D>) -> (content: Content<D>)
        ensures
            content.records == *old(typed),
            final(typed)@ == Seq::<D>::empty(),
    {
        let mut records: Vec<D> = Vec::new();
        std::mem::swap(typed, &mut records);
        Content { records }
    }

    /// Gives up the batch for its records.
    pub fn into_typed(self) -> (typed: Vec<D>)
        ensures
            typed == self.records,
    {
        self.records
    }

    /// The number of records in the batch.
    pub fn len(&self) -> (n: usize)
        ensures
            n == self@.len(),
    {
        self.records.len()
    }

    /// The records, in order.
    pub fn as_slice(&self) -> (records: &[D])
        ensures
            records@ == self@,
    {
        self.records.as_slice()
    }

    /// Installs `other` as the batch's records and returns the previous ones.
    pub fn replace_with(&mut self, other: Vec<D>) -> (previous: Vec<D>)
        ensures
            previous == old(self).records,
            final(self).records == other,
    {
        let mut other = other;
        std::mem::swap(&mut self.records, &mut other);
        other
    }

    /// Moves the records out and leaves the batch empty.
    pub fn take_contents(&mut self) -> (previous: Vec<D>)
        ensures
            previous == old(self).records,
            final(self)@ == Seq::<D>::empty(),
    {
        self.replace_with(Vec::new())
    }

    /// Sends the records in `buffer` to `pusher` as one batch at `time`, then
    /// makes `buffer` ready for the next batch: if the sink left the batch
    /// behind, its storage is cleared and kept, otherwise a fresh buffer of the
    /// default length is allocated.
    pub fn push_at<T, P: Push<(T, Content<D>)>>(buffer: &mut Vec<D>, time: T, pusher: &mut P)
        requires
            old(pusher).accepts(Some((time, Content { records: *old(buffer) }))),
        ensures
            old(pusher).pushed(Some((time, Content { records: *old(buffer) })), *final(pusher)),
            final(buffer)@ == Seq::<D>::empty(),
    {
        let data = Content::from_typed(buffer);
        let mut message = Some((time, data));
        pusher.push(&mut message);
        match message {
            Some((_, content)) => {
                let mut typed = content.into_typed();
                typed.clear();
                *buffer = typed;
            },
            None => {
                *buffer = Vec::with_capacity(Content::<D>::default_length());
            },
        }
    }
}

impl<D: Clone> Content<D> {
    /// Appends a clone of every record of `other`, in order.
    pub fn extend_from(&mut self, other: &[D])
        ensures
            final(self)@.len() == old(self)@.len() + other@.len(),
            forall|i: int| 0 <= i < old(self)@.len() ==> final(self)@[i] == old(self)@[i],
            forall|i: int|
                0 <= i < other@.len() ==> cloned(other@[i], #[trigger] final(self)@[old(self)@.len() + i]),
    {
        self.records.extend_from_slice(other);
    }
}

impl<D: Clone> Clone for Content<D> {
    /// A batch of its own with a clone of every record, in order.
    fn clone(&self) -> (copy: Content<D>)
        ensures
            cloned_records(self@, copy@),
    {
        Content { records: self.records.clone() }
    }
}

/// Whether `copy` holds a clone of each record of `source`, in the same order.
pub open spec fn cloned_records<D: Clone>(source: Seq<D>, copy: Seq<D>) -> bool {
    &&& copy.len() == source.len()
    &&& forall|i: int| 0 <= i < source.len() ==> cloned(source[i], #[trigger] copy[i])
}

} // verus!
