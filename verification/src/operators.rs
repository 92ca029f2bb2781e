//! Record-level combinators: the transformation of one batch, and the pusher
//! that applies it to every message on its way to a downstream sink.

use vstd::prelude::*;
use crate::content::Content;
use crate::map::MapPusher;
use crate::push::Push;
use crate::queue::Queue;

verus! {

/// Whether `logic` may be called on every record of `source`.
pub open spec fn maps_all<D, D2, L: Fn(D) -> D2>(logic: &L, source: Seq<D>) -> bool {
    forall|j: int| 0 <= j < source.len() ==> logic.requires((#[trigger] source[j],))
}

/// Whether `result` holds, position by position, a value that `logic` returns
/// for the record of `source` at that position.
pub open spec fn mapped<D, D2, L: Fn(D) -> D2>(logic: &L, source: Seq<D>, result: Seq<D2>) -> bool {
    &&& result.len() == source.len()
    &&& forall|j: int| 0 <= j < source.len() ==> logic.ensures((source[j],), #[trigger] result[j])
}

/// Whether `logic` may be called on a borrow of every record of `source`.
pub open spec fn maps_all_ref<D, D2, L: Fn(&D) -> D2>(logic: &L, source: Seq<D>) -> bool {
    forall|j: int| 0 <= j < source.len() ==> logic.requires((&#[trigger] source[j],))
}

/// Whether `result` holds, position by position, a value that `logic` returns
/// for a borrow of the record of `source` at that position.
pub open spec fn mapped_ref<D, D2, L: Fn(&D) -> D2>(logic: &L, source: Seq<D>, result: Seq<D2>) -> bool {
    &&& result.len() == source.len()
    &&& forall|j: int| 0 <= j < source.len() ==> logic.ensures((&source[j],), #[trigger] result[j])
}

/// The records of all `parts`, one part after the other.
pub open spec fn concat<D>(parts: Seq<Vec<D>>) -> Seq<D>
    decreases parts.len(),
{
    if parts.len() == 0 {
        Seq::empty()
    } else {
        concat(parts.drop_last()) + parts.last()@
    }
}

/// The number of records in all `parts` together.
pub open spec fn total_len<D>(parts: Seq<Vec<D>>) -> nat
    decreases parts.len(),
{
    if parts.len() == 0 {
        0
    } else {
        total_len(parts.drop_last()) + parts.last()@.len()
    }
}

/// Concatenation keeps every record: its length is the sum of the parts' lengths.
pub proof fn lemma_concat_len<D>(parts: Seq<Vec<D>>)
    ensures
        concat(parts).len() == total_len(parts),
    decreases parts.len(),
{
    if parts.len() > 0 {
        lemma_concat_len(parts.drop_last());
    }
}

/// Concatenation keeps the order: the records of the part at `index` stand
/// together, in their own order, right behind those of all earlier parts.
pub proof fn lemma_concat_order<D>(parts: Seq<Vec<D>>, index: int, offset: int)
    requires
        0 <= index < parts.len(),
        0 <= offset < parts[index]@.len(),
    ensures
        total_len(parts.take(index)) + offset < concat(parts).len(),
        concat(parts)[total_len(parts.take(index)) + offset] == parts[index]@[offset],
    decreases parts.len(),
{
    lemma_concat_len(parts);
    lemma_concat_len(parts.drop_last());
    if index == parts.len() - 1 {
        assert(parts.take(index) =~= parts.drop_last());
    } else {
        lemma_concat_order(parts.drop_last(), index, offset);
        assert(parts.drop_last().take(index) =~= parts.take(index));
    }
}

/// The same records, last first.
fn reversed<D>(records: Vec<D>) -> (turned: Vec<D>)
    ensures
        turned@.len() == records@.len(),
        forall|j: int| 0 <= j < records@.len() ==> turned@[j] == records@[records@.len() - 1 - j],
{
    let mut rest = records;
    let mut turned: Vec<D> = Vec::new();
    while rest.len() > 0
        invariant
            turned@.len() + rest@.len() == records@.len(),
            forall|j: int| 0 <= j < rest@.len() ==> rest@[j] == records@[j],
            forall|j: int| 0 <= j < turned@.len() ==> turned@[j] == records@[records@.len() - 1 - j],
        decreases rest@.len(),
    {
        match rest.pop() {
            Some(record) => {
                turned.push(record);
            },
            None => {},
        }
    }
    turned
}

/// Applies `logic` to every record of the batch, in order, and collects the
/// results in a new batch of the same length.
pub fn map_records<D, D2, L: Fn(D) -> D2>(data: Content<D>, logic: &L) -> (result: Content<D2>)
    requires
        maps_all(logic, data@),
    ensures
        mapped(logic, data@, result@),
{
    let mut rest = reversed(data.into_typed());
    let mut out: Vec<D2> = Vec::new();
    while rest.len() > 0
        invariant
            maps_all(logic, data@),
            out@.len() + rest@.len() == data@.len(),
            forall|j: int| 0 <= j < rest@.len() ==> rest@[j] == data@[data@.len() - 1 - j],
            forall|j: int| 0 <= j < out@.len() ==> logic.ensures((data@[j],), #[trigger] out@[j]),
        decreases rest@.len(),
    {
        match rest.pop() {
            Some(record) => {
                assert(record == data@[out@.len() as int]);
                let made = logic(record);
                out.push(made);
            },
            None => {},
        }
    }
    Content::from_typed(&mut out)
}

/// Applies `logic` to a borrow of every record of the batch, in order, and
/// collects the results in a new batch of the same length.
pub fn map_records_ref<D, D2, L: Fn(&D) -> D2>(data: &Content<D>, logic: &L) -> (result: Content<D2>)
    requires
        maps_all_ref(logic, data@),
    ensures
        mapped_ref(logic, data@, result@),
{
    let mut out: Vec<D2> = Vec::new();
    let mut index: usize = 0;
    while index < data.records.len()
        invariant
            maps_all_ref(logic, data@),
            index <= data@.len(),
            out@.len() == index,
            forall|j: int| 0 <= j < index ==> logic.ensures((&data@[j],), #[trigger] out@[j]),
        decreases data@.len() - index,
    {
        assert(logic.requires((&data@[index as int],)));
        let made = logic(&data.records[index]);
        out.push(made);
        index += 1;
    }
    Content::from_typed(&mut out)
}

/// Applies `logic` to every record of the batch, in order, and strings the
/// records it returns together in one new batch.
pub fn flat_map_records<D, D2, L: Fn(D) -> Vec<D2>>(data: Content<D>, logic: &L) -> (result: Content<D2>)
    requires
        maps_all(logic, data@),
    ensures
        exists|parts: Seq<Vec<D2>>| #[trigger] mapped(logic, data@, parts) && result@ == concat(parts),
{
    let mut rest = reversed(data.into_typed());
    let mut out: Vec<D2> = Vec::new();
    let ghost mut parts: Seq<Vec<D2>> = Seq::empty();
    while rest.len() > 0
        invariant
            maps_all(logic, data@),
            parts.len() + rest@.len() == data@.len(),
            forall|j: int| 0 <= j < rest@.len() ==> rest@[j] == data@[data@.len() - 1 - j],
            forall|j: int| 0 <= j < parts.len() ==> logic.ensures((data@[j],), #[trigger] parts[j]),
            out@ == concat(parts),
        decreases rest@.len(),
    {
        match rest.pop() {
            Some(record) => {
                assert(record == data@[parts.len() as int]);
                let mut made = logic(record);
                proof {
                    assert(parts.push(made).drop_last() =~= parts);
                    parts = parts.push(made);
                }
                out.append(&mut made);
            },
            None => {},
        }
    }
    assert(mapped(logic, data@, parts));
    Content::from_typed(&mut out)
}

/// A pusher that hands every batch to `logic` and forwards what it returns,
/// under the timestamp the batch came with, to `targets`.
pub fn map_batch<T, D, D2, L: Fn(Content<D>) -> Content<D2>, P: Push<(T, Content<D2>)>>(
    logic: L,
    targets: P,
) -> (mapper: MapPusher<impl Fn((T, Content<D>)) -> (T, Content<D2>), P>)
    ensures
        mapper.pusher == targets,
        forall|m: (T, Content<D>)| logic.requires((m.1,)) ==> #[trigger] mapper.func.requires((m,)),
        forall|m: (T, Content<D>), o: (T, Content<D2>)| #[trigger]
            mapper.func.ensures((m,), o) ==> o.0 == m.0 && logic.ensures((m.1,), o.1),
{
    let func = move |m: (T, Content<D>)| -> (o: (T, Content<D2>))
        requires
            batch_applies(&logic, m.1),
        ensures
            o.0 == m.0 && batch_yields(&logic, m.1, o.1),
        { (m.0, logic(m.1)) };
    MapPusher::new(func, targets)
}

/// Whether `logic` may be called on `data`.
pub open spec fn batch_applies<D, D2, L: Fn(Content<D>) -> Content<D2>>(logic: &L, data: Content<D>) -> bool {
    logic.requires((data,))
}

/// Whether `logic` may return `result` for `data`.
pub open spec fn batch_yields<D, D2, L: Fn(Content<D>) -> Content<D2>>(
    logic: &L,
    data: Content<D>,
    result: Content<D2>,
) -> bool {
    logic.ensures((data,), result)
}

/// A pusher that replaces every record of every batch by what `logic` returns
/// for it and forwards the batch, timestamp unchanged, to `targets`.
pub fn map<T, D, D2, L: Fn(D) -> D2, P: Push<(T, Content<D2>)>>(logic: L, targets: P) -> (mapper: MapPusher<
    impl Fn((T, Content<D>)) -> (T, Content<D2>),
    P,
>)
    ensures
        mapper.pusher == targets,
        forall|m: (T, Content<D>)| maps_all(&logic, m.1@) ==> #[trigger] mapper.func.requires((m,)),
        forall|m: (T, Content<D>), o: (T, Content<D2>)| #[trigger]
            mapper.func.ensures((m,), o) ==> o.0 == m.0 && mapped(&logic, m.1@, o.1@),
{
    let func = move |m: (T, Content<D>)| -> (o: (T, Content<D2>))
        requires
            maps_all(&logic, m.1@),
        ensures
            o.0 == m.0 && mapped(&logic, m.1@, o.1@),
        { (m.0, map_records(m.1, &logic)) };
    MapPusher::new(func, targets)
}

/// A pusher that strings together, for every batch, the records that `logic`
/// returns for each of its records, and forwards them as one batch, timestamp
/// unchanged, to `targets`.
pub fn flat_map<T, D, D2, L: Fn(D) -> Vec<D2>, P: Push<(T, Content<D2>)>>(logic: L, targets: P) -> (mapper:
    MapPusher<impl Fn((T, Content<D>)) -> (T, Content<D2>), P>)
    ensures
        mapper.pusher == targets,
        forall|m: (T, Content<D>)| maps_all(&logic, m.1@) ==> #[trigger] mapper.func.requires((m,)),
        forall|m: (T, Content<D>), o: (T, Content<D2>)| #[trigger]
            mapper.func.ensures((m,), o) ==> o.0 == m.0 && flat_mapped(&logic, m.1@, o.1@),
{
    let func = move |m: (T, Content<D>)| -> (o: (T, Content<D2>))
        requires
            maps_all(&logic, m.1@),
        ensures
            o.0 == m.0 && flat_mapped(&logic, m.1@, o.1@),
        { (m.0, flat_map_records(m.1, &logic)) };
    MapPusher::new(func, targets)
}

/// A pusher that hands a borrow of every batch to `logic` and forwards what it
/// returns, under a clone of the timestamp, to `targets`.
pub fn map_batch_ref<T: Clone, D, D2, L: Fn(&Content<D>) -> Content<D2>, P: Push<(T, Content<D2>)>>(
    logic: L,
    targets: P,
) -> (mapper: MapPusher<impl Fn(&(T, Content<D>)) -> (T, Content<D2>), P>)
    ensures
        mapper.pusher == targets,
        forall|m: &(T, Content<D>)| logic.requires((&m.1,)) ==> #[trigger] mapper.func.requires((m,)),
        forall|m: &(T, Content<D>), o: (T, Content<D2>)| #[trigger]
            mapper.func.ensures((m,), o) ==> cloned(m.0, o.0) && logic.ensures((&m.1,), o.1),
{
    let func = move |m: &(T, Content<D>)| -> (o: (T, Content<D2>))
        requires
            batch_applies_ref(&logic, &m.1),
        ensures
            cloned(m.0, o.0) && batch_yields_ref(&logic, &m.1, o.1),
        { (m.0.clone(), logic(&m.1)) };
    MapPusher::new(func, targets)
}

/// Whether `logic` may be called on a borrow of `data`.
pub open spec fn batch_applies_ref<D, D2, L: Fn(&Content<D>) -> Content<D2>>(logic: &L, data: &Content<D>) -> bool {
    logic.requires((data,))
}

/// Whether `logic` may return `result` for a borrow of `data`.
pub open spec fn batch_yields_ref<D, D2, L: Fn(&Content<D>) -> Content<D2>>(
    logic: &L,
    data: &Content<D>,
    result: Content<D2>,
) -> bool {
    logic.ensures((data,), result)
}

/// A pusher that builds, for every batch it is shown, a batch of what `logic`
/// returns for a borrow of each record, and forwards it, under a clone of the
/// timestamp, to `targets`.
pub fn map_ref<T: Clone, D, D2, L: Fn(&D) -> D2, P: Push<(T, Content<D2>)>>(logic: L, targets: P) -> (mapper:
    MapPusher<impl Fn(&(T, Content<D>)) -> (T, Content<D2>), P>)
    ensures
        mapper.pusher == targets,
        forall|m: &(T, Content<D>)| maps_all_ref(&logic, m.1@) ==> #[trigger] mapper.func.requires((m,)),
        forall|m: &(T, Content<D>), o: (T, Content<D2>)| #[trigger]
            mapper.func.ensures((m,), o) ==> cloned(m.0, o.0) && mapped_ref(&logic, m.1@, o.1@),
{
    let func = move |m: &(T, Content<D>)| -> (o: (T, Content<D2>))
        requires
            maps_all_ref(&logic, m.1@),
        ensures
            cloned(m.0, o.0) && mapped_ref(&logic, m.1@, o.1@),
        { (m.0.clone(), map_records_ref(&m.1, &logic)) };
    MapPusher::new(func, targets)
}

/// Whether `logic` may be called on a mutable borrow of every record of `source`.
pub open spec fn updates_all<D, L: Fn(&mut D)>(logic: &L, source: Seq<D>) -> bool {
    forall|r: &mut D| source.contains(*r) ==> #[trigger] logic.requires((r,))
}

/// Lets `logic` update every record of the batch in place, in order. Each
/// record of the result is what one call of `logic` left behind the borrow of
/// the record at the same position.
pub fn map_records_in_place<D, L: Fn(&mut D)>(data: Content<D>, logic: &L) -> (result: Content<D>)
    requires
        updates_all(logic, data@),
    ensures
        result@.len() == data@.len(),
        forall|j: int| #[trigger]
            within(data@, j) ==> exists|r: &mut D|
                *r == data@[j] && *final(r) == result@[j] && #[trigger] updates(logic, r),
{
    let mut typed = data.into_typed();
    let mut index: usize = 0;
    while index < typed.len()
        invariant
            updates_all(logic, data@),
            typed@.len() == data@.len(),
            index <= typed@.len(),
            forall|j: int| index <= j < data@.len() ==> typed@[j] == data@[j],
            forall|j: int| #[trigger]
                within(data@, j) && j < index ==> exists|r: &mut D|
                    *r == data@[j] && *final(r) == typed@[j] && #[trigger] updates(logic, r),
        decreases typed@.len() - index,
    {
        assert(data@.contains(typed@[index as int]));
        logic(&mut typed[index]);
        proof {
            let call = choose|r: &mut D|
                *r == data@[index as int] && *final(r) == typed@[index as int] && #[trigger] logic.ensures((r,), ());
            assert(updates(logic, call));
        }
        index += 1;
    }
    Content::from_typed(&mut typed)
}

/// A pusher that lets `logic` update every record of every batch in place and
/// forwards the batch, timestamp unchanged, to `targets`.
pub fn map_in_place<T, D, L: Fn(&mut D), P: Push<(T, Content<D>)>>(logic: L, targets: P) -> (mapper: MapPusher<
    impl Fn((T, Content<D>)) -> (T, Content<D>),
    P,
>)
    ensures
        mapper.pusher == targets,
        forall|m: (T, Content<D>)| updates_all(&logic, m.1@) ==> #[trigger] mapper.func.requires((m,)),
        forall|m: (T, Content<D>), o: (T, Content<D>)| #[trigger]
            mapper.func.ensures((m,), o) ==> o.0 == m.0 && o.1@.len() == m.1@.len() && forall|j: int| #[trigger]
                within(m.1@, j) ==> exists|r: &mut D|
                    *r == m.1@[j] && *final(r) == o.1@[j] && #[trigger] updates(&logic, r),
{
    let func = move |m: (T, Content<D>)| -> (o: (T, Content<D>))
        requires
            updates_all(&logic, m.1@),
        ensures
            o.0 == m.0 && o.1@.len() == m.1@.len() && forall|j: int| #[trigger]
                within(m.1@, j) ==> exists|r: &mut D|
                    *r == m.1@[j] && *final(r) == o.1@[j] && #[trigger] updates(&logic, r),
        { (m.0, map_records_in_place(m.1, &logic)) };
    MapPusher::new(func, targets)
}

/// Whether the call of `logic` on the borrow `record` may end as the borrow says.
pub open spec fn updates<D, L: Fn(&mut D)>(logic: &L, record: &mut D) -> bool {
    logic.ensures((record,), ())
}

/// Whether `index` is a position of `records`.
pub open spec fn within<D>(records: Seq<D>, index: int) -> bool {
    0 <= index < records.len()
}

/// Whether `result` strings together, in order, one sequence that `logic`
/// returns for each record of `source`.
pub open spec fn flat_mapped<D, D2, L: Fn(D) -> Vec<D2>>(logic: &L, source: Seq<D>, result: Seq<D2>) -> bool {
    exists|parts: Seq<Vec<D2>>| #[trigger] mapped(logic, source, parts) && result == concat(parts)
}

/// Flat-map keeps every record: a batch that strings together what `logic`
/// returned for each record of `source` has as many records as those
/// sequences have together; `lemma_concat_order` says where each one stands.
pub proof fn lemma_flat_map_count<D, D2, L: Fn(D) -> Vec<D2>>(logic: &L, source: Seq<D>, result: Seq<D2>)
    requires
        flat_mapped(logic, source, result),
    ensures
        exists|parts: Seq<Vec<D2>>|
            {
                &&& #[trigger] mapped(logic, source, parts)
                &&& result == concat(parts)
                &&& result.len() == total_len(parts)
            },
{
    let parts = choose|parts: Seq<Vec<D2>>| #[trigger] mapped(logic, source, parts) && result == concat(parts);
    lemma_concat_len(parts);
}

/// Map is element-wise: when a pusher whose function maps every batch record
/// by record with `logic`, timestamp unchanged, has relayed `message` to a
/// queue, the queue holds one more entry behind what it held before: the
/// timestamp of `message` with a batch that is `logic` of its batch, position
/// by position.
pub proof fn lemma_map_delivered<T, D, D2, L: Fn(D) -> D2, F: Fn((T, Content<D>)) -> (T, Content<D2>)>(
    logic: &L,
    before: MapPusher<F, Queue<(T, Content<D2>)>>,
    message: (T, Content<D>),
    after: MapPusher<F, Queue<(T, Content<D2>)>>,
)
    requires
        forall|m: (T, Content<D>), o: (T, Content<D2>)| #[trigger]
            before.func.ensures((m,), o) ==> o.0 == m.0 && mapped(logic, m.1@, o.1@),
        before.pushed(Some(message), after),
    ensures
        after.pusher@.len() == before.pusher@.len() + 1,
        after.pusher@.drop_last() == before.pusher@,
        after.pusher@.last() is Some,
        after.pusher@.last().unwrap().0 == message.0,
        mapped(logic, message.1@, after.pusher@.last().unwrap().1@),
{
    let sent = choose|sent: (T, Content<D2>)|
        before.func.ensures((message,), sent) && before.pusher.pushed(Some(sent), after.pusher);
    assert(after.pusher@ == before.pusher@.push(Some(sent)));
    assert(after.pusher@.drop_last() =~= before.pusher@);
}

} // verus!
