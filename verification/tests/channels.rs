use dataflow_channels::content::Content;
use dataflow_channels::map::MapPusher;
use dataflow_channels::operators::{
    flat_map, flat_map_records, map_batch, map_batch_ref, map_in_place, map_records,
    map_records_in_place, map_records_ref, map_ref,
};
use dataflow_channels::push::{Push, PushRef};
use dataflow_channels::queue::Queue;
use dataflow_channels::tee::{Tee, TeeHelper};

type Message = (u64, Content<u64>);

fn batch(records: Vec<u64>) -> Content<u64> {
    let mut records = records;
    Content::from_typed(&mut records)
}

fn tee_of(observers: usize, owners: usize) -> Tee<u64, Queue<Message>, Queue<Message>> {
    let mut helper = TeeHelper::new();
    for _ in 0..observers {
        helper.add_ref_pusher(Queue::new());
    }
    for _ in 0..owners {
        helper.add_pusher(Queue::new());
    }
    Tee::new(helper)
}

fn plain(messages: Vec<Option<Message>>) -> Vec<Option<(u64, Vec<u64>)>> {
    messages
        .into_iter()
        .map(|message| message.map(|(time, data)| (time, data.into_typed())))
        .collect()
}

fn lists(tee: Tee<u64, Queue<Message>, Queue<Message>>) -> (Vec<Queue<Message>>, Vec<Queue<Message>>) {
    tee.into_helper().into_lists()
}

#[test]
fn content_from_typed_moves_records_out() {
    let mut typed: Vec<u64> = vec![4, 5, 6];
    let content = Content::from_typed(&mut typed);
    assert!(typed.is_empty());
    assert_eq!(content.len(), 3);
    assert_eq!(content.as_slice(), &[4, 5, 6]);
    assert_eq!(content.into_typed(), vec![4, 5, 6]);
}

#[test]
fn content_default_length_is_1024() {
    assert_eq!(Content::<u64>::default_length(), 1024);
}

#[test]
fn content_replace_with_swaps_records() {
    let mut content = batch(vec![1, 2]);
    let previous = content.replace_with(vec![9]);
    assert_eq!(previous, vec![1, 2]);
    assert_eq!(content.as_slice(), &[9]);
}

#[test]
fn content_take_contents_leaves_empty_batch() {
    let mut content = batch(vec![1, 2, 3]);
    let taken = content.take_contents();
    assert_eq!(taken, vec![1, 2, 3]);
    assert_eq!(content.len(), 0);
}

#[test]
fn content_extend_from_appends_clones() {
    let mut content = batch(vec![1]);
    content.extend_from(&[2, 3]);
    assert_eq!(content.as_slice(), &[1, 2, 3]);
    let copy = content.clone();
    assert_eq!(copy.as_slice(), &[1, 2, 3]);
}

#[test]
fn push_at_delivers_and_empties_buffer() {
    let mut buffer: Vec<u64> = vec![1, 2, 3];
    let mut queue: Queue<Message> = Queue::new();
    Content::push_at(&mut buffer, 5, &mut queue);
    assert!(buffer.is_empty());
    assert_eq!(plain(queue.into_messages()), vec![Some((5, vec![1, 2, 3]))]);
}

#[test]
fn queue_push_takes_message() {
    let mut queue: Queue<u64> = Queue::new();
    let mut message = Some(3);
    queue.push(&mut message);
    assert!(message.is_none());
    let mut closed: Option<u64> = None;
    queue.push(&mut closed);
    assert_eq!(queue.len(), 2);
    assert_eq!(*queue.get(0), Some(3));
    assert_eq!(*queue.get(1), None);
}

#[test]
fn queue_push_ref_stores_clone() {
    let mut queue: Queue<u64> = Queue::new();
    let value: u64 = 8;
    queue.push_ref(Some(&value));
    queue.push_ref(None);
    assert_eq!(queue.into_messages(), vec![Some(8), None]);
}

#[test]
fn map_pusher_applies_function_once_per_message() {
    let mut pusher = MapPusher::new(|x: u64| x + 1, Queue::new());
    let mut first = Some(1);
    let mut second = Some(10);
    let mut closed: Option<u64> = None;
    pusher.push(&mut first);
    pusher.push(&mut second);
    pusher.push(&mut closed);
    assert!(first.is_none());
    assert_eq!(pusher.into_pusher().into_messages(), vec![Some(2), Some(11), None]);
}

#[test]
fn map_pusher_push_ref_forwards_owned_result() {
    let mut pusher = MapPusher::new(|x: &u64| *x * 3, Queue::new());
    let value: u64 = 4;
    pusher.push_ref(Some(&value));
    pusher.push_ref(None);
    assert_eq!(value, 4);
    assert_eq!(pusher.into_pusher().into_messages(), vec![Some(12), None]);
}

#[test]
fn nested_map_pushers_compose() {
    let inner = MapPusher::new(|x: u64| x * 2, Queue::new());
    let mut outer = MapPusher::new(|x: u64| x + 1, inner);
    let mut message = Some(5);
    outer.push(&mut message);
    assert_eq!(outer.into_pusher().into_pusher().into_messages(), vec![Some(12)]);
}

#[test]
fn tee_delivers_equal_batches_to_every_sink() {
    for owners in 0..5usize {
        let mut tee = tee_of(0, owners);
        let mut message = Some((9, batch(vec![1, 2, 3])));
        tee.push(&mut message);
        let (_, outputs) = lists(tee);
        assert_eq!(outputs.len(), owners);
        for queue in outputs {
            assert_eq!(plain(queue.into_messages()), vec![Some((9, vec![1, 2, 3]))]);
        }
    }
}

#[test]
fn tee_copies_are_independent() {
    let mut tee = tee_of(0, 3);
    let mut message = Some((1, batch(vec![7, 8])));
    tee.push(&mut message);
    let (_, outputs) = lists(tee);
    let mut received: Vec<Vec<u64>> = Vec::new();
    for queue in outputs {
        let mut messages = queue.into_messages();
        let (_, data) = messages.remove(0).unwrap();
        received.push(data.into_typed());
    }
    received[0][0] = 100;
    assert_eq!(received[0], vec![100, 8]);
    assert_eq!(received[1], vec![7, 8]);
    assert_eq!(received[2], vec![7, 8]);
}

#[test]
fn tee_leaves_message_alone_without_owning_sinks() {
    let mut tee = tee_of(1, 0);
    let mut message = Some((2, batch(vec![5, 6])));
    tee.push(&mut message);
    let (time, data) = message.unwrap();
    assert_eq!(time, 2);
    assert_eq!(data.into_typed(), vec![5, 6]);
    let (observers, _) = lists(tee);
    assert_eq!(observers.len(), 1);
    for queue in observers {
        assert_eq!(plain(queue.into_messages()), vec![Some((2, vec![5, 6]))]);
    }
}

#[test]
fn tee_leaves_empty_batch_behind_after_delivery() {
    let mut tee = tee_of(0, 2);
    let mut message = Some((2, batch(vec![5, 6])));
    tee.push(&mut message);
    let (time, data) = message.unwrap();
    assert_eq!(time, 2);
    assert_eq!(data.len(), 0);
}

#[test]
fn tee_forwards_closure_once_to_every_sink() {
    for owners in 0..4usize {
        let mut tee = tee_of(2, owners);
        let mut closed: Option<Message> = None;
        tee.push(&mut closed);
        assert!(closed.is_none());
        let (observers, outputs) = lists(tee);
        assert_eq!(observers.len(), 2);
        assert_eq!(outputs.len(), owners);
        for queue in observers {
            assert_eq!(plain(queue.into_messages()), vec![None]);
        }
        for queue in outputs {
            assert_eq!(plain(queue.into_messages()), vec![None]);
        }
    }
}

#[test]
fn tee_observers_see_messages_before_owners_take_them() {
    let mut tee = tee_of(2, 2);
    let mut message = Some((4, batch(vec![1, 2])));
    tee.push(&mut message);
    let (observers, outputs) = lists(tee);
    for queue in observers {
        assert_eq!(plain(queue.into_messages()), vec![Some((4, vec![1, 2]))]);
    }
    for queue in outputs {
        assert_eq!(plain(queue.into_messages()), vec![Some((4, vec![1, 2]))]);
    }
}

#[test]
fn tee_keeps_registration_order_and_grows() {
    let mut tee = tee_of(0, 1);
    tee.add_pusher(Queue::new());
    tee.add_ref_pusher(Queue::new());
    let mut message = Some((1, batch(vec![3])));
    tee.push(&mut message);
    let (observers, outputs) = lists(tee);
    assert_eq!(observers.len(), 1);
    assert_eq!(outputs.len(), 2);
}

#[test]
fn pushes_arrive_in_order_through_chain() {
    let mut chain = dataflow_channels::operators::map(|x: u64| x + 1, tee_of(0, 2));
    let mut pushes: u64 = 0;
    while pushes < 4 {
        let mut message = Some((pushes, batch(vec![pushes, pushes * 10])));
        chain.push(&mut message);
        pushes += 1;
    }
    let mut closed: Option<Message> = None;
    chain.push(&mut closed);
    let (_, outputs) = lists(chain.into_pusher());
    for queue in outputs {
        assert_eq!(
            plain(queue.into_messages()),
            vec![
                Some((0, vec![1, 1])),
                Some((1, vec![2, 11])),
                Some((2, vec![3, 21])),
                Some((3, vec![4, 31])),
                None,
            ]
        );
    }
}

#[test]
fn map_records_is_element_wise() {
    let doubled = map_records(batch(vec![1, 2, 3]), &|x: u64| x * 2);
    assert_eq!(doubled.into_typed(), vec![2, 4, 6]);
    let empty = map_records(batch(vec![]), &|x: u64| x * 2);
    assert_eq!(empty.len(), 0);
}

#[test]
fn map_records_ref_keeps_source() {
    let source = batch(vec![1, 2, 3]);
    let mapped = map_records_ref(&source, &|x: &u64| *x + 10);
    assert_eq!(mapped.into_typed(), vec![11, 12, 13]);
    assert_eq!(source.into_typed(), vec![1, 2, 3]);
}

#[test]
fn map_records_in_place_updates_each_record() {
    let updated = map_records_in_place(batch(vec![1, 2, 3]), &|x: &mut u64| *x += 1);
    assert_eq!(updated.into_typed(), vec![2, 3, 4]);
}

#[test]
fn flat_map_records_concatenates_in_order() {
    let result = flat_map_records(batch(vec![0, 1, 2, 3]), &|x: u64| (0..x).collect::<Vec<u64>>());
    assert_eq!(result.into_typed(), vec![0, 0, 1, 0, 1, 2]);
}

#[test]
fn map_stream_of_batches_keeps_timestamps() {
    let mut pusher = dataflow_channels::operators::map(|x: u64| x * x, Queue::new());
    let mut first = Some((10u64, batch(vec![1, 2])));
    let mut second = Some((11u64, batch(vec![])));
    let mut third = Some((12u64, batch(vec![3])));
    pusher.push(&mut first);
    pusher.push(&mut second);
    pusher.push(&mut third);
    assert_eq!(
        plain(pusher.into_pusher().into_messages()),
        vec![Some((10, vec![1, 4])), Some((11, vec![])), Some((12, vec![9]))]
    );
}

#[test]
fn map_ref_observes_without_consuming() {
    let mut pusher = map_ref(|x: &u64| *x + 1, Queue::new());
    let message: Message = (3, batch(vec![1, 2]));
    pusher.push_ref(Some(&message));
    pusher.push_ref(None);
    assert_eq!(message.1.as_slice(), &[1, 2]);
    assert_eq!(plain(pusher.into_pusher().into_messages()), vec![Some((3, vec![2, 3])), None]);
}

#[test]
fn map_in_place_pusher_updates_records() {
    let mut pusher = map_in_place(|x: &mut u64| *x *= 3, Queue::new());
    let mut message = Some((6u64, batch(vec![1, 2])));
    pusher.push(&mut message);
    assert_eq!(plain(pusher.into_pusher().into_messages()), vec![Some((6, vec![3, 6]))]);
}

#[test]
fn flat_map_pusher_counts_all_results() {
    let mut pusher = flat_map(|x: u64| vec![x; x as usize], Queue::new());
    let mut message = Some((1u64, batch(vec![2, 0, 3])));
    pusher.push(&mut message);
    let mut empty = Some((2u64, batch(vec![])));
    pusher.push(&mut empty);
    assert_eq!(
        plain(pusher.into_pusher().into_messages()),
        vec![Some((1, vec![2, 2, 3, 3, 3])), Some((2, vec![]))]
    );
}

#[test]
fn map_batch_reshapes_whole_batches() {
    let mut pusher = map_batch(
        |data: Content<u64>| {
            let mut records = data.into_typed();
            records.reverse();
            Content::from_typed(&mut records)
        },
        Queue::new(),
    );
    let mut message = Some((8u64, batch(vec![1, 2, 3])));
    pusher.push(&mut message);
    let mut closed: Option<Message> = None;
    pusher.push(&mut closed);
    assert_eq!(plain(pusher.into_pusher().into_messages()), vec![Some((8, vec![3, 2, 1])), None]);
}

#[test]
fn map_batch_ref_builds_new_batch_from_borrow() {
    let mut pusher = map_batch_ref(
        |data: &Content<u64>| {
            let mut records: Vec<u64> = vec![data.len() as u64];
            Content::from_typed(&mut records)
        },
        Queue::new(),
    );
    let message: Message = (8, batch(vec![1, 2, 3]));
    pusher.push_ref(Some(&message));
    assert_eq!(message.1.len(), 3);
    assert_eq!(plain(pusher.into_pusher().into_messages()), vec![Some((8, vec![3]))]);
}

#[test]
fn doubled_batch_reaches_three_sinks_then_closure() {
    let mut stream = dataflow_channels::operators::map(|x: u64| x * 2, tee_of(0, 3));
    let mut message = Some((42u64, batch(vec![1, 2, 3])));
    stream.push(&mut message);
    let mut closed: Option<Message> = None;
    stream.push(&mut closed);
    let (_, outputs) = lists(stream.into_pusher());
    assert_eq!(outputs.len(), 3);
    for queue in outputs {
        assert_eq!(plain(queue.into_messages()), vec![Some((42, vec![2, 4, 6])), None]);
    }
}

#[test]
fn repeated_pushes_keep_buffer_capacity_stable() {
    let mut tee = tee_of(0, 3);
    let mut capacities: Vec<usize> = Vec::new();
    let mut round: u64 = 0;
    while round < 50 {
        let mut message = Some((round, batch(vec![1, 2, 3, 4])));
        tee.push(&mut message);
        let (_, data) = message.unwrap();
        assert_eq!(data.len(), 0);
        capacities.push(data.into_typed().capacity());
        round += 1;
    }
    for capacity in capacities.iter() {
        assert_eq!(*capacity, capacities[0]);
    }
    let (_, outputs) = lists(tee);
    for queue in outputs {
        assert_eq!(queue.len(), 50);
    }
}
