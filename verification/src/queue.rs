//! The fixed-capacity queues of strings that the console and the command
//! history are kept in, and what is taken on trust of them. The queues are
//! `fixed_queue::VecDeque`; nothing here is proved of that crate.

use fixed_queue::VecDeque;
use vstd::prelude::*;

verus! {

/// Number of lines that the console keeps.
pub const CONSOLE_LINES: usize = 15;

/// Number of commands that the history keeps.
pub const HISTORY_LEN: usize = 32;

/// `fixed_queue::VecDeque`, a ring buffer in an array of `N` slots.
#[verifier::external_type_specification]
#[verifier::external_body]
#[verifier::reject_recursive_types(T)]
pub struct ExVecDeque<T, const N: usize>(VecDeque<T, N>);

/// The texts that a queue of console lines holds, front first.
pub uninterp spec fn queued_lines(queue: VecDeque<String, 15>) -> Seq<Seq<char>>;

/// The texts that a queue of commands holds, front first.
pub uninterp spec fn queued_commands(queue: VecDeque<String, 32>) -> Seq<Seq<char>>;

/// `VecDeque::new`: a queue that holds nothing.
#[verifier::external_body]
pub(crate) fn lines_new() -> (queue: VecDeque<String, 15>)
    ensures
        queued_lines(queue) == Seq::<Seq<char>>::empty(),
{
    VecDeque::new()
}

/// `VecDeque::len`: how many items the queue holds, which is never more than
/// its capacity.
#[verifier::external_body]
pub(crate) fn lines_len(queue: &VecDeque<String, 15>) -> (len: usize)
    ensures
        len == queued_lines(*queue).len(),
        len <= CONSOLE_LINES,
{
    queue.len()
}

/// `VecDeque::clear`: drops every item.
#[verifier::external_body]
pub(crate) fn lines_clear(queue: &mut VecDeque<String, 15>)
    ensures
        queued_lines(*final(queue)) == Seq::<Seq<char>>::empty(),
{
    queue.clear()
}

/// `VecDeque::get`: the item at `index` counted from the front, or `None`
/// where the queue holds no more than `index` items.
#[verifier::external_body]
pub(crate) fn lines_get(queue: &VecDeque<String, 15>, index: usize) -> (item: Option<&String>)
    ensures
        index < queued_lines(*queue).len() ==> item is Some && item->0@ == queued_lines(
            *queue,
        )[index as int],
        index >= queued_lines(*queue).len() ==> item is None,
{
    queue.get(index)
}

/// `VecDeque::pop_front`: takes the front item out and returns it, or returns
/// `None` and changes nothing where the queue is empty.
#[verifier::external_body]
pub(crate) fn lines_pop_front(queue: &mut VecDeque<String, 15>) -> (item: Option<String>)
    ensures
        queued_lines(*old(queue)).len() == 0 ==> item is None && queued_lines(*final(queue))
            == queued_lines(*old(queue)),
        queued_lines(*old(queue)).len() > 0 ==> item is Some && item->0@ == queued_lines(
            *old(queue),
        ).first() && queued_lines(*final(queue)) == queued_lines(*old(queue)).drop_first(),
{
    queue.pop_front()
}

/// `VecDeque::push_back`: puts `value` behind the last item, or hands it back
/// and changes nothing where the queue already holds as many items as it has
/// slots.
#[verifier::external_body]
pub(crate) fn lines_push_back(queue: &mut VecDeque<String, 15>, value: String) -> (done: Result<(), String>)
    ensures
        done is Ok <==> queued_lines(*old(queue)).len() < CONSOLE_LINES,
        done is Ok ==> queued_lines(*final(queue)) == queued_lines(*old(queue)).push(value@),
        done is Err ==> done->Err_0 == value && queued_lines(*final(queue)) == queued_lines(*old(queue)),
{
    queue.push_back(value)
}

/// `VecDeque::new`: a queue that holds nothing.
#[verifier::external_body]
pub(crate) fn commands_new() -> (queue: VecDeque<String, 32>)
    ensures
        queued_commands(queue) == Seq::<Seq<char>>::empty(),
{
    VecDeque::new()
}

/// `VecDeque::len`: how many items the queue holds, which is never more than
/// its capacity.
#[verifier::external_body]
pub(crate) fn commands_len(queue: &VecDeque<String, 32>) -> (len: usize)
    ensures
        len == queued_commands(*queue).len(),
        len <= HISTORY_LEN,
{
    queue.len()
}

/// `VecDeque::is_full`: whether the queue holds as many items as it has
/// slots. A queue that is not full holds fewer.
#[verifier::external_body]
pub(crate) fn commands_is_full(queue: &VecDeque<String, 32>) -> (full: bool)
    ensures
        full ==> queued_commands(*queue).len() == HISTORY_LEN,
        !full ==> queued_commands(*queue).len() < HISTORY_LEN,
{
    queue.is_full()
}

/// `VecDeque::get`: the item at `index` counted from the front, or `None`
/// where the queue holds no more than `index` items.
#[verifier::external_body]
pub(crate) fn commands_get(queue: &VecDeque<String, 32>, index: usize) -> (item: Option<&String>)
    ensures
        index < queued_commands(*queue).len() ==> item is Some && item->0@ == queued_commands(
            *queue,
        )[index as int],
        index >= queued_commands(*queue).len() ==> item is None,
{
    queue.get(index)
}

/// `VecDeque::pop_back`: takes the last item out and returns it, or returns
/// `None` and changes nothing where the queue is empty.
#[verifier::external_body]
pub(crate) fn commands_pop_back(queue: &mut VecDeque<String, 32>) -> (item: Option<String>)
    ensures
        queued_commands(*old(queue)).len() == 0 ==> item is None && queued_commands(*final(queue))
            == queued_commands(*old(queue)),
        queued_commands(*old(queue)).len() > 0 ==> item is Some && item->0@ == queued_commands(
            *old(queue),
        ).last() && queued_commands(*final(queue)) == queued_commands(*old(queue)).drop_last(),
{
    queue.pop_back()
}

/// `VecDeque::push_front`: puts `value` before the front item, or hands it
/// back and changes nothing where the queue already holds as many items as it
/// has slots.
#[verifier::external_body]
pub(crate) fn commands_push_front(queue: &mut VecDeque<String, 32>, value: String) -> (done: Result<(), String>)
    ensures
        done is Ok <==> queued_commands(*old(queue)).len() < HISTORY_LEN,
        done is Ok ==> queued_commands(*final(queue)) == seq![value@] + queued_commands(*old(queue)),
        done is Err ==> done->Err_0 == value && queued_commands(*final(queue)) == queued_commands(*old(queue)),
{
    queue.push_front(value)
}

} // verus!
