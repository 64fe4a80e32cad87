//! A fixed-capacity circular log that keeps the most recent items.

use vstd::prelude::*;

verus! {

/// The last `n` items of `s`, or all of `s` when it holds no more than `n`.
pub open spec fn keep_last<T>(s: Seq<T>, n: nat) -> Seq<T> {
    if s.len() <= n {
        s
    } else {
        s.subrange(s.len() - n, s.len() as int)
    }
}

/// What a buffer of capacity `capacity` that holds `contents` holds after
/// `items` are pushed one by one.
pub open spec fn push_all<T>(contents: Seq<T>, capacity: nat, items: Seq<T>) -> Seq<T>
    decreases items.len(),
{
    if items.len() == 0 {
        contents
    } else {
        keep_last(push_all(contents, capacity, items.drop_last()).push(items.last()), capacity)
    }
}

/// After any run of pushes a buffer holds the last `capacity` items of
/// what it held followed by what was pushed, in that order.
pub proof fn lemma_push_all_keeps_last<T>(contents: Seq<T>, capacity: nat, items: Seq<T>)
    requires
        contents.len() <= capacity,
    ensures
        push_all(contents, capacity, items) == keep_last(contents + items, capacity),
    decreases items.len(),
{
    if items.len() == 0 {
        assert(contents + items =~= contents);
    } else {
        let front = items.drop_last();
        lemma_push_all_keeps_last(contents, capacity, front);
        assert(contents + items =~= (contents + front).push(items.last()));
        assert(keep_last(keep_last(contents + front, capacity).push(items.last()), capacity)
            =~= keep_last((contents + front).push(items.last()), capacity));
    }
}

/// A new buffer that receives at least as many items as it has slots ends
/// with exactly `capacity` of them: the last `capacity` pushed, oldest first.
pub proof fn lemma_overflow_keeps_newest<T>(capacity: nat, items: Seq<T>)
    requires
        items.len() >= capacity,
    ensures
        push_all(Seq::<T>::empty(), capacity, items).len() == capacity,
        push_all(Seq::<T>::empty(), capacity, items) == items.subrange(
            items.len() - capacity,
            items.len() as int,
        ),
{
    lemma_push_all_keeps_last(Seq::<T>::empty(), capacity, items);
    assert(Seq::<T>::empty() + items =~= items);
    assert(items.subrange(0, items.len() as int) =~= items);
}

/// Circular buffer over `capacity` slots. Once full, each push overwrites
/// the oldest item. A buffer of capacity zero is valid and drops every push.
#[derive(Debug)]
pub struct RingBuffer<T> {
    buffer: Vec<Option<T>>,
    head: usize,
    size: usize,
    capacity: usize,
}

impl<T> View for RingBuffer<T> {
    type V = Seq<T>;

    /// The items held, oldest first.
    closed spec fn view(&self) -> Seq<T> {
        Seq::new(self.size as nat, |i: int| self.buffer@[self.slot(i)].unwrap())
    }
}

impl<T> RingBuffer<T> {
    /// The number of slots the buffer was made with.
    pub closed spec fn spec_capacity(&self) -> nat {
        self.capacity as nat
    }

    /// Index of the oldest item.
    spec fn start(&self) -> int {
        if self.size == self.capacity {
            self.head as int
        } else {
            0
        }
    }

    /// Index in `buffer` of the `i`-th oldest item.
    spec fn slot(&self, i: int) -> int {
        if self.start() + i < self.capacity {
            self.start() + i
        } else {
            self.start() + i - self.capacity
        }
    }

    #[verifier::type_invariant]
    spec fn well_formed(&self) -> bool {
        &&& self.buffer@.len() == self.capacity
        &&& self.size <= self.capacity
        &&& self.capacity == 0 ==> self.head == 0
        &&& self.capacity > 0 ==> self.head < self.capacity
        &&& self.size < self.capacity ==> self.head == self.size
        &&& forall|j: int|
            0 <= j < self.capacity && (self.size == self.capacity || j < self.size)
                ==> (#[trigger] self.buffer@[j]).is_some()
    }

    /// An empty buffer with `capacity` slots.
    pub fn new(capacity: usize) -> (ring: Self)
        ensures
            ring@ == Seq::<T>::empty(),
            ring.spec_capacity() == capacity,
    {
        let mut buffer: Vec<Option<T>> = Vec::new();
        let mut filled: usize = 0;
        while filled < capacity
            invariant
                filled <= capacity,
                buffer@.len() == filled,
            decreases capacity - filled,
        {
            buffer.push(None);
            filled = filled + 1;
        }
        let ring = RingBuffer { buffer, head: 0, size: 0, capacity };
        assert(ring@ =~= Seq::<T>::empty());
        ring
    }

    /// Appends `item` as the newest; a full buffer gives up its oldest item.
    pub fn push(&mut self, item: T)
        ensures
            final(self)@ == keep_last(old(self)@.push(item), old(self).spec_capacity()),
            final(self).spec_capacity() == old(self).spec_capacity(),
    {
        proof {
            use_type_invariant(&*self);
        }
        if self.capacity == 0 {
            assert(self@ =~= Seq::<T>::empty());
            return ;
        }
        let mut taken = RingBuffer { buffer: Vec::new(), head: 0, size: 0, capacity: 0 };
        std::mem::swap(self, &mut taken);
        let ghost before = taken;
        let RingBuffer { buffer, head, size, capacity } = taken;
        let mut buffer = buffer;
        buffer[head] = Some(item);
        let next_head: usize = if head + 1 == capacity {
            0
        } else {
            head + 1
        };
        let next_size: usize = if size < capacity {
            size + 1
        } else {
            size
        };
        let after = RingBuffer { buffer, head: next_head, size: next_size, capacity };
        assert(after@ =~= keep_last(before@.push(item), capacity as nat)) by {
            assert forall|i: int| 0 <= i < after@.len() implies after@[i] == keep_last(
                before@.push(item),
                capacity as nat,
            )[i] by {
                if i < next_size - 1 {
                    let k = if size < capacity {
                        i
                    } else {
                        i + 1
                    };
                    assert(after.slot(i) == before.slot(k));
                    assert(after.slot(i) != head);
                } else {
                    assert(after.slot(i) == head);
                }
            }
        }
        *self = after;
    }

    /// The items held, oldest first.
    pub fn iter(&self) -> (items: Vec<&T>)
        ensures
            items@.len() == self@.len(),
            forall|i: int| 0 <= i < items@.len() ==> *#[trigger] items@[i] == self@[i],
    {
        proof {
            use_type_invariant(self);
        }
        let start: usize = if self.size == self.capacity {
            self.head
        } else {
            0
        };
        let mut items: Vec<&T> = Vec::new();
        let mut i: usize = 0;
        while i < self.size
            invariant
                i <= self.size,
                self.well_formed(),
                start == self.start(),
                items@.len() == i,
                forall|k: int| 0 <= k < i ==> *#[trigger] items@[k] == self@[k],
            decreases self.size - i,
        {
            let idx: usize = if i < self.capacity - start {
                start + i
            } else {
                i - (self.capacity - start)
            };
            assert(idx == self.slot(i as int));
            items.push(self.buffer[idx].as_ref().unwrap());
            i = i + 1;
        }
        items
    }

    /// The `index`-th oldest item, if that many are held.
    pub fn get(&self, index: usize) -> (item: Option<&T>)
        ensures
            match item {
                Some(found) => index < self@.len() && *found == self@[index as int],
                None => index >= self@.len(),
            },
    {
        proof {
            use_type_invariant(self);
        }
        if index >= self.size {
            return None;
        }
        let start: usize = if self.size == self.capacity {
            self.head
        } else {
            0
        };
        let idx: usize = if index < self.capacity - start {
            start + index
        } else {
            index - (self.capacity - start)
        };
        assert(idx == self.slot(index as int));
        self.buffer[idx].as_ref()
    }

    /// The number of slots.
    pub fn capacity(&self) -> (slots: usize)
        ensures
            slots == self.spec_capacity(),
    {
        self.capacity
    }

    /// The number of items held, never more than the capacity.
    pub fn len(&self) -> (n: usize)
        ensures
            n == self@.len(),
            n <= self.spec_capacity(),
    {
        proof {
            use_type_invariant(self);
        }
        self.size
    }

    /// Whether nothing is held.
    pub fn is_empty(&self) -> (empty: bool)
        ensures
            empty == (self@.len() == 0),
    {
        self.size == 0
    }
}

} // verus!
