//! The generic pull-based stream abstraction shared by the character layer
//! and the token layer.
//!
//! A [`Source`] is a pull-based sequence: it hands out its remaining items
//! one at a time, and once they are exhausted it hands out its terminal
//! item forever.  A [`Stream`] additionally supports non-consuming
//! lookahead through `peek`.  [`BufferStream`] is the buffering decorator
//! that turns any `Source` into a `Stream`; it is reused at both layers of
//! the pipeline.

use std::collections::VecDeque;
use vstd::prelude::*;

verus! {

/// An item that can flow through a stream: it has an abstract value, and
/// it can be duplicated so that the duplicate has the same abstract value.
/// The buffering decorator needs the latter to hand out a peeked item
/// while keeping it buffered.
pub trait StreamItem: Sized {
    /// The type of the item's abstract value.
    type A;

    /// The item's abstract value, which the stream contracts speak of.
    spec fn abs(&self) -> Self::A;

    fn dup(&self) -> (r: Self)
        ensures
            r.abs() == self.abs(),
    ;
}

/// The abstract values of a sequence of items.
pub open spec fn abs_seq<T: StreamItem>(s: Seq<T>) -> Seq<T::A> {
    s.map(|i: int, x: T| x.abs())
}

/// A pull-based sequence of items.
///
/// Abstractly, a source consists of a finite sequence of remaining items
/// followed by an endlessly repeated terminal item.  `get` consumes and
/// returns the next remaining item, or returns the terminal item (leaving
/// the state unchanged) once the remaining items are exhausted.  All
/// contracts are stated over the items' deep views.
pub trait Source: Sized {
    type Item: StreamItem;

    /// Well-formedness of the source's internal state.
    spec fn wf(&self) -> bool;

    /// The abstract values of the items still to be consumed, in order.
    spec fn remaining(&self) -> Seq<<Self::Item as StreamItem>::A>;

    /// The abstract value produced forever once `remaining` is exhausted.
    spec fn terminal(&self) -> <Self::Item as StreamItem>::A;

    fn get(&mut self) -> (r: Self::Item)
        requires
            old(self).wf(),
        ensures
            final(self).wf(),
            final(self).terminal() == old(self).terminal(),
            old(self).remaining().len() > 0 ==> r.abs() == old(self).remaining()[0]
                && final(self).remaining() == old(self).remaining().drop_first(),
            old(self).remaining().len() == 0 ==> r.abs() == old(self).terminal()
                && final(self).remaining() == old(self).remaining(),
    ;
}

/// A source with non-consuming multi-item lookahead.
///
/// `peek(offset)` returns the item `offset` positions ahead (the terminal
/// item when that is past the end) without changing the abstract state:
/// it never affects what future `get` calls return.
pub trait Stream: Source {
    fn peek(&mut self, offset: usize) -> (r: Self::Item)
        requires
            old(self).wf(),
        ensures
            final(self).wf(),
            final(self).remaining() == old(self).remaining(),
            final(self).terminal() == old(self).terminal(),
            r.abs() == (if (offset as int) < old(self).remaining().len() {
                old(self).remaining()[offset as int]
            } else {
                old(self).terminal()
            }),
    ;
}

/// The buffering decorator: adapts any [`Source`] into a [`Stream`] by
/// keeping a FIFO queue of items that were fetched for lookahead but not
/// yet consumed.  The queue is filled lazily, exactly as far as the highest
/// offset ever peeked, and never holds more than that.
pub struct BufferStream<S: Source> {
    parent: S,
    buffer: VecDeque<S::Item>,
    /// How many items at the front of `buffer` came from the parent's
    /// remaining sequence; any items after them are buffered copies of the
    /// parent's terminal item.
    fetched: Ghost<nat>,
}

impl<S: Source> BufferStream<S> {
    pub fn new(parent: S) -> (r: Self)
        requires
            parent.wf(),
        ensures
            r.wf(),
            r.remaining() == parent.remaining(),
            r.terminal() == parent.terminal(),
    {
        let r = BufferStream { parent, buffer: VecDeque::new(), fetched: Ghost(0) };
        proof {
            assert(r.remaining() =~= r.parent.remaining());
        }
        r
    }
}

impl<S: Source> Source for BufferStream<S> {
    type Item = S::Item;

    closed spec fn wf(&self) -> bool {
        &&& self.parent.wf()
        &&& self.fetched@ <= self.buffer@.len()
        &&& forall|i: int|
            self.fetched@ <= i < self.buffer@.len() ==> #[trigger] self.buffer@[i].abs()
                == self.parent.terminal()
        &&& self.fetched@ < self.buffer@.len() ==> self.parent.remaining().len() == 0
    }

    closed spec fn remaining(&self) -> Seq<<S::Item as StreamItem>::A> {
        self.buffer@.take(self.fetched@ as int).map(|i: int, x: S::Item| x.abs())
            + self.parent.remaining()
    }

    closed spec fn terminal(&self) -> <S::Item as StreamItem>::A {
        self.parent.terminal()
    }

    fn get(&mut self) -> (r: S::Item) {
        let ghost pre = *self;
        match self.buffer.pop_front() {
            Some(item) => {
                self.fetched = Ghost(
                    if pre.fetched@ > 0 {
                        (pre.fetched@ - 1) as nat
                    } else {
                        0
                    },
                );
                proof {
                    if pre.fetched@ > 0 {
                        assert(pre.remaining()[0] == item.abs());
                        assert(self.remaining() =~= pre.remaining().drop_first());
                    } else {
                        assert(item.abs() == pre.parent.terminal());
                        assert(pre.remaining() =~= pre.parent.remaining());
                        assert(self.remaining() =~= pre.remaining());
                    }
                }
                item
            },
            None => {
                let r = self.parent.get();
                proof {
                    assert(pre.remaining() =~= pre.parent.remaining());
                    assert(self.remaining() =~= self.parent.remaining());
                }
                r
            },
        }
    }
}

impl<S: Source> Stream for BufferStream<S> {
    fn peek(&mut self, offset: usize) -> (r: S::Item) {
        let ghost pre = *self;
        while self.buffer.len() <= offset
            invariant
                self.wf(),
                self.remaining() == pre.remaining(),
                self.terminal() == pre.terminal(),
            decreases offset + 1 - self.buffer@.len(),
        {
            let ghost before = *self;
            let ghost had = self.parent.remaining().len() > 0;
            let item = self.parent.get();
            self.buffer.push_back(item);
            self.fetched = Ghost(
                if had {
                    before.fetched@ + 1
                } else {
                    before.fetched@
                },
            );
            proof {
                if had {
                    assert(before.fetched@ == before.buffer@.len());
                    assert(self.buffer@.take(self.fetched@ as int)
                        =~= before.buffer@.take(before.fetched@ as int).push(item));
                    assert(self.remaining() =~= before.remaining());
                } else {
                    assert(self.buffer@.take(self.fetched@ as int)
                        =~= before.buffer@.take(before.fetched@ as int));
                    assert(self.remaining() =~= before.remaining());
                }
            }
        }
        let r = self.buffer[offset].dup();
        proof {
            if (offset as int) < self.fetched@ {
                assert(self.remaining()[offset as int] == self.buffer@[offset as int].abs());
            } else {
                assert(self.buffer@[offset as int].abs() == self.parent.terminal());
                assert(self.parent.remaining().len() == 0);
                assert(self.remaining().len() == self.fetched@);
            }
        }
        r
    }
}

/// A [`Stream`] backed by a vector of items already in memory, consumed
/// front to back, with an explicit terminal item handed out once the
/// vector is exhausted.  This is the usual way to feed the scanner the
/// characters of a source text.
pub struct VecSource<T: StreamItem> {
    items: Vec<T>,
    pos: usize,
    term: T,
}

impl<T: StreamItem> VecSource<T> {
    pub fn new(items: Vec<T>, term: T) -> (r: Self)
        ensures
            r.wf(),
            r.remaining() == abs_seq(items@),
            r.terminal() == term.abs(),
    {
        let r = VecSource { items, pos: 0, term };
        proof {
            assert(r.remaining() =~= abs_seq(r.items@));
        }
        r
    }
}

impl<T: StreamItem> Source for VecSource<T> {
    type Item = T;

    closed spec fn wf(&self) -> bool {
        self.pos <= self.items.len()
    }

    closed spec fn remaining(&self) -> Seq<T::A> {
        abs_seq(self.items@).skip(self.pos as int)
    }

    closed spec fn terminal(&self) -> T::A {
        self.term.abs()
    }

    fn get(&mut self) -> (r: T) {
        let ghost pre = *self;
        if self.pos < self.items.len() {
            let r = self.items[self.pos].dup();
            self.pos = self.pos + 1;
            proof {
                assert(self.remaining() =~= pre.remaining().drop_first());
            }
            r
        } else {
            proof {
                assert(self.remaining().len() == 0);
            }
            self.term.dup()
        }
    }
}

impl<T: StreamItem> Stream for VecSource<T> {
    fn peek(&mut self, offset: usize) -> (r: T) {
        if offset < self.items.len() - self.pos {
            self.items[self.pos + offset].dup()
        } else {
            self.term.dup()
        }
    }
}

} // verus!
