//! Pagination state machine for one cursor-paginated list request.
//!
//! A [`PageCursor`] turns successive page responses into one finite item
//! sequence. The consumer repeatedly asks for the [next event](PageCursor::next_event):
//! either the next buffered item, an instruction to fetch a page (with the
//! continuation cursor to pass), or the end of the sequence. Fetched pages
//! are handed back through [`PageCursor::feed_page`], which advances the
//! state machine `Start -> Partial(remaining) -> End`. At most one page is
//! buffered at a time.

use vstd::prelude::*;

use crate::errors::Error;

verus! {

/// The fixed page-size parameter sent with every page request.
pub const PAGE_SIZE: u64 = 100;

/// Pagination progress of one list request.
#[derive(Clone, Copy, Debug, PartialEq, Eq, Structural)]
pub enum CursorState {
    /// The first page has not been requested yet.
    Start,
    /// A total was announced and this many items are still expected
    /// beyond the pages received so far.
    Partial(u64),
    /// The sequence is exhausted; no further request is issued.
    End,
}

/// What the consumer of a [`PageCursor`] should do next.
#[derive(Debug)]
pub enum CursorEvent<T> {
    /// The next decoded item of the sequence.
    Item(T),
    /// Fetch the next page, passing this continuation cursor
    /// (`None` on the first page).
    Fetch(Option<String>),
    /// The sequence is complete.
    Done,
}

/// The state a page response moves the cursor to, given the previous state,
/// the optional announced total, and the page's item count. `None` stands
/// for a page that is inconsistent with the announced total.
pub open spec fn spec_page_transition(prev: CursorState, total: Option<u64>, n: nat) -> Option<
    CursorState,
> {
    match prev {
        CursorState::Start => match total {
            // without a total the response is not paginated: one page is all
            Option::None => Some(CursorState::End),
            Option::Some(t) => if n == 0 {
                // an empty page ends the sequence
                Some(CursorState::End)
            } else if n <= t {
                Some(CursorState::Partial((t - n) as u64))
            } else {
                None
            },
        },
        CursorState::Partial(r) => if n == 0 {
            Some(CursorState::End)
        } else if n <= r {
            Some(CursorState::Partial((r - n) as u64))
        } else {
            None
        },
        CursorState::End => None,
    }
}

/// Lazy, single-pass paginator over one parameterized list request.
pub struct PageCursor<T> {
    state: CursorState,
    cursor: Option<String>,
    /// The buffered page, reversed: the next item to yield is the last.
    buffer: Vec<T>,
}

impl<T> PageCursor<T> {
    /// Pagination state.
    pub closed spec fn spec_state(&self) -> CursorState {
        self.state
    }

    /// Buffered items not yet yielded, in yield order.
    pub closed spec fn spec_buffered(&self) -> Seq<T> {
        self.buffer@.reverse()
    }

    /// The continuation cursor for the next page request.
    pub closed spec fn spec_cursor(&self) -> Option<String> {
        self.cursor
    }

    /// Whether the cursor is waiting for a page to be fetched: the buffer is
    /// drained and the sequence is not known to be complete.
    pub open spec fn awaiting_page(&self) -> bool {
        &&& self.spec_buffered().len() == 0
        &&& match self.spec_state() {
            CursorState::Start => true,
            CursorState::Partial(r) => r > 0,
            CursorState::End => false,
        }
    }

    /// Whether two cursors describe the same pagination position.
    pub open spec fn spec_same(a: Self, b: Self) -> bool {
        &&& a.spec_state() == b.spec_state()
        &&& a.spec_cursor() == b.spec_cursor()
        &&& a.spec_buffered() == b.spec_buffered()
    }

    /// A fresh cursor: nothing requested, nothing buffered.
    pub fn new() -> (c: Self)
        ensures
            c.spec_state() == CursorState::Start,
            c.spec_buffered() == Seq::<T>::empty(),
            c.spec_cursor() == None::<String>,
    {
        let c = PageCursor { state: CursorState::Start, cursor: None, buffer: Vec::new() };
        proof {
            assert(c.spec_buffered() =~= Seq::<T>::empty());
        }
        c
    }

    /// The pagination state, for observation.
    pub fn state(&self) -> (s: CursorState)
        ensures
            s == self.spec_state(),
    {
        self.state
    }

    /// Yields the next buffered item; with the buffer drained, either asks
    /// for the next page or reports the end of the sequence. A drained
    /// buffer with no items left to expect is terminal.
    pub fn next_event(&mut self) -> (e: CursorEvent<T>)
        ensures
            old(self).spec_buffered().len() > 0 ==> {
                &&& final(self).spec_state() == old(self).spec_state()
                &&& final(self).spec_cursor() == old(self).spec_cursor()
                &&& final(self).spec_buffered() == old(self).spec_buffered().drop_first()
                &&& e == (CursorEvent::Item(old(self).spec_buffered().first()))
            },
            old(self).spec_buffered().len() == 0 ==> match old(self).spec_state() {
                CursorState::Start => Self::spec_same(*final(self), *old(self)) && e == (
                CursorEvent::<T>::Fetch(old(self).spec_cursor())),
                CursorState::Partial(r) => if r == 0 {
                    &&& final(self).spec_state() == CursorState::End
                    &&& final(self).spec_buffered().len() == 0
                    &&& e is Done
                } else {
                    Self::spec_same(*final(self), *old(self)) && e == (CursorEvent::<T>::Fetch(
                        old(self).spec_cursor(),
                    ))
                },
                CursorState::End => Self::spec_same(*final(self), *old(self)) && e is Done,
            },
    {
        let ghost prev = self.buffer@;
        match self.buffer.pop() {
            Some(item) => {
                proof {
                    assert(prev.reverse().first() == prev.last());
                    assert(self.buffer@.reverse() =~= prev.reverse().drop_first());
                }
                CursorEvent::Item(item)
            },
            None => {
                match self.state {
                    CursorState::Start => CursorEvent::Fetch(clone_cursor(&self.cursor)),
                    CursorState::Partial(r) => {
                        if r == 0 {
                            self.state = CursorState::End;
                            proof {
                                assert(final(self).spec_buffered() =~= old(self).spec_buffered());
                            }
                            CursorEvent::Done
                        } else {
                            CursorEvent::Fetch(clone_cursor(&self.cursor))
                        }
                    },
                    CursorState::End => CursorEvent::Done,
                }
            },
        }
    }

    /// Accepts one fetched page: the decoded items, the optional announced
    /// total (read only on the first page), and the response's continuation
    /// cursor. Fails with [`Error::PageCount`], changing nothing, exactly
    /// when the page holds more items than were still expected.
    pub fn feed_page(&mut self, total: Option<u64>, items: Vec<T>, next_cursor: Option<String>) -> (r:
        Result<(), Error>)
        requires
            old(self).awaiting_page(),
        ensures
            match r {
                Ok(()) => {
                    &&& Some(final(self).spec_state()) == spec_page_transition(
                        old(self).spec_state(),
                        total,
                        items@.len(),
                    )
                    &&& final(self).spec_buffered() == items@
                    &&& final(self).spec_cursor() == next_cursor
                },
                Err(e) => {
                    &&& e == Error::PageCount
                    &&& *final(self) == *old(self)
                    &&& spec_page_transition(old(self).spec_state(), total, items@.len()) is None
                },
            },
    {
        let n = items.len() as u64;
        let next_state = match self.state {
            CursorState::Start => match total {
                None => CursorState::End,
                Some(t) => {
                    if n == 0 {
                        CursorState::End
                    } else if n <= t {
                        CursorState::Partial(t - n)
                    } else {
                        return Err(Error::PageCount);
                    }
                },
            },
            CursorState::Partial(r) => {
                if n == 0 {
                    CursorState::End
                } else if n <= r {
                    CursorState::Partial(r - n)
                } else {
                    return Err(Error::PageCount);
                }
            },
            CursorState::End => {
                proof {
                    assert(false);
                }
                CursorState::End
            },
        };
        self.state = next_state;
        self.cursor = next_cursor;
        let ghost page = items@;
        let mut items = items;
        let mut buffer: Vec<T> = Vec::new();
        proof {
            assert(buffer@ =~= page.skip(page.len() as int).reverse());
        }
        while items.len() > 0
            invariant
                items@.len() <= page.len(),
                items@ == page.take(items@.len() as int),
                buffer@ == page.skip(items@.len() as int).reverse(),
            decreases items@.len(),
        {
            let ghost m = items@.len() as int;
            match items.pop() {
                Some(item) => {
                    buffer.push(item);
                    proof {
                        assert(items@ =~= page.take(m - 1));
                        assert(buffer@ =~= page.skip(m - 1).reverse());
                    }
                },
                None => {},
            }
        }
        self.buffer = buffer;
        proof {
            assert(page.skip(0) =~= page);
            assert(self.buffer@.reverse() =~= page);
        }
        Ok(())
    }
}

/// Copies a continuation cursor.
fn clone_cursor(c: &Option<String>) -> (r: Option<String>)
    ensures
        r == *c,
{
    match c {
        Some(s) => Some(s.clone()),
        None => None,
    }
}

} // verus!
