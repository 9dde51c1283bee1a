//! The layout of the page file, and the transfer of one page.
//!
//! A single call to the operating system may move only a part of a page, or
//! nothing because a signal arrived. A transfer keeps count of what has been
//! moved and says after each call how to go on.

use crate::error::StorageError;
use crate::storage::PAGE_SIZE;
use vstd::prelude::*;

verus! {

/// The largest page id whose bytes can be addressed in a file.
pub const MAX_FILE_PAGE: u64 = 0x000f_ffff_ffff_ffff;

/// How one call to the operating system ended.
#[derive(Clone, Copy, Debug, PartialEq, Eq, Structural)]
pub enum IoOutcome {
    /// So many bytes were moved.
    Bytes(usize),
    /// A signal arrived before any byte was moved.
    Interrupted,
    /// The call failed.
    Failed,
}

/// How a transfer goes on after a call.
#[derive(Clone, Copy, Debug, PartialEq, Eq, Structural)]
pub enum TransferStep {
    /// The whole page has been moved.
    Complete,
    /// Another call is needed.
    Again,
    /// The transfer ends with the error of the call.
    Failed,
}

/// How many bytes a call has moved.
pub open spec fn bytes_moved(outcome: IoOutcome) -> nat {
    match outcome {
        IoOutcome::Bytes(n) => n as nat,
        _ => 0,
    }
}

/// How many bytes a number of calls have moved.
pub open spec fn total_moved(outcomes: Seq<IoOutcome>) -> nat
    decreases outcomes.len(),
{
    if outcomes.len() == 0 {
        0
    } else {
        total_moved(outcomes.drop_last()) + bytes_moved(outcomes.last())
    }
}

/// The `i`-th call has moved byte `byte` of the page: each call goes on where
/// the calls before it have stopped.
pub open spec fn call_moves(outcomes: Seq<IoOutcome>, i: int, byte: int) -> bool {
    &&& 0 <= i < outcomes.len()
    &&& total_moved(outcomes.take(i)) <= byte < total_moved(outcomes.take(i)) + bytes_moved(
        outcomes[i],
    )
}

/// Where a page begins in the file.
pub open spec fn page_start(page_id: int) -> int {
    page_id * PAGE_SIZE
}

/// Knows which pages of the file are in use.
pub struct DiskManager {
    next_page_id: u64,
}

impl DiskManager {
    /// The page id that is given out next.
    pub closed spec fn next(self) -> u64 {
        self.next_page_id
    }

    /// A file of the given size. A partial page at its end does not count.
    pub fn open(file_size: u64) -> (disk: Self)
        ensures
            disk.next() == file_size as int / PAGE_SIZE as int,
    {
        DiskManager { next_page_id: file_size / PAGE_SIZE as u64 }
    }

    /// Gives out the id of a new page at the end of the file.
    pub fn allocate_page(&mut self) -> (page_id: u64)
        requires
            old(self).next() < MAX_FILE_PAGE,
        ensures
            page_id == old(self).next(),
            final(self).next() == old(self).next() + 1,
    {
        let page_id: u64 = self.next_page_id;
        self.next_page_id = self.next_page_id + 1;
        page_id
    }

    /// The page id that is given out next.
    pub fn next_page_id(&self) -> (page_id: u64)
        ensures
            page_id == self.next(),
    {
        self.next_page_id
    }

    /// The size that the file needs for the pages given out so far.
    pub fn file_len(&self) -> (len: u64)
        requires
            self.next() <= MAX_FILE_PAGE,
        ensures
            len == page_start(self.next() as int),
    {
        let page_size: u64 = PAGE_SIZE as u64;
        assert(page_size == 4096);
        self.next_page_id * page_size
    }

    /// Starts to read a page.
    pub fn read_page(&self, page_id: u64) -> (transfer: PageTransfer)
        requires
            page_id <= MAX_FILE_PAGE,
        ensures
            transfer.wf(),
            transfer.page() == page_id,
            transfer.moved() == 0,
    {
        PageTransfer { page_id, done: 0 }
    }

    /// Starts to write a page.
    pub fn write_page(&self, page_id: u64) -> (transfer: PageTransfer)
        requires
            page_id <= MAX_FILE_PAGE,
        ensures
            transfer.wf(),
            transfer.page() == page_id,
            transfer.moved() == 0,
    {
        PageTransfer { page_id, done: 0 }
    }
}

/// The transfer of one page between the file and a frame.
pub struct PageTransfer {
    page_id: u64,
    done: usize,
}

impl PageTransfer {
    /// The page that is moved.
    pub closed spec fn page(self) -> u64 {
        self.page_id
    }

    /// How many bytes have been moved.
    pub closed spec fn moved(self) -> nat {
        self.done as nat
    }

    /// The page can be addressed, and no more than a page was moved.
    pub open spec fn wf(self) -> bool {
        self.page() <= MAX_FILE_PAGE && self.moved() <= PAGE_SIZE
    }

    /// How many bytes have been moved.
    pub fn done(&self) -> (done: usize)
        ensures
            done == self.moved(),
    {
        self.done
    }

    /// How many bytes the next call is asked to move.
    pub fn remaining(&self) -> (remaining: usize)
        requires
            self.wf(),
        ensures
            remaining == PAGE_SIZE - self.moved(),
    {
        PAGE_SIZE - self.done
    }

    /// Where in the file the next call starts.
    pub fn offset(&self) -> (offset: u64)
        requires
            self.wf(),
            self.moved() < PAGE_SIZE,
        ensures
            offset == page_start(self.page() as int) + self.moved(),
    {
        let page_size: u64 = PAGE_SIZE as u64;
        assert(page_size == 4096);
        self.page_id * page_size + self.done as u64
    }

    /// Goes on after a call that reads. A call that reads nothing has met the
    /// end of the file inside the page.
    pub fn after_read(&mut self, outcome: IoOutcome) -> (step: Result<TransferStep, StorageError>)
        requires
            old(self).wf(),
            old(self).moved() < PAGE_SIZE,
            outcome matches IoOutcome::Bytes(n) ==> old(self).moved() + n <= PAGE_SIZE,
        ensures
            final(self).wf(),
            final(self).page() == old(self).page(),
            final(self).moved() == old(self).moved() + bytes_moved(outcome),
            step == (match outcome {
                IoOutcome::Failed => Ok(TransferStep::Failed),
                IoOutcome::Interrupted => Ok(TransferStep::Again),
                IoOutcome::Bytes(n) => if n == 0 {
                    Err(StorageError::UnexpectedEof)
                } else if old(self).moved() + n == PAGE_SIZE {
                    Ok(TransferStep::Complete)
                } else {
                    Ok(TransferStep::Again)
                },
            }),
    {
        match outcome {
            IoOutcome::Failed => Ok(TransferStep::Failed),
            IoOutcome::Interrupted => Ok(TransferStep::Again),
            IoOutcome::Bytes(n) => {
                if n == 0 {
                    return Err(StorageError::UnexpectedEof);
                }
                self.done = self.done + n;
                if self.done < PAGE_SIZE {
                    Ok(TransferStep::Again)
                } else {
                    Ok(TransferStep::Complete)
                }
            },
        }
    }

    /// Goes on after a call that writes. A call that writes nothing is
    /// repeated.
    pub fn after_write(&mut self, outcome: IoOutcome) -> (step: TransferStep)
        requires
            old(self).wf(),
            old(self).moved() < PAGE_SIZE,
            outcome matches IoOutcome::Bytes(n) ==> old(self).moved() + n <= PAGE_SIZE,
        ensures
            final(self).wf(),
            final(self).page() == old(self).page(),
            final(self).moved() == old(self).moved() + bytes_moved(outcome),
            step == (match outcome {
                IoOutcome::Failed => TransferStep::Failed,
                IoOutcome::Interrupted => TransferStep::Again,
                IoOutcome::Bytes(n) => if old(self).moved() + n == PAGE_SIZE {
                    TransferStep::Complete
                } else {
                    TransferStep::Again
                },
            }),
    {
        match outcome {
            IoOutcome::Failed => TransferStep::Failed,
            IoOutcome::Interrupted => TransferStep::Again,
            IoOutcome::Bytes(n) => {
                self.done = self.done + n;
                if self.done < PAGE_SIZE {
                    TransferStep::Again
                } else {
                    TransferStep::Complete
                }
            },
        }
    }
}

proof fn lemma_total_grows(outcomes: Seq<IoOutcome>, i: int, j: int)
    requires
        0 <= i < j <= outcomes.len(),
    ensures
        total_moved(outcomes.take(i)) + bytes_moved(outcomes[i]) <= total_moved(outcomes.take(j)),
    decreases j,
{
    assert(outcomes.take(j).drop_last() =~= outcomes.take(j - 1));
    assert(outcomes.take(j).last() == outcomes[j - 1]);
    if i < j - 1 {
        lemma_total_grows(outcomes, i, j - 1);
    }
}

/// A transfer that has moved a whole page has moved each of its bytes, in one
/// call and no other.
pub proof fn law_transfer_moves_every_byte(outcomes: Seq<IoOutcome>, byte: int) -> (call: int)
    requires
        total_moved(outcomes) == PAGE_SIZE,
        0 <= byte < PAGE_SIZE,
    ensures
        call_moves(outcomes, call, byte),
        forall|other: int| #[trigger] call_moves(outcomes, other, byte) ==> other == call,
{
    assert(outcomes.take(outcomes.len() as int) =~= outcomes);
    let call = lemma_some_call_moves(outcomes, outcomes.len() as int, byte);
    assert forall|other: int| #[trigger] call_moves(outcomes, other, byte) implies other == call by {
        if other < call {
            lemma_total_grows(outcomes, other, call);
        } else if call < other {
            lemma_total_grows(outcomes, call, other);
        }
    }
    call
}

proof fn lemma_some_call_moves(outcomes: Seq<IoOutcome>, calls: int, byte: int) -> (call: int)
    requires
        0 <= calls <= outcomes.len(),
        0 <= byte < total_moved(outcomes.take(calls)),
    ensures
        call_moves(outcomes, call, byte),
    decreases calls,
{
    assert(calls > 0);
    assert(outcomes.take(calls).drop_last() =~= outcomes.take(calls - 1));
    assert(outcomes.take(calls).last() == outcomes[calls - 1]);
    if byte < total_moved(outcomes.take(calls - 1)) {
        lemma_some_call_moves(outcomes, calls - 1, byte)
    } else {
        calls - 1
    }
}

/// The first page starts at the first byte, each page starts one page size after
/// the one before it, and so page `p` starts at byte `4096 p`.
pub proof fn law_pages_lie_end_to_end(p: int)
    ensures
        page_start(0) == 0,
        page_start(p + 1) == page_start(p) + 4096,
        page_start(p) == 4096 * p,
{
}

/// A file that is as long as the pages given out need covers each of them, and
/// ends where the next one would start.
pub proof fn law_file_covers_its_pages(next: int, p: int)
    requires
        0 <= p < next,
    ensures
        0 <= page_start(p),
        page_start(p) + 4096 <= page_start(next),
        p == next - 1 ==> page_start(p) + 4096 == page_start(next),
{
}

/// A call moves the bytes that it reports, and none if it reports none; a number
/// of calls moves the sum.
pub proof fn law_moved_bytes_add_up(outcomes: Seq<IoOutcome>, outcome: IoOutcome)
    ensures
        outcome matches IoOutcome::Bytes(n) ==> bytes_moved(outcome) == n,
        outcome is Interrupted || outcome is Failed ==> bytes_moved(outcome) == 0,
        total_moved(Seq::empty()) == 0,
        outcome matches IoOutcome::Bytes(n) ==> total_moved(outcomes.push(outcome))
            == total_moved(outcomes) + n,
        outcome is Interrupted || outcome is Failed ==> total_moved(outcomes.push(outcome))
            == total_moved(outcomes),
{
    assert(outcomes.push(outcome).drop_last() =~= outcomes);
}

/// Two different pages share no byte of the file.
pub proof fn law_pages_are_disjoint(a: int, b: int)
    requires
        a != b,
    ensures
        page_start(a) + PAGE_SIZE <= page_start(b) || page_start(b) + PAGE_SIZE <= page_start(a),
{
}

} // verus!
