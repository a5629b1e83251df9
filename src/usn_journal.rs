use vstd::prelude::*;

use crate::cursor::{
    complete_fetch_post, next_step_post, step_view, CursorStep, CursorView, RecordCursor,
};
use crate::{Usn, DEFAULT_BUFFER_SIZE, USN_REASON_MASK_ALL};

verus! {

/// How a walk of the live journal is set up.
pub struct UsnJournalEnumOptions {
    /// The first position to read from.
    pub start_usn: Usn,
    /// Which change reasons to report.
    pub reason_mask: u32,
    /// Report a change only when the file is closed.
    pub only_on_close: bool,
    /// How long a read waits for more records.
    pub timeout: u64,
    /// Let a read wait until more records come in.
    pub wait_for_more: bool,
    /// Size of the buffer that each read fills.
    pub buffer_size: usize,
}

impl Default for UsnJournalEnumOptions {
    fn default() -> (r: Self)
        ensures
            r.start_usn == 0,
            r.reason_mask == USN_REASON_MASK_ALL,
            !r.only_on_close,
            r.timeout == 0,
            !r.wait_for_more,
            r.buffer_size == DEFAULT_BUFFER_SIZE,
    {
        UsnJournalEnumOptions {
            start_usn: 0,
            reason_mask: USN_REASON_MASK_ALL,
            only_on_close: false,
            timeout: 0,
            wait_for_more: false,
            buffer_size: DEFAULT_BUFFER_SIZE,
        }
    }
}

/// The parameters of one read of the live journal.
#[derive(Debug, Clone, Copy, PartialEq, Eq, Structural)]
pub struct ReadRequest {
    pub start_usn: Usn,
    pub reason_mask: u32,
    pub return_only_on_close: u32,
    pub timeout: u64,
    pub bytes_to_wait_for: u64,
    pub journal_id: u64,
}

/// A cursor over the live change journal. Its continuation token is the
/// position of the next record to read.
pub struct UsnJournal {
    pub journal_id: u64,
    pub cursor: RecordCursor,
    pub reason_mask: u32,
    pub return_only_on_close: u32,
    pub timeout: u64,
    pub bytes_to_wait_for: u64,
}

impl UsnJournal {
    /// The state of the underlying cursor.
    pub open spec fn cursor_view(&self) -> CursorView {
        self.cursor@
    }

    pub open spec fn wf(&self) -> bool {
        self.cursor.wf() && self.cursor@.live
    }

    /// A cursor over journal `journal_id` from its first position, reporting
    /// every change reason without waiting.
    pub fn new(journal_id: u64) -> (r: Self)
        ensures
            r.wf(),
            r.journal_id == journal_id,
            r.cursor_view().token == 0,
            !r.cursor_view().terminal,
            r.cursor_view().offset == 0 && r.cursor_view().valid == 0,
            r.cursor_view().bytes.len() == DEFAULT_BUFFER_SIZE,
            r.reason_mask == USN_REASON_MASK_ALL,
            r.return_only_on_close == 0,
            r.timeout == 0,
            r.bytes_to_wait_for == 1,
    {
        UsnJournal {
            journal_id,
            cursor: RecordCursor::new(DEFAULT_BUFFER_SIZE, 0, true),
            reason_mask: USN_REASON_MASK_ALL,
            return_only_on_close: 0,
            timeout: 0,
            bytes_to_wait_for: 1,
        }
    }

    /// A cursor over journal `journal_id` set up by `options`.
    pub fn new_with_options(journal_id: u64, options: UsnJournalEnumOptions) -> (r: Self)
        ensures
            r.wf(),
            r.journal_id == journal_id,
            r.cursor_view().token as i64 == options.start_usn,
            !r.cursor_view().terminal,
            r.cursor_view().offset == 0 && r.cursor_view().valid == 0,
            r.cursor_view().bytes.len() == options.buffer_size,
            r.reason_mask == options.reason_mask,
            r.return_only_on_close == (if options.only_on_close { 1u32 } else { 0u32 }),
            r.timeout == options.timeout,
            r.bytes_to_wait_for == (if options.wait_for_more { 1u64 } else { 0u64 }),
    {
        let start: i64 = options.start_usn;
        proof {
            assert((start as u64) as i64 == start) by (bit_vector);
        }
        UsnJournal {
            journal_id,
            cursor: RecordCursor::new(options.buffer_size, start as u64, true),
            reason_mask: options.reason_mask,
            return_only_on_close: if options.only_on_close { 1 } else { 0 },
            timeout: options.timeout,
            bytes_to_wait_for: if options.wait_for_more { 1 } else { 0 },
        }
    }

    /// The read that continues the walk from the current token.
    pub fn read_request(&self) -> (r: ReadRequest)
        requires
            self.wf(),
        ensures
            r.start_usn == self.cursor_view().token as i64,
            r.reason_mask == self.reason_mask,
            r.return_only_on_close == self.return_only_on_close,
            r.timeout == self.timeout,
            r.bytes_to_wait_for == self.bytes_to_wait_for,
            r.journal_id == self.journal_id,
    {
        ReadRequest {
            start_usn: self.cursor.token() as i64,
            reason_mask: self.reason_mask,
            return_only_on_close: self.return_only_on_close,
            timeout: self.timeout,
            bytes_to_wait_for: self.bytes_to_wait_for,
            journal_id: self.journal_id,
        }
    }

    /// The next record, or the fetch that is due, or the end of the walk.
    pub fn find_next_entry(&mut self) -> (r: CursorStep)
        requires
            old(self).wf(),
        ensures
            final(self).wf(),
            next_step_post(old(self).cursor_view(), final(self).cursor_view(), r),
            final(self).cursor_view() == step_view(old(self).cursor_view()),
            final(self).journal_id == old(self).journal_id,
            final(self).reason_mask == old(self).reason_mask,
            final(self).return_only_on_close == old(self).return_only_on_close,
            final(self).timeout == old(self).timeout,
            final(self).bytes_to_wait_for == old(self).bytes_to_wait_for,
    {
        self.cursor.next_step()
    }

    /// Takes out the buffer for the next read to fill.
    pub fn take_buffer(&mut self) -> (r: Vec<u8>)
        requires
            old(self).wf(),
        ensures
            final(self).wf(),
            r@ == old(self).cursor_view().bytes,
            final(self).cursor_view() == (CursorView {
                bytes: Seq::empty(),
                valid: 0,
                offset: 0,
                ..old(self).cursor_view()
            }),
            final(self).journal_id == old(self).journal_id,
            final(self).reason_mask == old(self).reason_mask,
            final(self).return_only_on_close == old(self).return_only_on_close,
            final(self).timeout == old(self).timeout,
            final(self).bytes_to_wait_for == old(self).bytes_to_wait_for,
    {
        self.cursor.take_buffer()
    }

    /// Hands over the buffer of a successful read that wrote `bytes_written`
    /// bytes. A token of 0, or below the position asked for, ends the walk:
    /// the journal did not move on.
    pub fn complete_fetch(&mut self, buffer: Vec<u8>, bytes_written: usize)
        requires
            old(self).wf(),
            bytes_written <= buffer@.len(),
        ensures
            final(self).wf(),
            complete_fetch_post(
                old(self).cursor_view(),
                final(self).cursor_view(),
                buffer@,
                bytes_written as int,
            ),
            final(self).cursor_view().token as i64 >= old(self).cursor_view().token as i64,
            final(self).journal_id == old(self).journal_id,
            final(self).reason_mask == old(self).reason_mask,
            final(self).return_only_on_close == old(self).return_only_on_close,
            final(self).timeout == old(self).timeout,
            final(self).bytes_to_wait_for == old(self).bytes_to_wait_for,
    {
        self.cursor.complete_fetch(buffer, bytes_written)
    }

    /// Ends the walk: the read reported end of data, or failed.
    pub fn end(&mut self)
        requires
            old(self).wf(),
        ensures
            final(self).wf(),
            final(self).cursor_view() == (CursorView { terminal: true, ..old(self).cursor_view() }),
            final(self).journal_id == old(self).journal_id,
            final(self).reason_mask == old(self).reason_mask,
            final(self).return_only_on_close == old(self).return_only_on_close,
            final(self).timeout == old(self).timeout,
            final(self).bytes_to_wait_for == old(self).bytes_to_wait_for,
    {
        self.cursor.end()
    }
}

} // verus!
