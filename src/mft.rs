use vstd::prelude::*;

use crate::cursor::{
    complete_fetch_post, next_step_post, step_view, CursorStep, CursorView, RecordCursor,
};
use crate::{Usn, DEFAULT_BUFFER_SIZE};

verus! {

/// How a walk of the file table is set up: only records whose last change
/// lies in `low_usn ..= high_usn` are reported.
pub struct MftEnumOptions {
    pub low_usn: Usn,
    pub high_usn: Usn,
    /// Size of the buffer that each fetch fills.
    pub buffer_size: usize,
}

impl Default for MftEnumOptions {
    fn default() -> (r: Self)
        ensures
            r.low_usn == 0,
            r.high_usn == i64::MAX,
            r.buffer_size == DEFAULT_BUFFER_SIZE,
    {
        MftEnumOptions { low_usn: 0, high_usn: i64::MAX, buffer_size: DEFAULT_BUFFER_SIZE }
    }
}

/// The parameters of one fetch of the file table.
#[derive(Debug, Clone, Copy, PartialEq, Eq, Structural)]
pub struct EnumRequest {
    pub start_file_id: u64,
    pub low_usn: Usn,
    pub high_usn: Usn,
}

/// A cursor over every record of the file table, one snapshot walk. Its
/// continuation token is the file id to start the next fetch from.
pub struct Mft {
    pub cursor: RecordCursor,
    pub low_usn: Usn,
    pub high_usn: Usn,
}

impl Mft {
    /// The state of the underlying cursor.
    pub open spec fn cursor_view(&self) -> CursorView {
        self.cursor@
    }

    pub open spec fn wf(&self) -> bool {
        self.cursor.wf() && !self.cursor@.live
    }

    /// A walk of the whole table from file id 0, every record visible.
    pub fn new() -> (r: Self)
        ensures
            r.wf(),
            r.cursor_view().token == 0,
            !r.cursor_view().terminal,
            r.cursor_view().offset == 0 && r.cursor_view().valid == 0,
            r.cursor_view().bytes.len() == DEFAULT_BUFFER_SIZE,
            r.low_usn == 0,
            r.high_usn == i64::MAX,
    {
        Mft {
            cursor: RecordCursor::new(DEFAULT_BUFFER_SIZE, 0, false),
            low_usn: 0,
            high_usn: i64::MAX,
        }
    }

    /// A walk of the whole table set up by `options`: the first fetch starts
    /// from file id 0, and the journal range only decides which records are
    /// visible.
    pub fn new_with_options(options: MftEnumOptions) -> (r: Self)
        ensures
            r.wf(),
            r.cursor_view().token == 0,
            !r.cursor_view().terminal,
            r.cursor_view().offset == 0 && r.cursor_view().valid == 0,
            r.cursor_view().bytes.len() == options.buffer_size,
            r.low_usn == options.low_usn,
            r.high_usn == options.high_usn,
    {
        Mft {
            cursor: RecordCursor::new(options.buffer_size, 0, false),
            low_usn: options.low_usn,
            high_usn: options.high_usn,
        }
    }

    /// The fetch that continues the walk from the current token.
    pub fn enum_request(&self) -> (r: EnumRequest)
        requires
            self.wf(),
        ensures
            r.start_file_id == self.cursor_view().token,
            r.low_usn == self.low_usn,
            r.high_usn == self.high_usn,
    {
        EnumRequest {
            start_file_id: self.cursor.token(),
            low_usn: self.low_usn,
            high_usn: self.high_usn,
        }
    }

    /// The next record, or the fetch that is due, or the end of the walk.
    pub fn find_next_entry(&mut self) -> (r: CursorStep)
        requires
            old(self).wf(),
        ensures
            final(self).wf(),
            next_step_post(old(self).cursor_view(), final(self).cursor_view(), r),
            final(self).cursor_view() == step_view(old(self).cursor_view()),
            final(self).low_usn == old(self).low_usn,
            final(self).high_usn == old(self).high_usn,
    {
        self.cursor.next_step()
    }

    /// Takes out the buffer for the next fetch to fill.
    pub fn take_buffer(&mut self) -> (r: Vec<u8>)
        requires
            old(self).wf(),
        ensures
            final(self).wf(),
            r@ == old(self).cursor_view().bytes,
            final(self).cursor_view() == (CursorView {
                bytes: Seq::empty(),
                valid: 0,
                offset: 0,
                ..old(self).cursor_view()
            }),
            final(self).low_usn == old(self).low_usn,
            final(self).high_usn == old(self).high_usn,
    {
        self.cursor.take_buffer()
    }

    /// Hands over the buffer of a successful fetch that wrote
    /// `bytes_written` bytes.
    pub fn complete_fetch(&mut self, buffer: Vec<u8>, bytes_written: usize)
        requires
            old(self).wf(),
            bytes_written <= buffer@.len(),
        ensures
            final(self).wf(),
            complete_fetch_post(
                old(self).cursor_view(),
                final(self).cursor_view(),
                buffer@,
                bytes_written as int,
            ),
            final(self).low_usn == old(self).low_usn,
            final(self).high_usn == old(self).high_usn,
    {
        self.cursor.complete_fetch(buffer, bytes_written)
    }

    /// Ends the walk: the fetch reported end of data, or failed.
    pub fn end(&mut self)
        requires
            old(self).wf(),
        ensures
            final(self).wf(),
            final(self).cursor_view() == (CursorView { terminal: true, ..old(self).cursor_view() }),
            final(self).low_usn == old(self).low_usn,
            final(self).high_usn == old(self).high_usn,
    {
        self.cursor.end()
    }
}

} // verus!
