use vstd::prelude::*;

use crate::usn_entry::{
    decode_error, entry_matches, le64, le_i64, read_u64, record_length_at, DecodeError,
    UsnEntry,
};

verus! {

/// Bytes at the start of every fetched buffer that hold the continuation token.
pub const TOKEN_LEN: usize = 8;

/// What a cursor does next.
#[derive(Debug)]
pub enum CursorStep {
    /// The next record.
    Entry(UsnEntry),
    /// The buffer is used up: fetch from this token, then hand the result to
    /// `complete_fetch`, or call `end` on end of data or failure.
    Fetch(u64),
    /// A record could not be decoded; the cursor yields nothing more.
    Stopped(DecodeError),
    /// The cursor yields nothing more.
    Finished,
}

/// What a cursor holds, as plain values.
pub struct CursorView {
    /// The buffer of the last fetch.
    pub bytes: Seq<u8>,
    /// How many of `bytes` the last fetch wrote.
    pub valid: int,
    /// Where the next record starts.
    pub offset: int,
    /// The token of the next fetch.
    pub token: u64,
    /// No record will come any more.
    pub terminal: bool,
    /// Live-journal behaviour: a returned token of 0, or below the one asked
    /// for, is taken as end of data.
    pub live: bool,
}

/// The paged walk shared by the live-journal and the file-table cursors.
/// Each fetched buffer starts with the token of the next fetch, followed by
/// records laid end to end.
pub struct RecordCursor {
    buffer: Vec<u8>,
    bytes_read: usize,
    offset: usize,
    token: u64,
    terminal: bool,
    live: bool,
}

impl View for RecordCursor {
    type V = CursorView;

    closed spec fn view(&self) -> CursorView {
        CursorView {
            bytes: self.buffer@,
            valid: self.bytes_read as int,
            offset: self.offset as int,
            token: self.token,
            terminal: self.terminal,
            live: self.live,
        }
    }
}

/// The walk over the records of `b` from `off` to `valid`: where it ends, or
/// `None` when a record on the way cannot be decoded.
pub open spec fn walk_end(b: Seq<u8>, valid: int, off: int) -> Option<int>
    decreases valid - off,
{
    if off >= valid {
        Some(off)
    } else if decode_error(b, valid, off) is Some {
        None
    } else {
        walk_end(b, valid, off + record_length_at(b, off))
    }
}

/// A fetch that returned `n` bytes in `b`, asked from `requested`, moves the
/// cursor on: the buffer holds a token, and for the live journal that token
/// is neither 0 nor below `requested`.
pub open spec fn fetch_accepted(b: Seq<u8>, n: int, requested: u64, live: bool) -> bool {
    n >= TOKEN_LEN && (live ==> le_i64(b, 0) != 0 && le_i64(b, 0) >= requested as i64)
}

/// How `next_step` relates the cursor before (`c`) and after (`d`) to what
/// it returned.
pub open spec fn next_step_post(c: CursorView, d: CursorView, r: CursorStep) -> bool {
    if c.terminal {
        r is Finished && d == c
    } else if c.offset < c.valid {
        match decode_error(c.bytes, c.valid, c.offset) {
            Some(err) => r == CursorStep::Stopped(err) && d == CursorView { terminal: true, ..c },
            None => r matches CursorStep::Entry(e) && entry_matches(e, c.bytes, c.offset)
                && d == CursorView { offset: c.offset + record_length_at(c.bytes, c.offset), ..c },
        }
    } else {
        r == CursorStep::Fetch(c.token) && d == c
    }
}

/// The cursor after one `next_step` from `c`: past the record when it
/// decodes, ended when it does not, unchanged when a fetch is due or the
/// cursor is done.
pub open spec fn step_view(c: CursorView) -> CursorView {
    if c.terminal || c.offset >= c.valid {
        c
    } else if decode_error(c.bytes, c.valid, c.offset) is Some {
        CursorView { terminal: true, ..c }
    } else {
        CursorView { offset: c.offset + record_length_at(c.bytes, c.offset), ..c }
    }
}

/// The cursor after `k` calls of `next_step` from `c`.
pub open spec fn steps(c: CursorView, k: nat) -> CursorView
    decreases k,
{
    if k == 0 {
        c
    } else {
        steps(step_view(c), (k - 1) as nat)
    }
}

/// How many records a walk of `b` from `off` to `valid` decodes before it
/// reaches the end or a record that cannot be decoded.
pub open spec fn walk_count(b: Seq<u8>, valid: int, off: int) -> nat
    decreases valid - off,
{
    if off >= valid || decode_error(b, valid, off) is Some {
        0
    } else {
        1 + walk_count(b, valid, off + record_length_at(b, off))
    }
}

/// Where a walk of `b` from `off` to `valid` stops: at `valid` or past it,
/// or at the first record that cannot be decoded.
pub open spec fn walk_stop(b: Seq<u8>, valid: int, off: int) -> int
    decreases valid - off,
{
    if off >= valid || decode_error(b, valid, off) is Some {
        off
    } else {
        walk_stop(b, valid, off + record_length_at(b, off))
    }
}

/// How `complete_fetch` of `n` bytes in `b` changes the cursor from `c` to `d`.
pub open spec fn complete_fetch_post(c: CursorView, d: CursorView, b: Seq<u8>, n: int) -> bool {
    &&& d.bytes == b
    &&& d.valid == n
    &&& d.live == c.live
    &&& if fetch_accepted(b, n, c.token, c.live) {
        &&& d.token == le64(b, 0) as u64
        &&& d.offset == TOKEN_LEN
        &&& d.terminal == (c.terminal || n <= TOKEN_LEN)
    } else {
        &&& d.token == c.token
        &&& d.offset == n
        &&& d.terminal
    }
}

impl RecordCursor {
    /// The cursor's bookkeeping is consistent: the valid bytes lie in the
    /// buffer and the next record starts among them or just past them.
    pub open spec fn wf(&self) -> bool {
        self@.valid <= self@.bytes.len() && 0 <= self@.offset <= self@.valid
    }

    /// A cursor with a zeroed buffer of `buffer_size` bytes whose first fetch
    /// asks from `token`.
    pub fn new(buffer_size: usize, token: u64, live: bool) -> (r: Self)
        ensures
            r.wf(),
            r@.bytes.len() == buffer_size,
            r@.valid == 0,
            r@.offset == 0,
            r@.token == token,
            !r@.terminal,
            r@.live == live,
    {
        RecordCursor {
            buffer: vec![0u8; buffer_size],
            bytes_read: 0,
            offset: 0,
            token,
            terminal: false,
            live,
        }
    }

    /// The token of the next fetch.
    pub fn token(&self) -> (r: u64)
        ensures
            r == self@.token,
    {
        self.token
    }

    /// Whether the cursor will yield nothing more.
    pub fn is_finished(&self) -> (r: bool)
        ensures
            r == self@.terminal,
    {
        self.terminal
    }

    /// Decodes the next record of the buffer, or says that a fetch is due, or
    /// that the cursor is done. A record that cannot be decoded ends the
    /// cursor, since no later offset in the buffer can be trusted.
    pub fn next_step(&mut self) -> (r: CursorStep)
        requires
            old(self).wf(),
        ensures
            final(self).wf(),
            next_step_post(old(self)@, final(self)@, r),
            final(self)@ == step_view(old(self)@),
    {
        if self.terminal {
            return CursorStep::Finished;
        }
        if self.offset < self.bytes_read {
            match UsnEntry::new(self.buffer.as_slice(), self.bytes_read, self.offset) {
                Ok((entry, next)) => {
                    self.offset = next;
                    CursorStep::Entry(entry)
                },
                Err(err) => {
                    self.terminal = true;
                    CursorStep::Stopped(err)
                },
            }
        } else {
            CursorStep::Fetch(self.token)
        }
    }

    /// Takes the buffer out, to be filled by the next fetch; the cursor keeps
    /// no valid bytes.
    pub fn take_buffer(&mut self) -> (r: Vec<u8>)
        requires
            old(self).wf(),
        ensures
            final(self).wf(),
            r@ == old(self)@.bytes,
            final(self)@ == (CursorView { bytes: Seq::empty(), valid: 0, offset: 0, ..old(self)@ }),
    {
        let mut taken: Vec<u8> = Vec::new();
        std::mem::swap(&mut taken, &mut self.buffer);
        self.bytes_read = 0;
        self.offset = 0;
        taken
    }

    /// Hands the cursor the buffer of a successful fetch that wrote
    /// `bytes_written` bytes. Its first eight bytes are the token of the next
    /// fetch and the records follow. A buffer too short to hold the token
    /// ends the cursor; so does, for the live journal, a token of 0 or below
    /// the one asked for, since the journal did not move on.
    pub fn complete_fetch(&mut self, buffer: Vec<u8>, bytes_written: usize)
        requires
            old(self).wf(),
            bytes_written <= buffer@.len(),
        ensures
            final(self).wf(),
            complete_fetch_post(old(self)@, final(self)@, buffer@, bytes_written as int),
            old(self)@.live ==> final(self)@.token as i64 >= old(self)@.token as i64,
    {
        self.buffer = buffer;
        self.bytes_read = bytes_written;
        if bytes_written < TOKEN_LEN {
            self.offset = bytes_written;
            self.terminal = true;
            return;
        }
        let next = read_u64(self.buffer.as_slice(), 0);
        if self.live && (next as i64 == 0 || (next as i64) < (self.token as i64)) {
            self.offset = bytes_written;
            self.terminal = true;
            return;
        }
        self.token = next;
        self.offset = TOKEN_LEN;
        if bytes_written <= TOKEN_LEN {
            self.terminal = true;
        }
    }

    /// Ends the cursor: the fetch reported end of data, or failed.
    pub fn end(&mut self)
        requires
            old(self).wf(),
        ensures
            final(self).wf(),
            final(self)@ == (CursorView { terminal: true, ..old(self)@ }),
    {
        self.terminal = true;
    }
}

/// Walking the records of a fetched buffer from just past its token, when no
/// record on the way fails to decode, ends exactly at the last valid byte:
/// the records use up all `valid - 8` bytes after the token.
pub proof fn lemma_walk_consumes_buffer(b: Seq<u8>, valid: int, off: int)
    requires
        off <= valid,
    ensures
        walk_end(b, valid, off) is Some ==> walk_end(b, valid, off) == Some(valid),
    decreases valid - off,
{
    if off < valid && decode_error(b, valid, off) is None {
        lemma_walk_consumes_buffer(b, valid, off + record_length_at(b, off));
    }
}

/// Successive `next_step` calls on a buffer yield its records in buffer
/// order: each of the first `walk_count` calls finds a record that decodes
/// (so it returns that record), and afterwards the cursor stands, still
/// going, where the walk stops. That is either the end of the valid bytes,
/// so the next call asks for a fetch (and when no record failed, exactly the
/// bytes after the token were used: see `lemma_walk_consumes_buffer`), or a
/// record that cannot be decoded, so the next call stops the cursor and
/// every record before it was yielded.
pub proof fn lemma_steps_walk_buffer(c: CursorView)
    requires
        !c.terminal,
        0 <= c.offset <= c.valid,
    ensures
        forall|i: nat|
            i < walk_count(c.bytes, c.valid, c.offset) ==> {
                let s = #[trigger] steps(c, i);
                &&& !s.terminal
                &&& s.bytes == c.bytes && s.valid == c.valid && s.token == c.token
                &&& c.offset <= s.offset < c.valid
                &&& decode_error(c.bytes, c.valid, s.offset) is None
            },
        steps(c, walk_count(c.bytes, c.valid, c.offset)) == (CursorView {
            offset: walk_stop(c.bytes, c.valid, c.offset),
            ..c
        }),
        walk_stop(c.bytes, c.valid, c.offset) == c.valid || (walk_stop(
            c.bytes,
            c.valid,
            c.offset,
        ) < c.valid && decode_error(c.bytes, c.valid, walk_stop(c.bytes, c.valid, c.offset))
            is Some),
    decreases c.valid - c.offset,
{
    if !(c.offset >= c.valid || decode_error(c.bytes, c.valid, c.offset) is Some) {
        let n = step_view(c);
        lemma_steps_walk_buffer(n);
        let k = walk_count(c.bytes, c.valid, c.offset);
        assert forall|i: nat| i < k implies {
            let s = #[trigger] steps(c, i);
            &&& !s.terminal
            &&& s.bytes == c.bytes && s.valid == c.valid && s.token == c.token
            &&& c.offset <= s.offset < c.valid
            &&& decode_error(c.bytes, c.valid, s.offset) is None
        } by {
            if i > 0 {
                assert(steps(c, i) == steps(n, (i - 1) as nat));
            }
        }
        assert(steps(c, k) == steps(n, (k - 1) as nat));
    }
}

/// The journal positions of the records of `b` from `off` to `valid`, in
/// buffer order, up to the first record that cannot be decoded.
pub open spec fn page_usns(b: Seq<u8>, valid: int, off: int) -> Seq<i64>
    decreases valid - off,
{
    if off >= valid || decode_error(b, valid, off) is Some {
        Seq::empty()
    } else {
        seq![le_i64(b, off + 24)] + page_usns(b, valid, off + record_length_at(b, off))
    }
}

/// `s` never goes down.
pub open spec fn non_decreasing(s: Seq<i64>) -> bool {
    forall|i: int, j: int| 0 <= i < j < s.len() ==> s[i] <= s[j]
}

/// What the journal promises of a buffer of `n` bytes read from position
/// `from`: its records come in order, none before `from` and all before the
/// position that the buffer's token names.
pub open spec fn journal_page(b: Seq<u8>, n: int, from: i64) -> bool {
    &&& non_decreasing(page_usns(b, n, TOKEN_LEN as int))
    &&& forall|i: int|
        0 <= i < page_usns(b, n, TOKEN_LEN as int).len() ==> from <= #[trigger] page_usns(
            b,
            n,
            TOKEN_LEN as int,
        )[i] < le_i64(b, 0)
}

/// The token after fetching `pages` (each a buffer and its valid length) in
/// turn, starting from `start`.
pub open spec fn token_after(start: u64, pages: Seq<(Seq<u8>, int)>) -> u64 {
    if pages.len() == 0 {
        start
    } else {
        le64(pages.last().0, 0) as u64
    }
}

/// Each of `pages`, read in turn from `start`, kept the journal's promise
/// and was accepted by a live cursor that asked from the token before it.
pub open spec fn live_pages(start: u64, pages: Seq<(Seq<u8>, int)>) -> bool
    decreases pages.len(),
{
    pages.len() == 0 || {
        let from = token_after(start, pages.drop_last());
        &&& live_pages(start, pages.drop_last())
        &&& fetch_accepted(pages.last().0, pages.last().1, from, true)
        &&& journal_page(pages.last().0, pages.last().1, from as i64)
    }
}

/// The positions of the records of `pages`, page after page.
pub open spec fn usns_of_pages(pages: Seq<(Seq<u8>, int)>) -> Seq<i64>
    decreases pages.len(),
{
    if pages.len() == 0 {
        Seq::empty()
    } else {
        usns_of_pages(pages.drop_last()) + page_usns(
            pages.last().0,
            pages.last().1,
            TOKEN_LEN as int,
        )
    }
}

/// The records that a live cursor yields over the pages it accepts come in
/// journal order, each at or after the one before, provided that each page
/// keeps the journal's promise. The cursor adds what holds across pages: a
/// page is accepted only when its token does not go back, so the token
/// never drops below a position already yielded.
pub proof fn lemma_live_records_in_order(start: u64, pages: Seq<(Seq<u8>, int)>)
    requires
        live_pages(start, pages),
    ensures
        non_decreasing(usns_of_pages(pages)),
        forall|i: int|
            0 <= i < usns_of_pages(pages).len() ==> start as i64 <= #[trigger] usns_of_pages(
                pages,
            )[i] < token_after(start, pages) as i64,
    decreases pages.len(),
{
    if pages.len() > 0 {
        let prev = pages.drop_last();
        lemma_live_records_in_order(start, prev);
        let from = token_after(start, prev);
        let last = pages.last();
        let a = usns_of_pages(prev);
        let p = page_usns(last.0, last.1, TOKEN_LEN as int);
        let u = usns_of_pages(pages);
        assert(u == a + p);
        assert(le_i64(last.0, 0) == token_after(start, pages) as i64);
        assert(from as i64 <= le_i64(last.0, 0));
        if prev.len() > 0 {
            let before = token_after(start, prev.drop_last());
            assert(live_pages(start, prev));
            assert(fetch_accepted(prev.last().0, prev.last().1, before, true));
            assert(start as i64 <= from as i64) by {
                lemma_live_tokens_rise(start, prev);
            }
        }
        assert forall|i: int, j: int| 0 <= i < j < u.len() implies u[i] <= u[j] by {
            if j < a.len() {
                assert(u[i] == a[i] && u[j] == a[j]);
            } else if i >= a.len() {
                assert(u[i] == p[i - a.len()] && u[j] == p[j - a.len()]);
            } else {
                assert(u[i] == a[i]);
                assert(u[j] == p[j - a.len()]);
            }
        }
        assert forall|i: int| 0 <= i < u.len() implies start as i64 <= #[trigger] u[i]
            < token_after(start, pages) as i64 by {
            if i < a.len() {
                assert(u[i] == a[i]);
            } else {
                assert(u[i] == p[i - a.len()]);
            }
        }
    }
}

/// Over pages that a live cursor accepts in turn, the token never drops below
/// the one it started from.
pub proof fn lemma_live_tokens_rise(start: u64, pages: Seq<(Seq<u8>, int)>)
    requires
        live_pages(start, pages),
    ensures
        start as i64 <= token_after(start, pages) as i64,
    decreases pages.len(),
{
    if pages.len() > 0 {
        lemma_live_tokens_rise(start, pages.drop_last());
    }
}

} // verus!
