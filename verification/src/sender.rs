//! The row sender: it holds back the last row that it was given, so that the
//! row that turns out to be the last of its LSN can be marked as such
//! without looking ahead in the stream.

use crate::output::{value_end, value_lsn, InternalMessage};
use vstd::prelude::*;

verus! {

/// A row that waits to be sent.
#[derive(Debug, PartialEq, Eq)]
pub struct RowMessage<R> {
    /// The output that the row goes to.
    pub output_index: usize,
    /// The row.
    pub row: R,
    /// The LSN at which the row changes.
    pub lsn: u64,
    /// 1 for a row that enters the output, -1 for one that leaves it.
    pub diff: i64,
}

/// A type that makes it easy to correctly send inserts and deletes.
///
/// Rows are to be sent with the same LSN until [`RowSender::close_lsn`] is
/// called, which is to be called before the sender is dropped or moves on to
/// a new LSN.
#[derive(Debug)]
pub struct RowSender<R> {
    /// The row that was sent last, if it has not gone out yet.
    pub buffered_message: Option<RowMessage<R>>,
}

/// The message that hands on a row, as the last one of its LSN or not.
pub open spec fn row_message<R>(buffered: RowMessage<R>, end: bool) -> InternalMessage<R> {
    InternalMessage::Value {
        output: buffered.output_index,
        value: buffered.row,
        lsn: buffered.lsn,
        diff: buffered.diff,
        end,
    }
}

/// What goes out when the buffer is flushed.
pub open spec fn flushed<R>(buffered: Option<RowMessage<R>>, end: bool) -> Option<
    InternalMessage<R>,
> {
    match buffered {
        Some(b) => Some(row_message(b, end)),
        None => None,
    }
}

impl<R> RowSender<R> {
    /// Create a new `RowSender`, with nothing buffered.
    pub fn new() -> (sender: Self)
        ensures
            sender.buffered_message is None,
    {
        RowSender { buffered_message: None }
    }

    /// Whether a row at `lsn` may be sent now: a buffered row has that LSN.
    pub open spec fn accepts(self, lsn: u64) -> bool {
        self.buffered_message matches Some(b) ==> b.lsn == lsn
    }

    /// Whether `lsn` may be closed now: a buffered row is not behind it.
    pub open spec fn closes(self, lsn: u64) -> bool {
        self.buffered_message matches Some(b) ==> b.lsn <= lsn
    }

    /// Send a row for the specific output. The row is held back; the row
    /// that was held back before goes out, not marked as the last of its
    /// LSN, and is returned for the caller to pass on.
    pub fn send_row(&mut self, output_index: usize, row: R, lsn: u64, diff: i64) -> (out: Option<
        InternalMessage<R>,
    >)
        requires
            old(self).accepts(lsn),
        ensures
            out == flushed(old(self).buffered_message, false),
            final(self).buffered_message == Some(RowMessage { output_index, row, lsn, diff }),
    {
        let mut buffered = Some(RowMessage { output_index, row, lsn, diff });
        std::mem::swap(&mut self.buffered_message, &mut buffered);
        match buffered {
            Some(buffered) => Some(
                send_row_inner(
                    buffered.output_index,
                    buffered.row,
                    buffered.lsn,
                    buffered.diff,
                    false,
                ),
            ),
            None => None,
        }
    }

    /// Finalize an LSN: the row that is held back, if any, goes out marked
    /// as the last of its LSN, and is returned for the caller to pass on.
    pub fn close_lsn(&mut self, lsn: u64) -> (out: Option<InternalMessage<R>>)
        requires
            old(self).closes(lsn),
        ensures
            out == flushed(old(self).buffered_message, true),
            final(self).buffered_message is None,
    {
        let mut buffered = None;
        std::mem::swap(&mut self.buffered_message, &mut buffered);
        match buffered {
            Some(buffered) => Some(
                send_row_inner(
                    buffered.output_index,
                    buffered.row,
                    buffered.lsn,
                    buffered.diff,
                    true,
                ),
            ),
            None => None,
        }
    }
}

impl<R> RowSender<R> {
    /// Leads the sender through a run of uses, and returns what goes out,
    /// in order.
    pub fn run(&mut self, ops: Vec<SenderOp<R>>) -> (out: Vec<InternalMessage<R>>)
        requires
            old(self).buffered_message is None,
            accepted(ops@),
        ensures
            out@ == sent_by(ops@),
            final(self).buffered_message == held_after(ops@),
    {
        let ghost all = ops@;
        let count = ops.len();
        let mut out: Vec<InternalMessage<R>> = Vec::new();
        let mut i: usize = 0;
        assert(all.take(0).len() == 0);
        for op in it: ops
            invariant
                it.seq() == all,
                all.len() == count,
                i == it.index(),
                accepted(all),
                self.buffered_message == held_after(all.take(i as int)),
                out@ == sent_by(all.take(i as int)),
        {
            proof {
                let head = all.take(i + 1);
                assert(head.drop_last() =~= all.take(i as int));
                assert(head.last() == op);
                lemma_accepted_prefix(all, i + 1);
            }
            let flushed = match op {
                SenderOp::Send(message) => self.send_row(
                    message.output_index,
                    message.row,
                    message.lsn,
                    message.diff,
                ),
                SenderOp::Close(lsn) => self.close_lsn(lsn),
            };
            match flushed {
                Some(message) => {
                    out.push(message);
                },
                None => {},
            }
            i = i + 1;
        }
        proof {
            assert(all.take(i as int) =~= all);
        }
        out
    }
}

/// The sender takes every beginning of a run that it takes.
pub proof fn lemma_accepted_prefix<R>(ops: Seq<SenderOp<R>>, k: int)
    requires
        accepted(ops),
        0 <= k <= ops.len(),
    ensures
        accepted(ops.take(k)),
    decreases ops.len() - k,
{
    if k < ops.len() {
        lemma_accepted_prefix(ops, k + 1);
        assert(ops.take(k + 1).drop_last() =~= ops.take(k));
    } else {
        assert(ops.take(k) =~= ops);
    }
}

/// The sender takes every run that keeps to the rules.
pub proof fn lemma_disciplined_is_accepted<R>(ops: Seq<SenderOp<R>>)
    requires
        disciplined(ops),
    ensures
        accepted(ops),
    decreases ops.len(),
{
    if ops.len() > 0 {
        lemma_disciplined_is_accepted(ops.drop_last());
    }
}

proof fn lemma_rows_sent<R>(rows: Seq<RowMessage<R>>, lsn: u64)
    requires
        forall|k: int| 0 <= k < rows.len() ==> (#[trigger] rows[k]).lsn == lsn,
    ensures
        accepted(sends(rows)),
        held_after(sends(rows)) == if rows.len() > 0 {
            Some(rows.last())
        } else {
            None
        },
        sent_by(sends(rows)).len() == if rows.len() > 0 {
            rows.len() - 1
        } else {
            0
        },
        forall|k: int|
            0 <= k < rows.len() - 1 ==> #[trigger] sent_by(sends(rows))[k] == row_message(
                rows[k],
                false,
            ),
    decreases rows.len(),
{
    if rows.len() > 0 {
        let head = rows.drop_last();
        assert forall|k: int| 0 <= k < head.len() implies (#[trigger] head[k]).lsn == lsn by {
            assert(head[k] == rows[k]);
        }
        lemma_rows_sent(head, lsn);
        assert(sends(rows).drop_last() =~= sends(head));
        assert(sends(rows).last() == SenderOp::Send(rows.last()));
        if head.len() > 0 {
            assert(head.last() == rows[rows.len() - 2]);
            assert(head.last().lsn == lsn);
            assert(rows.last().lsn == lsn);
        }
        assert forall|k: int| 0 <= k < rows.len() - 1 implies #[trigger] sent_by(sends(rows))[k]
            == row_message(rows[k], false) by {
            if k < head.len() - 1 {
                assert(sent_by(sends(rows))[k] == sent_by(sends(head))[k]);
                assert(head[k] == rows[k]);
            }
        }
    }
}

/// Rows sent at one LSN and closed go out once each, in the order in which
/// they were sent, and only the last of them is marked as the last of its
/// LSN: the sender takes the rows and then the closing of an LSN that is
/// not before theirs, hands on all but the last row unmarked and the last
/// one marked, and holds nothing back afterwards.
pub proof fn lemma_rows_then_close<R>(rows: Seq<RowMessage<R>>, lsn: u64, close: u64)
    requires
        forall|k: int| 0 <= k < rows.len() ==> (#[trigger] rows[k]).lsn == lsn,
        lsn <= close,
    ensures
        accepted(sends(rows).push(SenderOp::Close(close))),
        sent_by(sends(rows).push(SenderOp::Close(close))) == marked_at_end(rows),
        held_after(sends(rows).push(SenderOp::Close(close))) is None,
{
    let ops = sends(rows).push(SenderOp::<R>::Close(close));
    lemma_rows_sent(rows, lsn);
    assert(ops.drop_last() =~= sends(rows));
    assert(ops.last() == SenderOp::<R>::Close(close));
    if rows.len() > 0 {
        assert(rows.last().lsn == lsn);
    }
    assert(sent_by(ops) =~= marked_at_end(rows));
}

/// The message that hands on a row.
pub fn send_row_inner<R>(output: usize, row: R, lsn: u64, diff: i64, end: bool) -> (message:
    InternalMessage<R>)
    ensures
        message == (InternalMessage::Value { output, value: row, lsn, diff, end }),
{
    InternalMessage::Value { output, value: row, lsn, diff, end }
}

/// One use of a row sender.
#[derive(Debug, PartialEq, Eq)]
pub enum SenderOp<R> {
    /// A row is sent.
    Send(RowMessage<R>),
    /// An LSN is closed.
    Close(u64),
}

/// The row that is held back after a run of uses that began with nothing
/// held back.
pub open spec fn held_after<R>(ops: Seq<SenderOp<R>>) -> Option<RowMessage<R>>
    decreases ops.len(),
{
    if ops.len() == 0 {
        None
    } else {
        match ops.last() {
            SenderOp::Send(message) => Some(message),
            SenderOp::Close(_) => None,
        }
    }
}

/// The messages that go out during a run of uses, in order.
pub open spec fn sent_by<R>(ops: Seq<SenderOp<R>>) -> Seq<InternalMessage<R>>
    decreases ops.len(),
{
    if ops.len() == 0 {
        Seq::empty()
    } else {
        let before = sent_by(ops.drop_last());
        let end = ops.last() is Close;
        match flushed(held_after(ops.drop_last()), end) {
            Some(message) => before.push(message),
            None => before,
        }
    }
}

/// Whether a use is one that the sender takes while it holds `held` back:
/// a row at the LSN of the row that is held back, or the closing of an LSN
/// that the row that is held back is not behind.
pub open spec fn op_accepted<R>(held: Option<RowMessage<R>>, op: SenderOp<R>) -> bool {
    match held {
        Some(h) => match op {
            SenderOp::Send(message) => h.lsn == message.lsn,
            SenderOp::Close(lsn) => h.lsn <= lsn,
        },
        None => true,
    }
}

/// Whether the sender takes every use of a run that begins with nothing
/// held back.
pub open spec fn accepted<R>(ops: Seq<SenderOp<R>>) -> bool
    decreases ops.len(),
{
    if ops.len() == 0 {
        true
    } else {
        accepted(ops.drop_last()) && op_accepted(held_after(ops.drop_last()), ops.last())
    }
}

/// Rows sent one after the other.
pub open spec fn sends<R>(rows: Seq<RowMessage<R>>) -> Seq<SenderOp<R>> {
    Seq::new(rows.len(), |i: int| SenderOp::Send(rows[i]))
}

/// The messages that hand on rows of which the last one is marked.
pub open spec fn marked_at_end<R>(rows: Seq<RowMessage<R>>) -> Seq<InternalMessage<R>> {
    Seq::new(rows.len(), |k: int| row_message(rows[k], k == rows.len() - 1))
}

/// Whether a run of uses keeps to the rules of the sender: a row is sent at
/// the LSN of the row that is held back, or, with nothing held back, at an
/// LSN behind every LSN that has gone out; an LSN is closed only if the row
/// that is held back is not behind it.
pub open spec fn disciplined<R>(ops: Seq<SenderOp<R>>) -> bool
    decreases ops.len(),
{
    if ops.len() == 0 {
        true
    } else {
        let before = ops.drop_last();
        &&& disciplined(before)
        &&& match ops.last() {
            SenderOp::Send(message) => match held_after(before) {
                Some(held) => held.lsn == message.lsn,
                None => forall|i: int|
                    0 <= i < sent_by(before).len() ==> value_lsn(#[trigger] sent_by(before)[i])
                        < message.lsn,
            },
            SenderOp::Close(lsn) => match held_after(before) {
                Some(held) => held.lsn <= lsn,
                None => true,
            },
        }
    }
}

/// Whether the message after position `i` is at another LSN than the one at
/// `i`, where the row that is held back counts as the message after the last
/// one, and the end of the stream as another LSN.
pub open spec fn lsn_ends_at<R>(
    sent: Seq<InternalMessage<R>>,
    held: Option<RowMessage<R>>,
    i: int,
) -> bool {
    if i + 1 < sent.len() {
        value_lsn(sent[i + 1]) != value_lsn(sent[i])
    } else {
        match held {
            Some(held) => held.lsn != value_lsn(sent[i]),
            None => true,
        }
    }
}

/// What holds of the output of every run that keeps to the rules.
pub open spec fn well_marked<R>(sent: Seq<InternalMessage<R>>, held: Option<RowMessage<R>>) -> bool {
    &&& forall|i: int| 0 <= i < sent.len() ==> (#[trigger] sent[i]) is Value
    &&& forall|i: int, j: int|
        0 <= i <= j < sent.len() ==> value_lsn(#[trigger] sent[i]) <= value_lsn(#[trigger] sent[j])
    &&& held matches Some(h) ==> forall|i: int|
        0 <= i < sent.len() ==> value_lsn(#[trigger] sent[i]) <= h.lsn
    &&& forall|i: int|
        0 <= i < sent.len() ==> (value_end(#[trigger] sent[i]) <==> lsn_ends_at(sent, held, i))
}

/// The output of a run that keeps to the rules is in the order of its LSNs,
/// no row is behind the row that is held back, and a row is marked exactly
/// if what follows it is at another LSN.
pub proof fn lemma_well_marked<R>(ops: Seq<SenderOp<R>>)
    requires
        disciplined(ops),
    ensures
        well_marked(sent_by(ops), held_after(ops)),
    decreases ops.len(),
{
    if ops.len() > 0 {
        let before = ops.drop_last();
        lemma_well_marked(before);
        let sent = sent_by(before);
        let held = held_after(before);
        let now = sent_by(ops);
        let end = ops.last() is Close;
        match held {
            Some(h) => {
                assert(now == sent.push(row_message(h, end)));
                assert forall|i: int| 0 <= i < now.len() implies (value_end(#[trigger] now[i])
                    <==> lsn_ends_at(now, held_after(ops), i)) by {
                    if i < sent.len() {
                        assert(now[i] == sent[i]);
                        assert(lsn_ends_at(sent, held, i) == lsn_ends_at(now, held_after(ops), i))
                            by {
                            if i + 1 < sent.len() {
                                assert(now[i + 1] == sent[i + 1]);
                            }
                        }
                    }
                }
            },
            None => {
                assert(now == sent);
                assert forall|i: int| 0 <= i < now.len() implies (value_end(#[trigger] now[i])
                    <==> lsn_ends_at(now, held_after(ops), i)) by {
                    assert(lsn_ends_at(sent, held, i) == lsn_ends_at(now, held_after(ops), i));
                }
            },
        }
    }
}

/// In the output of a run that keeps to the rules the LSNs never decrease.
pub proof fn lemma_lsns_never_decrease<R>(ops: Seq<SenderOp<R>>, i: int, j: int)
    requires
        disciplined(ops),
        0 <= i <= j < sent_by(ops).len(),
    ensures
        value_lsn(sent_by(ops)[i]) <= value_lsn(sent_by(ops)[j]),
{
    lemma_well_marked(ops);
}

/// In the output of a run that keeps to the rules and ends with nothing held
/// back, a row is marked as the last of its LSN exactly if no later row is
/// at that LSN. So for every LSN in the output one row is marked, the last
/// one at that LSN.
pub proof fn lemma_one_end_per_lsn<R>(ops: Seq<SenderOp<R>>, i: int)
    requires
        disciplined(ops),
        held_after(ops) is None,
        0 <= i < sent_by(ops).len(),
    ensures
        value_end(sent_by(ops)[i]) <==> forall|j: int|
            i < j < sent_by(ops).len() ==> value_lsn(#[trigger] sent_by(ops)[j]) != value_lsn(
                sent_by(ops)[i],
            ),
{
    lemma_well_marked(ops);
    let sent = sent_by(ops);
    if i + 1 < sent.len() {
        if value_lsn(sent[i + 1]) != value_lsn(sent[i]) {
            assert forall|j: int| i < j < sent.len() implies value_lsn(#[trigger] sent[j])
                != value_lsn(sent[i]) by {
                assert(value_lsn(sent[i]) <= value_lsn(sent[i + 1]));
                assert(value_lsn(sent[i + 1]) <= value_lsn(sent[j]));
            }
        }
    }
}

} // verus!
