use postgres_source::output::InternalMessage;
use postgres_source::sender::{send_row_inner, RowMessage, RowSender, SenderOp};

fn value(output: usize, row: &str, lsn: u64, diff: i64, end: bool) -> InternalMessage<String> {
    InternalMessage::Value { output, value: row.to_string(), lsn, diff, end }
}

#[test]
fn new_sender_holds_nothing() {
    let sender: RowSender<String> = RowSender::new();
    assert!(sender.buffered_message.is_none());
}

#[test]
fn first_row_is_held_back() {
    let mut sender = RowSender::new();
    let out = sender.send_row(1, "a".to_string(), 10, 1);
    assert_eq!(out, None);
    assert_eq!(
        sender.buffered_message,
        Some(RowMessage { output_index: 1, row: "a".to_string(), lsn: 10, diff: 1 })
    );
}

#[test]
fn second_row_flushes_first_without_end() {
    let mut sender = RowSender::new();
    assert_eq!(sender.send_row(1, "a".to_string(), 10, 1), None);
    let out = sender.send_row(2, "b".to_string(), 10, -1);
    assert_eq!(out, Some(value(1, "a", 10, 1, false)));
    assert_eq!(
        sender.buffered_message,
        Some(RowMessage { output_index: 2, row: "b".to_string(), lsn: 10, diff: -1 })
    );
}

#[test]
fn close_flushes_with_end() {
    let mut sender = RowSender::new();
    assert_eq!(sender.send_row(1, "a".to_string(), 10, 1), None);
    let out = sender.close_lsn(10);
    assert_eq!(out, Some(value(1, "a", 10, 1, true)));
    assert!(sender.buffered_message.is_none());
}

#[test]
fn close_at_later_lsn_keeps_the_rows_lsn() {
    let mut sender = RowSender::new();
    assert_eq!(sender.send_row(3, "x".to_string(), 10, 1), None);
    assert_eq!(sender.close_lsn(11), Some(value(3, "x", 10, 1, true)));
}

#[test]
fn close_with_nothing_held_sends_nothing() {
    let mut sender: RowSender<String> = RowSender::new();
    assert_eq!(sender.close_lsn(7), None);
    assert_eq!(sender.close_lsn(7), None);
    assert!(sender.buffered_message.is_none());
}

#[test]
fn send_row_inner_builds_the_value() {
    assert_eq!(send_row_inner(4, "r".to_string(), 99, -1, true), value(4, "r", 99, -1, true));
    assert_eq!(send_row_inner(4, "r".to_string(), 99, 1, false), value(4, "r", 99, 1, false));
}

#[test]
fn stream_has_one_end_per_lsn_and_ordered_lsns() {
    let mut sender = RowSender::new();
    let mut out = Vec::new();
    let ops: Vec<(Option<(usize, &str, i64)>, u64)> = vec![
        (Some((1, "a", 1)), 5),
        (Some((1, "b", 1)), 5),
        (None, 5),
        (None, 5),
        (Some((1, "a", -1)), 8),
        (Some((1, "c", 1)), 8),
        (Some((2, "d", 1)), 8),
        (None, 9),
        (Some((2, "e", 1)), 12),
        (None, 13),
    ];
    for (row, lsn) in ops {
        let flushed = match row {
            Some((output, row, diff)) => sender.send_row(output, row.to_string(), lsn, diff),
            None => sender.close_lsn(lsn),
        };
        if let Some(message) = flushed {
            out.push(message);
        }
    }
    assert_eq!(
        out,
        vec![
            value(1, "a", 5, 1, false),
            value(1, "b", 5, 1, true),
            value(1, "a", 8, -1, false),
            value(1, "c", 8, 1, false),
            value(2, "d", 8, 1, true),
            value(2, "e", 12, 1, true),
        ]
    );
    let lsns: Vec<u64> = out
        .iter()
        .map(|m| match m {
            InternalMessage::Value { lsn, .. } => *lsn,
            _ => unreachable!(),
        })
        .collect();
    for pair in lsns.windows(2) {
        assert!(pair[0] <= pair[1]);
    }
    for (i, message) in out.iter().enumerate() {
        let is_last_at_lsn = lsns[i + 1..].iter().all(|later| *later != lsns[i]);
        match message {
            InternalMessage::Value { end, .. } => assert_eq!(*end, is_last_at_lsn),
            _ => unreachable!(),
        }
    }
}

fn send(output: usize, row: &str, lsn: u64, diff: i64) -> SenderOp<String> {
    SenderOp::Send(RowMessage { output_index: output, row: row.to_string(), lsn, diff })
}

#[test]
fn rows_at_one_lsn_are_closed_by_one_marked_row() {
    for n in 1..6usize {
        let mut sender = RowSender::new();
        let mut ops: Vec<SenderOp<String>> =
            (0..n).map(|k| send(k + 1, "r", 40, if k % 2 == 0 { 1 } else { -1 })).collect();
        ops.push(SenderOp::Close(41));
        let out = sender.run(ops);
        assert_eq!(out.len(), n);
        for (k, message) in out.iter().enumerate() {
            let diff = if k % 2 == 0 { 1 } else { -1 };
            assert_eq!(*message, value(k + 1, "r", 40, diff, k == n - 1));
        }
        assert!(sender.buffered_message.is_none());
    }
}

#[test]
fn run_holds_back_the_last_row_that_was_not_closed() {
    let mut sender = RowSender::new();
    let out = sender.run(vec![
        send(1, "a", 5, 1),
        SenderOp::Close(5),
        SenderOp::Close(9),
        send(1, "b", 7, 1),
        send(2, "c", 7, -1),
    ]);
    assert_eq!(out, vec![value(1, "a", 5, 1, true), value(1, "b", 7, 1, false)]);
    assert_eq!(
        sender.buffered_message,
        Some(RowMessage { output_index: 2, row: "c".to_string(), lsn: 7, diff: -1 })
    );
    let mut idle: RowSender<String> = RowSender::new();
    assert_eq!(idle.run(vec![]), vec![]);
    assert!(idle.buffered_message.is_none());
}
