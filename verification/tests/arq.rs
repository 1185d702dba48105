use sonde::arq::{Delivered, Reassembler, RecvBuffer, SendWindow, DEFAULT_WINDOW};

// ---- SendWindow ----

#[test]
fn enqueue_assigns_ascending_seqs_from_one() {
    let mut w = SendWindow::new(DEFAULT_WINDOW);
    assert_eq!(w.enqueue(b"a".to_vec()), 1);
    assert_eq!(w.enqueue(b"b".to_vec()), 2);
    assert_eq!(w.enqueue(b"c".to_vec()), 3);
    assert_eq!(w.outstanding(), 3);
    assert!(w.has_unacked());
}

#[test]
fn over_frames_is_capped_at_window_and_starts_at_base() {
    let mut w = SendWindow::new(2);
    for b in [b"a".to_vec(), b"b".to_vec(), b"c".to_vec()] {
        w.enqueue(b);
    }
    let over = w.over_frames();
    assert_eq!(over.len(), 2, "window of 2 caps the over");
    assert_eq!(over[0].0, 1);
    assert_eq!(over[1].0, 2);
}

#[test]
fn cumulative_ack_slides_base_and_reveals_next_batch() {
    let mut w = SendWindow::new(2);
    for b in [b"a".to_vec(), b"b".to_vec(), b"c".to_vec(), b"d".to_vec()] {
        w.enqueue(b);
    }
    w.on_ack(2, 0); // seqs 1,2 cumulatively acked
    assert_eq!(w.outstanding(), 2);
    let over = w.over_frames();
    assert_eq!(over[0].0, 3);
    assert_eq!(over[1].0, 4);
}

#[test]
fn sack_retransmits_only_the_gap_not_the_selectively_acked() {
    let mut w = SendWindow::new(8);
    for b in [b"1".to_vec(), b"2".to_vec(), b"3".to_vec(), b"4".to_vec()] {
        w.enqueue(b);
    }
    // Peer got nothing cumulatively (ack_through 0) but received 2,3,4 OOO
    // (gap at seq 1). bit i ⇒ seq 1+i: seqs 2,3,4 ⇒ bits 1,2,3.
    w.on_ack(0, 0b1110);
    let over = w.over_frames();
    assert_eq!(over.len(), 1, "only the gap (seq 1) is retransmitted");
    assert_eq!(over[0].0, 1);
}

#[test]
fn fully_acked_window_has_no_unacked() {
    let mut w = SendWindow::new(4);
    w.enqueue(b"a".to_vec());
    w.enqueue(b"b".to_vec());
    w.on_ack(2, 0);
    assert!(!w.has_unacked());
    assert!(w.over_frames().is_empty());
}

#[test]
fn duplicate_or_stale_ack_is_idempotent() {
    let mut w = SendWindow::new(4);
    w.enqueue(b"a".to_vec());
    w.enqueue(b"b".to_vec());
    w.on_ack(2, 0);
    w.on_ack(1, 0); // stale, lower high-water
    w.on_ack(2, 0); // duplicate
    assert!(!w.has_unacked());
}

// ---- RecvBuffer ----

#[test]
fn in_order_frames_deliver_immediately() {
    let mut r = RecvBuffer::new(DEFAULT_WINDOW);
    assert_eq!(r.accept(1, b"a".to_vec(), false).len(), 1);
    assert_eq!(r.accept(2, b"b".to_vec(), false).len(), 1);
    assert_eq!(r.ack_through(), 2);
    assert_eq!(r.sack(), 0);
}

#[test]
fn out_of_order_frame_is_buffered_then_drained_on_gap_fill() {
    let mut r = RecvBuffer::new(DEFAULT_WINDOW);
    assert!(
        r.accept(2, b"b".to_vec(), false).is_empty(),
        "2 buffered, gap at 1"
    );
    assert_eq!(r.ack_through(), 0);
    assert_eq!(r.sack(), 0b10, "seq 2 = bit 1");
    let drained = r.accept(1, b"a".to_vec(), false);
    assert_eq!(drained.len(), 2, "1 then 2 both deliver");
    assert_eq!(drained[0].payload, b"a");
    assert_eq!(drained[1].payload, b"b");
    assert_eq!(r.ack_through(), 2);
    assert_eq!(r.sack(), 0);
}

#[test]
fn duplicate_below_high_water_is_dropped() {
    let mut r = RecvBuffer::new(DEFAULT_WINDOW);
    r.accept(1, b"a".to_vec(), false);
    assert!(
        r.accept(1, b"a".to_vec(), false).is_empty(),
        "dup never re-delivered"
    );
}

#[test]
fn duplicate_buffered_ooo_frame_is_dropped() {
    let mut r = RecvBuffer::new(DEFAULT_WINDOW);
    r.accept(3, b"c".to_vec(), false);
    assert!(r.accept(3, b"c".to_vec(), false).is_empty());
    assert_eq!(r.sack(), 0b100, "only seq 3 = bit 2 buffered once");
}

#[test]
fn sack_reflects_multiple_buffered_gaps() {
    let mut r = RecvBuffer::new(DEFAULT_WINDOW);
    r.accept(2, b"b".to_vec(), false);
    r.accept(4, b"d".to_vec(), false);
    // next_expected = 1; seq2 ⇒ bit1, seq4 ⇒ bit3.
    assert_eq!(r.sack(), 0b1010);
}

#[test]
fn end_of_msg_flag_is_preserved_through_ordering() {
    let mut r = RecvBuffer::new(DEFAULT_WINDOW);
    let d = r.accept(1, b"only".to_vec(), true);
    assert_eq!(d.len(), 1);
    assert!(d[0].end_of_msg);
}

// ---- Reassembler ----

#[test]
fn single_fragment_message_emits_on_end_of_msg() {
    let mut a = Reassembler::new();
    assert_eq!(
        a.push(Delivered {
            payload: b"hello".to_vec(),
            end_of_msg: true
        }),
        Some(b"hello".to_vec())
    );
}

#[test]
fn multi_fragment_message_concatenates_until_end_of_msg() {
    let mut a = Reassembler::new();
    assert_eq!(
        a.push(Delivered {
            payload: b"foo".to_vec(),
            end_of_msg: false
        }),
        None
    );
    assert_eq!(
        a.push(Delivered {
            payload: b"bar".to_vec(),
            end_of_msg: false
        }),
        None
    );
    assert_eq!(
        a.push(Delivered {
            payload: b"baz".to_vec(),
            end_of_msg: true
        }),
        Some(b"foobarbaz".to_vec())
    );
}

#[test]
fn reassembler_resets_between_messages() {
    let mut a = Reassembler::new();
    a.push(Delivered {
        payload: b"msg1".to_vec(),
        end_of_msg: true,
    });
    assert_eq!(
        a.push(Delivered {
            payload: b"msg2".to_vec(),
            end_of_msg: true
        }),
        Some(b"msg2".to_vec()),
        "second message must not include the first"
    );
}

// ---- in-place reconfigure (mid-session mode change) ----

#[test]
fn send_window_reconfigure_preserves_in_flight_and_resizes() {
    let mut w = SendWindow::new(8);
    for b in [b"a".to_vec(), b"b".to_vec(), b"c".to_vec(), b"d".to_vec()] {
        w.enqueue(b);
    }
    assert_eq!(w.over_frames().len(), 4, "window 8 sends all 4");
    w.reconfigure(1); // drop to floor whole-message
    assert_eq!(w.outstanding(), 4, "no frames dropped by the resize");
    let over = w.over_frames();
    assert_eq!(over.len(), 1, "window 1 now caps the over");
    assert_eq!(over[0].0, 1, "still starts at the preserved base seq");
}

#[test]
fn recv_buffer_reconfigure_preserves_high_water_and_buffered() {
    let mut r = RecvBuffer::new(8);
    r.accept(1, b"a".to_vec(), false);
    r.accept(3, b"c".to_vec(), false); // out-of-order, buffered
    assert_eq!(r.ack_through(), 1);
    assert_ne!(r.sack(), 0);
    r.reconfigure(1);
    assert_eq!(r.ack_through(), 1, "high-water preserved across resize");
    assert_ne!(r.sack(), 0, "buffered out-of-order frame preserved");
}
