use catplay::ring::ring_buffer::{RingBuffer, RingSegment, RingStats, WriteReport, XRunReport};
use catplay::ring::ring_storage::{gcd_usize, mmap_aligned_capacity};

#[test]
fn test_basic_read_write_segments() {
    let mut rb = RingBuffer::<i16>::new_unsplit(8);

    let input = [1, 2, 3, 4];
    assert_eq!(rb.write(&input), WriteReport::Complete);
    assert_eq!(rb.read_segments(4, true), vec![RingSegment::Data(&[1, 2, 3, 4])]);
}

#[test]
fn test_read_write_exact_capacity_segments() {
    let mut rb = RingBuffer::<i16>::new_unsplit(8);

    let input = [1, 2, 3, 4, 5, 6, 7, 8];
    assert_eq!(rb.write(&input), WriteReport::Complete);
    assert_eq!(rb.read_segments(8, true), vec![RingSegment::Data(&[1, 2, 3, 4, 5, 6, 7, 8])]);
}

#[test]
fn test_underflow_segments() {
    let mut rb = RingBuffer::<i16>::new_unsplit(8);

    assert_eq!(rb.write(&[1, 2, 3, 4, 5]), WriteReport::Complete);
    assert_eq!(rb.read_segments(3, true), vec![RingSegment::Data(&[1, 2, 3])]);
    assert_eq!(rb.read_segments(4, true), vec![RingSegment::Data(&[4, 5]), RingSegment::Underflow(2)]);

    assert_eq!(rb.write(&[9, 8, 7]), WriteReport::Complete);
    assert_eq!(rb.read_segments(1, true), vec![RingSegment::Data(&[7])]);
}

#[test]
fn test_overflow_multiple_wraps_segments() {
    let mut rb = RingBuffer::<i16>::new_unsplit(2);

    assert_eq!(rb.write(&[1, 2, 3, 4, 5, 6, 7, 8]), WriteReport::Partial { written: 2 });
    assert_eq!(rb.read_segments(8, true), vec![RingSegment::Overflow(6), RingSegment::Data(&[7, 8])]);
}

#[test]
fn test_overflow_multiple_wraps_split_read_segments() {
    let mut rb = RingBuffer::<i16>::new_unsplit(2);

    assert_eq!(rb.write(&[1, 2, 3, 4, 5, 6, 7, 8]), WriteReport::Partial { written: 2 });
    assert_eq!(rb.read_segments(4, true), vec![RingSegment::Overflow(4)]);
    assert_eq!(rb.read_segments(4, true), vec![RingSegment::Overflow(2), RingSegment::Data(&[7, 8])]);
}

#[test]
fn test_overflow_underflow_mix_segments() {
    let mut rb = RingBuffer::<i16>::new_unsplit(2);

    assert_eq!(rb.write(&[1, 2, 3, 4, 5, 6, 7, 8]), WriteReport::Partial { written: 2 });
    assert_eq!(rb.read_segments(4, true), vec![RingSegment::Overflow(4)]);
    assert_eq!(
        rb.read_segments(5, true),
        vec![RingSegment::Overflow(2), RingSegment::Data(&[7, 8]), RingSegment::Underflow(1)]
    );
    // [1] goes into overflow debt repayment
    assert_eq!(rb.write(&[1, 2]), WriteReport::Complete);
    assert_eq!(rb.read_segments(1, true), vec![RingSegment::Data(&[2])]);
}

#[test]
fn empty_read_returns_zero_segments() {
    let mut rb = RingBuffer::<i16>::new_unsplit(4);

    assert_eq!(rb.read_segments(0, true), Vec::<RingSegment<'_, i16>>::new());
}

#[test]
fn test_capacity_helpers() {
    let mut rb = RingBuffer::<i16>::new_unsplit(8);

    rb.write(&[1, 2]);
    assert_eq!(rb.capacity(), 8);
}

#[test]
fn test_zero_fill_with_underflow() {
    let mut rb = RingBuffer::<i16>::new_unsplit(2);
    assert_eq!(rb.write(&[1, 2, 3, 4, 5, 6, 7, 8]), WriteReport::Partial { written: 2 });

    let mut out = [0; 4];
    assert_eq!(rb.read(&mut out).unwrap_err(), XRunReport { copied: 0, underflow: 0, overflow: 4 });
    assert_eq!(out, [0, 0, 0, 0]);

    let mut out = [9; 7];
    let report = XRunReport { copied: 2, underflow: 3, overflow: 2 };
    assert_eq!(rb.read(&mut out).unwrap_err(), report);
    assert_eq!(out, [9, 9, 7, 8, 9, 9, 9]);

    report.zero_fill_overflow_and_underflow(&mut out);
    assert_eq!(&out[..], &[0, 0, 7, 8, 0, 0, 0]);
}

#[test]
fn test_read_maps_gap_to_underflow_for_zero_fill() {
    let mut rb = RingBuffer::<i16>::new_unsplit(8);
    rb.write(&[1, 2, 3, 4]);
    rb.advance_timeline(3);

    let mut out = [9; 7];
    let report = rb.read(&mut out).unwrap_err();

    assert_eq!(report, XRunReport { copied: 4, overflow: 0, underflow: 3 });
    assert_eq!(out, [1, 2, 3, 4, 9, 9, 9]);

    report.zero_fill_overflow_and_underflow(&mut out);
    assert_eq!(out, [1, 2, 3, 4, 0, 0, 0]);
}

#[test]
fn test_total_consumed_written_segments() {
    let mut rb = RingBuffer::<i16>::new_unsplit(2);

    assert_eq!(rb.write(&[1, 2, 3, 4]), WriteReport::Partial { written: 2 });

    assert_eq!(
        rb.read_segments(5, true),
        vec![RingSegment::Overflow(2), RingSegment::Data(&[3, 4]), RingSegment::Underflow(1)]
    );

    assert_eq!(rb.total_consumed(), 5);
    assert_eq!(rb.total_written(), 4);
}

#[test]
fn test_write_default_segments() {
    const COPY_SIZE: usize = 2050;

    let mut rb = RingBuffer::<i16>::new_unsplit(4096);
    rb.write_default(COPY_SIZE);

    assert_eq!(
        rb.read_segments(COPY_SIZE + 1, true),
        vec![RingSegment::Data(&[0; COPY_SIZE]), RingSegment::Underflow(1)]
    );
}

#[test]
fn test_write_default_wrap_segments() {
    const CAP: usize = 1024;
    const COPY_SIZE: usize = CAP + 100;

    let mut rb = RingBuffer::<i16>::new_unsplit(CAP);
    rb.write_default(COPY_SIZE);

    assert_eq!(rb.read_segments(COPY_SIZE, true), vec![RingSegment::Overflow(100), RingSegment::Data(&[0; CAP])]);
}

#[test]
fn reads_wrapping_past_the_end_come_back_whole() {
    const CAP: usize = 2048;

    let mut rb = RingBuffer::<i16>::new_unsplit(CAP);

    let prefix = vec![11; CAP - 2];
    assert_eq!(rb.write(&prefix), WriteReport::Complete);

    let mut discard = vec![0; CAP - 2];
    assert_eq!(rb.read(&mut discard), Ok(()));

    assert_eq!(rb.write(&[1, 2, 3, 4]), WriteReport::Complete);
    assert_eq!(rb.read_segments(4, true), vec![RingSegment::Data(&[1, 2, 3, 4])]);
}

#[test]
fn test_advance_timeline_produces_gap_segments() {
    let mut rb = RingBuffer::<i16>::new_unsplit(8);

    rb.write(&[1, 2, 3, 4]);
    rb.advance_timeline(3);

    assert_eq!(rb.read_segments(6, true), vec![RingSegment::Data(&[1, 2, 3, 4]), RingSegment::Gap(2)]);
    assert_eq!(rb.read_segments(2, true), vec![RingSegment::Gap(1), RingSegment::Underflow(1)]);
}

#[test]
fn test_advance_timeline_produces_gap_middle() {
    let mut rb = RingBuffer::<i16>::new_unsplit(16);

    rb.write(&[1, 2, 3, 4]);
    rb.advance_timeline(3);
    rb.write(&[5]);
    rb.advance_timeline(2);
    rb.write(&[6, 7]);

    assert_eq!(
        rb.read_segments(12, true),
        vec![
            RingSegment::Data(&[1, 2, 3, 4]),
            RingSegment::Gap(3),
            RingSegment::Data(&[5]),
            RingSegment::Gap(2),
            RingSegment::Data(&[6, 7]),
        ]
    );
}

#[test]
fn test_gap_sequence_is_stable_across_split_reads() {
    let mut rb = RingBuffer::<i16>::new_unsplit(16);

    rb.write(&[1, 2, 3, 4]);
    rb.advance_timeline(3);
    rb.write(&[5]);
    rb.advance_timeline(2);
    rb.write(&[6, 7]);

    assert_eq!(rb.read_segments(5, true), vec![RingSegment::Data(&[1, 2, 3, 4]), RingSegment::Gap(1)]);

    assert_eq!(
        rb.read_segments(7, true),
        vec![RingSegment::Gap(2), RingSegment::Data(&[5]), RingSegment::Gap(2), RingSegment::Data(&[6, 7])]
    );
}

#[test]
fn test_advance_timeline_larger_than_capacity_turns_into_overflow_and_gap() {
    let mut rb = RingBuffer::<i16>::new_unsplit(8);

    rb.advance_timeline(20);

    assert_eq!(rb.read_segments(20, true), vec![RingSegment::Overflow(12), RingSegment::Gap(8)]);
}

#[test]
fn test_read_segments_without_underflow_emission_does_not_advance_missing_timeline() {
    let mut rb = RingBuffer::<i16>::new_unsplit(8);

    rb.write(&[1, 2]);
    assert_eq!(rb.read_segments(4, false), vec![RingSegment::Data(&[1, 2])]);
    assert_eq!(rb.total_consumed(), 2);

    rb.write(&[3, 4]);
    assert_eq!(rb.read_segments(2, true), vec![RingSegment::Data(&[3, 4])]);
}

#[test]
fn test_gap_read_after_timeline_wrap() {
    let mut rb = RingBuffer::<i16>::new_unsplit(8);

    rb.write(&[1, 2, 3, 4, 5, 6, 7, 8]);
    assert_eq!(rb.read_segments(8, true), vec![RingSegment::Data(&[1, 2, 3, 4, 5, 6, 7, 8])]);

    rb.advance_timeline(2);
    rb.write(&[9, 10, 11, 12, 13, 14]);

    assert_eq!(rb.read_segments(8, true), vec![RingSegment::Gap(2), RingSegment::Data(&[9, 10, 11, 12, 13, 14])]);
}

#[test]
fn test_overwritten_gap_bits_do_not_create_phantom_gaps() {
    let mut rb = RingBuffer::<i16>::new_unsplit(8);

    rb.write(&[1, 2, 3, 4]);
    rb.advance_timeline(2);
    rb.write(&[5, 6]);
    assert_eq!(
        rb.read_segments(8, true),
        vec![RingSegment::Data(&[1, 2, 3, 4]), RingSegment::Gap(2), RingSegment::Data(&[5, 6])]
    );

    rb.write(&[7, 8, 9, 10, 11, 12, 13, 14]);
    assert_eq!(rb.read_segments(8, true), vec![RingSegment::Data(&[7, 8, 9, 10, 11, 12, 13, 14])]);
}

// ---- further cases ----

#[test]
fn write_then_read_returns_written_samples_in_order() {
    let mut rb = RingBuffer::<i32>::new_unsplit(8);
    assert_eq!(rb.write(&[10, 20, 30]), WriteReport::Complete);
    let mut out = [0; 3];
    assert_eq!(rb.read(&mut out), Ok(()));
    assert_eq!(out, [10, 20, 30]);
    assert_eq!(rb.total_consumed(), 3);
    assert_eq!(rb.total_written(), 3);
}

#[test]
fn new_unsplit_rounds_up_to_power_of_two() {
    assert_eq!(RingBuffer::<u8>::new_unsplit(5).capacity(), 8);
    assert_eq!(RingBuffer::<u8>::new_unsplit(0).capacity(), 1);
    assert_eq!(RingBuffer::<u8>::new_unsplit(16).capacity(), 16);
}

#[test]
fn peek_overflow_counts_lost_samples() {
    let mut rb = RingBuffer::<i16>::new_unsplit(4);
    assert_eq!(rb.peek_overflow(), 0);
    assert_eq!(rb.write(&[1, 2, 3, 4, 5, 6]), WriteReport::Partial { written: 4 });
    assert_eq!(rb.peek_overflow(), 2);
    let stats = rb.stat();
    assert_eq!(stats.capacity, 4);
    assert_eq!(stats.written, 6);
    assert_eq!(stats.consumed, 0);
    assert_eq!(stats.overflow, 2);
}

#[test]
fn writable_slice_then_commit_publishes_samples() {
    let mut rb = RingBuffer::<i16>::new_unsplit(8);
    {
        let w = rb.writable_slice();
        assert!(w.len() >= 3);
        w[0] = 5;
        w[1] = 6;
        w[2] = 7;
    }
    rb.write_commit(3);
    let (lost, data) = rb.readable_slice();
    assert_eq!(lost, 0);
    assert_eq!(data, &[5, 6, 7]);
    rb.read_commit(3);
    assert_eq!(rb.total_consumed(), 3);
}

#[test]
fn xrun_report_slices_split_the_output() {
    let report = XRunReport { copied: 2, underflow: 3, overflow: 1 };
    let data = [1, 2, 3, 4, 5, 6];
    assert_eq!(report.overflow_slice(&data), &[1]);
    assert_eq!(report.underflow_slice(&data), &[4, 5, 6]);
}

#[test]
fn segment_lengths() {
    let d = [1i16, 2, 3];
    assert_eq!(RingSegment::Data(&d).len(), 3);
    assert!(RingSegment::Data(&d).is_data());
    assert!(!RingSegment::<i16>::Gap(2).is_data());
    assert!(RingSegment::<i16>::Underflow(0).is_empty());
    assert_eq!(RingSegment::<i16>::Overflow(7).len(), 7);
}

#[test]
fn samples_to_nanos_exact_values() {
    assert_eq!(RingStats::samples_to_nanos(48_000, 48_000, 1), 1_000_000_000);
    assert_eq!(RingStats::samples_to_nanos(480, 48_000, 2), 5_000_000);
    assert_eq!(RingStats::samples_to_nanos(1, 3, 1), 333_333_333);
}

#[test]
fn mirror_capacity_is_a_multiple_of_page_and_element() {
    assert_eq!(gcd_usize(12, 18), 6);
    assert_eq!(gcd_usize(7, 0), 7);
    assert_eq!(mmap_aligned_capacity(8, 2, Some(4096)), Some(2048));
    assert_eq!(mmap_aligned_capacity(4096, 2, Some(4096)), Some(4096));
    assert_eq!(mmap_aligned_capacity(8, 2, None), None);
}

#[test]
fn segments_print_their_kind_and_length() {
    let samples = [0i16; 480];
    assert_eq!(RingSegment::Data(&samples[..]).to_string(), "Data(480)");
    assert_eq!(RingSegment::<i16>::Gap(12).to_string(), "Gap(12)");
    assert_eq!(RingSegment::<i16>::Overflow(0).to_string(), "Overflow(0)");
    assert_eq!(RingSegment::<i16>::Underflow(1005).to_string(), "Underflow(1005)");
    assert_eq!(catplay::ring::ring_buffer::decimal_string(usize::MAX), usize::MAX.to_string());
}

#[test]
fn written_counts_every_call_and_reads_add_nothing() {
    let mut rb = RingBuffer::<i16>::new_unsplit(8);
    rb.write(&[1, 2, 3]);
    rb.write_default(2);
    rb.advance_timeline(4);
    let mut out = [0i16; 5];
    let _ = rb.read(&mut out);
    rb.write_commit(1);
    rb.write_commit_advance(1, 10);
    assert_eq!(rb.total_written(), 3 + 2 + 4 + 1 + 10);
    assert_eq!(rb.total_consumed(), 5);
}
