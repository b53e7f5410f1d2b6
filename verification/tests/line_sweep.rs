use exec_buffer::cache_line::{align_down, line_size};
use exec_buffer::line_sweep::{LineSweep, SweepAction, NO_PASS_YET};

// Runs a sweep to its end. `geometry` holds the register values that the
// machine answers with, in their order. Returns the addresses that were
// invalidated and the number of register values that were read.
fn run(start: usize, len: usize, geometry: &[usize]) -> (Vec<usize>, usize) {
    let mut sweep = LineSweep::new(start, len);
    let mut invalidated = Vec::new();
    let mut read = 0;
    let mut steps = 0;
    loop {
        steps += 1;
        assert!(steps < 1_000_000);
        match sweep.next_action() {
            SweepAction::InvalidateLine(address) => invalidated.push(address),
            SweepAction::ReadLineSize => {
                sweep.line_size_read(geometry[read]);
                read += 1;
            }
            SweepAction::Finished => break,
        }
    }
    assert!(sweep.is_finished());
    (invalidated, read)
}

fn hits_line_of_every_byte(invalidated: &[usize], start: usize, len: usize, size: usize) -> bool {
    (start..start + len).all(|byte| invalidated.iter().any(|hit| hit / size == byte / size))
}

#[test]
fn register_value_gives_line_size() {
    assert_eq!(line_size(0), 4);
    assert_eq!(line_size(1), 8);
    assert_eq!(line_size(4), 64);
    assert_eq!(line_size(5), 128);
    assert_eq!(line_size(15), 131072);
    assert_eq!(line_size(16), 4);
    assert_eq!(line_size(0x8444_c004), 64);
    assert_eq!(line_size(usize::MAX), 131072);
    assert!(line_size(15) < NO_PASS_YET);
}

#[test]
fn address_is_rounded_down_to_its_line() {
    assert_eq!(align_down(0x1234, 64), 0x1200);
    assert_eq!(align_down(0x1200, 64), 0x1200);
    assert_eq!(align_down(0x123f, 64), 0x1200);
    assert_eq!(align_down(7, 4), 4);
    assert_eq!(align_down(3, 4), 0);
    assert_eq!(align_down(usize::MAX, 131072), usize::MAX - 131071);
}

#[test]
fn short_range_takes_one_invalidation() {
    for len in 0..=4 {
        let (invalidated, read) = run(0x1000, len, &[]);
        assert_eq!(invalidated, vec![0x1000]);
        assert_eq!(read, 0);
    }
    let (invalidated, read) = run(0x1003, 4, &[]);
    assert_eq!(invalidated, vec![0x1000]);
    assert_eq!(read, 0);
    let (invalidated, _) = run(0x1007, 1, &[]);
    assert_eq!(invalidated, vec![0x1004]);
}

#[test]
fn five_bytes_are_swept() {
    let (invalidated, read) = run(0x1000, 5, &[4, 4]);
    assert_eq!(invalidated, vec![0x1000]);
    assert_eq!(read, 2);
    let (invalidated, read) = run(0x103c, 5, &[4, 4]);
    assert_eq!(invalidated, vec![0x1000, 0x1040]);
    assert_eq!(read, 2);
}

#[test]
fn range_is_swept_line_by_line() {
    let (invalidated, read) = run(100, 100, &[4, 4]);
    assert_eq!(invalidated, vec![64, 128, 192]);
    assert_eq!(read, 2);
    let (invalidated, _) = run(128, 128, &[4, 4]);
    assert_eq!(invalidated, vec![128, 192]);
    let (invalidated, _) = run(128, 129, &[4, 4]);
    assert_eq!(invalidated, vec![128, 192, 256]);
}

#[test]
fn smaller_line_size_starts_another_pass() {
    let (invalidated, read) = run(100, 100, &[4, 3, 3]);
    assert_eq!(invalidated, vec![64, 128, 192, 96, 128, 160, 192]);
    assert_eq!(read, 3);
    assert!(hits_line_of_every_byte(&invalidated, 100, 100, 64));
    assert!(hits_line_of_every_byte(&invalidated, 100, 100, 32));
}

#[test]
fn equal_line_size_ends_the_sweep() {
    // the third value is never asked for
    let (invalidated, read) = run(100, 100, &[4, 4, 3]);
    assert_eq!(invalidated, vec![64, 128, 192]);
    assert_eq!(read, 2);
}

#[test]
fn larger_line_size_ends_the_sweep() {
    let (invalidated, read) = run(100, 100, &[4, 3, 4, 2]);
    assert_eq!(invalidated, vec![64, 128, 192, 96, 128, 160, 192]);
    assert_eq!(read, 3);
    let (invalidated, read) = run(100, 100, &[3, 5]);
    assert_eq!(invalidated, vec![96, 128, 160, 192]);
    assert_eq!(read, 2);
    assert!(hits_line_of_every_byte(&invalidated, 100, 100, 32));
    assert!(hits_line_of_every_byte(&invalidated, 100, 100, 128));
}

#[test]
fn every_line_size_read_is_covered() {
    let geometry = [6, 4, 3, 1, 0, 2];
    let (invalidated, read) = run(0x4_0123, 1000, &geometry);
    assert_eq!(read, 6);
    for value in geometry {
        let size = line_size(value);
        assert!(hits_line_of_every_byte(&invalidated, 0x4_0123, 1000, size));
    }
}

#[test]
fn line_size_is_read_seventeen_times_at_most() {
    let geometry: Vec<usize> = (0..16).rev().chain([0, 0, 0]).collect();
    let (invalidated, read) = run(0x10_0000, 64, &geometry);
    assert_eq!(read, 17);
    assert_eq!(invalidated.len(), 1 + 1 + 1 + 1 + 1 + 1 + 1 + 1 + 1 + 1 + 1 + 1 + 2 + 4 + 8 + 16);
}

#[test]
fn sweep_reaches_the_top_of_the_address_space() {
    let start = usize::MAX - 100;
    let (invalidated, read) = run(start, 100, &[4, 4]);
    assert_eq!(read, 2);
    assert_eq!(invalidated, vec![usize::MAX - 127, usize::MAX - 63]);
    assert!(hits_line_of_every_byte(&invalidated, start, 100, 64));
}

#[test]
fn line_size_that_is_not_awaited_is_ignored() {
    let mut sweep = LineSweep::new(0x1000, 4);
    sweep.line_size_read(4);
    assert_eq!(sweep.next_action(), SweepAction::InvalidateLine(0x1000));
    sweep.line_size_read(4);
    assert_eq!(sweep.next_action(), SweepAction::Finished);

    let mut sweep = LineSweep::new(0, 128);
    assert_eq!(sweep.next_action(), SweepAction::ReadLineSize);
    sweep.line_size_read(4);
    assert_eq!(sweep.next_action(), SweepAction::InvalidateLine(0));
    sweep.line_size_read(3);
    assert_eq!(sweep.next_action(), SweepAction::InvalidateLine(64));
    assert_eq!(sweep.next_action(), SweepAction::ReadLineSize);
}

#[test]
fn awaited_line_size_is_asked_for_again() {
    let mut sweep = LineSweep::new(0, 128);
    assert!(!sweep.is_finished());
    assert_eq!(sweep.next_action(), SweepAction::ReadLineSize);
    assert_eq!(sweep.next_action(), SweepAction::ReadLineSize);
    assert!(!sweep.is_finished());
}

#[test]
fn finished_sweep_stays_finished() {
    let mut sweep = LineSweep::new(0x2000, 2);
    assert_eq!(sweep.next_action(), SweepAction::InvalidateLine(0x2000));
    assert!(sweep.is_finished());
    assert_eq!(sweep.next_action(), SweepAction::Finished);
    assert_eq!(sweep.next_action(), SweepAction::Finished);
    sweep.line_size_read(0);
    assert!(sweep.is_finished());
}

#[test]
fn short_path_and_pass_agree_within_one_line() {
    for start in [0x1000usize, 0x1001, 0x103c, 0x103f] {
        for len in 1..=4usize {
            if start % 64 + len > 64 {
                continue;
            }
            let (short, _) = run(start, len, &[]);
            let first = align_down(start, 64);
            let lines: Vec<usize> =
                (0..).map(|k| first + k * 64).take_while(|line| *line < start + len).collect();
            assert_eq!(lines.len(), 1);
            assert!(lines.iter().all(|line| short.iter().any(|hit| hit / 64 == line / 64)));
            assert!(hits_line_of_every_byte(&short, start, len, 64));
        }
    }
}

#[test]
fn short_path_leaves_the_next_line_alone() {
    let (short, _) = run(0x103e, 4, &[]);
    assert_eq!(short, vec![0x103c]);
    assert!(!hits_line_of_every_byte(&short, 0x103e, 4, 64));
}

#[test]
fn sweep_ends_within_its_budget() {
    for (start, len) in [(0usize, 5usize), (0x1001, 77), (0x2_0000, 4096), (64, 1)] {
        let geometry: Vec<usize> = (0..16).rev().chain([0]).collect();
        let (invalidated, read) = run(start, len, &geometry);
        let budget = if len <= 4 { 1 } else { 1 + 16 * (len / 4 + 3) };
        assert!(invalidated.len() + read <= budget);
    }
}

#[test]
fn replay_runs_the_sweep_to_its_end() {
    let (sweep, invalidated) = LineSweep::replay(100, 100, &[4, 3, 3, 0]);
    assert!(sweep.is_finished());
    assert_eq!(invalidated, vec![64, 128, 192, 96, 128, 160, 192]);
    let (sweep, invalidated) = LineSweep::replay(0x1003, 4, &[]);
    assert!(sweep.is_finished());
    assert_eq!(invalidated, vec![0x1000]);
    let (sweep, invalidated) = LineSweep::replay(100, 100, &[4, 4, 3]);
    assert!(sweep.is_finished());
    assert_eq!(invalidated, vec![64, 128, 192]);
}

#[test]
fn replay_does_what_a_sweep_by_hand_does() {
    let geometry = [6, 4, 3, 1, 0, 2];
    for (start, len) in [(0x4_0123usize, 1000usize), (0, 5), (usize::MAX - 300, 300), (77, 3)] {
        let (by_hand, _) = run(start, len, &geometry);
        let (sweep, replayed) = LineSweep::replay(start, len, &geometry);
        assert!(sweep.is_finished());
        assert_eq!(replayed, by_hand);
    }
}

#[test]
fn replay_waits_when_the_values_run_out() {
    let (mut sweep, invalidated) = LineSweep::replay(100, 100, &[]);
    assert!(!sweep.is_finished());
    assert!(invalidated.is_empty());
    assert_eq!(sweep.next_action(), SweepAction::ReadLineSize);

    let (mut sweep, invalidated) = LineSweep::replay(100, 100, &[4]);
    assert!(!sweep.is_finished());
    assert_eq!(invalidated, vec![64, 128, 192]);
    assert_eq!(sweep.next_action(), SweepAction::ReadLineSize);
    sweep.line_size_read(5);
    assert!(sweep.is_finished());

    let (sweep, invalidated) = LineSweep::replay(100, 100, &[4, 3]);
    assert!(!sweep.is_finished());
    assert_eq!(invalidated, vec![64, 128, 192, 96, 128, 160, 192]);
}

#[test]
fn pass_has_no_more_lines_than_its_bound() {
    for (start, len, value) in [(63usize, 5usize, 4usize), (0, 64, 4), (1, 640, 4), (5, 5, 0)] {
        let size = line_size(value);
        let (_, invalidated) = LineSweep::replay(start, len, &[value, value]);
        assert!(invalidated.len() >= 1);
        assert!(invalidated.len() <= (len - 1) / size + 2);
    }
    let (_, invalidated) = LineSweep::replay(63, 5, &[4, 4]);
    assert_eq!(invalidated.len(), (5 - 1) / 64 + 2);
}
