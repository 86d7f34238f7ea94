use flowstation::phy::modem_common::{unwrap_slot_begin, SampleCount};
use flowstation::tdma_time::{
    frames, hyperframes, multiframes, time_int_diff, TdmaTime, TIME_INT_WRAP,
};

#[test]
fn test_add_timeslots_and_diff() {
    let initial_time = TdmaTime::default();

    let mut time = initial_time;
    // Repeat add_timeslots enough times that hyperframe number wraps
    let iterations = 100000;
    let increment = 12345;
    for _ in 0..iterations {
        let time2 = time.add_timeslots(increment);
        // Check that difference is computed correctly
        assert_eq!(time2.diff(time), increment);
        assert_eq!(time.diff(time2), -increment);
        time = time2;
    }

    // Go backwards to test that adding a negative number of slots works.
    // It should end up back at initial_time.
    for _ in 0..iterations {
        let time2 = time.add_timeslots(-increment);
        // Check that difference is computed correctly
        assert_eq!(time2.diff(time), -increment);
        assert_eq!(time.diff(time2), increment);
        time = time2;
    }

    assert_eq!(time, initial_time);
}

#[test]
fn test_from_int() {
    // Test both negative and positive numbers
    assert_eq!(TdmaTime::from_int(0), TdmaTime { t: 1, f: 1, m: 1, h: 0 });
    assert_eq!(TdmaTime::from_int(1), TdmaTime { t: 2, f: 1, m: 1, h: 0 });
    assert_eq!(
        TdmaTime::from_int(-1),
        TdmaTime {
            t: 4,
            f: 18,
            m: 60,
            h: 65535
        }
    );
    for time_int in -10000..10000 {
        assert_eq!(TdmaTime::from_int(time_int).diff(TdmaTime::from_int(0)), time_int);
    }
}

#[test]
fn test_ee_monitoring_window_frame_based() {
    // Frame-based (ETSI EN 300 392-2 Table 23.9): cycle counted in TDMA FRAMES. Absolute frame
    // index within a multiframe = (m-1)*18 + (f-1); open when (cur_abs % cycle) ==
    // (start_abs % cycle). Timeslot- and hyperframe-independent.

    // Eg1 (cycle 2), start point (frame 1, multiframe 1) → start_abs 0 → open on even abs frames.
    assert!(TdmaTime { h: 0, m: 1, f: 1, t: 1 }.in_ee_monitoring_window(1, 1, 2)); // abs 0
    assert!(TdmaTime { h: 0, m: 1, f: 1, t: 4 }.in_ee_monitoring_window(1, 1, 2)); // all 4 slots open
    assert!(!TdmaTime { h: 0, m: 1, f: 2, t: 1 }.in_ee_monitoring_window(1, 1, 2)); // abs 1 (odd)
    assert!(TdmaTime { h: 0, m: 1, f: 3, t: 1 }.in_ee_monitoring_window(1, 1, 2)); // abs 2
    assert!(!TdmaTime { h: 0, m: 1, f: 18, t: 1 }.in_ee_monitoring_window(1, 1, 2)); // abs 17 (odd)
    // Parity continues across the multiframe boundary: m=2,f=1 → abs 18 (even) → open.
    assert!(TdmaTime { h: 0, m: 2, f: 1, t: 1 }.in_ee_monitoring_window(1, 1, 2));

    // Opposite Eg1 phase (start frame 2) → open on odd abs frames.
    assert!(TdmaTime { h: 0, m: 1, f: 2, t: 1 }.in_ee_monitoring_window(2, 1, 2)); // abs 1
    assert!(!TdmaTime { h: 0, m: 1, f: 1, t: 1 }.in_ee_monitoring_window(2, 1, 2)); // abs 0

    // Eg3 (cycle 6), start (frame 1, multiframe 1) → open every 6 frames.
    assert!(TdmaTime { h: 0, m: 1, f: 1, t: 1 }.in_ee_monitoring_window(1, 1, 6)); // abs 0
    assert!(!TdmaTime { h: 0, m: 1, f: 4, t: 1 }.in_ee_monitoring_window(1, 1, 6)); // abs 3
    assert!(TdmaTime { h: 0, m: 1, f: 7, t: 1 }.in_ee_monitoring_window(1, 1, 6)); // abs 6 → 0 mod 6
    assert!(TdmaTime { h: 0, m: 1, f: 13, t: 1 }.in_ee_monitoring_window(1, 1, 6)); // abs 12 → 0 mod 6

    // Phase is consistent across hyperframe rollover (every cycle divides the 1080-frame
    // hyperframe), so the hyperframe number does not change the result.
    assert_eq!(
        TdmaTime { h: 0, m: 1, f: 1, t: 1 }.in_ee_monitoring_window(1, 1, 2),
        TdmaTime { h: 5, m: 1, f: 1, t: 1 }.in_ee_monitoring_window(1, 1, 2),
    );

    // Invalid params never gate (return false).
    assert!(!TdmaTime { h: 0, m: 1, f: 7, t: 1 }.in_ee_monitoring_window(7, 1, 0)); // cycle 0
    assert!(!TdmaTime { h: 0, m: 1, f: 7, t: 1 }.in_ee_monitoring_window(0, 1, 2)); // frame 0
    assert!(!TdmaTime { h: 0, m: 1, f: 7, t: 1 }.in_ee_monitoring_window(19, 1, 2)); // frame 19
    assert!(!TdmaTime { h: 0, m: 1, f: 7, t: 1 }.in_ee_monitoring_window(7, 0, 2)); // multiframe 0
    assert!(!TdmaTime { h: 0, m: 1, f: 7, t: 1 }.in_ee_monitoring_window(7, 61, 2)); // multiframe 61
}

#[test]
fn slot_begin_stays_continuous_across_the_hyperframe_wrap() {
    const S: SampleCount = 1020;
    let last = TdmaTime {
        h: 65535,
        m: 60,
        f: 18,
        t: 4,
    };
    let first = last.add_timeslots(1);
    assert_eq!(first, TdmaTime { h: 0, m: 1, f: 1, t: 1 });

    // Just before the wrap, ~46 days of samples into the run: unchanged.
    let now = last.to_int() as SampleCount * S;
    assert_eq!(unwrap_slot_begin(last.to_int() as SampleCount * S, now, S), now);
    // The slot after the wrap begins one slot later, not 46 days earlier.
    assert_eq!(unwrap_slot_begin(first.to_int() as SampleCount * S, now, S), now + S);
    // Right after start-up nothing moves.
    assert_eq!(unwrap_slot_begin(3 * S, 0, S), 3 * S);
}

#[test]
fn unwrapping_picks_the_nearest_cycle() {
    let wrap = TIME_INT_WRAP as SampleCount;
    assert_eq!(unwrap_slot_begin(0, 5 * wrap + 17, 1), 5 * wrap);
    assert_eq!(unwrap_slot_begin(0, 5 * wrap - 17, 1), 5 * wrap);
    assert_eq!(unwrap_slot_begin(wrap - 1, 5 * wrap, 1), 5 * wrap - 1);
    assert_eq!(unwrap_slot_begin(10, -wrap, 1), 10 - wrap);
    assert_eq!(unwrap_slot_begin(0, wrap / 2, 1), wrap);
    assert_eq!(unwrap_slot_begin(0, wrap / 2 - 1, 1), 0);
}

#[test]
fn differences_wrap_with_the_hyperframe_number() {
    assert_eq!(TIME_INT_WRAP, 4 * 18 * 60 * 65536);
    assert_eq!(time_int_diff(5, 3), 2);
    assert_eq!(time_int_diff(0, TIME_INT_WRAP - 1), 1);
    assert_eq!(time_int_diff(TIME_INT_WRAP - 1, 0), -1);
    assert_eq!(time_int_diff(TIME_INT_WRAP / 2, 0), -TIME_INT_WRAP / 2);
    assert_eq!(time_int_diff(0, TIME_INT_WRAP / 2), -TIME_INT_WRAP / 2);
    assert_eq!(time_int_diff(7 * TIME_INT_WRAP + 3, 0), 3);
    assert_eq!(time_int_diff(-7 * TIME_INT_WRAP - 3, 0), -3);
    let then = TdmaTime { h: 65535, m: 60, f: 18, t: 4 };
    let now = TdmaTime { h: 0, m: 1, f: 1, t: 3 };
    assert_eq!(then.age(now), 3);
    assert_eq!(now.age(then), -3);
}

#[test]
fn times_and_numbers_stand_for_each_other() {
    for h in [0u16, 1, 65535] {
        for m in [1u8, 2, 60] {
            for f in [1u8, 17, 18] {
                for t in 1u8..=4 {
                    let time = TdmaTime { t, f, m, h };
                    assert!(time.is_valid());
                    assert_eq!(TdmaTime::from_int(time.to_int()), time);
                }
            }
        }
    }
    assert_eq!(TdmaTime { h: 2, m: 3, f: 4, t: 2 }.to_int(), 2 * 4320 + 2 * 72 + 3 * 4 + 1);
    assert_eq!(TdmaTime::from_int(TIME_INT_WRAP + 5), TdmaTime::from_int(5));
    assert!(!TdmaTime { h: 0, m: 1, f: 1, t: 0 }.is_valid());
    assert!(!TdmaTime { h: 0, m: 1, f: 19, t: 1 }.is_valid());
    assert!(!TdmaTime { h: 0, m: 61, f: 1, t: 1 }.is_valid());
    assert_eq!(hyperframes(2), 8640);
    assert_eq!(multiframes(-3), -216);
    assert_eq!(frames(5), 20);
}

#[test]
fn forward_to_timeslot_stays_or_moves_on() {
    let time = TdmaTime { h: 0, m: 1, f: 18, t: 3 };
    assert_eq!(time.forward_to_timeslot(3), time);
    assert_eq!(time.forward_to_timeslot(4), TdmaTime { h: 0, m: 1, f: 18, t: 4 });
    assert_eq!(time.forward_to_timeslot(1), TdmaTime { h: 0, m: 2, f: 1, t: 1 });
    assert_eq!(time.forward_to_timeslot(2), TdmaTime { h: 0, m: 2, f: 1, t: 2 });
}

#[test]
fn mandatory_blocks_stand_in_frame_18() {
    for m in 1u8..=60 {
        let slots = |check: fn(&TdmaTime) -> bool| -> Vec<u8> {
            (1u8..=4).filter(|t| check(&TdmaTime { h: 0, m, f: 18, t: *t })).collect()
        };
        let bsch = slots(TdmaTime::is_mandatory_bsch);
        let bnch = slots(TdmaTime::is_mandatory_bnch);
        assert_eq!(bsch, vec![4 - (m + 1) % 4]);
        assert_eq!(bnch, vec![4 - (m + 3) % 4]);
        assert_ne!(bsch, bnch);
        assert_eq!(slots(TdmaTime::is_mandatory_clch), bsch);
        assert!(!TdmaTime { h: 0, m, f: 17, t: bsch[0] }.is_mandatory_bsch());
    }
}

#[test]
fn multiframes_are_counted_across_hyperframes() {
    assert_eq!(TdmaTime { h: 0, m: 1, f: 1, t: 1 }.multiframe_index(), 0);
    assert_eq!(TdmaTime { h: 2, m: 5, f: 9, t: 1 }.multiframe_index(), 124);
    assert_eq!(TdmaTime { h: 1, m: 0, f: 1, t: 1 }.multiframe_index(), 60);
}

#[test]
fn windows_open_once_per_cycle_across_the_rollover() {
    let last = TdmaTime { h: 65535, m: 60, f: 17, t: 2 };
    for cycle in [2u8, 3, 6] {
        let mut open = Vec::new();
        for frame in 0..12 {
            let time = last.add_timeslots(4 * frame);
            if time.in_ee_monitoring_window(1, 1, cycle) {
                open.push(frame);
            }
        }
        let expected: Vec<i32> = (0..12).filter(|frame| (frame + 1078) % cycle as i32 == 0).collect();
        assert_eq!(open, expected);
    }
}

#[test]
fn times_are_shown_with_padding() {
    assert_eq!(TdmaTime { h: 7, m: 3, f: 9, t: 4 }.to_string(), "    7/03/09/4");
    assert_eq!(TdmaTime { h: 65535, m: 60, f: 18, t: 1 }.to_string(), "65535/60/18/1");
}

#[test]
fn a_window_opens_in_one_frame_of_a_cycle_from_any_time_on() {
    let (frame, multiframe) = (5u8, 4u8);
    let start = 3 * 18 + 4;
    for time in [
        TdmaTime { h: 0, m: 1, f: 1, t: 1 },
        TdmaTime { h: 7, m: 4, f: 6, t: 3 },
        TdmaTime { h: 65535, m: 60, f: 16, t: 4 },
    ] {
        for cycle in [1u8, 2, 3, 6, 8, 180] {
            let awake: Vec<i32> = (0..cycle as i32)
                .filter(|n| time.add_timeslots(4 * n).in_ee_monitoring_window(frame, multiframe, cycle))
                .collect();
            assert_eq!(awake, vec![(start - time.to_int() / 4).rem_euclid(cycle as i32)]);
        }
    }
}

#[test]
fn a_time_is_shown_alike_in_every_form() {
    let time = TdmaTime { h: 42, m: 3, f: 18, t: 4 };
    assert_eq!(format!("{:?}", time), "   42/03/18/4");
    assert_eq!(format!("{:#?}", Some(time)), "Some(\n       42/03/18/4,\n)");
    assert_eq!(format!("{:30?}", time), time.to_string());
    let late = TdmaTime { h: 65535, m: 60, f: 1, t: 1 };
    assert_eq!(format!("{:?}", late), "65535/60/01/1");
    assert_eq!(late.to_string(), "65535/60/01/1");
}
