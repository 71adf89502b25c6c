use ethersync_protocol::{FrameFormat, Position, Rate};

#[test]
fn rational_reverse_subframe() {
    let f = FrameFormat::new(30000, 1001, false).unwrap();
    assert_eq!(
        Position::zero().advance(1_001_000_000, f, Rate::normal()),
        Position::from_frames(30)
    );
    assert_eq!(
        Position::zero().advance(-500_000_000, FrameFormat::default(), Rate::new(1, 30).unwrap()),
        Position {
            frames: -1,
            subframe: 1 << 31
        }
    );
    assert!(
        Position::zero()
            .advance(i64::MAX, f, Rate::new(-64, 1).unwrap())
            .frames
            < 0
    );
    assert!(Rate::new(i32::MIN, 1).is_err());
}

#[test]
fn drop_frame_roundtrip_day() {
    for n in [30000, 60000] {
        let f = FrameFormat::new(n, 1001, true).unwrap();
        for frame in 0..f.frames_per_day() {
            let l = f.label(Position::from_frames(frame));
            assert_eq!(
                f.position(l.hours, l.minutes, l.seconds, l.frames)
                    .unwrap()
                    .frames,
                frame
            );
        }
        assert_eq!(
            f.label(Position::from_frames(f.frames_per_day())).to_string(),
            "00:00:00;00"
        );
        assert!(f.position(0, 1, 0, 0).is_err());
        assert_eq!(f.label(Position::from_frames(-1)).hours, 23);
    }
}

#[test]
fn all_formats_and_midnight() {
    for (n, d) in [
        (24000, 1001),
        (24, 1),
        (25, 1),
        (30000, 1001),
        (30, 1),
        (48000, 1001),
        (48, 1),
        (50, 1),
        (60000, 1001),
        (60, 1),
    ] {
        let f = FrameFormat::new(n, d, false).unwrap();
        assert_eq!(f.label(Position::from_frames(f.frames_per_day())).hours, 0);
        assert_eq!(f.label(Position::from_frames(-1)).hours, 23);
    }
}

#[test]
fn unsupported_formats_are_rejected() {
    assert!(FrameFormat::new(25, 1, true).is_err());
    assert!(FrameFormat::new(30, 1, true).is_err());
    assert!(FrameFormat::new(29, 1, false).is_err());
    assert!(FrameFormat::new(30000, 1000, false).is_err());
    let f = FrameFormat::new(60000, 1001, true).unwrap();
    assert_eq!((f.numerator(), f.denominator(), f.drop_frame()), (60000, 1001, true));
    assert_eq!(f.nominal(), 60);
}

#[test]
fn frames_per_day_of_each_kind() {
    assert_eq!(FrameFormat::new(25, 1, false).unwrap().frames_per_day(), 2_160_000);
    assert_eq!(FrameFormat::new(30000, 1001, false).unwrap().frames_per_day(), 2_592_000);
    assert_eq!(FrameFormat::new(30000, 1001, true).unwrap().frames_per_day(), 2_589_408);
    assert_eq!(FrameFormat::new(60000, 1001, true).unwrap().frames_per_day(), 5_178_816);
}

#[test]
fn drop_frame_labels_skip_the_first_numbers_of_most_minutes() {
    let f = FrameFormat::new(30000, 1001, true).unwrap();
    let l = f.label(Position::from_frames(1800));
    assert_eq!((l.hours, l.minutes, l.seconds, l.frames), (0, 1, 0, 2));
    assert_eq!(l.to_string(), "00:01:00;02");
    let l = f.label(Position::from_frames(17982));
    assert_eq!(l.to_string(), "00:10:00;00");
    let l = f.label(Position::from_frames(1799));
    assert_eq!(l.to_string(), "00:00:59;29");
    assert_eq!(f.position(0, 10, 0, 0).unwrap().frames, 17982);
    assert!(f.position(0, 10, 0, 0).is_ok());
    assert!(f.position(0, 11, 0, 1).is_err());
    assert!(f.position(24, 0, 0, 0).is_err());
    assert!(f.position(0, 0, 0, 30).is_err());
}

#[test]
fn non_drop_labels_use_a_colon() {
    let f = FrameFormat::new(25, 1, false).unwrap();
    let l = f.label(Position::from_frames(25 * 3661 + 7));
    assert_eq!(l.to_string(), "01:01:01:07");
    assert!(!l.drop_frame);
    assert_eq!(f.position(1, 1, 1, 7).unwrap(), Position::from_frames(25 * 3661 + 7));
}

#[test]
fn fixed_point_round_trips() {
    let p = Position {
        frames: -3,
        subframe: 5,
    };
    assert_eq!(Position::from_fixed(p.fixed()), p);
    assert_eq!(Position::from_frames(2).fixed(), 2i128 << 32);
    assert_eq!(Position::zero(), Position::from_frames(0));
}

#[test]
fn rates_are_reduced() {
    let r = Rate::new(2, 4).unwrap();
    assert_eq!((r.numerator(), r.denominator()), (1, 2));
    let r = Rate::new(-6, 3).unwrap();
    assert_eq!((r.numerator(), r.denominator()), (-2, 1));
    let r = Rate::new(0, 7).unwrap();
    assert_eq!((r.numerator(), r.denominator()), (0, 1));
    assert!(Rate::new(1, 0).is_err());
    assert!(Rate::new(65, 1).is_err());
    assert!(Rate::new(-65, 1).is_err());
    assert_eq!(Rate::paused().numerator(), 0);
    assert_eq!((Rate::normal().numerator(), Rate::normal().denominator()), (1, 1));
}

#[test]
fn paused_rate_does_not_move() {
    let f = FrameFormat::default();
    let p = Position::from_frames(12);
    assert_eq!(p.advance(5_000_000_000, f, Rate::paused()), p);
}

#[test]
fn labels_repeat_every_day() {
    for (n, d, drop) in [(30000, 1001, true), (25, 1, false), (60000, 1001, true)] {
        let f = FrameFormat::new(n, d, drop).unwrap();
        let day = f.frames_per_day();
        for frames in [0, 1, 1799, 1800, 17982, day - 1, -1, -day - 5] {
            assert_eq!(
                f.label(Position::from_frames(frames)),
                f.label(Position::from_frames(frames + 3 * day))
            );
        }
    }
}

#[test]
fn advancing_follows_the_rate_direction_over_time() {
    let f = FrameFormat::default();
    let p = Position::from_frames(1000);
    assert_eq!(p.advance(0, f, Rate::new(-2, 1).unwrap()), p);
    assert_eq!(p.advance(123_456_789, f, Rate::paused()), p);
    let forward: Vec<Position> = [-1_000_000_000i64, 0, 1, 33_333_333, 1_000_000_000]
        .iter()
        .map(|e| p.advance(*e, f, Rate::normal()))
        .collect();
    assert!(forward.windows(2).all(|w| w[0] <= w[1]));
    assert_eq!(forward[4], Position::from_frames(1030));
    let reverse: Vec<Position> = [0i64, 1_000_000_000, 2_000_000_000]
        .iter()
        .map(|e| p.advance(*e, f, Rate::new(-1, 2).unwrap()))
        .collect();
    assert_eq!(reverse, vec![p, Position::from_frames(985), Position::from_frames(970)]);
}
