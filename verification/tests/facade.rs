use ethersync_protocol::facade::{
    timecode_format_elapsed, timecode_format_new, timecode_format_position, FramePosition,
};
use ethersync_protocol::Position;

#[test]
fn timecode_arithmetic_is_exact_and_validates_labels() {
    assert!(timecode_format_new(25, 1, true).is_err());
    let f = timecode_format_new(30000, 1001, true).unwrap();
    assert!(timecode_format_position(&f, 0, 1, 0, 0).is_err());
    assert_eq!(
        timecode_format_position(&f, 0, 1, 0, 2).unwrap().frames,
        1800
    );
    assert_eq!(
        timecode_format_position(&f, 0, 10, 0, 0).unwrap().frames,
        17982
    );
    assert!(timecode_format_position(&f, 24, 0, 0, 0).is_err());
    let p = timecode_format_elapsed(&f, 1_001_000_000);
    assert_eq!((p.frames, p.subframe), (30, 0));
    let f = timecode_format_new(30, 1, false).unwrap();
    let p = timecode_format_elapsed(&f, -50_000_000);
    assert_eq!((p.frames, p.subframe), (-2, 0x80000000));
    assert_eq!(
        timecode_format_elapsed(&f, 86_400_000_000_000).frames,
        2_592_000
    );
}

#[test]
fn facade_errors_are_described() {
    let e = timecode_format_new(29, 1, false).err().unwrap();
    assert_eq!(e, "invalid timecode or wire value: frame format");
    let f = timecode_format_new(25, 1, false).unwrap();
    let e = timecode_format_position(&f, 0, 0, 0, 25).err().unwrap();
    assert_eq!(e, "invalid timecode or wire value: timecode label");
}

#[test]
fn frame_position_converts_from_position() {
    let p = Position {
        frames: 7,
        subframe: 9,
    };
    assert_eq!(
        FramePosition::from(p),
        FramePosition {
            frames: 7,
            subframe: 9
        }
    );
    assert_eq!(
        FramePosition::default(),
        FramePosition {
            frames: 0,
            subframe: 0
        }
    );
}
