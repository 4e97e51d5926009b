use vbd_strand::output::frame_file_name;

#[test]
fn frame_numbers_are_zero_padded_to_eight_digits() {
    assert_eq!(frame_file_name("output/run", 7), "output/run/A00000007.json");
    assert_eq!(frame_file_name("out", 0), "out/A00000000.json");
    assert_eq!(frame_file_name("out", 299), "out/A00000299.json");
    assert_eq!(frame_file_name("out", 12345678), "out/A12345678.json");
}

#[test]
fn long_frame_numbers_are_not_truncated() {
    assert_eq!(frame_file_name("out", 123456789), "out/A123456789.json");
    assert_eq!(
        frame_file_name("", usize::MAX),
        format!("/A{}.json", usize::MAX)
    );
}

#[test]
fn file_name_matches_std_formatting() {
    for frame in [1usize, 9, 10, 99, 100, 4096, 99999999, 100000000] {
        assert_eq!(frame_file_name("d", frame), format!("{}/A{:08}.json", "d", frame));
    }
}

#[test]
fn distinct_frames_get_distinct_files() {
    assert_ne!(frame_file_name("o", 1), frame_file_name("o", 10));
    assert_ne!(frame_file_name("o", 0), frame_file_name("o", 100000000));
}
