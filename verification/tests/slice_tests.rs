use episodic::{observation_line_count, slice_leading_lines};

#[test]
fn observation_line_count_counts_str_lines() {
    assert_eq!(observation_line_count(""), 0);
    assert_eq!(observation_line_count("l1"), 1);
    assert_eq!(observation_line_count("l1\nl2\r\nl3\n"), 3);
}

#[test]
fn slice_leading_lines_takes_the_first_lines() {
    assert_eq!(
        slice_leading_lines("l1\nl2\nl3\nl4", 1),
        ("l1".to_string(), 1)
    );
    assert_eq!(
        slice_leading_lines("l1\r\nl2\nl3", 2),
        ("l1\nl2".to_string(), 2)
    );
}

#[test]
fn slice_leading_lines_takes_all_when_fewer() {
    assert_eq!(
        slice_leading_lines("l1\nl2", 10),
        ("l1\nl2".to_string(), 2)
    );
    assert_eq!(slice_leading_lines("", 3), (String::new(), 0));
}
