use xp::obj::{face_indices, is_white_space, parse_face, ObjError, ObjLines};

fn text(chars: &[char]) -> String {
    chars.iter().collect()
}

fn statement(lines: &mut ObjLines, line: &str) -> Option<(String, Vec<String>)> {
    lines.push_line(line).map(|(keyword, args)| (text(&keyword), args.iter().map(|a| text(a)).collect()))
}

#[test]
fn statements_split_on_whitespace() {
    let mut lines = ObjLines::new();
    assert_eq!(
        statement(&mut lines, "v 1.0  2.0\t3.0"),
        Some(("v".to_string(), vec!["1.0".to_string(), "2.0".to_string(), "3.0".to_string()]))
    );
    assert_eq!(statement(&mut lines, "   "), None);
    assert_eq!(statement(&mut lines, ""), None);
    assert_eq!(statement(&mut lines, "o"), Some(("o".to_string(), vec![])));
}

#[test]
fn comments_are_dropped() {
    let mut lines = ObjLines::new();
    assert_eq!(statement(&mut lines, "# a comment"), None);
    assert_eq!(
        statement(&mut lines, "f 1 2 3 # trailing"),
        Some(("f".to_string(), vec!["1".to_string(), "2".to_string(), "3".to_string()]))
    );
}

#[test]
fn continued_lines_join() {
    let mut lines = ObjLines::new();
    assert_eq!(statement(&mut lines, "f 1 2\\"), None);
    assert_eq!(statement(&mut lines, "3\\"), None);
    assert_eq!(
        statement(&mut lines, "4"),
        Some(("f".to_string(), vec!["1".to_string(), "2".to_string(), "3".to_string(), "4".to_string()]))
    );
    // a backslash before a comment continues the line too
    assert_eq!(statement(&mut lines, "v\\# comment"), None);
    assert_eq!(statement(&mut lines, "7"), Some(("v".to_string(), vec!["7".to_string()])));
}

#[test]
fn face_corners_give_vertex_indices() {
    assert_eq!(parse_face("3").unwrap().v_index, 2);
    assert_eq!(parse_face("3/1/2").unwrap().v_index, 2);
    assert_eq!(parse_face("12//7").unwrap().v_index, 11);
    assert_eq!(parse_face("+5").unwrap().v_index, 4);
    assert!(matches!(parse_face("x/1"), Err(ObjError::ParseInt(_))));
    assert!(matches!(parse_face("/1"), Err(ObjError::ParseInt(_))));
    assert!(matches!(parse_face("-1"), Err(ObjError::ParseInt(_))));
    assert!(matches!(parse_face("4294967296"), Err(ObjError::ParseInt(_))));
}

#[test]
fn errors_convert_from_their_sources() {
    let e: ObjError = "x".parse::<u32>().unwrap_err().into();
    assert!(matches!(e, ObjError::ParseInt(_)));
    let e: ObjError = "x".parse::<f32>().unwrap_err().into();
    assert!(matches!(e, ObjError::ParseFloat(_)));
    let e: ObjError = std::io::Error::new(std::io::ErrorKind::Other, "read").into();
    assert!(matches!(e, ObjError::Io(_)));
}

#[test]
fn face_statements_give_three_vertex_indices() {
    assert_eq!(face_indices(&["1", "2/5", "3//1"]).unwrap(), [0, 1, 2]);
    assert_eq!(face_indices(&["4", "5", "6", "7"]).unwrap(), [3, 4, 5]);
    assert!(matches!(face_indices(&["1", "2"]), Err(ObjError::WrongNumberOfArguments)));
    assert!(matches!(face_indices(&[]), Err(ObjError::WrongNumberOfArguments)));
    assert!(matches!(face_indices(&["1", "x", "0"]), Err(ObjError::ParseInt(_))));
    assert!(matches!(face_indices(&["1", "2", "-3"]), Err(ObjError::ParseInt(_))));
}

#[test]
fn white_space_is_the_unicode_white_space_property() {
    for n in 0..=0x10FFFFu32 {
        if let Some(c) = char::from_u32(n) {
            assert_eq!(is_white_space(c), c.is_whitespace(), "{:x}", n);
        }
    }
    assert!(is_white_space(' '));
    assert!(is_white_space('\t'));
    assert!(!is_white_space('a'));
    assert!(!is_white_space('7'));
}
