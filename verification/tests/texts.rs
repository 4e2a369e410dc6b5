use grid_rules::rulefile::{read_rule_file, FileError};
use grid_rules::text::{find_mark, parse_i32, part, space_at, split_at_marks, split_lines, trimmed};

const SAMPLES: [&str; 24] = [
    "",
    " ",
    "a",
    "  a  ",
    "\t\n\u{b}\u{c}\r a b \r\n",
    "\u{85}x\u{a0}",
    "\u{1680}\u{2000}\u{2001}\u{2002}\u{2003}\u{2004}\u{2005}y",
    "y\u{2006}\u{2007}\u{2008}\u{2009}\u{200a}\u{2028}\u{2029}\u{202f}\u{205f}\u{3000}",
    "\u{200b}z\u{200b}",
    "\u{2000}\u{200b}\u{2000}",
    "\u{e9}\u{a0}",
    " \u{a0} \u{3000} ",
    "line\nline\r\nline\rline\n",
    "\n\n",
    "\r\n\r\n",
    "last\r",
    "a\n\nb",
    "\nfirst",
    "=>",
    "a=>b=>c",
    "==>>",
    "[NAME]x[BEGIN]y[END]",
    "\u{180e} mongolian \u{180e}",
    "é \u{feff}",
];

#[test]
fn trimming_is_that_of_strings() {
    for s in SAMPLES {
        assert_eq!(trimmed(s.as_bytes()), s.trim().as_bytes(), "{:?}", s);
    }
}

#[test]
fn white_space_takes_one_two_or_three_bytes() {
    assert_eq!(space_at(b" x", 0), 1);
    assert_eq!(space_at(b" x", 1), 0);
    assert_eq!(space_at(b" x", 2), 0);
    assert_eq!(space_at("\u{a0}".as_bytes(), 0), 2);
    assert_eq!(space_at("\u{a0}".as_bytes(), 1), 0);
    assert_eq!(space_at("\u{3000}".as_bytes(), 0), 3);
    assert_eq!(space_at("\u{3001}".as_bytes(), 0), 0);
    assert_eq!(space_at(&[0xC2], 0), 0);
    assert_eq!(space_at(&[0xE2, 0x80], 0), 0);
    for c in (0u32..0x3100).filter_map(char::from_u32) {
        let s = c.to_string();
        let want = if c.is_whitespace() { s.len() } else { 0 };
        assert_eq!(space_at(s.as_bytes(), 0), want, "{:?}", c);
    }
}

#[test]
fn lines_are_those_of_strings() {
    for s in SAMPLES {
        let want: Vec<Vec<u8>> = s.lines().map(|l| l.as_bytes().to_vec()).collect();
        assert_eq!(split_lines(s.as_bytes()), want, "{:?}", s);
    }
    assert_eq!(split_lines(b"a\r\nb"), vec![b"a".to_vec(), b"b".to_vec()]);
    assert_eq!(split_lines(b"a\r\r\nb\r"), vec![b"a\r".to_vec(), b"b\r".to_vec()]);
}

#[test]
fn parts_are_those_of_strings() {
    for s in SAMPLES {
        for mark in ["=>", "\n", "[NAME]", "line", "==", "a", "\u{2000}"] {
            let want: Vec<Vec<u8>> = s.split(mark).map(|l| l.as_bytes().to_vec()).collect();
            assert_eq!(split_at_marks(s.as_bytes(), mark.as_bytes()), want, "{:?} {:?}", s, mark);
        }
    }
    assert_eq!(split_at_marks(b"aaa", b"aa"), vec![b"".to_vec(), b"a".to_vec()]);
    assert_eq!(split_at_marks(b"abc", b""), vec![b"abc".to_vec()]);
    assert_eq!(part(b"abcdef", 2, 4), b"cd".to_vec());
    assert_eq!(part(b"abcdef", 3, 3), b"".to_vec());
}

#[test]
fn marks_are_found_from_left_to_right() {
    assert_eq!(find_mark(b"a=>b=>c", b"=>", 0), 1);
    assert_eq!(find_mark(b"a=>b=>c", b"=>", 1), 1);
    assert_eq!(find_mark(b"a=>b=>c", b"=>", 2), 4);
    assert_eq!(find_mark(b"a=>b=>c", b"=>", 5), 7);
    assert_eq!(find_mark(b"a=>b=>c", b"", 0), 7);
    assert_eq!(find_mark(b"=", b"=>", 0), 1);
    assert_eq!(find_mark(b"", b"=>", 0), 0);
}

#[test]
fn integers_are_read_as_strings_are_parsed() {
    let samples = [
        "", "+", "-", "0", "-0", "+0", "7", "+7", "-7", "007", "2147483647", "2147483648",
        "-2147483648", "-2147483649", "+2147483647", "99999999999999999999999999", "1 ", " 1",
        "1_000", "0x10", "--1", "+-1", "1-", "12a", "\u{661}",
        "00000000000000000000000000000000002147483647", "-00000000000000000000002147483648",
    ];
    for s in samples {
        assert_eq!(parse_i32(s.as_bytes()), s.parse::<i32>().ok(), "{:?}", s);
    }
    assert_eq!(parse_i32(b"2147483647"), Some(i32::MAX));
    assert_eq!(parse_i32(b"-2147483648"), Some(i32::MIN));
    assert_eq!(parse_i32(b"-12"), Some(-12));
}

const FILE: &str = "
skipped before the first name
[NAME] first [BEGIN]
 in => out
[END] not read

[NAME] second [PRIORITY] -5 [BEGIN] body [END][END]
[NAME] no rule here
[NAME]\u{a0}third\u{3000}[PRIORITY]+12[BEGIN][END]
";

#[test]
fn rule_file_gives_its_entries_in_order() {
    let found = read_rule_file(FILE.as_bytes(), Some(100)).unwrap();
    let seen: Vec<(&[u8], &[u8], i32)> =
        found.iter().map(|e| (&e.name[..], &e.content[..], e.priority)).collect();
    assert_eq!(
        seen,
        vec![
            (&b"first"[..], &b"in => out"[..], 100),
            (&b"second"[..], &b"body"[..], -5),
            (&b"third"[..], &b""[..], 12),
        ]
    );
    assert!(read_rule_file(b"", None).unwrap().is_empty());
    assert!(read_rule_file(b"[NAME][NAME]", None).unwrap().is_empty());
    let twice = read_rule_file(b"[NAME]a[BEGIN]b[BEGIN]c[END]", Some(1)).unwrap();
    assert!(twice.is_empty());
}

#[test]
fn rule_file_errors_are_told_apart() {
    assert_eq!(read_rule_file(FILE.as_bytes(), None).err(), Some(FileError::NoPriority));
    assert_eq!(
        read_rule_file(b"[NAME] a [PRIORITY] x [BEGIN] b [END]", Some(1)).err(),
        Some(FileError::Priority)
    );
    assert_eq!(
        read_rule_file(b"[NAME] a [PRIORITY] [BEGIN] b [END]", Some(1)).err(),
        Some(FileError::Priority)
    );
    assert_eq!(
        read_rule_file(b"[NAME] a [PRIORITY] 2147483648 [BEGIN] b [END]", Some(1)).err(),
        Some(FileError::Priority)
    );
    assert_eq!(
        read_rule_file(b"[NAME] a [PRIORITY] 1 [PRIORITY] 2 [BEGIN] b [END]", Some(1)).err(),
        Some(FileError::Priorities)
    );
    assert_eq!(
        read_rule_file(b"[NAME] a [BEGIN] [END] [NAME] b [PRIORITY] z [BEGIN] [END]", None).err(),
        Some(FileError::NoPriority)
    );
    assert!(read_rule_file(b"[NAME] a [PRIORITY] 3 [BEGIN] b [END]", None).is_ok());
}
