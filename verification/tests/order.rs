use influxrs::lines::{line_bounds, trim_range, white_space};
use influxrs::order::{place, Place};
use influxrs::text::{join_strings, to_chars};

#[test]
fn place_goes_by_code_point_and_prefix_first() {
    assert_eq!(place("", ""), Place::Same);
    assert_eq!(place("", "a"), Place::Before);
    assert_eq!(place("a", ""), Place::After);
    assert_eq!(place("a", "b"), Place::Before);
    assert_eq!(place("b", "a"), Place::After);
    assert_eq!(place("ab", "abc"), Place::Before);
    assert_eq!(place("abc", "abc"), Place::Same);
    assert_eq!(place("Z", "a"), Place::Before);
    assert_eq!(place("é", "z"), Place::After);
    assert_eq!(place("\u{ffff}", "\u{10000}"), Place::Before);
}

#[test]
fn place_agrees_with_the_order_of_strings() {
    let names = ["", "a", "ab", "b", "B", "é", "日本", "z", "\u{10000}", "a b", "a,b"];
    for a in names {
        for b in names {
            let expected = if a < b {
                Place::Before
            } else if a == b {
                Place::Same
            } else {
                Place::After
            };
            assert_eq!(place(a, b), expected);
        }
    }
}

#[test]
fn join_puts_the_separator_between() {
    let parts = |items: &[&str]| items.iter().map(|s| s.to_string()).collect::<Vec<String>>();
    assert_eq!(join_strings(&parts(&[]), ", "), "");
    assert_eq!(join_strings(&parts(&["a"]), ", "), "a");
    assert_eq!(join_strings(&parts(&["a", "b", "c"]), ", "), "a, b, c");
    assert_eq!(join_strings(&parts(&["", ""]), "-"), "-");
}

#[test]
fn white_space_is_what_trim_takes() {
    for code in 0..0x3100u32 {
        if let Some(c) = char::from_u32(code) {
            assert_eq!(white_space(c), c.is_whitespace());
        }
    }
}

#[test]
fn lines_and_trimming() {
    let v = to_chars("a\n b \n\nc");
    assert_eq!(line_bounds(&v), vec![(0, 1), (2, 5), (6, 6), (7, 8)]);
    assert_eq!(trim_range(&v, 2, 5), "b");
    assert_eq!(trim_range(&v, 6, 6), "");
    assert_eq!(line_bounds(&to_chars("")), vec![]);
    assert_eq!(line_bounds(&to_chars("x\n")), vec![(0, 1)]);
    assert_eq!(line_bounds(&to_chars("\n")), vec![(0, 0)]);
    let text = "one\r\ntwo\n\n  three  \n";
    let chars = to_chars(text);
    let lines: Vec<String> = line_bounds(&chars).iter().map(|&(a, b)| trim_range(&chars, a, b)).collect();
    let expected: Vec<String> = text.lines().map(|l| l.trim().to_string()).collect();
    assert_eq!(lines, expected);
}
