use umanux::number::{decimal_chars, int_chars, parse_i64, parse_u32, parse_u64};
use umanux::text::{
    chars_of, join_chars, line_chars, remove_line, split_chars, string_of, strike_line,
    strip_chars, trim_chars, Padding,
};

fn chars(s: &str) -> Vec<char> {
    s.chars().collect()
}

fn strings(v: &Vec<Vec<char>>) -> Vec<String> {
    v.iter().map(|p| p.iter().collect()).collect()
}

#[test]
fn split_and_join() {
    assert_eq!(strings(&split_chars(&chars("a:b::c"), ':')), vec!["a", "b", "", "c"]);
    assert_eq!(strings(&split_chars(&chars(""), ':')), vec![""]);
    assert_eq!(strings(&split_chars(&chars(":"), ':')), vec!["", ""]);
    assert_eq!(strings(&split_chars(&chars("hänno:ß"), ':')), vec!["hänno", "ß"]);
    for text in ["", ":", "a", "a:b", ":a:", "::", "a::b:"] {
        let joined = join_chars(&split_chars(&chars(text), ':'), ':');
        assert_eq!(string_of(&joined), text);
    }
    assert_eq!(string_of(&join_chars(&vec![], ',')), "");
    assert_eq!(chars_of("hänno"), chars("hänno"));
}

#[test]
fn lines_are_what_std_says() {
    assert_eq!(strings(&line_chars(&chars("a\nb\n"))), vec!["a", "b"]);
    assert_eq!(strings(&line_chars(&chars("a\nb"))), vec!["a", "b"]);
    assert_eq!(strings(&line_chars(&chars("a\n\nb\n\n"))), vec!["a", "", "b", ""]);
    assert_eq!(strings(&line_chars(&chars(""))), Vec::<String>::new());
    assert_eq!(strings(&line_chars(&chars("\n"))), vec![""]);
    assert_eq!(strings(&line_chars(&chars("a\r\nb"))), vec!["a", "b"]);
    assert_eq!(strings(&line_chars(&chars("a\r\r\nb\r"))), vec!["a\r", "b\r"]);
    for text in [
        "", "\n", "\r", "\r\n", "a", "a\n", "a\r\n", "a\r", "a\nb", "a\r\nb\r\n", "\n\n",
        "\r\n\r\n", "a\n\r\nb", "a\r\r\n", "a\rb\n", "\ra\n\r", "a\n\r", "a\n\n\r\n\n",
    ] {
        let expected: Vec<String> = text.lines().map(|l| l.to_string()).collect();
        assert_eq!(strings(&line_chars(&chars(text))), expected, "{:?}", text);
    }
}

#[test]
fn trim_takes_white_space_off_both_ends() {
    assert_eq!(string_of(&trim_chars(&chars("  a b \n"))), "a b");
    assert_eq!(string_of(&trim_chars(&chars("\u{2003}a\u{85}"))), "a");
    assert_eq!(string_of(&trim_chars(&chars(" \t\r\n"))), "");
    assert_eq!(string_of(&trim_chars(&chars(""))), "");
    assert_eq!(string_of(&trim_chars(&chars("\u{0}a"))), "\u{0}a");
    assert_eq!(string_of(&strip_chars(&chars("\u{0}a \u{0}\u{0}"), Padding::Nul)), "a ");
    for text in [" x ", "\u{a0}x\u{1680}", "x", "\u{200b}x", "\u{2028}\u{2029}x\u{202f}\u{205f}"] {
        assert_eq!(string_of(&trim_chars(&chars(text))), text.trim());
    }
}

#[test]
fn strike_counts_what_it_takes() {
    let (rest, count) = strike_line(&chars("a\nb\na\nc\n"), &chars("a"));
    assert_eq!(string_of(&rest), "b\nc");
    assert_eq!(count, 2);
    let (rest, count) = strike_line(&chars("a\nb"), &chars("x"));
    assert_eq!(string_of(&rest), "a\nb");
    assert_eq!(count, 0);
    assert_eq!(remove_line("a\n\nb\n", ""), "a\nb");
    assert_eq!(remove_line("ab\nb\n", "b"), "ab");
    assert_eq!(remove_line("a\r\nb\r\nc", "b"), "a\nc");
    let (rest, count) = strike_line(&chars("a\r\nb\r\n"), &chars("a"));
    assert_eq!(string_of(&rest), "b");
    assert_eq!(count, 1);
}

#[test]
fn decimal_text() {
    assert_eq!(string_of(&decimal_chars(0)), "0");
    assert_eq!(string_of(&decimal_chars(1001)), "1001");
    assert_eq!(string_of(&decimal_chars(u64::MAX)), "18446744073709551615");
    assert_eq!(string_of(&int_chars(-1)), "-1");
    assert_eq!(string_of(&int_chars(i64::MIN)), "-9223372036854775808");
    assert_eq!(string_of(&int_chars(i64::MAX)), "9223372036854775807");
}

#[test]
fn numbers_are_read_as_std_reads_them() {
    for text in [
        "0", "7", "007", "+7", "-7", "-0", "+", "-", "", " 7", "7 ", "4294967295", "4294967296",
        "18446744073709551615", "18446744073709551616", "9223372036854775807",
        "9223372036854775808", "-9223372036854775808", "-9223372036854775809", "1_000", "0x10",
        "++1", "+-1", "٣",
    ] {
        assert_eq!(parse_u32(&chars(text)), text.parse::<u32>().ok(), "{:?}", text);
        assert_eq!(parse_u64(&chars(text)), text.parse::<u64>().ok(), "{:?}", text);
        assert_eq!(parse_i64(&chars(text)), text.parse::<i64>().ok(), "{:?}", text);
    }
}

#[test]
fn white_space_is_what_std_says() {
    for code in 0..=0x10ffff_u32 {
        if let Some(c) = char::from_u32(code) {
            assert_eq!(Padding::WhiteSpace.holds(c), c.is_whitespace(), "{:x}", code);
            assert_eq!(Padding::Nul.holds(c), code == 0);
        }
    }
}

#[test]
fn lines_of_every_short_text_are_what_std_says() {
    let alphabet = ['a', '\r', '\n'];
    let mut texts = vec![String::new()];
    for _ in 0..7 {
        let mut longer = Vec::new();
        for text in &texts {
            for c in alphabet {
                let mut t = text.clone();
                t.push(c);
                longer.push(t);
            }
        }
        for text in &texts {
            let expected: Vec<String> = text.lines().map(|l| l.to_string()).collect();
            assert_eq!(strings(&line_chars(&chars(text))), expected, "{:?}", text);
        }
        texts = longer;
    }
}

#[test]
fn trim_twice_is_trim_once() {
    for text in ["", " ", " a ", "\n a b\t\n", "\u{3000}x\u{3000}", "a\n"] {
        let once = trim_chars(&chars(text));
        assert_eq!(trim_chars(&once), once);
        let mut padded = chars(text);
        padded.push('\n');
        assert_eq!(trim_chars(&padded), once);
    }
}
