use forth::number::{digit_to_char, digits, parse_literal, write_decimal};
use forth::text::{blank, chars_of, push_chars, split, spells};
use forth::{Error, Machine, Word};

const LINES: [&str; 14] = [
    "",
    " ",
    "a",
    " a",
    "a ",
    "a b",
    "  a   bc  ",
    "\ta\nb\rc\u{c}d",
    "1 2 +",
    ": sq dup *",
    "a\u{b}b c",
    "a\u{a0}b c",
    "caf\u{e9} \u{1f600}  x",
    "\n\n",
];

#[test]
fn split_cuts_at_ascii_whitespace() {
    for line in LINES {
        let expected: Vec<&str> = line.split_ascii_whitespace().collect();
        assert_eq!(split(line), expected);
    }
    assert_eq!(split("  a   bc  "), vec!["a", "bc"]);
    assert_eq!(split("a\u{b}b c"), vec!["a\u{b}b", "c"]);
    assert!(split(" \t\r\n\u{c}").is_empty());
}

#[test]
fn blank_is_ascii_whitespace() {
    for code in 0..0x3000u32 {
        if let Some(c) = char::from_u32(code) {
            assert_eq!(blank(c), c.is_ascii_whitespace());
        }
    }
}

#[test]
fn chars_of_gives_each_character() {
    assert_eq!(chars_of("a\u{e9}\u{1f600}"), vec!['a', '\u{e9}', '\u{1f600}']);
    assert!(chars_of("").is_empty());
}

#[test]
fn spells_compares_whole_texts() {
    assert!(spells(&['m', 'o', 'd'], "mod"));
    assert!(!spells(&['m', 'o'], "mod"));
    assert!(!spells(&['m', 'o', 'd', 'e'], "mod"));
    assert!(!spells(&['m', 'o', 'b'], "mod"));
    assert!(spells(&[], ""));
}

const LITERALS: [&str; 30] = [
    "0",
    "7",
    "-7",
    "+7",
    "-0",
    "+0",
    "007",
    "0000000000000000000012",
    "2147483647",
    "2147483648",
    "+2147483647",
    "+2147483648",
    "-2147483648",
    "-2147483649",
    "99999999999999999999999999",
    "-99999999999999999999999999",
    "",
    "-",
    "+",
    "--1",
    "+-1",
    "1-",
    "1 ",
    " 1",
    "1_000",
    "0x10",
    "1e3",
    "12a",
    "\u{661}",
    "1.5",
];

#[test]
fn literal_is_what_std_parses() {
    for text in LITERALS {
        let chars: Vec<char> = text.chars().collect();
        assert_eq!(parse_literal(&chars), text.parse::<i32>().ok());
    }
    assert_eq!(parse_literal(&['-', '4', '2']), Some(-42));
    assert_eq!(parse_literal(&['+', '4', '2']), Some(42));
    assert_eq!(parse_literal(&['4', '2', 'x']), None);
}

#[test]
fn literals_on_the_machine() {
    let mut m = Machine::default();
    assert_eq!(m.eval("+7 -0 007 -2147483648 2147483647"), Ok(String::new()));
    assert_eq!(m.stack(), &vec![7, 0, 7, i32::MIN, i32::MAX]);
    assert_eq!(m.eval("2147483648"), Err(Error::UndefinedWord("2147483648")));
    assert_eq!(m.eval("--1"), Err(Error::UndefinedWord("--1")));
    assert_eq!(m.eval("1.5"), Err(Error::UndefinedWord("1.5")));
}

#[test]
fn digits_in_base_ten_and_sixteen() {
    for n in [0u32, 1, 9, 10, 15, 16, 99, 100, 255, 256, 4095, 65535, 1_000_000, u32::MAX] {
        let decimal: String = digits(n, 10).into_iter().collect();
        assert_eq!(decimal, format!("{}", n));
        let hex: String = digits(n, 16).into_iter().collect();
        assert_eq!(hex, format!("{:x}", n));
        let binary: String = digits(n, 2).into_iter().collect();
        assert_eq!(binary, format!("{:b}", n));
    }
    assert_eq!(digit_to_char(0), '0');
    assert_eq!(digit_to_char(9), '9');
    assert_eq!(digit_to_char(10), 'a');
    assert_eq!(digit_to_char(15), 'f');
}

#[test]
fn dot_writes_decimal_numerals() {
    for v in [0, 1, -1, 9, 10, -10, 12345, -12345, i32::MAX, i32::MIN, i32::MIN + 1] {
        let mut m = Machine::default();
        assert_eq!(m.eval(&format!("{} .", v)), Ok(format!("{} ", v)));
        assert!(m.stack().is_empty());
    }
    let mut m = Machine::default();
    assert_eq!(m.eval("1 2 3 . . ."), Ok("3 2 1 ".to_string()));
}

#[test]
fn spaces_writes_that_many() {
    let mut m = Machine::default();
    assert_eq!(m.eval("3 spaces"), Ok("    ".to_string()));
    assert_eq!(m.eval("0 spaces"), Ok(" ".to_string()));
    assert_eq!(m.eval("1 spaces 2 spaces"), Ok("     ".to_string()));
    assert!(m.stack().is_empty());
}

#[test]
fn spaces_with_a_negative_count_writes_none() {
    let mut m = Machine::default();
    assert_eq!(m.eval("-1 spaces"), Ok(" ".to_string()));
    assert_eq!(m.eval("-2147483648 spaces"), Ok(" ".to_string()));
    assert!(m.stack().is_empty());
}

#[test]
fn parse_finds_each_primitive() {
    let cases = [
        (".", Word::Dot),
        ("-", Word::Minus),
        ("+", Word::Plus),
        ("*", Word::Star),
        ("/", Word::Slash),
        ("mod", Word::Mod),
        ("/mod", Word::SlashMod),
        ("emit", Word::Emit),
        ("drop", Word::Drop),
        ("dup", Word::Dup),
        ("rot", Word::Rot),
        ("spaces", Word::Spaces),
        ("swap", Word::Swap),
    ];
    for (text, word) in cases {
        let chars: Vec<char> = text.chars().collect();
        assert_eq!(Word::parse(&chars), Some(word));
    }
    for text in ["", "..", "Dup", "du", "dupp", "space", "over", "cr", "1", "mo", "/ mod"] {
        let chars: Vec<char> = text.chars().collect();
        assert_eq!(Word::parse(&chars), None);
    }
}

#[test]
fn output_comes_in_the_order_of_the_tokens() {
    let mut m = Machine::default();
    assert_eq!(m.eval("1 . 65 emit 2 spaces 2 ."), Ok("1 A    2 ".to_string()));
}

#[test]
fn write_decimal_adds_to_what_is_there() {
    let mut out = String::from("n=");
    write_decimal(&mut out, -120);
    write_decimal(&mut out, 7);
    write_decimal(&mut out, i32::MIN);
    assert_eq!(out, "n=-1207-2147483648");
}

#[test]
fn push_chars_adds_to_what_is_there() {
    let mut out = String::from("a");
    push_chars(&mut out, &vec!['b', '\u{e9}', ' ']);
    push_chars(&mut out, &vec![]);
    assert_eq!(out, "ab\u{e9} ");
}
