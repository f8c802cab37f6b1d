use vasp_files::text::{
    chars_of, is_whitespace, place_of, split_lines, split_whitespace, string_from_chars, trim, Place,
};

fn chars(s: &str) -> Vec<char> {
    s.chars().collect()
}

fn strings(v: Vec<Vec<char>>) -> Vec<String> {
    v.into_iter().map(|l| l.into_iter().collect()).collect()
}

#[test]
fn characters_of_a_string() {
    assert_eq!(chars_of("aé\n"), vec!['a', 'é', '\n']);
    assert_eq!(chars_of(""), Vec::<char>::new());
}

#[test]
fn white_space_is_what_the_standard_library_says() {
    for n in 0..=0x10FFFFu32 {
        if let Some(c) = char::from_u32(n) {
            assert_eq!(is_whitespace(c), c.is_whitespace(), "{:x}", n);
        }
    }
}

#[test]
fn lines_are_what_the_standard_library_yields() {
    for s in ["", "a", "a\n", "a\nb", "a\n\nb\n", "\n", "\n\n", "a\r\nb\r\n", "a\r", "a\r\n", "\r\n", "a\rb\n", "a\r\r\n", "x = 1 # c\ny"] {
        let want: Vec<String> = s.lines().map(|l| l.to_string()).collect();
        assert_eq!(strings(split_lines(&chars(s))), want, "{:?}", s);
    }
}

#[test]
fn trimming_is_what_the_standard_library_gives() {
    for s in ["", " ", "a", " a", "a ", "  a b  ", "\t\r\n a \u{a0}", "\u{3000}x\u{2003}", " \t "] {
        let got: String = trim(&chars(s)).into_iter().collect();
        assert_eq!(got, s.trim(), "{:?}", s);
    }
}

#[test]
fn tokens_are_what_the_standard_library_yields() {
    for s in ["", " ", "a", " a  b\tc ", "1.0  2.0  3.0  T  F  T  ", "a\u{a0}b", "\n x \n"] {
        let want: Vec<String> = s.split_whitespace().map(|l| l.to_string()).collect();
        assert_eq!(strings(split_whitespace(&chars(s))), want, "{:?}", s);
    }
}

#[test]
fn order_of_strings_is_that_of_the_standard_library() {
    let items = ["", "A", "AB", "B", "a", "ENCUT", "EDIFF", "EDIFFG", "é", "z"];
    for a in items {
        for b in items {
            let want = if a < b {
                Place::Before
            } else if a == b {
                Place::Same
            } else {
                Place::After
            };
            assert_eq!(place_of(&chars(a), &chars(b)), want, "{:?} {:?}", a, b);
        }
    }
}

#[test]
fn string_of_characters() {
    assert_eq!(string_from_chars(&['a', 'é', ' ', '#']), "aé #");
    assert_eq!(string_from_chars(&[]), "");
}
