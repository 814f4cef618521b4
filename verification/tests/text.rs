use lcm_status::number::{parse_u32, parse_u64, to_decimal};
use lcm_status::order::{order, sort_numbers, sort_pairs, sort_texts};
use lcm_status::text::{
    chars, from_chars, has, lines, pad_left, pad_right, parts, replace, same_caseless, trim, up_to_last,
    words,
};

fn v(s: &str) -> Vec<char> {
    chars(s)
}

fn strings(r: Vec<Vec<char>>) -> Vec<String> {
    r.iter().map(|x| x.iter().collect()).collect()
}

const SAMPLES: [&str; 9] = [
    "",
    " ",
    "a b  c",
    "\t a\r\nb \n\nc",
    "x\n",
    "x\r\ny\rz",
    "\u{a0}wide\u{3000}gap",
    "no gap",
    "\n",
];

#[test]
fn words_lines_and_trim_agree_with_std() {
    for s in SAMPLES {
        let c = v(s);
        assert_eq!(strings(words(&c)), s.split_whitespace().collect::<Vec<_>>(), "{s:?}");
        assert_eq!(strings(lines(&c)), s.lines().collect::<Vec<_>>(), "{s:?}");
        assert_eq!(from_chars(trim(&c)), s.trim(), "{s:?}");
        assert_eq!(strings(parts(&c, ' ')), s.split(' ').collect::<Vec<_>>(), "{s:?}");
        assert_eq!(from_chars(&replace(&c, "a", "xy")), s.replace("a", "xy"), "{s:?}");
    }
}

#[test]
fn built_strings_hold_every_character() {
    assert_eq!(from_chars(&['a', 'ß', '語']), "aß語");
    assert_eq!(to_decimal(0), "0");
    assert_eq!(to_decimal(u64::MAX), u64::MAX.to_string());
}

#[test]
fn padding_agrees_with_std() {
    for s in ["", "ab", "abcdef", "ü"] {
        assert_eq!(pad_right(s, 4), format!("{s:<4}"));
        assert_eq!(pad_left(s, 4), format!("{s:>4}"));
    }
}

#[test]
fn searching_agrees_with_std() {
    for s in ["", "in STANDBY", "xin STANDB", "FAILED", "aFAILEDb"] {
        for p in ["", "in STANDBY", "FAILED", "b"] {
            assert_eq!(has(&v(s), p), s.contains(p), "{s:?} {p:?}");
        }
    }
    assert_eq!(from_chars(up_to_last(&v("nvme0n1"), 'n')), "nvme0");
    assert_eq!(from_chars(up_to_last(&v("sda"), 'n')), "sda");
    assert_eq!(from_chars(&replace(&v("temp_label_label"), "_label", "_input")), "temp_input_input");
    assert!(same_caseless(&v("sHoW"), "SHOW"));
    assert!(!same_caseless(&v("SHOWS"), "SHOW"));
}

#[test]
fn numbers_parse_as_std_does() {
    for s in ["", "0", "+7", "-1", "007", "4294967295", "4294967296", "12a", "+", " 1", "18446744073709551616"] {
        assert_eq!(parse_u32(&v(s)), s.parse::<u32>().ok(), "{s:?}");
        assert_eq!(parse_u64(&v(s)), s.parse::<u64>().ok(), "{s:?}");
    }
}

#[test]
fn sorting_agrees_with_std() {
    let names: Vec<String> =
        ["temp10", "temp2", "", "temp1", "tempé", "temp", "temp2"].iter().map(|s| s.to_string()).collect();
    let mut want = names.clone();
    want.sort();
    assert_eq!(sort_texts(&names), want);
    let pairs: Vec<(String, String)> =
        [("b", "1"), ("a", "2"), ("a", "1"), ("", "z")].iter().map(|p| (p.0.to_string(), p.1.to_string())).collect();
    let mut want = pairs.clone();
    want.sort();
    assert_eq!(sort_pairs(&pairs), want);
    let numbers = vec![3, 1, 2, 1, u32::MAX, 0];
    let mut want = numbers.clone();
    want.sort();
    assert_eq!(sort_numbers(&numbers), want);
}

#[test]
fn order_keeps_equal_keys_in_place() {
    let keys: Vec<(String, String)> =
        ["b", "a", "b", "a", ""].iter().map(|s| (s.to_string(), String::new())).collect();
    assert_eq!(order(&keys), vec![4, 1, 3, 0, 2]);
}
