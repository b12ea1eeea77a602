use rootscan::chars::{chars_of, is_whitespace, string_of, trim_bounds, without_nul};
use rootscan::queue::{
    build_list, claim, collect_domains, dedup_adjacent, extract_domain, load_queue, to_queue,
};
use std::collections::VecDeque;

fn lines(text: &[&str]) -> Vec<Option<String>> {
    text.iter().map(|l| Some(l.to_string())).collect()
}

fn strings(text: &[&str]) -> Vec<String> {
    text.iter().map(|l| l.to_string()).collect()
}

#[test]
fn adjacent_duplicates_are_reduced_before_the_shuffle() {
    let input = lines(&["a.com.\tTYPE\n", "a.com.\tTYPE\n", "b.com.\tTYPE\n"]);
    assert_eq!(build_list(&input), strings(&["a.com", "b.com"]));
}

#[test]
fn distant_duplicates_remain() {
    let input = lines(&["a.com.\tNS", "b.com.\tNS", "a.com.\tNS"]);
    assert_eq!(build_list(&input), strings(&["a.com", "b.com", "a.com"]));
}

#[test]
fn dedup_keeps_one_entry_of_each_run() {
    let list = strings(&["a", "a", "a", "b", "b", "a", "c", "c"]);
    assert_eq!(dedup_adjacent(&list), strings(&["a", "b", "a", "c"]));
    assert_eq!(dedup_adjacent(&Vec::new()), Vec::<String>::new());
    assert_eq!(dedup_adjacent(&strings(&["x"])), strings(&["x"]));
}

#[test]
fn dedup_agrees_with_the_standard_library() {
    let list = strings(&["a", "a", "b", "a", "a", "a", "", "", "b", "c", "c", "a"]);
    let mut expected = list.clone();
    expected.dedup();
    assert_eq!(dedup_adjacent(&list), expected);
}

#[test]
fn dedup_twice_is_dedup_once() {
    let list = strings(&["a", "a", "b", "b", "a"]);
    let once = dedup_adjacent(&list);
    assert_eq!(dedup_adjacent(&once), once);
}

#[test]
fn domain_is_what_stands_before_the_first_delimiter() {
    assert_eq!(extract_domain("example.com.\tIN\tNS"), Some("example.com".to_string()));
    assert_eq!(extract_domain("a.b.\tc.\td"), Some("a.b".to_string()));
    assert_eq!(extract_domain(".\t"), Some(String::new()));
    assert_eq!(extract_domain("x.\t"), Some("x".to_string()));
}

#[test]
fn line_without_delimiter_names_no_domain() {
    assert_eq!(extract_domain("example.com"), None);
    assert_eq!(extract_domain(""), None);
    assert_eq!(extract_domain("."), None);
    assert_eq!(extract_domain("\t."), None);
    assert_eq!(extract_domain("example.com. \tNS"), None);
}

#[test]
fn domain_is_trimmed() {
    assert_eq!(extract_domain("  example.com \t.\tNS"), Some("example.com".to_string()));
    assert_eq!(extract_domain("\u{a0}\u{3000}b c\u{2028}.\tNS"), Some("b c".to_string()));
    assert_eq!(extract_domain("   .\tNS"), Some(String::new()));
}

#[test]
fn extraction_agrees_with_the_standard_library() {
    for line in ["a.com.\tX", " a .\t.\t", "\t.\t", "..\t", "é.io.\tNS", "a.\u{85}.\tb"] {
        let expected = line.split_once(".\t").map(|(head, _)| head.trim().to_string());
        assert_eq!(extract_domain(line), expected, "{:?}", line);
    }
}

#[test]
fn whitespace_is_the_unicode_property() {
    let mut code = 0u32;
    while code <= 0x10FFFF {
        if let Some(c) = char::from_u32(code) {
            assert_eq!(is_whitespace(c), c.is_whitespace(), "U+{:04X}", code);
        }
        code += 1;
    }
}

#[test]
fn trim_bounds_mark_the_trimmed_part() {
    let v = chars_of("  ab c \t");
    assert_eq!(trim_bounds(&v, 0, v.len()), (2, 6));
    assert_eq!(trim_bounds(&v, 0, 2), (2, 2));
    assert_eq!(trim_bounds(&v, 3, 5), (3, 4));
    assert_eq!(string_of(&v, 2, 6), "ab c");
}

#[test]
fn chars_round_trip() {
    let v = chars_of("aé\u{1F600}z");
    assert_eq!(v, vec!['a', 'é', '\u{1F600}', 'z']);
    assert_eq!(string_of(&v, 0, 4), "aé\u{1F600}z");
    assert_eq!(string_of(&v, 1, 3), "é\u{1F600}");
    assert_eq!(string_of(&v, 2, 2), "");
}

#[test]
fn nul_is_removed() {
    assert_eq!(without_nul("a\0b\0\0c"), "abc");
    assert_eq!(without_nul("\0"), "");
    assert_eq!(without_nul("plain"), "plain");
}

#[test]
fn unreadable_and_malformed_lines_are_skipped() {
    let input = vec![
        Some("a.com.\tNS".to_string()),
        None,
        Some("no delimiter here".to_string()),
        Some("b.com.\tNS".to_string()),
        None,
    ];
    assert_eq!(collect_domains(&input), strings(&["a.com", "b.com"]));
}

#[test]
fn unreadable_line_does_not_separate_a_run() {
    let input = vec![Some("a.com.\tNS".to_string()), None, Some("a.com.\tNS".to_string())];
    assert_eq!(build_list(&input), strings(&["a.com"]));
}

#[test]
fn queue_is_a_permutation_of_the_list() {
    let mut text = Vec::new();
    for i in 0..200 {
        text.push(format!("host{}.example.\tNS", i % 150));
    }
    let input: Vec<Option<String>> = text.into_iter().map(Some).collect();
    let mut expected = build_list(&input);
    assert_eq!(expected.len(), 200);
    let queue = to_queue(input);
    let mut got: Vec<String> = queue.into_iter().collect();
    assert_eq!(got.len(), 200);
    got.sort();
    expected.sort();
    assert_eq!(got, expected);
}

#[test]
fn queue_of_distinct_domains_has_no_equal_neighbours() {
    let input: Vec<Option<String>> =
        (0..100).map(|i| Some(format!("d{}.example.\tNS", i))).collect();
    let queue: Vec<String> = to_queue(input).into_iter().collect();
    for pair in queue.windows(2) {
        assert_ne!(pair[0], pair[1]);
    }
}

#[test]
fn queue_order_is_random() {
    let input: Vec<Option<String>> =
        (0..64).map(|i| Some(format!("d{}.example.\tNS", i))).collect();
    let ordered = build_list(&input);
    let mut moved = false;
    for _ in 0..8 {
        let queue: Vec<String> = to_queue(input.clone()).into_iter().collect();
        if queue != ordered {
            moved = true;
        }
    }
    assert!(moved);
}

#[test]
fn empty_input_gives_empty_queue() {
    assert!(to_queue(Vec::new()).is_empty());
    assert!(to_queue(vec![None, Some("nothing".to_string())]).is_empty());
}

#[test]
fn load_keeps_the_order() {
    let list = strings(&["c", "a", "b"]);
    let queue = load_queue(&list);
    assert_eq!(queue, VecDeque::from(list));
}

#[test]
fn claim_takes_the_front_once() {
    let mut queue = load_queue(&strings(&["one", "two"]));
    assert_eq!(claim(&mut queue), Some("one".to_string()));
    assert_eq!(queue.len(), 1);
    assert_eq!(claim(&mut queue), Some("two".to_string()));
    assert_eq!(claim(&mut queue), None);
    assert_eq!(claim(&mut queue), None);
    assert!(queue.is_empty());
}
