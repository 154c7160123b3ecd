use composition::render::{decimal_text, render, render_values};
use composition::{construct, to_string, Operation};
use std::fmt;

#[test]
fn render_joins_parts_net_and_count() {
    let parts = vec!["1".to_string(), "2".to_string(), "1".to_string()];
    assert_eq!(render(&parts, "4"), "[1, 2, 1] of 4 with 3 parts");
}

#[test]
fn render_of_one_part_has_no_comma() {
    assert_eq!(render(&vec!["x".to_string()], "y"), "[x] of y with 1 parts");
}

#[test]
fn render_of_no_parts() {
    assert_eq!(render(&Vec::new(), "nothing"), "[] of nothing with 0 parts");
}

#[test]
fn render_takes_the_texts_as_they_are() {
    let parts = vec!["".to_string(), ", ".to_string(), "[a]".to_string()];
    assert_eq!(render(&parts, ""), "[, , , [a]] of  with 3 parts");
}

#[test]
fn render_counts_in_decimal() {
    let parts: Vec<String> = (0..105).map(|_| "p".to_string()).collect();
    let text = render(&parts, "n");
    assert!(text.starts_with("[p, p, p, "));
    assert!(text.ends_with("p, p] of n with 105 parts"));
    assert_eq!(text.len(), 1 + 105 + 2 * 104 + "] of n with 105 parts".len());
}

#[test]
fn decimal_text_of_small_and_large_numbers() {
    assert_eq!(decimal_text(0), "0");
    assert_eq!(decimal_text(7), "7");
    assert_eq!(decimal_text(9), "9");
    assert_eq!(decimal_text(10), "10");
    assert_eq!(decimal_text(99), "99");
    assert_eq!(decimal_text(100), "100");
    assert_eq!(decimal_text(1234567890), "1234567890");
    assert_eq!(decimal_text(usize::MAX), usize::MAX.to_string());
}

struct Shown(u8);

impl fmt::Debug for Shown {
    fn fmt(&self, f: &mut fmt::Formatter) -> fmt::Result {
        f.write_str(&format!("part<{}>", self.0))
    }
}

impl fmt::Display for Shown {
    fn fmt(&self, f: &mut fmt::Formatter) -> fmt::Result {
        f.write_str(&format!("net<{}>", self.0))
    }
}

impl Clone for Shown {
    fn clone(&self) -> Shown {
        Shown(self.0)
    }
}

#[test]
fn to_string_shows_parts_for_debugging_and_displays_the_net() {
    let add = Operation { tag: 0, fun: |a: Shown, b: Shown| Shown(a.0 + b.0) };
    let c = construct(vec![Shown(1), Shown(2)], Shown(0), add, false);
    assert_eq!(to_string(&c), "[part<1>, part<2>] of net<3> with 2 parts");
}

#[test]
fn to_string_of_characters() {
    let later = Operation { tag: 4, fun: |a: char, b: char| if a > b { a } else { b } };
    let c = construct(vec!['b', 'z', 'a'], 'a', later, true);
    assert_eq!(to_string(&c), "['b', 'z', 'a'] of z with 3 parts");
}

#[test]
fn render_values_formats_each_part_and_the_net() {
    assert_eq!(render_values(&vec![1u8, 2, 1], &4u8), "[1, 2, 1] of 4 with 3 parts");
    assert_eq!(
        render_values(&vec!["a b".to_string(), "\"".to_string()], &"a b\"".to_string()),
        "[\"a b\", \"\\\"\"] of a b\" with 2 parts"
    );
    assert_eq!(render_values(&Vec::<i64>::new(), &-3i64), "[] of -3 with 0 parts");
    assert_eq!(
        render_values(&vec![Shown(7)], &Shown(9)),
        "[part<7>] of net<9> with 1 parts"
    );
}
