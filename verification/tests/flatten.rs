use wgsl_inline::source::Sourcecode;
use wgsl_inline::token::{Delimiter, Token};

fn leaf(text: &str, location: u32) -> Token<u32> {
    Token::Leaf { text: text.to_string(), location }
}

fn group(delimiter: Delimiter, open: u32, close: u32, children: Vec<Token<u32>>) -> Token<u32> {
    Token::Group { delimiter, open, close, children }
}

fn records(source: &Sourcecode<u32>) -> Vec<(usize, usize, u32)> {
    let index = source.spans();
    let mut out = Vec::new();
    for i in 0..index.len() {
        let r = index.get(i).expect("within the table");
        out.push((r.start, r.end, r.location));
    }
    out
}

fn flatten(tokens: Vec<Token<u32>>) -> Sourcecode<u32> {
    let mut source = Sourcecode::new();
    source.append_tokens(&tokens);
    source
}

#[test]
fn new_accumulator_is_empty() {
    let source: Sourcecode<u32> = Sourcecode::new();
    assert_eq!(source.text(), "");
    assert_eq!(source.spans().len(), 0);
    assert!(source.errors().is_empty());
}

#[test]
fn path_takes_no_spaces() {
    let source = flatten(vec![leaf("a", 1), leaf("::", 2), leaf("b", 3)]);
    assert_eq!(source.text(), "a::b");
    assert_eq!(records(&source), vec![(0, 1, 1), (1, 3, 2), (3, 4, 3)]);
}

#[test]
fn arrow_in_two_tokens_stays_an_arrow() {
    let source = flatten(vec![leaf("-", 1), leaf(">", 2)]);
    assert_eq!(source.text(), "->");
    assert_eq!(records(&source), vec![(0, 1, 1), (1, 2, 2)]);
}

#[test]
fn two_identifiers_are_kept_apart() {
    let source = flatten(vec![leaf("foo", 1), leaf("bar", 2)]);
    assert_eq!(source.text(), "foo bar");
    // the space between them belongs to neither record
    assert_eq!(records(&source), vec![(0, 3, 1), (4, 7, 2)]);
}

#[test]
fn braces_are_anchored_at_the_group() {
    let tokens = vec![group(
        Delimiter::Brace,
        10,
        20,
        vec![leaf("x", 1), leaf(",", 2), leaf("y", 3)],
    )];
    let source = flatten(tokens);
    assert_eq!(source.text(), "{x,y}");
    assert_eq!(records(&source), vec![(0, 1, 10), (1, 2, 1), (2, 3, 2), (3, 4, 3), (4, 5, 20)]);
}

#[test]
fn each_delimiter_writes_its_own_brackets() {
    let source = flatten(vec![
        group(Delimiter::Parenthesis, 1, 2, vec![]),
        group(Delimiter::Bracket, 3, 4, vec![]),
        group(Delimiter::Brace, 5, 6, vec![]),
    ]);
    assert_eq!(source.text(), "()[]{}");
    assert_eq!(
        records(&source),
        vec![(0, 1, 1), (1, 2, 2), (2, 3, 3), (3, 4, 4), (4, 5, 5), (5, 6, 6)]
    );
}

#[test]
fn group_without_brackets_writes_its_children_alone() {
    let source = flatten(vec![
        leaf("a", 1),
        group(Delimiter::Transparent, 8, 9, vec![leaf("b", 2), leaf("c", 3)]),
        leaf("d", 4),
    ]);
    assert_eq!(source.text(), "a b c d");
    assert_eq!(records(&source), vec![(0, 1, 1), (2, 3, 2), (4, 5, 3), (6, 7, 4)]);
}

#[test]
fn nested_groups_are_written_depth_first() {
    let inner = group(Delimiter::Bracket, 5, 6, vec![leaf("i", 7)]);
    let outer = group(Delimiter::Parenthesis, 1, 2, vec![leaf("v", 3), inner, leaf("w", 4)]);
    let source = flatten(vec![leaf("f", 0), outer, leaf(";", 9)]);
    assert_eq!(source.text(), "f(v[i]w);");
    assert_eq!(
        records(&source),
        vec![
            (0, 1, 0),
            (1, 2, 1),
            (2, 3, 3),
            (3, 4, 5),
            (4, 5, 7),
            (5, 6, 6),
            (6, 7, 4),
            (7, 8, 2),
            (8, 9, 9),
        ]
    );
}

#[test]
fn token_without_text_is_skipped() {
    let source = flatten(vec![leaf("a", 1), leaf("", 2), leaf("b", 3)]);
    assert_eq!(source.text(), "a b");
    assert_eq!(records(&source), vec![(0, 1, 1), (2, 3, 3)]);
}

#[test]
fn only_tokens_without_text_write_nothing() {
    let source = flatten(vec![leaf("", 1), leaf("", 2)]);
    assert_eq!(source.text(), "");
    assert!(records(&source).is_empty());
}

#[test]
fn first_token_never_gets_a_space() {
    let source = flatten(vec![leaf("foo", 1)]);
    assert_eq!(source.text(), "foo");
    assert_eq!(records(&source), vec![(0, 3, 1)]);
}

#[test]
fn offsets_count_bytes() {
    // two letters of two bytes each, then one of three
    let source = flatten(vec![leaf("\u{e9}\u{e9}", 1), leaf("\u{20ac}", 2), leaf("x", 3)]);
    assert_eq!(source.text(), "\u{e9}\u{e9} \u{20ac} x");
    assert_eq!(records(&source), vec![(0, 4, 1), (5, 8, 2), (9, 10, 3)]);
}

#[test]
fn spacing_looks_at_the_last_and_first_characters() {
    let source = flatten(vec![leaf("a+", 1), leaf("+b", 2), leaf("c!", 3), leaf("=d", 4)]);
    assert_eq!(source.text(), "a++b c!=d");
    assert_eq!(records(&source), vec![(0, 2, 1), (2, 4, 2), (5, 7, 3), (7, 9, 4)]);
}

#[test]
fn push_token_by_hand_matches_append_tokens() {
    let mut by_hand: Sourcecode<u32> = Sourcecode::new();
    by_hand.push_token("let", 1);
    by_hand.push_token("x", 2);
    by_hand.push_token("=", 3);
    by_hand.push_token("1", 4);
    by_hand.push_token(";", 5);
    let source =
        flatten(vec![leaf("let", 1), leaf("x", 2), leaf("=", 3), leaf("1", 4), leaf(";", 5)]);
    assert_eq!(by_hand.text(), "let x=1;");
    assert_eq!(by_hand.text(), source.text());
    assert_eq!(records(&by_hand), records(&source));
}

#[test]
fn every_record_bounds_the_text_of_its_token() {
    let texts = ["struct", "S", "{", "a", ":", "f32", ",", "", "b", ":", "u32", "}"];
    let tokens: Vec<Token<u32>> =
        texts.iter().enumerate().map(|(i, t)| leaf(t, i as u32)).collect();
    let source = flatten(tokens);
    let with_text: Vec<(usize, &str)> =
        texts.iter().enumerate().filter(|(_, t)| !t.is_empty()).map(|(i, t)| (i, *t)).collect();
    let got = records(&source);
    assert_eq!(got.len(), with_text.len());
    let mut previous_end = 0;
    for ((start, end, location), (i, text)) in got.iter().zip(with_text.iter()) {
        assert_eq!(&source.text()[*start..*end], *text);
        assert_eq!(*location, *i as u32);
        assert!(start < end);
        assert!(previous_end <= *start);
        previous_end = *end;
    }
    assert_eq!(source.text(), "struct S{a:f32,b:u32}");
}

#[test]
fn flattening_twice_gives_the_same_bytes() {
    let make = |base: u32| {
        vec![
            leaf("fn", base),
            leaf("main", base + 1),
            group(Delimiter::Parenthesis, base + 2, base + 3, vec![]),
            leaf("-", base + 4),
            leaf(">", base + 5),
            leaf("f32", base + 6),
            group(
                Delimiter::Brace,
                base + 7,
                base + 8,
                vec![leaf("return", base + 9), leaf("1.0", base + 10), leaf(";", base + 11)],
            ),
        ]
    };
    let first = flatten(make(0));
    let second = flatten(make(100));
    assert_eq!(first.text(), "fn main()->f32{return 1.0;}");
    assert_eq!(first.text().as_bytes(), second.text().as_bytes());
    let a: Vec<(usize, usize)> = records(&first).iter().map(|r| (r.0, r.1)).collect();
    let b: Vec<(usize, usize)> = records(&second).iter().map(|r| (r.0, r.1)).collect();
    assert_eq!(a, b);
}

#[test]
fn appending_in_two_steps_is_appending_at_once() {
    let mut stepwise: Sourcecode<u32> = Sourcecode::new();
    stepwise.append_tokens(&vec![leaf("a", 1), leaf("b", 2)]);
    stepwise.append_tokens(&vec![leaf("c", 3)]);
    let at_once = flatten(vec![leaf("a", 1), leaf("b", 2), leaf("c", 3)]);
    assert_eq!(stepwise.text(), "a b c");
    assert_eq!(stepwise.text(), at_once.text());
    assert_eq!(records(&stepwise), records(&at_once));
}
