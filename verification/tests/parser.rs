use parser_combinators::{ParseError, Parser};

fn chars(text: &str) -> Vec<char> {
    text.chars().collect()
}

#[test]
fn test_map() {
    let parser = Parser::one('a').map(|c: &char| c.to_string());
    assert_eq!(parser.parse(&chars("a")), Result::Ok(String::from("a")));
}

#[test]
fn test_one() {
    let parser = Parser::one('a');
    assert_eq!(parser.parse(&chars("a")), Result::Ok('a'));
    assert!(parser.parse(&chars("ab")).is_err());
    assert!(parser.parse(&chars("")).is_err());
}

#[test]
fn test_combine() {
    let parser_a = Parser::one('a');
    let parser_b = Parser::one('b');
    let parser = Parser::combine(parser_a, parser_b);
    assert_eq!(parser.parse(&chars("a")), Result::Ok('a'));
    assert_eq!(parser.parse(&chars("b")), Result::Ok('b'));
    assert!(parser.parse(&chars("c")).is_err());
    assert!(parser.parse(&chars("ab")).is_err());
    assert!(parser.parse(&chars("")).is_err());
}

#[test]
fn test_option() {
    let parser_a = Parser::one('a');
    let parser_b = Parser::one('b');
    let parser = Parser::option(parser_a, parser_b);
    assert_eq!(parser.parse(&chars("a")), Result::Ok('a'));
    assert_eq!(parser.parse(&chars("b")), Result::Ok('b'));
    assert!(parser.parse(&chars("c")).is_err());
    assert!(parser.parse(&chars("ab")).is_err());
    assert!(parser.parse(&chars("")).is_err());
}

#[test]
fn test_bind() {
    let first = Parser::one('a');
    let f = |a: char| {
        Parser::one('b').map(move |b: &char| {
            let s = a.to_string();
            s + b.to_string().as_str()
        })
    };
    let p = Parser::bind(first, f);
    assert_eq!(p.parse(&chars("ab")), Result::Ok(String::from("ab")));
}

#[test]
fn one_parses_its_token_alone() {
    let parser = Parser::one('a');
    assert_eq!(parser.parse(&chars("a")), Ok('a'));
    assert_eq!(parser.parse(&chars("ab")), Err(ParseError::IncompleteParse));
    assert_eq!(parser.parse(&chars("aa")), Err(ParseError::IncompleteParse));
    assert_eq!(parser.parse(&chars("")), Err(ParseError::NoParse));
    assert_eq!(parser.parse(&chars("b")), Err(ParseError::NoParse));
    assert_eq!(parser.parse(&chars("ba")), Err(ParseError::NoParse));
}

#[test]
fn one_works_on_any_token_type() {
    let byte = Parser::one(7u8);
    assert_eq!(byte.parse(&[7u8]), Ok(7u8));
    assert_eq!(byte.parse(&[8u8]), Err(ParseError::NoParse));
    assert_eq!(byte.parse(&[7u8, 7u8]), Err(ParseError::IncompleteParse));
    let word = Parser::one(70_000u32);
    assert_eq!(word.parse(&[70_000u32]), Ok(70_000u32));
    assert_eq!(word.parse(&[]), Err(ParseError::NoParse));
    let wide = Parser::one(1u64 << 40);
    assert_eq!(wide.parse(&[1u64 << 40]), Ok(1u64 << 40));
    let short = Parser::one(300u16);
    assert_eq!(short.parse(&[301u16]), Err(ParseError::NoParse));
    let index = Parser::one(3usize);
    assert_eq!(index.parse(&[3usize]), Ok(3usize));
}

#[test]
fn a_parser_is_run_any_number_of_times() {
    let parser = Parser::combine(Parser::one('x'), Parser::one('y'));
    for _ in 0..3 {
        assert_eq!(parser.parse(&chars("x")), Ok('x'));
        assert_eq!(parser.parse(&chars("y")), Ok('y'));
        assert_eq!(parser.parse(&chars("z")), Err(ParseError::NoParse));
    }
}

#[test]
fn map_agrees_with_mapping_the_result() {
    let double = |c: &char| (*c as u32) * 2;
    for text in ["a", "b", "", "ab", "aa"] {
        let plain = Parser::one('a').parse(&chars(text));
        let mapped = Parser::one('a').map(double).parse(&chars(text));
        assert_eq!(mapped, plain.map(|c| double(&c)));
    }
    assert_eq!(Parser::one('a').map(double).parse(&chars("a")), Ok(194));
    assert_eq!(Parser::one('a').map(double).parse(&chars("ab")), Err(ParseError::IncompleteParse));
    assert_eq!(Parser::one('a').map(double).parse(&chars("b")), Err(ParseError::NoParse));
}

#[test]
fn map_with_identity_changes_nothing() {
    for text in ["a", "b", "", "ab"] {
        let plain = Parser::combine(Parser::one('a'), Parser::one('b'));
        let mapped = Parser::combine(Parser::one('a'), Parser::one('b')).map(|c: &char| *c);
        assert_eq!(mapped.parse(&chars(text)), plain.parse(&chars(text)));
    }
}

#[test]
fn map_twice_is_map_of_the_composition() {
    let twice = Parser::one('a').map(|c: &char| *c as u32).map(|n: &u32| n + 1);
    let once = Parser::one('a').map(|c: &char| (*c as u32) + 1);
    for text in ["a", "b", "", "ab"] {
        assert_eq!(twice.parse(&chars(text)), once.parse(&chars(text)));
    }
    assert_eq!(twice.parse(&chars("a")), Ok(98));
}

#[test]
fn combine_prefers_its_first_parser() {
    let first = Parser::one('a').map(|_: &char| 1);
    let second = Parser::one('a').map(|_: &char| 2);
    let parser = Parser::combine(first, second);
    assert_eq!(parser.parse(&chars("a")), Ok(1));
    assert_eq!(parser.parse(&chars("ab")), Err(ParseError::IncompleteParse));
    assert_eq!(parser.parse(&chars("b")), Err(ParseError::NoParse));
}

#[test]
fn combine_reports_each_kind_of_failure() {
    let parser = Parser::combine(Parser::one('a'), Parser::one('b'));
    assert_eq!(parser.parse(&chars("c")), Err(ParseError::NoParse));
    assert_eq!(parser.parse(&chars("")), Err(ParseError::NoParse));
    assert_eq!(parser.parse(&chars("ab")), Err(ParseError::IncompleteParse));
    assert_eq!(parser.parse(&chars("ba")), Err(ParseError::IncompleteParse));
}

#[test]
fn option_falls_through_to_its_second_parser() {
    let parser = Parser::option(Parser::one('a'), Parser::one('b'));
    assert_eq!(parser.parse(&chars("b")), Ok('b'));
    assert_eq!(parser.parse(&chars("a")), Ok('a'));
    assert_eq!(parser.parse(&chars("c")), Err(ParseError::NoParse));
    assert_eq!(parser.parse(&chars("")), Err(ParseError::NoParse));
    assert_eq!(parser.parse(&chars("ab")), Err(ParseError::IncompleteParse));
    assert_eq!(parser.parse(&chars("ba")), Err(ParseError::IncompleteParse));
}

#[test]
fn option_prefers_its_first_parser() {
    let first = Parser::one('a').map(|_: &char| 1);
    let second = Parser::one('a').map(|_: &char| 2);
    assert_eq!(Parser::option(first, second).parse(&chars("a")), Ok(1));
}

#[test]
fn bind_runs_one_parser_after_another() {
    let pair = |a: char| Parser::one('b').map(move |b: &char| format!("{}{}", a, b));
    let parser = Parser::bind(Parser::one('a'), pair);
    assert_eq!(parser.parse(&chars("ab")), Ok(String::from("ab")));
    assert_eq!(parser.parse(&chars("a")), Err(ParseError::NoParse));
    assert_eq!(parser.parse(&chars("b")), Err(ParseError::NoParse));
    assert_eq!(parser.parse(&chars("")), Err(ParseError::NoParse));
    assert_eq!(parser.parse(&chars("ac")), Err(ParseError::NoParse));
    assert_eq!(parser.parse(&chars("abc")), Err(ParseError::IncompleteParse));
}

#[test]
fn bind_chooses_the_next_parser_by_the_value() {
    let letter = Parser::combine(Parser::one('a'), Parser::one('b'));
    let parser = Parser::bind(letter, |first: char| Parser::one(first));
    assert_eq!(parser.parse(&chars("aa")), Ok('a'));
    assert_eq!(parser.parse(&chars("bb")), Ok('b'));
    assert_eq!(parser.parse(&chars("ab")), Err(ParseError::NoParse));
    assert_eq!(parser.parse(&chars("ba")), Err(ParseError::NoParse));
    assert_eq!(parser.parse(&chars("aab")), Err(ParseError::IncompleteParse));
}

#[test]
fn bind_of_three_parsers() {
    let parser = Parser::bind(Parser::one('a'), |a: char| {
        Parser::bind(Parser::one('b'), move |b: char| {
            Parser::one('c').map(move |c: &char| format!("{}{}{}", a, b, c))
        })
    });
    assert_eq!(parser.parse(&chars("abc")), Ok(String::from("abc")));
    assert_eq!(parser.parse(&chars("ab")), Err(ParseError::NoParse));
    assert_eq!(parser.parse(&chars("abcd")), Err(ParseError::IncompleteParse));
}

#[test]
fn digit_grammar() {
    let digit = Parser::combine(
        Parser::one('0'),
        Parser::combine(
            Parser::one('1'),
            Parser::combine(
                Parser::one('2'),
                Parser::combine(
                    Parser::one('3'),
                    Parser::combine(
                        Parser::one('4'),
                        Parser::combine(
                            Parser::one('5'),
                            Parser::combine(
                                Parser::one('6'),
                                Parser::combine(
                                    Parser::one('7'),
                                    Parser::combine(Parser::one('8'), Parser::one('9')),
                                ),
                            ),
                        ),
                    ),
                ),
            ),
        ),
    );
    assert_eq!(digit.parse(&chars("5")), Ok('5'));
    assert_eq!(digit.parse(&chars("")), Err(ParseError::NoParse));
    assert_eq!(digit.parse(&chars("55")), Err(ParseError::IncompleteParse));
    for (text, value) in [("0", '0'), ("1", '1'), ("8", '8'), ("9", '9')] {
        assert_eq!(digit.parse(&chars(text)), Ok(value));
    }
    assert_eq!(digit.parse(&chars("x")), Err(ParseError::NoParse));
}
