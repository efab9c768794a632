use std::cell::Cell;

use parcos::combinators::{just, pred, repeat};
use parcos::error::Error;
use parcos::parser::Parser;
use parcos::stream::{Stream, Streamable};

#[derive(Debug, PartialEq, Clone, Copy)]
enum Tok {
    Number(u32),
    Plus,
    Minus,
}

#[test]
fn just_succeeds_on_matching_token() {
    let mut stream = Stream::new("ab".chars().collect());
    let mut errors = Vec::new();
    let (consumed, result) = just('a').parse_impl(&mut stream, &mut errors);

    assert_eq!(consumed, 1);
    assert_eq!(result.unwrap(), 'a');
    assert_eq!(stream.position(), 1);
    assert!(errors.is_empty());
}

#[test]
fn just_reports_mismatch_and_end_of_input() {
    let mut stream = Stream::new("b".chars().collect());
    let mut errors = Vec::new();
    let (consumed, result) = just('a').parse_impl(&mut stream, &mut errors);

    assert_eq!(consumed, 0);
    assert_eq!(stream.position(), 0);
    match result {
        Err(Error::Unexpected(pos, expected, found)) => {
            assert_eq!(pos, 0);
            assert_eq!(expected, vec!['a']);
            assert_eq!(found, Some('b'));
        }
        Ok(_) => panic!("expected a failure"),
    }

    let mut stream: Stream<char> = Stream::new(Vec::new());
    let (consumed, result) = just('a').parse_impl(&mut stream, &mut errors);

    assert_eq!(consumed, 0);
    match result {
        Err(Error::Unexpected(pos, expected, found)) => {
            assert_eq!(pos, 0);
            assert_eq!(expected, vec!['a']);
            assert_eq!(found, None);
        }
        Ok(_) => panic!("expected a failure"),
    }
}

#[test]
fn or_never_evaluates_second_branch_after_first_success() {
    let calls = Cell::new(0u32);
    let first = just('a');
    let second = pred(|x: &char| {
        calls.set(calls.get() + 1);
        *x == 'a'
    });
    let parser = first.or(second);
    let parsed = parser.parse("a".chars().collect());

    assert_eq!(parsed.unwrap(), 'a');
    assert_eq!(calls.get(), 0);
}

#[test]
fn or_tries_second_branch_after_uncommitted_failure() {
    let calls = Cell::new(0u32);
    let first = just('a');
    let second = pred(|x: &char| {
        calls.set(calls.get() + 1);
        *x == 'b'
    });
    let parser = first.or(second);
    let parsed = parser.parse("b".chars().collect());

    assert_eq!(parsed.unwrap(), 'b');
    assert_eq!(calls.get(), 1);
}

#[test]
fn or_merges_failures_at_equal_positions() {
    let parser = just('a').or(just('b'));
    let errs = parser.parse("c".chars().collect()).unwrap_err();

    assert_eq!(errs.len(), 1);
    match &errs[0] {
        Error::Unexpected(pos, expected, found) => {
            assert_eq!(*pos, 0);
            assert_eq!(*expected, vec!['a', 'b']);
            assert_eq!(*found, Some('c'));
        }
    }
}

#[test]
fn merge_keeps_the_furthest_failure() {
    let near: Error<char> = Error::Unexpected(0, vec!['a'], Some('x'));
    let far: Error<char> = Error::Unexpected(2, vec!['b'], None);
    match near.merge(far) {
        Error::Unexpected(pos, expected, found) => {
            assert_eq!(pos, 2);
            assert_eq!(expected, vec!['b']);
            assert_eq!(found, None);
        }
    }

    let left: Error<char> = Error::Unexpected(1, vec!['a'], None);
    let right: Error<char> = Error::Unexpected(1, vec!['b', 'c'], Some('y'));
    match left.merge(right) {
        Error::Unexpected(pos, expected, found) => {
            assert_eq!(pos, 1);
            assert_eq!(expected, vec!['a', 'b', 'c']);
            assert_eq!(found, Some('y'));
        }
    }
}

#[test]
fn repeat_never_fails_even_on_empty_input() {
    let mut stream: Stream<char> = Stream::new(Vec::new());
    let mut errors = Vec::new();
    let (consumed, result) = repeat(just('a')).parse_impl(&mut stream, &mut errors);

    assert_eq!(consumed, 0);
    assert_eq!(result.unwrap(), Vec::new());

    let mut stream = Stream::new("bbb".chars().collect());
    let (consumed, result) = repeat(just('a')).parse_impl(&mut stream, &mut errors);

    assert_eq!(consumed, 0);
    assert_eq!(result.unwrap(), Vec::new());
    assert_eq!(stream.position(), 0);
}

#[test]
fn map_and_to_preserve_consumed_and_failure() {
    let mut stream = Stream::new("x".chars().collect());
    let mut errors = Vec::new();
    let plain = pred(|x: &char| x.is_ascii_digit());
    let (consumed, result) = plain.parse_impl(&mut stream, &mut errors);
    assert_eq!(consumed, 0);
    let plain_err = result.unwrap_err();

    let mut stream = Stream::new("x".chars().collect());
    let mapped = pred(|x: &char| x.is_ascii_digit()).map(|o: char| o.to_digit(10).unwrap());
    let (consumed, result) = mapped.parse_impl(&mut stream, &mut errors);
    assert_eq!(consumed, 0);
    match (plain_err, result.unwrap_err()) {
        (Error::Unexpected(p1, e1, f1), Error::Unexpected(p2, e2, f2)) => {
            assert_eq!(p1, p2);
            assert_eq!(e1, e2);
            assert_eq!(f1, f2);
        }
    }

    let mut stream = Stream::new("1x".chars().collect());
    let fixed = pred(|x: &char| x.is_ascii_digit()).to("digit");
    let (consumed, result) = fixed.parse_impl(&mut stream, &mut errors);
    assert_eq!(consumed, 1);
    assert_eq!(result.unwrap(), "digit");
}

#[test]
fn arithmetic_token_pipeline_consumes_everything() {
    let parser = repeat(
        pred(|x: &char| x.is_ascii_digit())
            .map(|o: char| Tok::Number(o.to_digit(10).unwrap()))
            .or(just('+').to(Tok::Plus))
            .or(just('-').to(Tok::Minus)),
    );
    let mut stream = Stream::new("1+2-3".chars().collect());
    let mut errors = Vec::new();
    let (consumed, result) = parser.parse_impl(&mut stream, &mut errors);

    assert_eq!(
        result.unwrap(),
        vec![
            Tok::Number(1),
            Tok::Plus,
            Tok::Number(2),
            Tok::Minus,
            Tok::Number(3)
        ]
    );
    assert_eq!(consumed, 5);
    assert_eq!(stream.position(), 5);
}

#[test]
fn plus_or_minus_over_five_single_token_inputs() {
    let parser = just("+").or(just("-"));

    assert_eq!(parser.parse(vec!["+"]).unwrap(), "+");
    assert_eq!(parser.parse(vec!["-"]).unwrap(), "-");

    for input in ["*", "/", "wat"] {
        let errs = parser.parse(vec![input]).unwrap_err();
        assert_eq!(errs.len(), 1);
        match &errs[0] {
            Error::Unexpected(pos, expected, found) => {
                assert_eq!(*pos, 0);
                assert_eq!(*expected, vec!["+", "-"]);
                assert_eq!(*found, Some(input));
            }
        }
    }
}

#[test]
fn stream_peeks_without_advancing_and_keeps_last_position() {
    let mut stream = Stream::new("ab".chars().collect());

    assert_eq!(stream.position(), 0);
    assert_eq!(stream.peek(), Some(&'a'));
    assert_eq!(stream.position(), 0);
    assert_eq!(stream.next(), Some('a'));
    assert_eq!(stream.position(), 1);
    assert_eq!(stream.next(), Some('b'));
    assert_eq!(stream.position(), 2);
    assert_eq!(stream.peek(), None);
    assert_eq!(stream.next(), None);
    assert_eq!(stream.position(), 2);
}

#[test]
fn parse_or_recover_pairs_output_with_empty_errors() {
    let parser = just('a');
    let (output, errors) = parser.parse_or_recover("a".chars().collect());
    assert_eq!(output, Some('a'));
    assert!(errors.is_empty());

    let (output, errors) = parser.parse_or_recover("b".chars().collect());
    assert_eq!(output, None);
    assert_eq!(errors.len(), 1);
}

