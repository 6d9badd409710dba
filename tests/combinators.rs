use parcomb::parser::{lst_sep, lst_sep_empt, parse, ParseResult, Parser, RcParser};
use parcomb::string_parser::{lit, lit_sp, reg, spaces};
use std::str::FromStr;

fn never(_input: &str) -> ParseResult<&str, String, String> {
    Err("never".to_string())
}

#[test]
fn literal_consumes_exactly_its_text() {
    let par = lit("abc");
    assert_eq!(Ok(("abc".to_string(), "def")), par.parse("abcdef"));
    assert_eq!(Ok(("abc".to_string(), "")), par.parse("abc"));
    assert_eq!(Err("LiteralParser: No Match".to_string()), par.parse("abxdef"));
    assert!(par.parse("ab").is_err());
    assert!(par.parse("").is_err());
}

#[test]
fn literal_handles_multibyte_text() {
    let par = lit("→é");
    assert_eq!(Ok(("→é".to_string(), "ü!")), par.parse("→éü!"));
    assert!(par.parse("→e").is_err());
}

#[test]
fn empty_literal_consumes_nothing() {
    let par = lit("");
    assert_eq!(Ok(("".to_string(), "xyz")), par.parse("xyz"));
}

#[test]
fn regex_matches_only_at_start() {
    let par = reg(r"\d{2}\w+");
    assert_eq!(Ok(("19abcd".to_string(), "$$")), par.parse("19abcd$$"));
    assert_eq!(Err("RegexParser: No Match".to_string()), par.parse("ccc19abcd$$"));
}

#[test]
fn regex_with_bad_pattern_always_fails() {
    let par = reg("(");
    let res = par.parse("(((");
    assert!(res.is_err());
    assert_ne!(Err("RegexParser: No Match".to_string()), res);
}

#[test]
fn and_keeps_both_values() {
    let par = lit("ab").and(lit("cd"));
    assert_eq!(
        Ok((("ab".to_string(), "cd".to_string()), "e")),
        par.parse("abcde")
    );
    assert!(par.parse("abxx").is_err());
    assert!(par.parse("xxcd").is_err());
}

#[test]
fn and_l_keeps_left() {
    let par = lit("abc").and_l(lit("def"));
    assert_eq!(Ok(("abc".to_string(), "g")), par.parse("abcdefg"));
    assert!(par.parse("xxxx").is_err());
}

#[test]
fn and_r_keeps_right() {
    let par = lit("abc").and_r(lit("def"));
    assert_eq!(Ok(("def".to_string(), "g")), par.parse("abcdefg"));
    assert!(par.parse("xxxx").is_err());
}

#[test]
fn or_after_failing_first_is_second() {
    let par = never.or(lit("ab"));
    assert_eq!(Ok(("ab".to_string(), "c")), par.parse("abc"));
    assert_eq!(lit("ab").parse("xyz"), par.parse("xyz"));
}

#[test]
fn or_prefers_first_alternative() {
    let par = lit("a").or(lit("ab"));
    assert_eq!(Ok(("a".to_string(), "bc")), par.parse("abc"));
    let par2 = lit("ab").or(lit("a"));
    assert_eq!(Ok(("ab".to_string(), "c")), par2.parse("abc"));
}

#[test]
fn or_reports_second_failure() {
    let par = lit("a").or(never);
    assert_eq!(Err("never".to_string()), par.parse("b"));
}

#[test]
fn repeat_collects_in_order() {
    let par = lit("a").or(lit("b")).repeat();
    assert_eq!(
        Ok((vec!["a".to_string(), "b".to_string(), "a".to_string()], "c")),
        par.parse("abac")
    );
}

#[test]
fn repeat_without_match_is_empty() {
    let inp = "xyz";
    let res = lit("a").repeat().parse(inp).unwrap();
    assert!(res.0.is_empty());
    assert_eq!(inp, res.1);
    assert!(std::ptr::eq(inp, res.1));
    assert_eq!(
        Err("LiteralParser: No Match".to_string()),
        lit("a").repeat1().parse(inp)
    );
}

#[test]
fn repeat1_with_matches() {
    let par = lit("a").repeat1();
    assert_eq!(Ok((vec!["a".to_string(), "a".to_string()], "b")), par.parse("aab"));
}

#[test]
fn repeat_stops_only_where_child_fails() {
    let par = lit("ab").repeat();
    let (vs, rest) = par.parse("ababa").unwrap();
    assert_eq!(vec!["ab".to_string(), "ab".to_string()], vs);
    assert_eq!("a", rest);
    assert!(lit("ab").parse(rest).is_err());
}

#[test]
fn errors_pass_through_unchanged() {
    assert_eq!(Err("never".to_string()), never.map(|s| s.len()).parse("x"));
    assert_eq!(Err("never".to_string()), lit("x").and(never).parse("xy"));
    assert_eq!(Err("never".to_string()), never.and(lit("x")).parse("xy"));
    assert_eq!(Err("never".to_string()), lit("x").and_l(never).parse("xy"));
    assert_eq!(Err("never".to_string()), lit("x").and_r(never).parse("xy"));
    assert_eq!(Err("never".to_string()), never.skip().parse("xy"));
    assert_eq!(Err("never".to_string()), never.rc().parse("xy"));
    assert_eq!(Err("never".to_string()), lst_sep(never, lit(",")).parse("xy"));
}

#[test]
fn regex_first_match_must_start_input() {
    let par = reg("a|b");
    assert_eq!(Ok(("a".to_string(), "b")), par.parse("ab"));
    assert_eq!(Err("RegexParser: No Match".to_string()), par.parse("xb"));
    assert_eq!(Err("RegexParser: No Match".to_string()), reg("b").parse("xb"));
}

#[test]
fn opt_present_and_absent() {
    let par = lit("abc").opt();
    assert_eq!(Ok((Some("abc".to_string()), "d")), par.parse("abcd"));
    let inp = "xxxx";
    let res = par.parse(inp).unwrap();
    assert_eq!((None, "xxxx"), res);
    assert!(std::ptr::eq(inp, res.1));
}

#[test]
fn skip_drops_value() {
    let par = lit("abc").skip();
    assert_eq!(Ok(((), "d")), par.parse("abcd"));
    assert!(par.parse("xxxx").is_err());
}

#[test]
fn map_applies_function() {
    let par = reg(r"\d+").map(|s| s.len());
    assert_eq!(Ok((3, "x")), par.parse("123x"));
    assert!(par.parse("x").is_err());
}

#[test]
fn rc_handles_share_the_parser() {
    let shared = lit("ab").rc();
    let other = shared.clone();
    assert_eq!(Ok(("ab".to_string(), "c")), shared.parse("abc"));
    assert_eq!(Ok(("ab".to_string(), "c")), other.parse("abc"));
    let made = RcParser::new(lit("x"));
    assert_eq!(Ok(("x".to_string(), "y")), made.clone().parse("xy"));
}

#[test]
fn parse_entry_point() {
    assert_eq!(Ok(("ab".to_string(), "c")), parse(lit("ab"), "abc"));
    assert!(parse(lit("ab"), "c").is_err());
}

#[test]
fn list_sep_minimum_cardinality() {
    let par = lst_sep(lit("a"), lit(","));
    let res = par.parse("a,a,a)))").unwrap();
    assert_eq!(vec!["a", "a", "a"], res.0);
    assert_eq!(")))", res.1);

    let res2 = par.parse("a)))").unwrap();
    assert_eq!(vec!["a"], res2.0);
    assert_eq!(")))", res2.1);

    assert!(par.parse("b)))").is_err());
}

#[test]
fn list_sep_stops_before_dangling_separator() {
    let par = lst_sep(lit("a"), lit(","));
    let res = par.parse("a,a,b").unwrap();
    assert_eq!(vec!["a", "a"], res.0);
    assert_eq!(",b", res.1);
}

#[test]
fn list_sep_or_empty() {
    let par = lst_sep_empt(lit("a"), lit(","));
    let res = par.parse("a,a,a)))").unwrap();
    assert_eq!(vec!["a", "a", "a"], res.0);
    assert_eq!(")))", res.1);

    let res2 = par.parse("a)))").unwrap();
    assert_eq!(vec!["a"], res2.0);
    assert_eq!(")))", res2.1);

    let res3 = par.parse("b)))").unwrap();
    assert_eq!(Vec::<String>::new(), res3.0);
    assert_eq!("b)))", res3.1);
}

#[test]
fn spaces_skipping_is_idempotent() {
    let sp = spaces();
    for inp in [" \t\n x y", "x", "", "   "] {
        let (first, rest) = sp.parse(inp).unwrap();
        let (second, rest2) = sp.parse(rest).unwrap();
        assert_eq!("", second);
        assert_eq!(rest, rest2);
        assert_eq!(inp, format!("{first}{rest}"));
    }
}

#[test]
fn lit_sp_skips_surrounding_whitespace() {
    let par = lit_sp(",");
    assert_eq!(Ok((",".to_string(), "x")), par.parse("  ,\t x"));
    assert_eq!(Ok((",".to_string(), "")), par.parse(","));
    assert!(par.parse(" ;").is_err());
}

#[derive(Debug, PartialEq)]
enum Value {
    Bool(bool),
    Number(f64),
    Null,
    Array(Vec<Value>),
}

fn number_p(input: &str) -> ParseResult<&str, Value, String> {
    let ptn = r"-?(0|([123456789]\d*))(\.\d+)?([eE][\+-]\d+)?";
    reg(ptn)
        .map(|s| Value::Number(f64::from_str(&s).unwrap()))
        .parse(input)
}

fn array_p(input: &str) -> ParseResult<&str, Value, String> {
    lit_sp("[")
        .and_r(lst_sep_empt(value_p, lit_sp(",")))
        .and_l(lit_sp("]"))
        .map(Value::Array)
        .parse(input)
}

fn value_p(input: &str) -> ParseResult<&str, Value, String> {
    lit("null")
        .map(|_| Value::Null)
        .or(lit("true").map(|_| Value::Bool(true)))
        .or(lit("false").map(|_| Value::Bool(false)))
        .or(number_p)
        .or(array_p)
        .parse(input)
}

#[test]
fn recursive_grammar_parses_container() {
    let res = value_p("[false,99,true,32,1.321,null]");
    assert_eq!(
        Ok((
            Value::Array(vec![
                Value::Bool(false),
                Value::Number(99.0),
                Value::Bool(true),
                Value::Number(32.0),
                Value::Number(1.321),
                Value::Null,
            ]),
            ""
        )),
        res
    );
}

#[test]
fn recursive_grammar_nests() {
    let res = value_p("[ [true], [], null ]");
    assert_eq!(
        Ok((
            Value::Array(vec![
                Value::Array(vec![Value::Bool(true)]),
                Value::Array(vec![]),
                Value::Null,
            ]),
            ""
        )),
        res
    );
}

#[test]
fn recursive_grammar_rejects_empty_element() {
    let res = value_p("[false,,true]");
    assert!(match res {
        Err(_) => true,
        Ok((_, rest)) => !rest.is_empty(),
    });
}
