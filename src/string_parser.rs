//! Terminal matchers on text: a fixed literal and an anchored pattern.
use crate::parser::{AndLeftParser, AndRightParser, ParseResult, Parser};
use regex::Regex;
use vstd::prelude::*;
use vstd::string::StringExecFns;

verus! {

#[verifier::external_type_specification]
#[verifier::external_body]
pub struct ExRegex(regex::Regex);

/// Relies on `str::strip_prefix`: `Some` of what follows `prefix` exactly
/// when `s` starts with `prefix`.
#[verifier::external_body]
fn strip_literal<'a>(s: &'a str, prefix: &str) -> (r: Option<&'a str>)
    ensures
        match r {
            Some(rest) => prefix@.is_prefix_of(s@) && rest@ == s@.skip(prefix@.len() as int),
            None => !prefix@.is_prefix_of(s@),
        },
{
    s.strip_prefix(prefix)
}

/// Matches a fixed text at the start of the input.
pub struct LiteralParser {
    pub literal: String,
}

impl Parser<String, String> for LiteralParser {
    open spec fn wf(&self) -> bool {
        true
    }

    /// Succeeds with the literal itself and what follows it.
    open spec fn accepts(&self, input: Seq<char>, out: String, rest: Seq<char>) -> bool {
        &&& self.literal@.is_prefix_of(input)
        &&& out == self.literal
        &&& rest == input.skip(self.literal@.len() as int)
    }

    /// Fails exactly where the input does not start with the literal.
    open spec fn rejects(&self, input: Seq<char>) -> bool {
        !self.literal@.is_prefix_of(input)
    }

    open spec fn fails_with(&self, input: Seq<char>, e: String) -> bool {
        self.rejects(input) && e@ == "LiteralParser: No Match"@
    }

    fn parse<'a>(&self, input: &'a str) -> (r: ParseResult<&'a str, String, String>) {
        match strip_literal(input, self.literal.as_str()) {
            Some(remain) => {
                proof {
                    assert(remain@ =~= input@.skip(input@.len() - remain@.len()));
                }
                Ok((self.literal.clone(), remain))
            },
            None => Err("LiteralParser: No Match".to_owned()),
        }
    }
}

/// The first match that the regular-expression engine finds for `pattern`
/// in `input`, as the character offsets of its start and end.
pub uninterp spec fn find_of(pattern: Seq<char>, input: Seq<char>) -> Option<(nat, nat)>;

/// A compiled regular expression together with the text it was compiled from.
pub struct CompiledPattern {
    re: Regex,
    src: Ghost<Seq<char>>,
}

impl CompiledPattern {
    /// The text the expression was compiled from.
    pub closed spec fn src(&self) -> Seq<char> {
        self.src@
    }
}

/// Relies on `Regex::new`: compiles a pattern, or gives the compiler's
/// message for one it refuses.
#[verifier::external_body]
fn regex_new(pattern: &str) -> (r: Result<Regex, String>) {
    match Regex::new(pattern) {
        Ok(re) => Ok(re),
        Err(e) => Err(e.to_string()),
    }
}

/// Compiles `pattern`, keeping its text.
fn compile(pattern: &str) -> (r: Result<CompiledPattern, String>)
    ensures
        r matches Ok(c) ==> c.src() == pattern@,
{
    match regex_new(pattern) {
        Ok(re) => Ok(CompiledPattern { re, src: Ghost(pattern@) }),
        Err(msg) => Err(msg),
    }
}

/// Relies on `Regex::find`: the engine's first match of the pattern in
/// `input`, as the text before it, the match and the text after it.
#[verifier::external_body]
fn find_match<'a>(c: &CompiledPattern, input: &'a str) -> (r: Option<(&'a str, &'a str, &'a str)>)
    ensures
        match r {
            None => find_of(c.src(), input@) is None,
            Some((pre, m, post)) => {
                &&& pre@ + m@ + post@ == input@
                &&& find_of(c.src(), input@) == Some((pre@.len(), pre@.len() + m@.len()))
            },
        },
{
    match c.re.find(input) {
        None => None,
        Some(m) => Some((&input[..m.start()], m.as_str(), &input[m.end()..])),
    }
}

/// Matches a regular expression at the start of the input: succeeds where the
/// engine's first match starts at the first character, with the matched text.
/// A pattern that did not compile gives a matcher that always fails, with the
/// compiler's message.
pub struct RegexParser {
    pub re: Result<CompiledPattern, String>,
}

impl Parser<String, String> for RegexParser {
    open spec fn wf(&self) -> bool {
        true
    }

    open spec fn accepts(&self, input: Seq<char>, out: String, rest: Seq<char>) -> bool {
        match self.re {
            Ok(c) => match find_of(c.src(), input) {
                Some((s, e)) => {
                    &&& s == 0
                    &&& e <= input.len()
                    &&& out@ == input.take(e as int)
                    &&& rest == input.skip(e as int)
                },
                None => false,
            },
            Err(_) => false,
        }
    }

    /// Fails where the pattern did not compile or the engine finds no match
    /// at the first character.
    open spec fn rejects(&self, input: Seq<char>) -> bool {
        match self.re {
            Ok(c) => match find_of(c.src(), input) {
                Some((s, _)) => s != 0,
                None => true,
            },
            Err(_) => true,
        }
    }

    open spec fn fails_with(&self, input: Seq<char>, e: String) -> bool {
        match self.re {
            Ok(_) => self.rejects(input) && e@ == "RegexParser: No Match"@,
            Err(msg) => e == msg,
        }
    }

    fn parse<'a>(&self, input: &'a str) -> (r: ParseResult<&'a str, String, String>) {
        match &self.re {
            Err(msg) => Err(msg.clone()),
            Ok(c) => match find_match(c, input) {
                Some((pre, m, post)) => {
                    if pre.is_empty() {
                        let out = m.to_owned();
                        proof {
                            assert(pre@ + m@ =~= m@);
                            assert(input@.take(m@.len() as int) =~= m@);
                            assert(input@.skip(m@.len() as int) =~= post@);
                            assert(post@ =~= input@.skip(input@.len() - post@.len()));
                        }
                        Ok((out, post))
                    } else {
                        Err("RegexParser: No Match".to_owned())
                    }
                },
                None => Err("RegexParser: No Match".to_owned()),
            },
        }
    }
}

/// A matcher for the literal `s`.
pub fn lit(s: &str) -> (r: LiteralParser)
    ensures
        r.literal@ == s@,
{
    LiteralParser { literal: s.to_owned() }
}

/// A matcher for the pattern `re`, anchored at the start of the input.
pub fn reg(re: &str) -> (r: RegexParser)
    ensures
        (r.re matches Ok(c) ==> c.src() == seq!['^'] + re@),
{
    proof {
        reveal_strlit("^");
    }
    let re_pattern = "^".to_owned().concat(re);
    RegexParser { re: compile(re_pattern.as_str()) }
}

/// The pattern of `spaces`: any run of whitespace at the start.
pub open spec fn whitespace_pattern() -> Seq<char> {
    seq!['^', '(', '\\', 's', ')', '*']
}

/// Skips any whitespace, possibly none.
pub fn spaces() -> (r: RegexParser)
    ensures
        (r.re matches Ok(c) ==> c.src() == whitespace_pattern()),
{
    proof {
        reveal_strlit("(\\s)*");
    }
    let r = reg("(\\s)*");
    proof {
        if r.re is Ok {
            assert(r.re->Ok_0.src() =~= whitespace_pattern());
        }
    }
    r
}

/// What is left of `input` once the engine's match of the whitespace pattern
/// at its start is skipped; `None` where there is no such match.
pub open spec fn after_whitespace(input: Seq<char>) -> Option<Seq<char>> {
    match find_of(whitespace_pattern(), input) {
        Some((s, e)) => if s == 0 && e <= input.len() {
            Some(input.skip(e as int))
        } else {
            None
        },
        None => None,
    }
}

/// The literal `s`, with any whitespace around it skipped.
pub fn lit_sp(s: &str) -> (r: AndLeftParser<
    AndRightParser<RegexParser, LiteralParser, String>,
    RegexParser,
    String,
>)
    ensures
        r.parser.p1.parser.p2.literal@ == s@,
        (r.parser.p1.parser.p1.re matches Ok(c) ==> c.src() == whitespace_pattern()),
        (r.parser.p2.re matches Ok(c) ==> c.src() == whitespace_pattern()),
        r.wf(),
        forall|input: Seq<char>, out: String, rest: Seq<char>|
            #[trigger] r.accepts(input, out, rest) ==> {
                &&& out@ == s@
                &&& after_whitespace(input) matches Some(a)
                &&& s@.is_prefix_of(a)
                &&& after_whitespace(a.skip(s@.len() as int)) == Some(rest)
            },
{
    let r = spaces().and_r(lit(s)).and_l(spaces());
    proof {
        assert forall|input: Seq<char>, out: String, rest: Seq<char>|
            #[trigger] r.accepts(input, out, rest) implies {
                &&& out@ == s@
                &&& after_whitespace(input) matches Some(a)
                &&& s@.is_prefix_of(a)
                &&& after_whitespace(a.skip(s@.len() as int)) == Some(rest)
            } by {
            let ws2 = choose|w: String| r.parser.accepts(input, (out, w), rest);
            let m = choose|m: Seq<char>|
                r.parser.p1.accepts(input, out, m) && r.parser.p2.accepts(m, ws2, rest);
            let ws1 = choose|w: String| r.parser.p1.parser.accepts(input, (w, out), m);
            let a = choose|a: Seq<char>|
                r.parser.p1.parser.p1.accepts(input, ws1, a) && r.parser.p1.parser.p2.accepts(
                    a,
                    out,
                    m,
                );
            assert(after_whitespace(input) == Some(a));
            assert(after_whitespace(m) == Some(rest));
        }
    }
    r
}

} // verus!
