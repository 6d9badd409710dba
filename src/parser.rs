//! The `Parser` capability and the combinators that compose it.
use std::marker::PhantomData;
use std::rc::Rc;
use vstd::prelude::*;

verus! {

/// What a parse step gives: the value and the remaining input, or an error.
pub type ParseResult<I, O, E = String> = Result<(O, I), E>;

/// `rest` is what is left of `input` once a prefix of it has been consumed.
pub open spec fn is_suffix(rest: Seq<char>, input: Seq<char>) -> bool {
    rest.len() <= input.len() && rest == input.skip(input.len() - rest.len())
}

/// A suffix of a suffix of `s` is a suffix of `s`.
pub proof fn lemma_suffix_trans(a: Seq<char>, b: Seq<char>, s: Seq<char>)
    requires
        is_suffix(a, b),
        is_suffix(b, s),
    ensures
        is_suffix(a, s),
{
    assert(a =~= s.skip(s.len() - a.len()));
}

/// Every text is a suffix of itself.
pub proof fn lemma_suffix_refl(s: Seq<char>)
    ensures
        is_suffix(s, s),
{
    assert(s.skip(0) =~= s);
}

/// A capability that consumes a prefix of a text and yields a value.
///
/// Its behaviour is given by two relations over the text's characters:
/// `accepts(input, out, rest)` holds of each success `(out, rest)` it may
/// report on `input`, and `rejects(input)` of each input on which it may fail.
pub trait Parser<O, E> {
    /// The parser and all the parsers it is built from can be run.
    spec fn wf(&self) -> bool;

    /// `out` with remaining input `rest` is an outcome of a run on `input`.
    spec fn accepts(&self, input: Seq<char>, out: O, rest: Seq<char>) -> bool;

    /// A run on `input` may fail.
    spec fn rejects(&self, input: Seq<char>) -> bool;

    /// A run on `input` may fail with the error `e`.
    spec fn fails_with(&self, input: Seq<char>, e: E) -> bool;

    /// Runs the parser on `input`.
    fn parse<'a>(&self, input: &'a str) -> (r: ParseResult<&'a str, O, E>)
        requires
            self.wf(),
        ensures
            match r {
                Ok((out, rest)) => self.accepts(input@, out, rest@) && is_suffix(rest@, input@),
                Err(e) => self.rejects(input@) && self.fails_with(input@, e),
            },
    ;

    /// Wraps `self` in a shared handle that can be cloned.
    fn rc(self) -> (r: RcParser<Self>) where Self: Sized
        ensures
            *r.parser == self,
    {
        RcParser { parser: Rc::new(self) }
    }

    /// Applies `f` to the value of each success.
    fn map<F, O1>(self, f: F) -> (r: MapParser<Self, F, O>) where Self: Sized, F: Fn(O) -> O1
        ensures
            r.parser == self,
            r.mapper == f,
    {
        MapParser { parser: self, mapper: f, _phantom: PhantomData }
    }

    /// Runs `self`, then `p2` on what `self` left; keeps both values.
    fn and<P2>(self, p2: P2) -> (r: AndParser<Self, P2>) where
        Self: Sized,
        ensures
            r.p1 == self,
            r.p2 == p2,
    {
        AndParser { p1: self, p2 }
    }

    /// As `and`, keeping the value of `self` only.
    fn and_l<P2, O2>(self, p2: P2) -> (r: AndLeftParser<Self, P2, O2>) where Self: Sized
        ensures
            r.parser.p1 == self,
            r.parser.p2 == p2,
    {
        AndLeftParser { parser: AndParser { p1: self, p2 }, _phantom: PhantomData }
    }

    /// As `and`, keeping the value of `p2` only.
    fn and_r<P2>(self, p2: P2) -> (r: AndRightParser<Self, P2, O>) where Self: Sized
        ensures
            r.parser.p1 == self,
            r.parser.p2 == p2,
    {
        AndRightParser { parser: AndParser { p1: self, p2 }, _phantom: PhantomData }
    }

    /// Runs `self`; where it fails, runs `p2` on the same input.
    fn or<P2>(self, p2: P2) -> (r: OrParser<Self, P2>) where
        Self: Sized,
        ensures
            r.p1 == self,
            r.p2 == p2,
    {
        OrParser { p1: self, p2 }
    }

    /// Runs `self` as often as it succeeds; never fails.
    fn repeat(self) -> (r: RepeatParser<Self>) where Self: Sized
        ensures
            r.parser == self,
    {
        RepeatParser { parser: self }
    }

    /// As `repeat`, but fails where the first run of `self` fails.
    fn repeat1(self) -> (r: RepeatOneParser<Self>) where Self: Sized
        ensures
            r.parser == self,
    {
        RepeatOneParser { parser: self }
    }

    /// Turns a failure of `self` into `None`, consuming nothing.
    fn opt(self) -> (r: OptionParser<Self>) where Self: Sized
        ensures
            r.parser == self,
    {
        OptionParser { parser: self }
    }

    /// Runs `self` and drops its value.
    fn skip(self) -> (r: SkipParser<Self, O>) where Self: Sized
        ensures
            r.parser == self,
    {
        SkipParser { parser: self, _phantom: PhantomData }
    }
}

/// Runs `parser` on `input`.
pub fn parse<'a, P, O, E>(parser: P, input: &'a str) -> (r: ParseResult<&'a str, O, E>) where
    P: Parser<O, E>,
    requires
        parser.wf(),
    ensures
        match r {
            Ok((out, rest)) => parser.accepts(input@, out, rest@) && is_suffix(rest@, input@),
            Err(e) => parser.rejects(input@) && parser.fails_with(input@, e),
        },
{
    parser.parse(input)
}

/// Two parse results carry the same value, the same remaining text, or the
/// same error.
pub open spec fn same_outcome<O, E>(r1: ParseResult<&str, O, E>, r2: ParseResult<&str, O, E>) -> bool {
    match (r1, r2) {
        (Ok((o1, rest1)), Ok((o2, rest2))) => o1 == o2 && rest1@ == rest2@,
        (Err(e1), Err(e2)) => e1 == e2,
        _ => false,
    }
}

/// A function from a text to a parse result is a parser; this is how a
/// grammar rule refers to itself or to rules defined after it.
impl<O, E, F> Parser<O, E> for F where F: Fn(&str) -> ParseResult<&str, O, E> {
    /// The function can be called on every text, only ever reports a suffix
    /// of its input as remaining, and gives the same outcome on equal texts.
    open spec fn wf(&self) -> bool {
        &&& forall|i: &str| #[trigger] self.requires((i,))
        &&& forall|i: &str, r: ParseResult<&str, O, E>|
            #[trigger] self.ensures((i,), r) ==> (r matches Ok((_, rest)) ==> is_suffix(rest@, i@))
        &&& forall|i1: &str, i2: &str, r1: ParseResult<&str, O, E>, r2: ParseResult<&str, O, E>|
            #![trigger self.ensures((i1,), r1), self.ensures((i2,), r2)]
            i1@ == i2@ && self.ensures((i1,), r1) && self.ensures((i2,), r2) ==> same_outcome(
                r1,
                r2,
            )
    }

    open spec fn accepts(&self, input: Seq<char>, out: O, rest: Seq<char>) -> bool {
        exists|i: &str, r: &str|
            #![trigger self.ensures((i,), Ok((out, r)))]
            i@ == input && r@ == rest && self.ensures((i,), Ok((out, r)))
    }

    open spec fn rejects(&self, input: Seq<char>) -> bool {
        exists|i: &str, e: E| #![trigger self.ensures((i,), Err(e))] i@ == input && self.ensures((i,), Err(e))
    }

    open spec fn fails_with(&self, input: Seq<char>, e: E) -> bool {
        exists|i: &str| #![trigger self.ensures((i,), Err(e))] i@ == input && self.ensures((i,), Err(e))
    }

    fn parse<'a>(&self, input: &'a str) -> (r: ParseResult<&'a str, O, E>) {
        let r = self(input);
        proof {
            if r is Ok {
                let out = r->Ok_0.0;
                let rest = r->Ok_0.1;
                assert(r == Ok::<(O, &str), E>((out, rest)));
                assert(self.ensures((input,), Ok((out, rest))));
            } else {
                let e = r->Err_0;
                assert(r == Err::<(O, &str), E>(e));
                assert(self.ensures((input,), Err(e)));
            }
        }
        r
    }
}

/// Applies a function to the value of each success of a parser.
pub struct MapParser<P, F, O> {
    pub parser: P,
    pub mapper: F,
    pub _phantom: PhantomData<O>,
}

impl<O1, E, P, F, O> Parser<O1, E> for MapParser<P, F, O> where P: Parser<O, E>, F: Fn(O) -> O1 {
    /// The function can be applied to every value, and gives one result for
    /// each.
    open spec fn wf(&self) -> bool {
        &&& self.parser.wf()
        &&& forall|o: O| #[trigger] self.mapper.requires((o,))
        &&& forall|o: O, a: O1, b: O1|
            #![trigger self.mapper.ensures((o,), a), self.mapper.ensures((o,), b)]
            self.mapper.ensures((o,), a) && self.mapper.ensures((o,), b) ==> a == b
    }

    open spec fn accepts(&self, input: Seq<char>, out: O1, rest: Seq<char>) -> bool {
        exists|o: O|
            #![trigger self.parser.accepts(input, o, rest)]
            self.parser.accepts(input, o, rest) && self.mapper.ensures((o,), out)
    }

    open spec fn rejects(&self, input: Seq<char>) -> bool {
        self.parser.rejects(input)
    }

    open spec fn fails_with(&self, input: Seq<char>, e: E) -> bool {
        self.parser.fails_with(input, e)
    }

    fn parse<'a>(&self, input: &'a str) -> (r: ParseResult<&'a str, O1, E>) {
        match self.parser.parse(input) {
            Err(e) => Err(e),
            Ok((o, i)) => {
                let ghost g = o;
                let o2 = (self.mapper)(o);
                assert(self.parser.accepts(input@, g, i@));
                Ok((o2, i))
            },
        }
    }
}

/// Runs one parser, then a second on what the first left.
pub struct AndParser<P1, P2> {
    pub p1: P1,
    pub p2: P2,
}

impl<O1, O2, E, P1, P2> Parser<(O1, O2), E> for AndParser<P1, P2> where
    P1: Parser<O1, E>,
    P2: Parser<O2, E>,
 {
    open spec fn wf(&self) -> bool {
        self.p1.wf() && self.p2.wf()
    }

    open spec fn accepts(&self, input: Seq<char>, out: (O1, O2), rest: Seq<char>) -> bool {
        exists|mid: Seq<char>|
            #![trigger self.p1.accepts(input, out.0, mid)]
            self.p1.accepts(input, out.0, mid) && self.p2.accepts(mid, out.1, rest)
    }

    open spec fn rejects(&self, input: Seq<char>) -> bool {
        self.p1.rejects(input) || exists|o1: O1, mid: Seq<char>|
            #![trigger self.p1.accepts(input, o1, mid)]
            self.p1.accepts(input, o1, mid) && self.p2.rejects(mid)
    }

    open spec fn fails_with(&self, input: Seq<char>, e: E) -> bool {
        self.p1.fails_with(input, e) || exists|o1: O1, mid: Seq<char>|
            #![trigger self.p1.accepts(input, o1, mid)]
            self.p1.accepts(input, o1, mid) && self.p2.fails_with(mid, e)
    }

    fn parse<'a>(&self, input: &'a str) -> (r: ParseResult<&'a str, (O1, O2), E>) {
        match self.p1.parse(input) {
            Err(e) => Err(e),
            Ok((o1, i1)) => match self.p2.parse(i1) {
                Err(e) => Err(e),
                Ok((o2, i2)) => {
                    proof {
                        lemma_suffix_trans(i2@, i1@, input@);
                        let ghost out = (o1, o2);
                        assert(self.p1.accepts(input@, out.0, i1@));
                    }
                    Ok(((o1, o2), i2))
                },
            },
        }
    }
}

/// Ordered choice: the second parser is tried only where the first fails.
pub struct OrParser<P1, P2> {
    pub p1: P1,
    pub p2: P2,
}

impl<O, E, P1, P2> Parser<O, E> for OrParser<P1, P2> where P1: Parser<O, E>, P2: Parser<O, E> {
    open spec fn wf(&self) -> bool {
        self.p1.wf() && self.p2.wf()
    }

    open spec fn accepts(&self, input: Seq<char>, out: O, rest: Seq<char>) -> bool {
        self.p1.accepts(input, out, rest) || (self.p1.rejects(input) && self.p2.accepts(
            input,
            out,
            rest,
        ))
    }

    open spec fn rejects(&self, input: Seq<char>) -> bool {
        self.p1.rejects(input) && self.p2.rejects(input)
    }

    open spec fn fails_with(&self, input: Seq<char>, e: E) -> bool {
        self.p1.rejects(input) && self.p2.fails_with(input, e)
    }

    fn parse<'a>(&self, input: &'a str) -> (r: ParseResult<&'a str, O, E>) {
        match self.p1.parse(input) {
            Ok(res) => Ok(res),
            Err(_) => self.p2.parse(input),
        }
    }
}

/// `and` that keeps the left value.
pub struct AndLeftParser<P1, P2, O2> {
    pub parser: AndParser<P1, P2>,
    pub _phantom: PhantomData<O2>,
}

impl<O1, O2, E, P1, P2> Parser<O1, E> for AndLeftParser<P1, P2, O2> where
    P1: Parser<O1, E>,
    P2: Parser<O2, E>,
 {
    open spec fn wf(&self) -> bool {
        self.parser.wf()
    }

    open spec fn accepts(&self, input: Seq<char>, out: O1, rest: Seq<char>) -> bool {
        exists|o2: O2| #[trigger] self.parser.accepts(input, (out, o2), rest)
    }

    open spec fn rejects(&self, input: Seq<char>) -> bool {
        self.parser.rejects(input)
    }

    open spec fn fails_with(&self, input: Seq<char>, e: E) -> bool {
        self.parser.fails_with(input, e)
    }

    fn parse<'a>(&self, input: &'a str) -> (r: ParseResult<&'a str, O1, E>) {
        match self.parser.parse(input) {
            Err(e) => Err(e),
            Ok((out, i)) => {
                let (o1, o2) = out;
                assert(self.parser.accepts(input@, (o1, o2), i@));
                Ok((o1, i))
            },
        }
    }
}

/// `and` that keeps the right value.
pub struct AndRightParser<P1, P2, O1> {
    pub parser: AndParser<P1, P2>,
    pub _phantom: PhantomData<O1>,
}

impl<O1, O2, E, P1, P2> Parser<O2, E> for AndRightParser<P1, P2, O1> where
    P1: Parser<O1, E>,
    P2: Parser<O2, E>,
 {
    open spec fn wf(&self) -> bool {
        self.parser.wf()
    }

    open spec fn accepts(&self, input: Seq<char>, out: O2, rest: Seq<char>) -> bool {
        exists|o1: O1| #[trigger] self.parser.accepts(input, (o1, out), rest)
    }

    open spec fn rejects(&self, input: Seq<char>) -> bool {
        self.parser.rejects(input)
    }

    open spec fn fails_with(&self, input: Seq<char>, e: E) -> bool {
        self.parser.fails_with(input, e)
    }

    fn parse<'a>(&self, input: &'a str) -> (r: ParseResult<&'a str, O2, E>) {
        match self.parser.parse(input) {
            Err(e) => Err(e),
            Ok((out, i)) => {
                let (o1, o2) = out;
                assert(self.parser.accepts(input@, (o1, o2), i@));
                Ok((o2, i))
            },
        }
    }
}

/// Makes a parser optional.
pub struct OptionParser<P> {
    pub parser: P,
}

impl<O, E, P> Parser<Option<O>, E> for OptionParser<P> where P: Parser<O, E> {
    open spec fn wf(&self) -> bool {
        self.parser.wf()
    }

    open spec fn accepts(&self, input: Seq<char>, out: Option<O>, rest: Seq<char>) -> bool {
        match out {
            Some(o) => self.parser.accepts(input, o, rest),
            None => self.parser.rejects(input) && rest == input,
        }
    }

    /// Never fails.
    open spec fn rejects(&self, input: Seq<char>) -> bool {
        false
    }

    open spec fn fails_with(&self, input: Seq<char>, e: E) -> bool {
        false
    }

    fn parse<'a>(&self, input: &'a str) -> (r: ParseResult<&'a str, Option<O>, E>) {
        match self.parser.parse(input) {
            Ok((o, i)) => Ok((Some(o), i)),
            Err(_) => {
                proof {
                    lemma_suffix_refl(input@);
                }
                Ok((None, input))
            },
        }
    }
}

/// Runs a parser and drops its value.
pub struct SkipParser<P, O> {
    pub parser: P,
    pub _phantom: PhantomData<O>,
}

impl<O, E, P> Parser<(), E> for SkipParser<P, O> where P: Parser<O, E> {
    open spec fn wf(&self) -> bool {
        self.parser.wf()
    }

    open spec fn accepts(&self, input: Seq<char>, out: (), rest: Seq<char>) -> bool {
        exists|o: O| #[trigger] self.parser.accepts(input, o, rest)
    }

    open spec fn rejects(&self, input: Seq<char>) -> bool {
        self.parser.rejects(input)
    }

    open spec fn fails_with(&self, input: Seq<char>, e: E) -> bool {
        self.parser.fails_with(input, e)
    }

    fn parse<'a>(&self, input: &'a str) -> (r: ParseResult<&'a str, (), E>) {
        match self.parser.parse(input) {
            Err(e) => Err(e),
            Ok((o, i)) => {
                assert(self.parser.accepts(input@, o, i@));
                Ok(((), i))
            },
        }
    }
}

/// A shared handle on a parser: clones run the same parser.
pub struct RcParser<P> {
    pub parser: Rc<P>,
}

impl<P> RcParser<P> {
    /// Puts `p` behind a new shared handle.
    pub fn new<O, E>(p: P) -> (r: Self) where P: Parser<O, E>
        ensures
            *r.parser == p,
    {
        Self { parser: Rc::new(p) }
    }
}

impl<O, E, P> Parser<O, E> for RcParser<P> where P: Parser<O, E> {
    open spec fn wf(&self) -> bool {
        (*self.parser).wf()
    }

    open spec fn accepts(&self, input: Seq<char>, out: O, rest: Seq<char>) -> bool {
        (*self.parser).accepts(input, out, rest)
    }

    open spec fn rejects(&self, input: Seq<char>) -> bool {
        (*self.parser).rejects(input)
    }

    open spec fn fails_with(&self, input: Seq<char>, e: E) -> bool {
        (*self.parser).fails_with(input, e)
    }

    fn parse<'a>(&self, input: &'a str) -> (r: ParseResult<&'a str, O, E>) {
        self.parser.parse(input)
    }
}

/// Relies on `Rc::clone`: the new handle points to the same value.
#[verifier::external_body]
fn share<P>(p: &Rc<P>) -> (r: Rc<P>)
    ensures
        *r == **p,
{
    p.clone()
}

impl<P> Clone for RcParser<P> {
    fn clone(&self) -> (r: Self)
        ensures
            *r.parser == *self.parser,
    {
        Self { parser: share(&self.parser) }
    }
}

/// Every success of `p` consumes at least one character.
pub open spec fn advances<O, E, P: Parser<O, E>>(p: P) -> bool {
    forall|i: Seq<char>, o: O, r: Seq<char>| #[trigger] p.accepts(i, o, r) ==> r.len() < i.len()
}

/// `trace` records repeated runs of `p`: run `i` goes from `trace[i]` to
/// `trace[i + 1]` with value `outs[i]`.
pub open spec fn repeat_trace<O, E, P: Parser<O, E>>(
    p: P,
    trace: Seq<Seq<char>>,
    outs: Seq<O>,
) -> bool {
    &&& trace.len() == outs.len() + 1
    &&& forall|i: int|
        0 <= i < outs.len() ==> {
            &&& p.accepts(trace[i], #[trigger] outs[i], trace[i + 1])
            &&& is_suffix(trace[i + 1], trace[i])
        }
}

/// Repetition of `p` from `input` gives the values `outs` and stops at
/// `rest`, where `p` fails.
pub open spec fn repeat_accepts<O, E, P: Parser<O, E>>(
    p: P,
    input: Seq<char>,
    outs: Seq<O>,
    rest: Seq<char>,
) -> bool {
    &&& p.rejects(rest)
    &&& exists|trace: Seq<Seq<char>>|
        #[trigger] repeat_trace(p, trace, outs) && trace[0] == input && trace[outs.len() as int]
            == rest
}

/// Runs `p` from `input` as long as it succeeds.
/// Returns the values, the position where `p` failed, and its error there.
fn run_repeat<'a, O, E, P: Parser<O, E>>(p: &P, input: &'a str) -> (r: (Vec<O>, &'a str, E))
    requires
        p.wf(),
        advances(*p),
    ensures
        repeat_accepts(*p, input@, r.0@, r.1@),
        is_suffix(r.1@, input@),
        p.fails_with(r.1@, r.2),
        r.0@.len() == 0 ==> r.1@ == input@,
{
    let mut res: Vec<O> = Vec::new();
    let mut i = input;
    let ghost mut trace: Seq<Seq<char>> = seq![input@];
    proof {
        lemma_suffix_refl(input@);
    }
    loop
        invariant
            p.wf(),
            advances(*p),
            repeat_trace(*p, trace, res@),
            trace[0] == input@,
            trace[res@.len() as int] == i@,
            is_suffix(i@, input@),
        decreases i@.len(),
    {
        match p.parse(i) {
            Err(e) => {
                return (res, i, e);
            },
            Ok((o, i1)) => {
                let ghost prev = res@;
                let ghost old_trace = trace;
                proof {
                    assert(p.accepts(i@, o, i1@));
                    assert(i1@.len() < i@.len());
                    trace = trace.push(i1@);
                    lemma_suffix_trans(i1@, i@, input@);
                }
                res.push(o);
                proof {
                    assert(res@ =~= prev.push(o));
                    assert(trace.len() == res@.len() + 1);
                    assert(trace[res@.len() as int] == i1@);
                    assert forall|k: int| 0 <= k < res@.len() implies {
                        &&& p.accepts(trace[k], #[trigger] res@[k], trace[k + 1])
                        &&& is_suffix(trace[k + 1], trace[k])
                    } by {
                        assert(trace[k] == old_trace[k]);
                        if k < prev.len() {
                            assert(res@[k] == prev[k]);
                            assert(trace[k + 1] == old_trace[k + 1]);
                        } else {
                            assert(k == prev.len());
                            assert(res@[k] == o);
                            assert(trace[k] == i@);
                            assert(trace[k + 1] == i1@);
                        }
                    }
                    assert(repeat_trace(*p, trace, res@));
                }
                i = i1;
            },
        }
    }
}

/// Zero or more runs of a parser.
pub struct RepeatParser<P> {
    pub parser: P,
}

impl<O, E, P> Parser<Vec<O>, E> for RepeatParser<P> where P: Parser<O, E> {
    /// The repeated parser consumes something whenever it succeeds.
    open spec fn wf(&self) -> bool {
        self.parser.wf() && advances(self.parser)
    }

    open spec fn accepts(&self, input: Seq<char>, out: Vec<O>, rest: Seq<char>) -> bool {
        repeat_accepts(self.parser, input, out@, rest)
    }

    /// Never fails.
    open spec fn rejects(&self, input: Seq<char>) -> bool {
        false
    }

    open spec fn fails_with(&self, input: Seq<char>, e: E) -> bool {
        false
    }

    fn parse<'a>(&self, input: &'a str) -> (r: ParseResult<&'a str, Vec<O>, E>) {
        let (res, i, _) = run_repeat(&self.parser, input);
        Ok((res, i))
    }
}

/// One or more runs of a parser.
pub struct RepeatOneParser<P> {
    pub parser: P,
}

impl<O, E, P> Parser<Vec<O>, E> for RepeatOneParser<P> where P: Parser<O, E> {
    /// The repeated parser consumes something whenever it succeeds.
    open spec fn wf(&self) -> bool {
        self.parser.wf() && advances(self.parser)
    }

    open spec fn accepts(&self, input: Seq<char>, out: Vec<O>, rest: Seq<char>) -> bool {
        out@.len() > 0 && repeat_accepts(self.parser, input, out@, rest)
    }

    /// Fails exactly where the first run fails, with its error.
    open spec fn rejects(&self, input: Seq<char>) -> bool {
        self.parser.rejects(input)
    }

    open spec fn fails_with(&self, input: Seq<char>, e: E) -> bool {
        self.parser.fails_with(input, e)
    }

    fn parse<'a>(&self, input: &'a str) -> (r: ParseResult<&'a str, Vec<O>, E>) {
        let (res, i, e) = run_repeat(&self.parser, input);
        if res.len() >= 1 {
            Ok((res, i))
        } else {
            Err(e)
        }
    }
}

/// One element, then `separator element` pairs for as long as both succeed.
pub struct ListSepParser<P1, P2, O2> {
    pub elm_parser: P1,
    pub sep_parser: P2,
    pub _phantom: PhantomData<O2>,
}

impl<P1, P2, O2> ListSepParser<P1, P2, O2> {
    /// The step that follows the first element: a separator, then an element
    /// whose value is kept.
    pub open spec fn sep_elm(&self) -> AndRightParser<P2, P1, O2> {
        AndRightParser {
            parser: AndParser { p1: self.sep_parser, p2: self.elm_parser },
            _phantom: PhantomData,
        }
    }
}

impl<O1, O2, E, P1, P2> Parser<Vec<O1>, E> for ListSepParser<P1, P2, O2> where
    P1: Parser<O1, E>,
    P2: Parser<O2, E>,
 {
    /// A separator followed by an element consumes something whenever it
    /// succeeds.
    open spec fn wf(&self) -> bool {
        self.elm_parser.wf() && self.sep_parser.wf() && advances(self.sep_elm())
    }

    open spec fn accepts(&self, input: Seq<char>, out: Vec<O1>, rest: Seq<char>) -> bool {
        out@.len() > 0 && exists|mid: Seq<char>|
            #![trigger self.elm_parser.accepts(input, out@[0], mid)]
            self.elm_parser.accepts(input, out@[0], mid) && repeat_accepts(
                self.sep_elm(),
                mid,
                out@.drop_first(),
                rest,
            )
    }

    /// Fails exactly where the first element fails, with its error.
    open spec fn rejects(&self, input: Seq<char>) -> bool {
        self.elm_parser.rejects(input)
    }

    open spec fn fails_with(&self, input: Seq<char>, e: E) -> bool {
        self.elm_parser.fails_with(input, e)
    }

    fn parse<'a>(&self, input: &'a str) -> (r: ParseResult<&'a str, Vec<O1>, E>) {
        let mut res: Vec<O1> = Vec::new();
        let mut inp = input;
        match self.elm_parser.parse(inp) {
            Err(e) => {
                return Err(e);
            },
            Ok((elm, i)) => {
                res.push(elm);
                inp = i;
            },
        }
        let ghost first = res@[0];
        let ghost start = inp@;
        let ghost step = self.sep_elm();
        let ghost mut trace: Seq<Seq<char>> = seq![inp@];
        proof {
            lemma_suffix_refl(inp@);
        }
        loop
            invariant
                self.wf(),
                step == self.sep_elm(),
                res@.len() >= 1,
                res@[0] == first,
                self.elm_parser.accepts(input@, first, start),
                is_suffix(start, input@),
                repeat_trace(step, trace, res@.drop_first()),
                trace[0] == start,
                trace[res@.len() - 1] == inp@,
                is_suffix(inp@, start),
            ensures
                step.rejects(inp@),
            decreases inp@.len(),
        {
            let ghost prev = res@.drop_first();
            let ghost old_trace = trace;
            let mid = match self.sep_parser.parse(inp) {
                Err(_) => {
                    break ;
                },
                Ok((so, i)) => {
                    let ghost g = (so, i@);
                    proof {
                        assert(self.sep_parser.accepts(inp@, g.0, g.1));
                    }
                    i
                },
            };
            let ghost sep_out = choose|so: O2| self.sep_parser.accepts(inp@, so, mid@);
            match self.elm_parser.parse(mid) {
                Err(_) => {
                    proof {
                        assert(step.parser.p1.accepts(inp@, sep_out, mid@));
                    }
                    break ;
                },
                Ok((elm, i)) => {
                    proof {
                        let out = (sep_out, elm);
                        assert(step.parser.p1.accepts(inp@, out.0, mid@));
                        assert(step.parser.accepts(inp@, out, i@));
                        assert(step.accepts(inp@, elm, i@));
                        assert(i@.len() < inp@.len());
                        lemma_suffix_trans(i@, mid@, inp@);
                        lemma_suffix_trans(i@, inp@, start);
                        trace = trace.push(i@);
                    }
                    res.push(elm);
                    proof {
                        let outs = res@.drop_first();
                        assert(outs =~= prev.push(elm));
                        assert(trace.len() == outs.len() + 1);
                        assert forall|k: int| 0 <= k < outs.len() implies {
                            &&& step.accepts(trace[k], #[trigger] outs[k], trace[k + 1])
                            &&& is_suffix(trace[k + 1], trace[k])
                        } by {
                            assert(trace[k] == old_trace[k]);
                            if k < prev.len() {
                                assert(outs[k] == prev[k]);
                                assert(trace[k + 1] == old_trace[k + 1]);
                            } else {
                                assert(outs[k] == elm);
                                assert(trace[k] == inp@);
                                assert(trace[k + 1] == i@);
                            }
                        }
                        assert(repeat_trace(step, trace, outs));
                    }
                    inp = i;
                },
            }
        }
        proof {
            lemma_suffix_trans(inp@, start, input@);
            assert(repeat_accepts(step, start, res@.drop_first(), inp@));
        }
        Ok((res, inp))
    }
}

/// A separated list that may also be empty.
pub struct ListSepEmptyParser<P1, P2, O2> {
    pub parser: OptionParser<ListSepParser<P1, P2, O2>>,
}

impl<O1, O2, E, P1, P2> Parser<Vec<O1>, E> for ListSepEmptyParser<P1, P2, O2> where
    P1: Parser<O1, E>,
    P2: Parser<O2, E>,
 {
    open spec fn wf(&self) -> bool {
        self.parser.wf()
    }

    open spec fn accepts(&self, input: Seq<char>, out: Vec<O1>, rest: Seq<char>) -> bool {
        self.parser.parser.accepts(input, out, rest) || (self.parser.parser.rejects(input)
            && out@.len() == 0 && rest == input)
    }

    /// Never fails.
    open spec fn rejects(&self, input: Seq<char>) -> bool {
        false
    }

    open spec fn fails_with(&self, input: Seq<char>, e: E) -> bool {
        false
    }

    fn parse<'a>(&self, input: &'a str) -> (r: ParseResult<&'a str, Vec<O1>, E>) {
        let empt_res: Vec<O1> = Vec::new();
        match self.parser.parse(input) {
            Err(_) => Ok((empt_res, input)),
            Ok((opt, i)) => match opt {
                None => Ok((empt_res, i)),
                Some(elms) => Ok((elms, i)),
            },
        }
    }
}

/// A list of one or more `elm_parser` values separated by `sep_parser`.
pub fn lst_sep<P1, P2, O1, O2, E>(elm_parser: P1, sep_parser: P2) -> (r: ListSepParser<
    P1,
    P2,
    O2,
>) where P1: Parser<O1, E>, P2: Parser<O2, E>
    ensures
        r.elm_parser == elm_parser,
        r.sep_parser == sep_parser,
{
    ListSepParser { elm_parser, sep_parser, _phantom: PhantomData }
}

/// A list of zero or more `elm_parser` values separated by `sep_parser`.
pub fn lst_sep_empt<P1, P2, O1, O2, E>(elm_parser: P1, sep_parser: P2) -> (r: ListSepEmptyParser<
    P1,
    P2,
    O2,
>) where P1: Parser<O1, E>, P2: Parser<O2, E>
    ensures
        r.parser.parser.elm_parser == elm_parser,
        r.parser.parser.sep_parser == sep_parser,
{
    ListSepEmptyParser { parser: lst_sep(elm_parser, sep_parser).opt() }
}

} // verus!
