//! Laws that hold of the matchers and combinators for every input.
use crate::parser::{
    AndParser, ListSepEmptyParser, MapParser, OptionParser, OrParser, ParseResult, Parser, RcParser, SkipParser,
    RepeatOneParser, RepeatParser, repeat_trace, same_outcome,
};
use crate::string_parser::{LiteralParser, RegexParser};
use vstd::prelude::*;

verus! {

/// A literal matcher run on its literal followed by any text `rest`
/// succeeds, and its only outcome is the literal with `rest` remaining.
pub proof fn law_literal_matches(p: LiteralParser, rest: Seq<char>)
    ensures
        !p.rejects(p.literal@ + rest),
        forall|out: String, r: Seq<char>|
            #[trigger] p.accepts(p.literal@ + rest, out, r) <==> (out == p.literal && r == rest),
{
    let s = p.literal@ + rest;
    assert(s.take(p.literal@.len() as int) =~= p.literal@);
    assert(s.skip(p.literal@.len() as int) =~= rest);
}

/// A literal matcher fails, and has no success, on any text that does not
/// start with its literal.
pub proof fn law_literal_mismatch(p: LiteralParser, t: Seq<char>)
    requires
        !p.literal@.is_prefix_of(t),
    ensures
        p.rejects(t),
        forall|out: String, r: Seq<char>| !#[trigger] p.accepts(t, out, r),
{
}

/// Choice whose first alternative never succeeds behaves exactly as the
/// second alternative.
pub proof fn law_or_fail_first<O, E, F: Parser<O, E>, P: Parser<O, E>>(f: F, p: P)
    requires
        forall|s: Seq<char>| #[trigger] f.rejects(s),
        forall|s: Seq<char>, o: O, r: Seq<char>| !#[trigger] f.accepts(s, o, r),
    ensures
        forall|s: Seq<char>, o: O, r: Seq<char>|
            #[trigger] (OrParser { p1: f, p2: p }).accepts(s, o, r) <==> p.accepts(s, o, r),
        forall|s: Seq<char>|
            #[trigger] (OrParser { p1: f, p2: p }).rejects(s) <==> p.rejects(s),
{
}

/// Choice is ordered: on an input where the first alternative does not fail,
/// the choice does not fail either, and its outcomes are exactly those of
/// the first alternative, whatever the second would give.
pub proof fn law_or_prefers_first<O, E, P: Parser<O, E>, Q: Parser<O, E>>(
    p: P,
    q: Q,
    s: Seq<char>,
)
    requires
        !p.rejects(s),
    ensures
        !(OrParser { p1: p, p2: q }).rejects(s),
        forall|o: O, r: Seq<char>|
            #[trigger] (OrParser { p1: p, p2: q }).accepts(s, o, r) <==> p.accepts(s, o, r),
{
}

/// On an input where the repeated parser fails without any success,
/// repetition succeeds with no values and consumes nothing, while
/// one-or-more repetition fails and has no success.
pub proof fn law_repeat_no_match<O, E, P: Parser<O, E>>(p: P, s: Seq<char>)
    requires
        p.rejects(s),
        forall|o: O, r: Seq<char>| !#[trigger] p.accepts(s, o, r),
    ensures
        forall|v: Vec<O>, r: Seq<char>|
            #[trigger] (RepeatParser { parser: p }).accepts(s, v, r) <==> (v@.len() == 0 && r == s),
        (RepeatOneParser { parser: p }).rejects(s),
        forall|v: Vec<O>, r: Seq<char>| !#[trigger] (RepeatOneParser { parser: p }).accepts(s, v, r),
{
    assert forall|v: Vec<O>, r: Seq<char>|
        #[trigger] (RepeatParser { parser: p }).accepts(s, v, r) <==> (v@.len() == 0 && r == s) by {
        if (RepeatParser { parser: p }).accepts(s, v, r) {
            let trace = choose|trace: Seq<Seq<char>>|
                #[trigger] repeat_trace(p, trace, v@) && trace[0] == s && trace[v@.len() as int]
                    == r && (p.rejects(r) || (v@.len() > 0 && trace[v@.len() - 1] == r));
            if v@.len() > 0 {
                assert(p.accepts(trace[0], v@[0], trace[1]));
            }
        }
        if v@.len() == 0 && r == s {
            let trace = seq![s];
            assert(repeat_trace(p, trace, v@));
        }
    }
    assert forall|v: Vec<O>, r: Seq<char>|
        !#[trigger] (RepeatOneParser { parser: p }).accepts(s, v, r) by {
        if (RepeatOneParser { parser: p }).accepts(s, v, r) {
            assert(RepeatParser { parser: p }.accepts(s, v, r));
        }
    }
}

/// On an input where the parser fails without any success, the optional
/// parser succeeds with `None` and consumes nothing, and has no other outcome.
pub proof fn law_opt_no_match<O, E, P: Parser<O, E>>(p: P, s: Seq<char>)
    requires
        p.rejects(s),
        forall|o: O, r: Seq<char>| !#[trigger] p.accepts(s, o, r),
    ensures
        !(OptionParser { parser: p }).rejects(s),
        (OptionParser { parser: p }).accepts(s, None, s),
        forall|o: Option<O>, r: Seq<char>|
            #[trigger] (OptionParser { parser: p }).accepts(s, o, r) <==> (o is None && r == s),
{
}

/// Where the element parser fails without any success, the separated list
/// fails, and the list that may be empty succeeds with no values and
/// consumes nothing, with no other outcome.
pub proof fn law_list_sep_no_match<O1, O2, E, P1: Parser<O1, E>, P2: Parser<O2, E>>(
    lst: ListSepEmptyParser<P1, P2, O2>,
    s: Seq<char>,
)
    requires
        lst.parser.parser.elm_parser.rejects(s),
        forall|o: O1, r: Seq<char>| !#[trigger] lst.parser.parser.elm_parser.accepts(s, o, r),
    ensures
        lst.parser.parser.rejects(s),
        forall|v: Vec<O1>, r: Seq<char>| !#[trigger] lst.parser.parser.accepts(s, v, r),
        !lst.rejects(s),
        forall|v: Vec<O1>, r: Seq<char>|
            #[trigger] lst.accepts(s, v, r) <==> (v@.len() == 0 && r == s),
{
}

/// The outcome of `p` is a function of the text: at most one success on
/// each text, never together with a failure.
pub open spec fn is_pure<O, E, P: Parser<O, E>>(p: P) -> bool {
    &&& forall|i: Seq<char>, o1: O, r1: Seq<char>, o2: O, r2: Seq<char>|
        #![trigger p.accepts(i, o1, r1), p.accepts(i, o2, r2)]
        p.accepts(i, o1, r1) && p.accepts(i, o2, r2) ==> o1 == o2 && r1 == r2
    &&& forall|i: Seq<char>, o: O, r: Seq<char>| #[trigger] p.accepts(i, o, r) ==> !p.rejects(i)
}

/// A literal matcher is pure.
pub proof fn law_literal_pure(p: LiteralParser)
    ensures
        is_pure(p),
{
}

/// A pattern matcher gives at most one success on each text, up to the
/// text of its value, and never together with a failure.
pub proof fn law_regex_pure(p: RegexParser)
    ensures
        forall|i: Seq<char>, o1: String, r1: Seq<char>, o2: String, r2: Seq<char>|
            #![trigger p.accepts(i, o1, r1), p.accepts(i, o2, r2)]
            p.accepts(i, o1, r1) && p.accepts(i, o2, r2) ==> o1@ == o2@ && r1 == r2,
        forall|i: Seq<char>, o: String, r: Seq<char>| #[trigger] p.accepts(i, o, r) ==> !p.rejects(i),
{
}

/// A function that can serve as a parser is pure.
pub proof fn law_function_pure<O, E, F: Fn(&str) -> ParseResult<&str, O, E>>(f: F)
    requires
        f.wf(),
    ensures
        is_pure(f),
{
    assert forall|i: Seq<char>, o1: O, r1: Seq<char>, o2: O, r2: Seq<char>|
        f.accepts(i, o1, r1) && f.accepts(i, o2, r2) implies o1 == o2 && r1 == r2 by {
        let (x1, y1) = choose|x: &str, y: &str|
            x@ == i && y@ == r1 && f.ensures((x,), Ok((o1, y)));
        let (x2, y2) = choose|x: &str, y: &str|
            x@ == i && y@ == r2 && f.ensures((x,), Ok((o2, y)));
        assert(same_outcome(Ok::<(O, &str), E>((o1, y1)), Ok::<(O, &str), E>((o2, y2))));
    }
    assert forall|i: Seq<char>, o: O, r: Seq<char>| #[trigger] f.accepts(i, o, r) implies !f.rejects(
        i,
    ) by {
        if f.rejects(i) {
            let (x1, y1) = choose|x: &str, y: &str|
                x@ == i && y@ == r && f.ensures((x,), Ok((o, y)));
            let (x2, e) = choose|x: &str, e: E| x@ == i && f.ensures((x,), Err(e));
            assert(same_outcome(Ok::<(O, &str), E>((o, y1)), Err::<(O, &str), E>(e)));
        }
    }
}

/// Sequencing pure parsers gives a pure parser.
pub proof fn law_and_pure<O1, O2, E, P1: Parser<O1, E>, P2: Parser<O2, E>>(p1: P1, p2: P2)
    requires
        is_pure(p1),
        is_pure(p2),
    ensures
        is_pure(AndParser { p1, p2 }),
{
    let a = AndParser { p1, p2 };
    assert forall|i: Seq<char>, o1: (O1, O2), r1: Seq<char>, o2: (O1, O2), r2: Seq<char>|
        a.accepts(i, o1, r1) && a.accepts(i, o2, r2) implies o1 == o2 && r1 == r2 by {
        let m1 = choose|m: Seq<char>| p1.accepts(i, o1.0, m) && p2.accepts(m, o1.1, r1);
        let m2 = choose|m: Seq<char>| p1.accepts(i, o2.0, m) && p2.accepts(m, o2.1, r2);
        assert(p1.accepts(i, o1.0, m1) && p1.accepts(i, o2.0, m2));
        assert(p2.accepts(m1, o1.1, r1) && p2.accepts(m1, o2.1, r2));
    }
    assert forall|i: Seq<char>, o: (O1, O2), r: Seq<char>| #[trigger] a.accepts(i, o, r) implies !a.rejects(
        i,
    ) by {
        let m = choose|m: Seq<char>| p1.accepts(i, o.0, m) && p2.accepts(m, o.1, r);
        assert(!p1.rejects(i));
        if exists|x: O1, n: Seq<char>| #[trigger] p1.accepts(i, x, n) && p2.rejects(n) {
            let (x, n) = choose|x: O1, n: Seq<char>| p1.accepts(i, x, n) && p2.rejects(n);
            assert(p1.accepts(i, o.0, m) && p1.accepts(i, x, n));
            assert(!p2.rejects(m));
        }
    }
}

/// Ordered choice between pure parsers gives a pure parser.
pub proof fn law_or_pure<O, E, P1: Parser<O, E>, P2: Parser<O, E>>(p1: P1, p2: P2)
    requires
        is_pure(p1),
        is_pure(p2),
    ensures
        is_pure(OrParser { p1, p2 }),
{
    let c = OrParser { p1, p2 };
    assert forall|i: Seq<char>, o1: O, r1: Seq<char>, o2: O, r2: Seq<char>|
        c.accepts(i, o1, r1) && c.accepts(i, o2, r2) implies o1 == o2 && r1 == r2 by {
        if p1.accepts(i, o1, r1) && p1.accepts(i, o2, r2) {
        } else if p1.accepts(i, o1, r1) {
            assert(!p1.rejects(i));
        } else if p1.accepts(i, o2, r2) {
            assert(!p1.rejects(i));
        } else {
            assert(p2.accepts(i, o1, r1) && p2.accepts(i, o2, r2));
        }
    }
    assert forall|i: Seq<char>, o: O, r: Seq<char>| #[trigger] c.accepts(i, o, r) implies !c.rejects(
        i,
    ) by {
        if p1.accepts(i, o, r) {
            assert(!p1.rejects(i));
        } else {
            assert(p2.accepts(i, o, r));
            assert(!p2.rejects(i));
        }
    }
}

/// Mapping a pure parser with a function of one result per value gives a
/// pure parser.
pub proof fn law_map_pure<O, O1, E, P: Parser<O, E>, F: Fn(O) -> O1>(m: MapParser<P, F, O>)
    requires
        is_pure(m.parser),
        m.wf(),
    ensures
        is_pure(m),
{
    assert forall|i: Seq<char>, a: O1, r1: Seq<char>, b: O1, r2: Seq<char>|
        m.accepts(i, a, r1) && m.accepts(i, b, r2) implies a == b && r1 == r2 by {
        let x = choose|o: O| m.parser.accepts(i, o, r1) && m.mapper.ensures((o,), a);
        let y = choose|o: O| m.parser.accepts(i, o, r2) && m.mapper.ensures((o,), b);
        assert(m.parser.accepts(i, x, r1) && m.parser.accepts(i, y, r2));
        assert(m.mapper.ensures((x,), a) && m.mapper.ensures((x,), b));
    }
    assert forall|i: Seq<char>, o: O1, r: Seq<char>| #[trigger] m.accepts(i, o, r) implies !m.rejects(
        i,
    ) by {
        let x = choose|x: O| m.parser.accepts(i, x, r) && m.mapper.ensures((x,), o);
        assert(m.parser.accepts(i, x, r));
    }
}

/// Making a pure parser optional gives a pure parser.
pub proof fn law_opt_pure<O, E, P: Parser<O, E>>(p: P)
    requires
        is_pure(p),
    ensures
        is_pure(OptionParser { parser: p }),
{
    let q = OptionParser { parser: p };
    assert forall|i: Seq<char>, o1: Option<O>, r1: Seq<char>, o2: Option<O>, r2: Seq<char>|
        q.accepts(i, o1, r1) && q.accepts(i, o2, r2) implies o1 == o2 && r1 == r2 by {
        if o1 is Some {
            assert(p.accepts(i, o1->Some_0, r1));
            if o2 is Some {
                assert(p.accepts(i, o2->Some_0, r2));
            }
        } else if o2 is Some {
            assert(p.accepts(i, o2->Some_0, r2));
        }
    }
}

/// Dropping the value of a pure parser gives a pure parser.
pub proof fn law_skip_pure<O, E, P: Parser<O, E>>(s: SkipParser<P, O>)
    requires
        is_pure(s.parser),
    ensures
        is_pure(s),
{
    assert forall|i: Seq<char>, o1: (), r1: Seq<char>, o2: (), r2: Seq<char>|
        s.accepts(i, o1, r1) && s.accepts(i, o2, r2) implies o1 == o2 && r1 == r2 by {
        let x = choose|x: O| s.parser.accepts(i, x, r1);
        let y = choose|y: O| s.parser.accepts(i, y, r2);
        assert(s.parser.accepts(i, x, r1) && s.parser.accepts(i, y, r2));
    }
    assert forall|i: Seq<char>, o: (), r: Seq<char>| #[trigger] s.accepts(i, o, r) implies !s.rejects(
        i,
    ) by {
        let x = choose|x: O| s.parser.accepts(i, x, r);
        assert(s.parser.accepts(i, x, r));
    }
}

/// A shared handle on a pure parser, and so each of its clones, is pure.
pub proof fn law_rc_pure<O, E, P: Parser<O, E>>(h: RcParser<P>)
    requires
        is_pure(*h.parser),
    ensures
        is_pure(h),
{
}

/// Two runs of a pure parser repeated from the same text agree on their
/// first `k` steps.
proof fn lemma_traces_agree<O, E, P: Parser<O, E>>(
    p: P,
    t1: Seq<Seq<char>>,
    o1: Seq<O>,
    t2: Seq<Seq<char>>,
    o2: Seq<O>,
    k: int,
)
    requires
        is_pure(p),
        repeat_trace(p, t1, o1),
        repeat_trace(p, t2, o2),
        t1[0] == t2[0],
        0 <= k <= o1.len(),
        k <= o2.len(),
    ensures
        t1[k] == t2[k],
        forall|j: int| 0 <= j < k ==> o1[j] == o2[j],
    decreases k,
{
    if k > 0 {
        lemma_traces_agree(p, t1, o1, t2, o2, k - 1);
        assert(p.accepts(t1[k - 1], o1[k - 1], t1[k]));
        assert(p.accepts(t2[k - 1], o2[k - 1], t2[k]));
    }
}

/// Repeating a pure parser gives at most one outcome on each text, up to
/// the sequence of values.
pub proof fn law_repeat_pure<O, E, P: Parser<O, E>>(p: P)
    requires
        is_pure(p),
    ensures
        forall|i: Seq<char>, v1: Vec<O>, r1: Seq<char>, v2: Vec<O>, r2: Seq<char>|
            #![trigger (RepeatParser { parser: p }).accepts(i, v1, r1), (RepeatParser { parser: p }).accepts(i, v2, r2)]
            (RepeatParser { parser: p }).accepts(i, v1, r1) && (RepeatParser { parser: p }).accepts(
                i,
                v2,
                r2,
            ) ==> v1@ == v2@ && r1 == r2,
{
    let q = RepeatParser { parser: p };
    assert forall|i: Seq<char>, v1: Vec<O>, r1: Seq<char>, v2: Vec<O>, r2: Seq<char>|
        q.accepts(i, v1, r1) && q.accepts(i, v2, r2) implies v1@ == v2@ && r1 == r2 by {
        let o1 = v1@;
        let o2 = v2@;
        let t1 = choose|t: Seq<Seq<char>>|
            #[trigger] repeat_trace(p, t, o1) && t[0] == i && t[o1.len() as int] == r1;
        let t2 = choose|t: Seq<Seq<char>>|
            #[trigger] repeat_trace(p, t, o2) && t[0] == i && t[o2.len() as int] == r2;
        if o1.len() < o2.len() {
            lemma_traces_agree(p, t1, o1, t2, o2, o1.len() as int);
            assert(p.accepts(t2[o1.len() as int], o2[o1.len() as int], t2[o1.len() as int + 1]));
            assert(false);
        } else if o2.len() < o1.len() {
            lemma_traces_agree(p, t1, o1, t2, o2, o2.len() as int);
            assert(p.accepts(t1[o2.len() as int], o1[o2.len() as int], t1[o2.len() as int + 1]));
            assert(false);
        } else {
            lemma_traces_agree(p, t1, o1, t2, o2, o1.len() as int);
            assert(o1 =~= o2);
        }
    }
}

} // verus!
