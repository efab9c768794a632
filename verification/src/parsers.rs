use vstd::prelude::*;
use vstd::string::StrSliceExecFns;
use vstd::string::StringExecFns;

verus! {

/// Holds when `p` is a prefix of `s`.
pub open spec fn is_prefix(p: Seq<char>, s: Seq<char>) -> bool {
    p.len() <= s.len() && s.take(p.len() as int) == p
}

/// How many characters the first matching literal of `alts`, tried in
/// order, takes off the front of `input`; nothing when none matches.
pub open spec fn alt_match_len(alts: Seq<Seq<char>>, input: Seq<char>) -> Option<int>
    decreases alts.len(),
{
    if alts.len() == 0 {
        None
    } else if is_prefix(alts[0], input) {
        Some(alts[0].len() as int)
    } else {
        alt_match_len(alts.drop_first(), input)
    }
}

/// How many characters are consumed by greedily repeating the ordered
/// choice of literals `alts` against `input` until no alternative matches,
/// or the matching alternative is empty and repetition would stop making
/// progress.
pub open spec fn star_len(alts: Seq<Seq<char>>, input: Seq<char>) -> int
    decreases input.len(),
{
    match alt_match_len(alts, input) {
        None => 0,
        Some(k) => if 0 < k <= input.len() {
            k + star_len(alts, input.skip(k))
        } else {
            0
        },
    }
}

/// A parser over string slices: it splits an input into a parsed prefix and
/// the rest, or reports a message. Built by [`exact`], [`any_of`] and
/// [`zero_or_more`].
pub enum StrParser {
    /// Matches one fixed literal as a prefix of the input.
    Exact(&'static str),
    /// Tries each literal alternative in order; the first that is a prefix
    /// of the input wins.
    AnyOf(Vec<&'static str>),
    /// Greedily repeats an ordered choice of literal alternatives until
    /// none matches; never fails.
    ZeroOrMore(Vec<&'static str>),
}

/// The views of a list of literals.
pub open spec fn literal_views(alts: Seq<&'static str>) -> Seq<Seq<char>> {
    Seq::new(alts.len(), |i: int| alts[i]@)
}

/// The ordered literal alternatives a parser tries.
pub open spec fn alternatives(p: StrParser) -> Seq<Seq<char>> {
    match p {
        StrParser::Exact(lit) => seq![lit@],
        StrParser::AnyOf(alts) => literal_views(alts@),
        StrParser::ZeroOrMore(alts) => literal_views(alts@),
    }
}

/// How many characters of `input` the parser `p` consumes on success;
/// nothing on failure. Repetition always succeeds.
pub open spec fn str_parse(p: StrParser, input: Seq<char>) -> Option<int> {
    match p {
        StrParser::ZeroOrMore(_) => Some(star_len(alternatives(p), input)),
        _ => alt_match_len(alternatives(p), input),
    }
}

/// The message reported when a literal is not a prefix of the input.
pub open spec fn exact_err_msg(lit: Seq<char>, input: Seq<char>) -> Seq<char> {
    "expected `"@ + lit + "`, got unexpected `"@ + input + "`"@
}

/// The messages of the failed literal alternatives, joined by newlines.
pub open spec fn joined_err_msgs(alts: Seq<Seq<char>>, input: Seq<char>) -> Seq<char>
    decreases alts.len(),
{
    if alts.len() == 0 {
        Seq::<char>::empty()
    } else if alts.len() == 1 {
        exact_err_msg(alts[0], input)
    } else {
        joined_err_msgs(alts.drop_last(), input) + "\n"@ + exact_err_msg(alts.last(), input)
    }
}

/// The message a parser reports when it fails on `input`.
pub open spec fn str_parse_err_msg(p: StrParser, input: Seq<char>) -> Seq<char> {
    match p {
        StrParser::Exact(lit) => exact_err_msg(lit@, input),
        _ => "couldn't match any of:\n"@ + joined_err_msgs(alternatives(p), input),
    }
}

/// Whether `p` is a prefix of `s`, comparing character by character.
fn is_prefix_exec(p: &str, s: &str) -> (r: bool)
    ensures
        r == is_prefix(p@, s@),
{
    let pl = p.unicode_len();
    if pl > s.unicode_len() {
        proof {
            assert(!is_prefix(p@, s@));
        }
        return false;
    }
    let mut i: usize = 0;
    while i < pl
        invariant
            0 <= i <= pl,
            pl == p@.len(),
            pl <= s@.len(),
            forall|j: int| 0 <= j < i ==> p@[j] == s@[j],
        decreases pl - i,
    {
        if p.get_char(i) != s.get_char(i) {
            proof {
                assert(s@.take(pl as int)[i as int] != p@[i as int]);
            }
            return false;
        }
        i = i + 1;
    }
    proof {
        assert(s@.take(pl as int) =~= p@);
    }
    true
}

/// Constructs a parser that matches exactly the literal `expected` as a
/// prefix of its input.
pub fn exact(expected: &'static str) -> (r: StrParser)
    ensures
        r == StrParser::Exact(expected),
{
    StrParser::Exact(expected)
}

/// How many characters the first succeeding parser of `ps`, tried in order,
/// consumes from `input`; nothing when every one of them fails.
pub open spec fn seq_first_match(ps: Seq<StrParser>, input: Seq<char>) -> Option<int>
    decreases ps.len(),
{
    if ps.len() == 0 {
        None
    } else {
        match str_parse(ps[0], input) {
            Some(k) => Some(k),
            None => seq_first_match(ps.drop_first(), input),
        }
    }
}

/// The literal alternatives of a list of parsers, in order.
pub open spec fn flat_alternatives(ps: Seq<StrParser>) -> Seq<Seq<char>>
    decreases ps.len(),
{
    if ps.len() == 0 {
        Seq::<Seq<char>>::empty()
    } else {
        alternatives(ps[0]) + flat_alternatives(ps.drop_first())
    }
}

/// An ordered match over concatenated alternative lists asks the first list
/// first.
proof fn lemma_alt_match_concat(a: Seq<Seq<char>>, b: Seq<Seq<char>>, input: Seq<char>)
    ensures
        alt_match_len(a + b, input) == match alt_match_len(a, input) {
            Some(k) => Some(k),
            None => alt_match_len(b, input),
        },
    decreases a.len(),
{
    if a.len() == 0 {
        assert(a + b =~= b);
    } else {
        assert((a + b)[0] == a[0]);
        if !is_prefix(a[0], input) {
            lemma_alt_match_concat(a.drop_first(), b, input);
            assert((a + b).drop_first() =~= a.drop_first() + b);
        }
    }
}

/// An ordered match over the flattened alternatives of a list of parsers,
/// none of which is a repetition, is the first match over the parsers.
proof fn lemma_first_match_flat(ps: Seq<StrParser>, input: Seq<char>)
    requires
        forall|i: int| 0 <= i < ps.len() ==> !(#[trigger] ps[i] is ZeroOrMore),
    ensures
        alt_match_len(flat_alternatives(ps), input) == seq_first_match(ps, input),
    decreases ps.len(),
{
    if ps.len() > 0 {
        lemma_alt_match_concat(alternatives(ps[0]), flat_alternatives(ps.drop_first()), input);
        lemma_first_match_flat(ps.drop_first(), input);
    }
}

/// Adding a parser at the end adds its alternatives at the end.
proof fn lemma_flat_alternatives_snoc(ps: Seq<StrParser>, x: StrParser)
    ensures
        flat_alternatives(ps.push(x)) =~= flat_alternatives(ps) + alternatives(x),
    decreases ps.len(),
{
    if ps.len() == 0 {
        assert(ps.push(x).drop_first() =~= Seq::<StrParser>::empty());
        assert(ps.push(x)[0] == x);
        assert(flat_alternatives(Seq::<StrParser>::empty()) =~= Seq::<Seq<char>>::empty());
        assert(flat_alternatives(ps) =~= Seq::<Seq<char>>::empty());
        assert(flat_alternatives(ps.push(x)) =~= alternatives(x) + Seq::<Seq<char>>::empty());
    } else {
        lemma_flat_alternatives_snoc(ps.drop_first(), x);
        assert(ps.push(x).drop_first() =~= ps.drop_first().push(x));
        assert(ps.push(x)[0] == ps[0]);
    }
}

/// Constructs a parser that tries each of `parsers` in order against its
/// input and returns the first success; when all fail, it fails with their
/// pooled messages. An alternative that can match nothing would always win,
/// so a repetition is not accepted here.
pub fn any_of(parsers: Vec<StrParser>) -> (r: StrParser)
    requires
        forall|i: int| 0 <= i < parsers@.len() ==> !(#[trigger] parsers@[i] is ZeroOrMore),
    ensures
        forall|input: Seq<char>| str_parse(r, input) == seq_first_match(parsers@, input),
{
    let mut alts: Vec<&'static str> = Vec::new();
    let mut i: usize = 0;
    proof {
        assert(literal_views(alts@) =~= flat_alternatives(parsers@.take(0)));
    }
    while i < parsers.len()
        invariant
            0 <= i <= parsers@.len(),
            forall|n: int| 0 <= n < parsers@.len() ==> !(#[trigger] parsers@[n] is ZeroOrMore),
            literal_views(alts@) == flat_alternatives(parsers@.take(i as int)),
        decreases parsers@.len() - i,
    {
        let ghost before = alts@;
        match &parsers[i] {
            StrParser::Exact(l) => {
                alts.push(*l);
                proof {
                    assert(literal_views(alts@) =~= literal_views(before).push(l@));
                }
            },
            StrParser::AnyOf(v) => {
                let mut j: usize = 0;
                while j < v.len()
                    invariant
                        0 <= j <= v@.len(),
                        literal_views(alts@) == literal_views(before) + literal_views(
                            v@.take(j as int),
                        ),
                    decreases v@.len() - j,
                {
                    let ghost mid = alts@;
                    alts.push(v[j]);
                    proof {
                        assert(literal_views(alts@) =~= literal_views(mid).push(v@[j as int]@));
                        assert(literal_views(v@.take(j + 1 as int)) =~= literal_views(
                            v@.take(j as int),
                        ).push(v@[j as int]@));
                        assert(literal_views(before) + literal_views(v@.take(j + 1 as int)) =~= (
                        literal_views(before) + literal_views(v@.take(j as int))).push(
                            v@[j as int]@,
                        ));
                    }
                    j = j + 1;
                }
                proof {
                    assert(v@.take(v@.len() as int) =~= v@);
                }
            },
            StrParser::ZeroOrMore(_) => {
                proof {
                    assert(false);
                }
            },
        }
        proof {
            lemma_flat_alternatives_snoc(parsers@.take(i as int), parsers@[i as int]);
            assert(parsers@.take(i + 1 as int) =~= parsers@.take(i as int).push(
                parsers@[i as int],
            ));
            assert(literal_views(alts@) =~= flat_alternatives(parsers@.take(i + 1 as int)));
        }
        i = i + 1;
    }
    let r = StrParser::AnyOf(alts);
    proof {
        assert(parsers@.take(parsers@.len() as int) =~= parsers@);
        assert forall|input: Seq<char>|
            str_parse(r, input) == seq_first_match(parsers@, input) by {
            lemma_first_match_flat(parsers@, input);
        }
    }
    r
}

/// How many characters are consumed by greedily repeating the parser `p`
/// against `input` until it fails, or until it succeeds without consuming
/// and repetition would stop making progress.
pub open spec fn star_of(p: StrParser, input: Seq<char>) -> int
    decreases input.len(),
{
    match str_parse(p, input) {
        None => 0,
        Some(k) => if 0 < k <= input.len() {
            k + star_of(p, input.skip(k))
        } else {
            0
        },
    }
}

/// A match never consumes more than the input has.
proof fn lemma_star_in_bounds(alts: Seq<Seq<char>>, input: Seq<char>)
    ensures
        0 <= star_len(alts, input) <= input.len(),
    decreases input.len(),
{
    lemma_alt_match_in_bounds(alts, input);
    match alt_match_len(alts, input) {
        None => {},
        Some(k) => {
            if 0 < k <= input.len() {
                lemma_star_in_bounds(alts, input.skip(k));
            }
        },
    }
}

/// Greedy repetition of a parser that is not itself a repetition consumes
/// what greedy repetition of its alternatives consumes.
proof fn lemma_star_of_plain(p: StrParser, input: Seq<char>)
    requires
        !(p is ZeroOrMore),
    ensures
        star_of(p, input) == star_len(alternatives(p), input),
    decreases input.len(),
{
    match alt_match_len(alternatives(p), input) {
        None => {},
        Some(k) => {
            if 0 < k <= input.len() {
                lemma_star_of_plain(p, input.skip(k));
            }
        },
    }
}

/// After a greedy repetition nothing more is consumed: repeating again from
/// where it stopped consumes nothing.
proof fn lemma_star_exhausts(alts: Seq<Seq<char>>, input: Seq<char>)
    ensures
        star_len(alts, input.skip(star_len(alts, input))) == 0,
    decreases input.len(),
{
    match alt_match_len(alts, input) {
        None => {
            assert(input.skip(0) =~= input);
        },
        Some(k) => {
            if 0 < k <= input.len() {
                lemma_star_exhausts(alts, input.skip(k));
                lemma_star_in_bounds(alts, input.skip(k));
                assert(input.skip(k).skip(star_len(alts, input.skip(k))) =~= input.skip(
                    k + star_len(alts, input.skip(k)),
                ));
            } else {
                assert(input.skip(0) =~= input);
            }
        },
    }
}

/// Repeating a repetition consumes what one repetition consumes: greedy
/// repetition exhausts its input on the first pass.
proof fn lemma_star_of_rep(p: StrParser, input: Seq<char>)
    requires
        p is ZeroOrMore,
    ensures
        star_of(p, input) == star_len(alternatives(p), input),
    decreases input.len(),
{
    let alts = alternatives(p);
    let k = star_len(alts, input);
    lemma_star_in_bounds(alts, input);
    if 0 < k <= input.len() {
        lemma_star_of_rep(p, input.skip(k));
        lemma_star_exhausts(alts, input);
    }
}

/// Constructs a parser that applies `parser` greedily, zero or more times,
/// until it fails; the repetition itself never fails.
pub fn zero_or_more(parser: StrParser) -> (r: StrParser)
    ensures
        forall|input: Seq<char>| str_parse(r, input) == Some(star_of(parser, input)),
{
    match parser {
        StrParser::Exact(l) => {
            let alts = vec![l];
            let r = StrParser::ZeroOrMore(alts);
            proof {
                assert(literal_views(alts@) =~= seq![l@]);
                assert forall|input: Seq<char>|
                    str_parse(r, input) == Some(star_of(parser, input)) by {
                    lemma_star_of_plain(parser, input);
                }
            }
            r
        },
        StrParser::AnyOf(v) => {
            let r = StrParser::ZeroOrMore(v);
            proof {
                assert forall|input: Seq<char>|
                    str_parse(r, input) == Some(star_of(parser, input)) by {
                    lemma_star_of_plain(parser, input);
                }
            }
            r
        },
        StrParser::ZeroOrMore(v) => {
            let r = StrParser::ZeroOrMore(v);
            proof {
                assert forall|input: Seq<char>|
                    str_parse(r, input) == Some(star_of(parser, input)) by {
                    lemma_star_of_rep(parser, input);
                }
            }
            r
        },
    }
}

/// When none of the first `i` alternatives is a prefix of the input, the
/// match is decided by the remaining ones.
proof fn lemma_alt_match_skip(alts: Seq<Seq<char>>, input: Seq<char>, i: int)
    requires
        0 <= i <= alts.len(),
        forall|j: int| 0 <= j < i ==> !is_prefix(#[trigger] alts[j], input),
    ensures
        alt_match_len(alts, input) == alt_match_len(alts.skip(i), input),
    decreases i,
{
    if i > 0 {
        lemma_alt_match_skip(alts.drop_first(), input, i - 1);
        assert(alts.drop_first().skip(i - 1) =~= alts.skip(i));
    } else {
        assert(alts.skip(0) =~= alts);
    }
}

/// A matching alternative consumes no more than the input has.
proof fn lemma_alt_match_in_bounds(alts: Seq<Seq<char>>, input: Seq<char>)
    ensures
        alt_match_len(alts, input) matches Some(k) ==> 0 <= k <= input.len(),
    decreases alts.len(),
{
    if alts.len() > 0 && !is_prefix(alts[0], input) {
        lemma_alt_match_in_bounds(alts.drop_first(), input);
    }
}

/// How many characters the first matching literal of `alts` takes off the
/// front of `input`, or nothing when none matches.
fn first_match_len(alts: &Vec<&'static str>, input: &str) -> (r: Option<usize>)
    ensures
        match r {
            Some(k) => alt_match_len(literal_views(alts@), input@) == Some(k as int) && k
                <= input@.len(),
            None => alt_match_len(literal_views(alts@), input@) is None,
        },
{
    let ghost views = literal_views(alts@);
    let mut i: usize = 0;
    while i < alts.len()
        invariant
            0 <= i <= alts.len(),
            views == literal_views(alts@),
            forall|j: int| 0 <= j < i ==> !is_prefix(#[trigger] views[j], input@),
        decreases alts.len() - i,
    {
        if is_prefix_exec(alts[i], input) {
            let k = alts[i].unicode_len();
            proof {
                lemma_alt_match_skip(views, input@, i as int);
                assert(views.skip(i as int)[0] == views[i as int]);
            }
            return Some(k);
        }
        i = i + 1;
    }
    proof {
        lemma_alt_match_skip(views, input@, i as int);
        assert(views.skip(i as int) =~= Seq::<Seq<char>>::empty());
    }
    None
}

/// Appends to `m` the message for the literal `lit` failing on `input`.
fn append_exact_err_msg(m: &mut String, lit: &str, input: &str)
    ensures
        final(m)@ == old(m)@ + exact_err_msg(lit@, input@),
{
    m.append("expected `");
    m.append(lit);
    m.append("`, got unexpected `");
    m.append(input);
    m.append("`");
    proof {
        assert(final(m)@ =~= old(m)@ + exact_err_msg(lit@, input@));
    }
}

impl StrParser {
    /// Runs this parser against `input`: on success, the rest of the input
    /// and the parsed prefix; on failure, a message naming what was
    /// expected and what stood there instead.
    pub fn parse<'a>(&self, input: &'a str) -> (r: Result<(&'a str, &'a str), String>)
        ensures
            match str_parse(*self, input@) {
                Some(k) => r matches Ok(p) && p.0@ == input@.skip(k) && p.1@ == input@.take(k),
                None => r matches Err(m) && m@ == str_parse_err_msg(*self, input@),
            },
    {
        let input_len = input.unicode_len();
        match self {
            StrParser::Exact(lit) => {
                proof {
                    assert(alternatives(*self) == seq![lit@]);
                    assert(seq![lit@][0] == lit@);
                    assert(seq![lit@].drop_first() =~= Seq::<Seq<char>>::empty());
                }
                if is_prefix_exec(lit, input) {
                    let k = lit.unicode_len();
                    proof {
                        assert(str_parse(*self, input@) == Some(lit@.len() as int));
                    }
                    let rest = input.substring_char(k, input_len);
                    let matched = input.substring_char(0, k);
                    proof {
                        assert(rest@ =~= input@.skip(k as int));
                        assert(matched@ =~= input@.take(k as int));
                    }
                    Ok((rest, matched))
                } else {
                    proof {
                        assert(alt_match_len(seq![lit@].drop_first(), input@) is None);
                        assert(str_parse(*self, input@) is None);
                    }
                    let mut m = String::new();
                    append_exact_err_msg(&mut m, lit, input);
                    proof {
                        assert(m@ =~= exact_err_msg(lit@, input@));
                    }
                    Err(m)
                }
            },
            StrParser::AnyOf(alts) => {
                let ghost views = literal_views(alts@);
                match first_match_len(alts, input) {
                    Some(k) => {
                        let rest = input.substring_char(k, input_len);
                        let matched = input.substring_char(0, k);
                        proof {
                            assert(rest@ =~= input@.skip(k as int));
                            assert(matched@ =~= input@.take(k as int));
                        }
                        Ok((rest, matched))
                    },
                    None => {
                        let mut m = String::from_str("couldn't match any of:\n");
                        let mut i: usize = 0;
                        while i < alts.len()
                            invariant
                                0 <= i <= alts.len(),
                                views == literal_views(alts@),
                                m@ == "couldn't match any of:\n"@ + joined_err_msgs(
                                    views.take(i as int),
                                    input@,
                                ),
                            decreases alts.len() - i,
                        {
                            if i > 0 {
                                m.append("\n");
                            }
                            append_exact_err_msg(&mut m, alts[i], input);
                            proof {
                                assert(views.take(i + 1 as int).drop_last() =~= views.take(
                                    i as int,
                                ));
                                assert(views.take(i + 1 as int).last() == views[i as int]);
                                if i == 0 {
                                    assert(m@ =~= "couldn't match any of:\n"@ + joined_err_msgs(
                                        views.take(i + 1 as int),
                                        input@,
                                    ));
                                } else {
                                    assert(m@ =~= "couldn't match any of:\n"@ + joined_err_msgs(
                                        views.take(i + 1 as int),
                                        input@,
                                    ));
                                }
                            }
                            i = i + 1;
                        }
                        proof {
                            assert(views.take(i as int) =~= views);
                        }
                        Err(m)
                    },
                }
            },
            StrParser::ZeroOrMore(alts) => {
                let ghost views = literal_views(alts@);
                let mut consumed: usize = 0;
                proof {
                    assert(input@.skip(0) =~= input@);
                }
                loop
                    invariant_except_break
                        0 <= consumed <= input@.len(),
                        views == literal_views(alts@),
                        input_len == input@.len(),
                        star_len(views, input@) == consumed + star_len(
                            views,
                            input@.skip(consumed as int),
                        ),
                    ensures
                        0 <= consumed <= input@.len(),
                        input_len == input@.len(),
                        star_len(views, input@) == consumed,
                    decreases input@.len() - consumed,
                {
                    let rest = input.substring_char(consumed, input_len);
                    proof {
                        assert(rest@ =~= input@.skip(consumed as int));
                    }
                    match first_match_len(alts, rest) {
                        Some(k) => {
                            if k == 0 {
                                proof {
                                    assert(star_len(views, input@.skip(consumed as int)) == 0);
                                }
                                break ;
                            }
                            proof {
                                assert(star_len(views, input@.skip(consumed as int)) == k
                                    + star_len(views, input@.skip(consumed as int).skip(k as int)));
                                assert(input@.skip(consumed as int).skip(k as int) =~= input@.skip(
                                    consumed + k as int,
                                ));
                            }
                            consumed = consumed + k;
                        },
                        None => {
                            proof {
                                assert(star_len(views, input@.skip(consumed as int)) == 0);
                            }
                            break ;
                        },
                    }
                }
                let rest = input.substring_char(consumed, input_len);
                let matched = input.substring_char(0, consumed);
                proof {
                    assert(rest@ =~= input@.skip(consumed as int));
                    assert(matched@ =~= input@.take(consumed as int));
                }
                Ok((rest, matched))
            },
        }
    }
}

/// One of the three characters this module treats as whitespace.
pub open spec fn is_whitespace_char(c: char) -> bool {
    c == ' ' || c == '\t' || c == '\n'
}

/// A one-character literal is a prefix exactly of inputs that start with
/// that character.
proof fn lemma_single_char_prefix(c: char, s: Seq<char>)
    ensures
        is_prefix(seq![c], s) <==> (s.len() > 0 && s[0] == c),
{
    if s.len() > 0 && s[0] == c {
        assert(s.take(1) =~= seq![c]);
    }
    if is_prefix(seq![c], s) {
        assert(s.take(1)[0] == s[0]);
    }
}

/// An exact parser for a one-character literal matches one character
/// exactly when the input starts with that character.
proof fn lemma_exact_single(lit: &'static str, c: char, t: Seq<char>)
    requires
        lit@ == seq![c],
    ensures
        str_parse(StrParser::Exact(lit), t) == (if t.len() > 0 && t[0] == c {
            Some(1int)
        } else {
            None::<int>
        }),
{
    lemma_single_char_prefix(c, t);
    assert(seq![lit@][0] == lit@);
    if t.len() > 0 && t[0] == c {
        assert(alt_match_len(seq![lit@], t) == Some(1int));
    } else {
        assert(seq![lit@].drop_first() =~= Seq::<Seq<char>>::empty());
        assert(alt_match_len(Seq::<Seq<char>>::empty(), t) is None);
        assert(alt_match_len(seq![lit@], t) is None);
    }
}

/// Trying the whitespace literals in order matches one character exactly
/// when the input starts with a whitespace character.
proof fn lemma_ws_choice(ps: Seq<StrParser>, t: Seq<char>)
    requires
        ps == seq![
            StrParser::Exact(" "),
            StrParser::Exact("\t"),
            StrParser::Exact("\n"),
        ],
    ensures
        seq_first_match(ps, t) == (if t.len() > 0 && is_whitespace_char(t[0]) {
            Some(1int)
        } else {
            None::<int>
        }),
{
    reveal_strlit(" ");
    reveal_strlit("\t");
    reveal_strlit("\n");
    assert(" "@ =~= seq![' ']);
    assert("\t"@ =~= seq!['\t']);
    assert("\n"@ =~= seq!['\n']);
    lemma_exact_single(" ", ' ', t);
    lemma_exact_single("\t", '\t', t);
    lemma_exact_single("\n", '\n', t);
    let ps1 = ps.drop_first();
    let ps2 = ps1.drop_first();
    let ps3 = ps2.drop_first();
    assert(ps[0] == StrParser::Exact(" "));
    assert(ps1[0] == StrParser::Exact("\t"));
    assert(ps2[0] == StrParser::Exact("\n"));
    assert(ps3 =~= Seq::<StrParser>::empty());
    assert(seq_first_match(ps3, t) is None);
    if t.len() > 0 && t[0] == ' ' {
        assert(seq_first_match(ps, t) == Some(1int));
    } else if t.len() > 0 && t[0] == '\t' {
        assert(seq_first_match(ps1, t) == Some(1int));
        assert(seq_first_match(ps, t) == Some(1int));
    } else if t.len() > 0 && t[0] == '\n' {
        assert(seq_first_match(ps2, t) == Some(1int));
        assert(seq_first_match(ps1, t) == Some(1int));
        assert(seq_first_match(ps, t) == Some(1int));
    } else {
        assert(seq_first_match(ps2, t) is None);
        assert(seq_first_match(ps1, t) is None);
        assert(seq_first_match(ps, t) is None);
    }
}

/// Parses one whitespace character — a space, a tab or a newline — off the
/// front of the input.
pub fn whitespace<'a>(input: &'a str) -> (r: Result<(&'a str, &'a str), String>)
    ensures
        input@.len() > 0 && is_whitespace_char(input@[0]) ==> (r matches Ok(p) && p.0@
            == input@.skip(1) && p.1@ == input@.take(1)),
        !(input@.len() > 0 && is_whitespace_char(input@[0])) ==> r is Err,
{
    let parse_whitespace = exact(" ");
    let parse_tab = exact("\t");
    let parse_new_line = exact("\n");
    let alternatives_list = vec![parse_whitespace, parse_tab, parse_new_line];
    let ghost gps = alternatives_list@;
    let parse_any_whitespace = any_of(alternatives_list);
    proof {
        assert(gps == seq![
            StrParser::Exact(" "),
            StrParser::Exact("\t"),
            StrParser::Exact("\n"),
        ]);
        lemma_ws_choice(gps, input@);
    }
    parse_any_whitespace.parse(input)
}

/// How many whitespace characters stand at the front of `s`.
pub open spec fn leading_whitespace(s: Seq<char>) -> int
    decreases s.len(),
{
    if s.len() > 0 && is_whitespace_char(s[0]) {
        1 + leading_whitespace(s.drop_first())
    } else {
        0
    }
}

/// Greedy repetition of a parser that takes one whitespace character at a
/// time consumes exactly the leading whitespace.
proof fn lemma_star_of_ws(p: StrParser, s: Seq<char>)
    requires
        forall|t: Seq<char>| #[trigger] str_parse(p, t) == (if t.len() > 0 && is_whitespace_char(
            t[0],
        ) {
            Some(1int)
        } else {
            None::<int>
        }),
    ensures
        star_of(p, s) == leading_whitespace(s),
    decreases s.len(),
{
    if s.len() > 0 && is_whitespace_char(s[0]) {
        lemma_star_of_ws(p, s.skip(1));
        assert(s.skip(1) =~= s.drop_first());
    }
}

/// Parses every whitespace character at the front of the input — possibly
/// none — and never fails.
pub fn whitespaces<'a>(input: &'a str) -> (r: Result<(&'a str, &'a str), String>)
    ensures
        r matches Ok(p) && p.0@ == input@.skip(leading_whitespace(input@)) && p.1@ == input@.take(
            leading_whitespace(input@),
        ),
{
    let alternatives_list = vec![exact(" "), exact("\t"), exact("\n")];
    let ghost gps = alternatives_list@;
    let parse_any_whitespace = any_of(alternatives_list);
    let ghost pany = parse_any_whitespace;
    let parse_whitespaces = zero_or_more(parse_any_whitespace);
    proof {
        assert(gps == seq![
            StrParser::Exact(" "),
            StrParser::Exact("\t"),
            StrParser::Exact("\n"),
        ]);
        assert forall|t: Seq<char>|
            #[trigger] str_parse(pany, t) == (if t.len() > 0 && is_whitespace_char(t[0]) {
                Some(1int)
            } else {
                None::<int>
            }) by {
            lemma_ws_choice(gps, t);
        }
        lemma_star_of_ws(pany, input@);
    }
    parse_whitespaces.parse(input)
}

/// Relies on char::is_alphabetic: whether a character is alphabetic is a
/// function of the character alone.
pub uninterp spec fn alphabetic(c: char) -> bool;

/// Relies on char::is_alphabetic for the whole classification.
#[verifier::external_body]
fn char_is_alphabetic(c: char) -> (r: bool)
    ensures
        r == alphabetic(c),
{
    c.is_alphabetic()
}

/// Relies on char::is_alphanumeric: whether a character is alphanumeric is
/// a function of the character alone.
pub uninterp spec fn alphanumeric(c: char) -> bool;

/// Relies on char::is_alphanumeric for the whole classification.
#[verifier::external_body]
fn char_is_alphanumeric(c: char) -> (r: bool)
    ensures
        r == alphanumeric(c),
{
    c.is_alphanumeric()
}

/// A character that may open an identifier: alphabetic or an underscore.
pub open spec fn is_ident_start(c: char) -> bool {
    alphabetic(c) || c == '_'
}

/// A character that may continue an identifier: alphanumeric or an
/// underscore.
pub open spec fn is_ident_char(c: char) -> bool {
    alphanumeric(c) || c == '_'
}

/// How many identifier characters run from position `i` of `s`.
pub open spec fn ident_run(s: Seq<char>, i: int) -> int
    decreases s.len() - i,
{
    if 0 <= i < s.len() && is_ident_char(s[i]) {
        1 + ident_run(s, i + 1)
    } else {
        0
    }
}

/// Parses an identifier off the front of the input: an alphabetic character
/// or an underscore, followed by the longest run of alphanumeric characters
/// and underscores.
pub fn identifier<'a>(input: &'a str) -> (r: Result<(&'a str, &'a str), String>)
    ensures
        input@.len() > 0 && is_ident_start(input@[0]) ==> (r matches Ok(p) && ({
            let k = 1 + ident_run(input@, 1);
            p.0@ == input@.skip(k) && p.1@ == input@.take(k)
        })),
        !(input@.len() > 0 && is_ident_start(input@[0])) ==> (r matches Err(m) && m@
            == "expected `IDENTIFIER`, got unexpected end of input"@),
{
    let len = input.unicode_len();
    if len == 0 {
        return Err(String::from_str("expected `IDENTIFIER`, got unexpected end of input"));
    }
    let c0 = input.get_char(0);
    if !(char_is_alphabetic(c0) || c0 == '_') {
        return Err(String::from_str("expected `IDENTIFIER`, got unexpected end of input"));
    }
    let mut i: usize = 1;
    loop
        invariant_except_break
            1 <= i <= len,
            len == input@.len(),
            ident_run(input@, 1) == (i - 1) + ident_run(input@, i as int),
        ensures
            1 <= i <= len,
            len == input@.len(),
            ident_run(input@, 1) == i - 1,
        decreases len - i,
    {
        if i >= len {
            proof {
                assert(ident_run(input@, i as int) == 0);
            }
            break ;
        }
        let c = input.get_char(i);
        if char_is_alphanumeric(c) || c == '_' {
            proof {
                assert(ident_run(input@, i as int) == 1 + ident_run(input@, i + 1 as int));
            }
            i = i + 1;
        } else {
            proof {
                assert(ident_run(input@, i as int) == 0);
            }
            break ;
        }
    }
    let rest = input.substring_char(i, len);
    let matched = input.substring_char(0, i);
    proof {
        assert(rest@ =~= input@.skip(i as int));
        assert(matched@ =~= input@.take(i as int));
    }
    Ok((rest, matched))
}

} // verus!
