//! Laws relating parses of different token sequences.
use vstd::prelude::*;
use crate::error::FailModel;
use crate::matcher::{
    advance, apply, apply_shorts, find_eq, parse_model, record, scan, start, step, terminator,
    Scan,
};
use crate::parser::{lookup, name_of, Argument, HasArg, Occur, OptParser};
use crate::table::{display_name, occur_failure, violation};

verus! {

/// Two outcomes agree on everything but the index of the next token.
pub open spec fn same_outcome(a: Result<Scan, FailModel>, b: Result<Scan, FailModel>) -> bool {
    match (a, b) {
        (Ok(x), Ok(y)) => x.vals == y.vals && x.counts == y.counts && x.free == y.free,
        (Err(x), Err(y)) => x == y,
        _ => false,
    }
}

/// `s` holds no `=`.
pub open spec fn no_eq(s: Seq<char>) -> bool {
    forall|k: int| 0 <= k < s.len() ==> s[k] != '='
}

/// The first `=` of `s`, when none stands before `k`, is the one at `k`.
proof fn lemma_find_eq(s: Seq<char>, from: int, k: int)
    requires
        0 <= from <= k <= s.len(),
        forall|j: int| from <= j < k ==> s[j] != '=',
    ensures
        k < s.len() && s[k] == '=' ==> find_eq(s, from) == Some(k),
        k == s.len() ==> find_eq(s, from) is None,
    decreases k - from,
{
    if from < k {
        lemma_find_eq(s, from + 1, k);
    }
}

/// The first failure, when none stands before `i`, is the one at `i`; and
/// there is none when no definition fails.
proof fn lemma_violation(defs: Seq<Argument>, counts: Seq<nat>, from: int, i: int)
    requires
        0 <= from <= i <= defs.len(),
        forall|j: int| from <= j < i ==> occur_failure(defs[j], counts[j]) is None,
    ensures
        i < defs.len() && occur_failure(defs[i], counts[i]) is Some ==> violation(defs, counts, from)
            == occur_failure(defs[i], counts[i]),
        i == defs.len() ==> violation(defs, counts, from) is None,
    decreases i - from,
{
    if from < i {
        lemma_violation(defs, counts, from + 1, i);
    }
}

/// The outcome of a parse whose scan ended in a state: the first failing
/// occurrence policy, if any.
proof fn lemma_parse_of_scan(defs: Seq<Argument>, strict: bool, toks: Seq<Seq<char>>, s: Scan)
    requires
        scan(defs, strict, toks, start(defs.len())) == Ok::<Scan, FailModel>(s),
    ensures
        parse_model(defs, strict, toks) == match violation(defs, s.counts, 0) {
            Some(e) => Err::<Scan, FailModel>(e),
            None => Ok(s),
        },
{
}

/// A value written after `=` in a long option and a value given as the next
/// token are captured alike, for an option that requires a value.
pub proof fn law_inline_value(
    defs: Seq<Argument>,
    strict: bool,
    n: Seq<char>,
    v: Seq<char>,
)
    requires
        n.len() > 1,
        no_eq(n),
        lookup(defs, (true, n)) matches Some(i) && defs[i].hasarg == HasArg::YES,
    ensures
        same_outcome(
            parse_model(defs, strict, seq![seq!['-', '-'] + n + seq!['='] + v]),
            parse_model(defs, strict, seq![seq!['-', '-'] + n, v]),
        ),
        parse_model(defs, strict, seq![seq!['-', '-'] + n + seq!['='] + v]) matches Ok(s) ==> s.vals[
            lookup(defs, (true, n))->Some_0
        ] == seq![Some(v)],
{
    let i = lookup(defs, (true, n))->Some_0;
    let s0 = start(defs.len());
    let t1 = seq!['-', '-'] + n + seq!['='] + v;
    let t2 = seq!['-', '-'] + n;
    let a = seq![t1];
    let b = seq![t2, v];
    crate::parser::lemma_lookup_range(defs, (true, n), 0);
    let tail1 = t1.subrange(2, t1.len() as int);
    assert(tail1 =~= n + seq!['='] + v);
    lemma_find_eq(tail1, 0, n.len() as int);
    assert(tail1.subrange(0, n.len() as int) =~= n);
    assert(tail1.subrange(n.len() as int + 1, tail1.len() as int) =~= v);
    assert(t1 != terminator()) by {
        assert(t1.len() != 2);
    }
    let r1 = record(advance(s0), i, Some(Some(v)));
    assert(step(defs, strict, a, s0) == Ok::<Scan, FailModel>(r1));
    assert(scan(defs, strict, a, r1) == Ok::<Scan, FailModel>(r1));
    assert(scan(defs, strict, a, s0) == Ok::<Scan, FailModel>(r1));
    let tail2 = t2.subrange(2, t2.len() as int);
    assert(tail2 =~= n);
    lemma_find_eq(tail2, 0, n.len() as int);
    assert(t2 != terminator()) by {
        assert(t2.len() != 2);
    }
    let r2 = record(advance(advance(s0)), i, Some(Some(v)));
    assert(step(defs, strict, b, s0) == Ok::<Scan, FailModel>(r2));
    assert(scan(defs, strict, b, r2) == Ok::<Scan, FailModel>(r2));
    assert(scan(defs, strict, b, s0) == Ok::<Scan, FailModel>(r2));
    lemma_parse_of_scan(defs, strict, a, r1);
    lemma_parse_of_scan(defs, strict, b, r2);
    assert(r1.counts == r2.counts);
}

/// Flags clustered behind one `-` are the same as each given on its own.
pub proof fn law_clustered_flags(
    defs: Seq<Argument>,
    strict: bool,
    x: char,
    y: char,
    z: char,
)
    requires
        x != '-' && y != '-' && z != '-',
        lookup(defs, (false, seq![x])) matches Some(i) && defs[i].hasarg == HasArg::NO,
        lookup(defs, (false, seq![y])) matches Some(i) && defs[i].hasarg == HasArg::NO,
        lookup(defs, (false, seq![z])) matches Some(i) && defs[i].hasarg == HasArg::NO,
    ensures
        same_outcome(
            parse_model(defs, strict, seq![seq!['-', x, y, z]]),
            parse_model(defs, strict, seq![seq!['-', x], seq!['-', y], seq!['-', z]]),
        ),
{
    crate::parser::lemma_lookup_range(defs, (false, seq![x]), 0);
    crate::parser::lemma_lookup_range(defs, (false, seq![y]), 0);
    crate::parser::lemma_lookup_range(defs, (false, seq![z]), 0);
    let ix = lookup(defs, (false, seq![x]))->Some_0;
    let iy = lookup(defs, (false, seq![y]))->Some_0;
    let iz = lookup(defs, (false, seq![z]))->Some_0;
    let s0 = start(defs.len());
    let a = seq![seq!['-', x, y, z]];
    let b = seq![seq!['-', x], seq!['-', y], seq!['-', z]];
    let ra = record(record(record(advance(s0), ix, None), iy, None), iz, None);
    let cs = seq!['-', x, y, z].subrange(1, 4);
    assert(cs =~= seq![x, y, z]);
    assert(cs.drop_first() =~= seq![y, z]);
    assert(cs.drop_first().drop_first() =~= seq![z]);
    assert(cs.drop_first().drop_first().drop_first() =~= Seq::<char>::empty());
    assert(seq!['-', x, y, z] != terminator());
    assert(apply_shorts(defs, a, record(record(advance(s0), ix, None), iy, None), seq![z]) == Ok::<
        Scan,
        FailModel,
    >(ra)) by {
        assert(seq![z].drop_first() =~= Seq::<char>::empty());
        assert(apply_shorts(defs, a, ra, Seq::<char>::empty()) == Ok::<Scan, FailModel>(ra));
    }
    assert(apply_shorts(defs, a, record(advance(s0), ix, None), seq![y, z]) == Ok::<
        Scan,
        FailModel,
    >(ra)) by {
        assert(seq![y, z].drop_first() =~= seq![z]);
    }
    assert(apply_shorts(defs, a, advance(s0), cs) == Ok::<Scan, FailModel>(ra));
    assert(step(defs, strict, a, s0) == Ok::<Scan, FailModel>(ra));
    assert(scan(defs, strict, a, ra) == Ok::<Scan, FailModel>(ra));
    assert(scan(defs, strict, a, s0) == Ok::<Scan, FailModel>(ra));

    let b1 = record(advance(s0), ix, None);
    let b2 = record(advance(b1), iy, None);
    let b3 = record(advance(b2), iz, None);
    assert(seq!['-', x].subrange(1, 2) =~= seq![x]);
    assert(seq!['-', y].subrange(1, 2) =~= seq![y]);
    assert(seq!['-', z].subrange(1, 2) =~= seq![z]);
    assert(seq![x].drop_first() =~= Seq::<char>::empty());
    assert(seq![y].drop_first() =~= Seq::<char>::empty());
    assert(seq![z].drop_first() =~= Seq::<char>::empty());
    assert(apply_shorts(defs, b, b1, Seq::<char>::empty()) == Ok::<Scan, FailModel>(b1));
    assert(apply_shorts(defs, b, b2, Seq::<char>::empty()) == Ok::<Scan, FailModel>(b2));
    assert(apply_shorts(defs, b, b3, Seq::<char>::empty()) == Ok::<Scan, FailModel>(b3));
    assert(apply_shorts(defs, b, advance(s0), seq![x]) == Ok::<Scan, FailModel>(b1));
    assert(apply_shorts(defs, b, advance(b1), seq![y]) == Ok::<Scan, FailModel>(b2));
    assert(apply_shorts(defs, b, advance(b2), seq![z]) == Ok::<Scan, FailModel>(b3));
    assert(step(defs, strict, b, s0) == Ok::<Scan, FailModel>(b1));
    assert(step(defs, strict, b, b1) == Ok::<Scan, FailModel>(b2));
    assert(step(defs, strict, b, b2) == Ok::<Scan, FailModel>(b3));
    assert(scan(defs, strict, b, b3) == Ok::<Scan, FailModel>(b3));
    assert(scan(defs, strict, b, b2) == Ok::<Scan, FailModel>(b3));
    assert(scan(defs, strict, b, b1) == Ok::<Scan, FailModel>(b3));
    assert(scan(defs, strict, b, s0) == Ok::<Scan, FailModel>(b3));
    lemma_parse_of_scan(defs, strict, a, ra);
    lemma_parse_of_scan(defs, strict, b, b3);
}

/// An option required exactly once that the scan never met makes the parse
/// fail; with no earlier definition failing, it fails as missing that option.
pub proof fn law_missing(defs: Seq<Argument>, strict: bool, toks: Seq<Seq<char>>, i: int)
    requires
        0 <= i < defs.len(),
        defs[i].occur == Occur::Once,
        scan(defs, strict, toks, start(defs.len())) matches Ok(s) && s.counts[i] == 0,
    ensures
        parse_model(defs, strict, toks) is Err,
        (forall|j: int|
            0 <= j < i ==> occur_failure(defs[j], scan(defs, strict, toks, start(defs.len()))->Ok_0.counts[j]) is None)
            ==> parse_model(defs, strict, toks) == Err::<Scan, FailModel>(
            FailModel::Missing(display_name(defs[i])),
        ),
{
    let s = scan(defs, strict, toks, start(defs.len()))->Ok_0;
    lemma_parse_of_scan(defs, strict, toks, s);
    if forall|j: int| 0 <= j < i ==> occur_failure(defs[j], s.counts[j]) is None {
        lemma_violation(defs, s.counts, 0, i);
    } else {
        let j = choose|j: int| 0 <= j < i && occur_failure(defs[j], s.counts[j]) is Some;
        lemma_first_failure(defs, s.counts, 0, j);
    }
}

/// Some failure is found when any definition from `from` on fails.
proof fn lemma_first_failure(defs: Seq<Argument>, counts: Seq<nat>, from: int, j: int)
    requires
        0 <= from <= j < defs.len(),
        occur_failure(defs[j], counts[j]) is Some,
    ensures
        violation(defs, counts, from) is Some,
    decreases j - from,
{
    if from < j {
        lemma_first_failure(defs, counts, from + 1, j);
    }
}

/// An option allowed at most once that the scan met twice or more makes the
/// parse fail; met at most once it never fails, so with no other definition
/// failing the parse succeeds.
pub proof fn law_at_most_once(defs: Seq<Argument>, strict: bool, toks: Seq<Seq<char>>, i: int)
    requires
        0 <= i < defs.len(),
        defs[i].occur == Occur::Opt,
        scan(defs, strict, toks, start(defs.len())) is Ok,
    ensures
        ({
            let s = scan(defs, strict, toks, start(defs.len()))->Ok_0;
            &&& s.counts[i] >= 2 ==> parse_model(defs, strict, toks) is Err
            &&& s.counts[i] >= 2 && (forall|j: int|
                0 <= j < i ==> occur_failure(defs[j], s.counts[j]) is None)
                ==> parse_model(defs, strict, toks) == Err::<Scan, FailModel>(
                FailModel::Duplicated(display_name(defs[i])),
            )
            &&& s.counts[i] <= 1 ==> occur_failure(defs[i], s.counts[i]) is None
            &&& s.counts[i] <= 1 && (forall|j: int|
                0 <= j < defs.len() && j != i ==> occur_failure(defs[j], s.counts[j]) is None)
                ==> parse_model(defs, strict, toks) == Ok::<Scan, FailModel>(s)
        }),
{
    let s = scan(defs, strict, toks, start(defs.len()))->Ok_0;
    lemma_parse_of_scan(defs, strict, toks, s);
    if s.counts[i] >= 2 {
        lemma_first_failure(defs, s.counts, 0, i);
        if forall|j: int| 0 <= j < i ==> occur_failure(defs[j], s.counts[j]) is None {
            lemma_violation(defs, s.counts, 0, i);
        }
    } else if forall|j: int|
        0 <= j < defs.len() && j != i ==> occur_failure(defs[j], s.counts[j]) is None {
        lemma_violation(defs, s.counts, 0, defs.len() as int);
    }
}

/// A short option with an optional value takes the next token as its value
/// only when that token is there and is no option token; otherwise it records
/// presence alone and takes no token.
pub proof fn law_optional_value(
    defs: Seq<Argument>,
    strict: bool,
    toks: Seq<Seq<char>>,
    st: Scan,
    c: char,
)
    requires
        0 <= st.pos < toks.len(),
        c != '-',
        toks[st.pos] == seq!['-', c],
        lookup(defs, (false, seq![c])) matches Some(i) && defs[i].hasarg == HasArg::May,
    ensures
        ({
            let i = lookup(defs, (false, seq![c]))->Some_0;
            let p = st.pos;
            step(defs, strict, toks, st) == if p + 1 < toks.len() && !OptParser::is_arg_spec(
                toks[p + 1],
            ) {
                Ok::<Scan, FailModel>(record(advance(advance(st)), i, Some(Some(toks[p + 1]))))
            } else {
                Ok::<Scan, FailModel>(record(advance(st), i, Some(None)))
            }
        }),
{
    crate::parser::lemma_lookup_range(defs, (false, seq![c]), 0);
    let t = toks[st.pos];
    assert(t[1] != '-');
    assert(t.subrange(1, 2) =~= seq![c]);
    assert(seq![c].drop_first() =~= Seq::<char>::empty());
    assert(t != terminator());
    let i = lookup(defs, (false, seq![c]))->Some_0;
    let p = st.pos;
    let r = apply(defs, toks, advance(st), (false, seq![c]), None)->Ok_0;
    assert(apply_shorts(defs, toks, r, Seq::<char>::empty()) == Ok::<Scan, FailModel>(r));
    assert(apply_shorts(defs, toks, advance(st), seq![c]) == Ok::<Scan, FailModel>(r));
}

/// The same holds of an option with an optional value named by its long name
/// without `=`.
pub proof fn law_optional_value_long(
    defs: Seq<Argument>,
    strict: bool,
    toks: Seq<Seq<char>>,
    st: Scan,
    n: Seq<char>,
)
    requires
        0 <= st.pos < toks.len(),
        n.len() > 1,
        no_eq(n),
        toks[st.pos] == seq!['-', '-'] + n,
        lookup(defs, (true, n)) matches Some(i) && defs[i].hasarg == HasArg::May,
    ensures
        ({
            let i = lookup(defs, (true, n))->Some_0;
            let p = st.pos;
            step(defs, strict, toks, st) == if p + 1 < toks.len() && !OptParser::is_arg_spec(
                toks[p + 1],
            ) {
                Ok::<Scan, FailModel>(record(advance(advance(st)), i, Some(Some(toks[p + 1]))))
            } else {
                Ok::<Scan, FailModel>(record(advance(st), i, Some(None)))
            }
        }),
{
    crate::parser::lemma_lookup_range(defs, (true, n), 0);
    let t = toks[st.pos];
    let tail = t.subrange(2, t.len() as int);
    assert(tail =~= n);
    lemma_find_eq(tail, 0, n.len() as int);
    assert(t != terminator()) by {
        assert(t.len() != 2);
    }
}

/// Tokens that are no option tokens are refused in strict style, the first
/// one named; in free style they are all kept, in order, as free arguments.
pub proof fn law_plain_tokens(defs: Seq<Argument>, strict: bool, toks: Seq<Seq<char>>)
    requires
        forall|k: int| 0 <= k < toks.len() ==> !OptParser::is_arg_spec(#[trigger] toks[k]),
    ensures
        strict && toks.len() > 0 ==> parse_model(defs, strict, toks) == Err::<Scan, FailModel>(
            FailModel::Unexpected(toks[0]),
        ),
        !strict ==> scan(defs, strict, toks, start(defs.len())) == Ok::<Scan, FailModel>(
            Scan { pos: toks.len() as int, free: toks, ..start(defs.len()) },
        ),
{
    let s0 = start(defs.len());
    if !strict {
        lemma_plain_scan(defs, toks, s0);
        assert(s0.free + toks.subrange(0, toks.len() as int) =~= toks);
    }
}

/// Wherever scanning meets a token that is no option token, strict style fails
/// naming it, and free style appends it to the free list and goes on.
pub proof fn law_plain_token(defs: Seq<Argument>, strict: bool, toks: Seq<Seq<char>>, st: Scan)
    requires
        0 <= st.pos < toks.len(),
        !OptParser::is_arg_spec(toks[st.pos]),
    ensures
        strict ==> scan(defs, strict, toks, st) == Err::<Scan, FailModel>(
            FailModel::Unexpected(toks[st.pos]),
        ),
        !strict ==> scan(defs, strict, toks, st) == scan(
            defs,
            strict,
            toks,
            Scan { pos: st.pos + 1, free: st.free.push(toks[st.pos]), ..st },
        ),
{
}

/// In free style, a run of plain tokens from `st.pos` on goes to the free list.
proof fn lemma_plain_scan(defs: Seq<Argument>, toks: Seq<Seq<char>>, st: Scan)
    requires
        0 <= st.pos <= toks.len(),
        forall|k: int| 0 <= k < toks.len() ==> !OptParser::is_arg_spec(#[trigger] toks[k]),
    ensures
        scan(defs, false, toks, st) == Ok::<Scan, FailModel>(
            Scan {
                pos: toks.len() as int,
                free: st.free + toks.subrange(st.pos, toks.len() as int),
                ..st
            },
        ),
    decreases toks.len() - st.pos,
{
    if st.pos < toks.len() {
        let nx = Scan { free: advance(st).free.push(toks[st.pos]), ..advance(st) };
        lemma_plain_scan(defs, toks, nx);
        assert(nx.free + toks.subrange(nx.pos, toks.len() as int) =~= st.free + toks.subrange(
            st.pos,
            toks.len() as int,
        ));
    } else {
        assert(st.free + toks.subrange(st.pos, toks.len() as int) =~= st.free);
    }
}

/// `--` ends option scanning: every later token, option-shaped or not, is a
/// free argument as it stands.
pub proof fn law_terminator(defs: Seq<Argument>, strict: bool, toks: Seq<Seq<char>>, st: Scan)
    requires
        0 <= st.pos < toks.len(),
        toks[st.pos] == seq!['-', '-'],
    ensures
        scan(defs, strict, toks, st) == Ok::<Scan, FailModel>(
            Scan {
                pos: toks.len() as int,
                free: st.free + toks.subrange(st.pos + 1, toks.len() as int),
                ..st
            },
        ),
{
    let s = Scan {
        pos: toks.len() as int,
        free: st.free + toks.subrange(st.pos + 1, toks.len() as int),
        ..st
    };
    assert(step(defs, strict, toks, st) == Ok::<Scan, FailModel>(s));
    assert(scan(defs, strict, toks, s) == Ok::<Scan, FailModel>(s));
}

} // verus!
