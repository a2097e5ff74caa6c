//! Matching a sequence of tokens against the registry.
use vstd::prelude::*;
use vstd::string::*;
use crate::error::{Fail, FailModel};
use crate::parser::{lookup, name_of, Argument, HasArg, Name, OptParser, ParseStyle};
use crate::table::{sat, texts, vals_view, violation, Arg, ArgVal, OptTable};
use crate::text::owned;

verus! {

/// The state of a parse between two steps: the index of the next token, the
/// captures and occurrence count of each definition, and the free arguments.
pub struct Scan {
    pub pos: int,
    pub vals: Seq<Seq<Option<Seq<char>>>>,
    pub counts: Seq<nat>,
    pub free: Seq<Seq<char>>,
}

/// The state before the first token, for `n` definitions.
pub open spec fn start(n: nat) -> Scan {
    Scan {
        pos: 0,
        vals: Seq::new(n, |i: int| Seq::<Option<Seq<char>>>::empty()),
        counts: Seq::new(n, |i: int| 0nat),
        free: Seq::empty(),
    }
}

/// One occurrence of definition `i`, with its capture if it makes one.
pub open spec fn record(st: Scan, i: int, v: Option<Option<Seq<char>>>) -> Scan {
    Scan {
        vals: match v {
            Some(x) => st.vals.update(i, st.vals[i].push(x)),
            None => st.vals,
        },
        counts: st.counts.update(i, st.counts[i] + 1),
        ..st
    }
}

/// The state with the next token taken as a value.
pub open spec fn advance(st: Scan) -> Scan {
    Scan { pos: st.pos + 1, ..st }
}

/// An occurrence of definition `i` under the name `n`, with `inline` the
/// value written after `=`; the next token, at `st.pos`, may be taken as its value.
pub open spec fn capture(
    defs: Seq<Argument>,
    toks: Seq<Seq<char>>,
    st: Scan,
    i: int,
    n: (bool, Seq<char>),
    inline: Option<Seq<char>>,
) -> Result<Scan, FailModel> {
    match defs[i].hasarg {
        HasArg::NO => if inline is Some {
            Err(FailModel::Unexpected(n.1))
        } else {
            Ok(record(st, i, None))
        },
        HasArg::May => match inline {
            Some(v) => Ok(record(st, i, Some(Some(v)))),
            None => if st.pos < toks.len() && !OptParser::is_arg_spec(toks[st.pos]) {
                Ok(record(advance(st), i, Some(Some(toks[st.pos]))))
            } else {
                Ok(record(st, i, Some(None)))
            },
        },
        HasArg::YES => match inline {
            Some(v) => Ok(record(st, i, Some(Some(v)))),
            None => if st.pos < toks.len() {
                Ok(record(advance(st), i, Some(Some(toks[st.pos]))))
            } else {
                Err(FailModel::Unexpected(n.1))
            },
        },
    }
}

/// An occurrence of the name `n`, which must resolve in the registry.
pub open spec fn apply(
    defs: Seq<Argument>,
    toks: Seq<Seq<char>>,
    st: Scan,
    n: (bool, Seq<char>),
    inline: Option<Seq<char>>,
) -> Result<Scan, FailModel> {
    match lookup(defs, n) {
        Some(i) => capture(defs, toks, st, i, n, inline),
        None => Err(FailModel::Unknown(n.1)),
    }
}

/// The clustered short names `cs`, one after another.
pub open spec fn apply_shorts(
    defs: Seq<Argument>,
    toks: Seq<Seq<char>>,
    st: Scan,
    cs: Seq<char>,
) -> Result<Scan, FailModel>
    decreases cs.len(),
{
    if cs.len() == 0 {
        Ok(st)
    } else {
        match apply(defs, toks, st, (false, seq![cs[0]]), None) {
            Ok(s) => apply_shorts(defs, toks, s, cs.drop_first()),
            Err(e) => Err(e),
        }
    }
}

/// The index of the first `=` in `s` from `from` on.
pub open spec fn find_eq(s: Seq<char>, from: int) -> Option<int>
    decreases s.len() - from,
{
    if from < 0 || from >= s.len() {
        None
    } else if s[from] == '=' {
        Some(from)
    } else {
        find_eq(s, from + 1)
    }
}

/// The token that ends option scanning.
pub open spec fn terminator() -> Seq<char> {
    seq!['-', '-']
}

/// The token at `st.pos`, with the tokens after it that it takes as values.
pub open spec fn step(defs: Seq<Argument>, strict: bool, toks: Seq<Seq<char>>, st: Scan) -> Result<
    Scan,
    FailModel,
> {
    let t = toks[st.pos];
    let nx = advance(st);
    if !OptParser::is_arg_spec(t) {
        if strict {
            Err(FailModel::Unexpected(t))
        } else {
            Ok(Scan { free: nx.free.push(t), ..nx })
        }
    } else if t == terminator() {
        Ok(Scan { pos: toks.len() as int, free: st.free + toks.subrange(st.pos + 1, toks.len() as int), ..st })
    } else if t[1] == '-' {
        let tail = t.subrange(2, t.len() as int);
        match find_eq(tail, 0) {
            Some(k) => apply(
                defs,
                toks,
                nx,
                name_of(tail.subrange(0, k)),
                Some(tail.subrange(k + 1, tail.len() as int)),
            ),
            None => apply(defs, toks, nx, name_of(tail), None),
        }
    } else {
        apply_shorts(defs, toks, nx, t.subrange(1, t.len() as int))
    }
}

/// The state after every token from `st.pos` on, or the first failure.
pub open spec fn scan(defs: Seq<Argument>, strict: bool, toks: Seq<Seq<char>>, st: Scan) -> Result<
    Scan,
    FailModel,
>
    decreases toks.len() - st.pos,
    via scan_decreases
{
    if st.pos < 0 || st.pos >= toks.len() {
        Ok(st)
    } else {
        match step(defs, strict, toks, st) {
            Ok(s) => scan(defs, strict, toks, s),
            Err(e) => Err(e),
        }
    }
}

#[via_fn]
proof fn scan_decreases(defs: Seq<Argument>, strict: bool, toks: Seq<Seq<char>>, st: Scan) {
    if 0 <= st.pos < toks.len() {
        lemma_step_pos(defs, strict, toks, st);
    }
}

/// An occurrence takes at most the next token.
proof fn lemma_apply_pos(
    defs: Seq<Argument>,
    toks: Seq<Seq<char>>,
    st: Scan,
    n: (bool, Seq<char>),
    inline: Option<Seq<char>>,
)
    requires
        0 <= st.pos <= toks.len(),
    ensures
        apply(defs, toks, st, n, inline) matches Ok(s) ==> st.pos <= s.pos <= toks.len(),
{
}

/// A cluster of short names takes tokens from `st.pos` on, never past the end.
proof fn lemma_shorts_pos(defs: Seq<Argument>, toks: Seq<Seq<char>>, st: Scan, cs: Seq<char>)
    requires
        0 <= st.pos <= toks.len(),
    ensures
        apply_shorts(defs, toks, st, cs) matches Ok(s) ==> st.pos <= s.pos <= toks.len(),
    decreases cs.len(),
{
    if cs.len() > 0 {
        lemma_apply_pos(defs, toks, st, (false, seq![cs[0]]), None);
        if let Ok(s1) = apply(defs, toks, st, (false, seq![cs[0]]), None) {
            lemma_shorts_pos(defs, toks, s1, cs.drop_first());
        }
    }
}

/// Each step takes at least the token at `st.pos`, and never goes past the end.
pub proof fn lemma_step_pos(defs: Seq<Argument>, strict: bool, toks: Seq<Seq<char>>, st: Scan)
    requires
        0 <= st.pos < toks.len(),
    ensures
        step(defs, strict, toks, st) matches Ok(s) ==> st.pos < s.pos <= toks.len(),
{
    let t = toks[st.pos];
    let nx = advance(st);
    if OptParser::is_arg_spec(t) && t != terminator() {
        if t[1] == '-' {
            let tail = t.subrange(2, t.len() as int);
            match find_eq(tail, 0) {
                Some(k) => lemma_apply_pos(
                    defs,
                    toks,
                    nx,
                    name_of(tail.subrange(0, k)),
                    Some(tail.subrange(k + 1, tail.len() as int)),
                ),
                None => lemma_apply_pos(defs, toks, nx, name_of(tail), None),
            }
        } else {
            lemma_shorts_pos(defs, toks, nx, t.subrange(1, t.len() as int));
        }
    }
}

/// The outcome of parsing `toks`: the final state when scanning succeeds and
/// every occurrence policy holds, else the first failure.
pub open spec fn parse_model(defs: Seq<Argument>, strict: bool, toks: Seq<Seq<char>>) -> Result<
    Scan,
    FailModel,
> {
    match scan(defs, strict, toks, start(defs.len())) {
        Ok(s) => match violation(defs, s.counts, 0) {
            Some(e) => Err(e),
            None => Ok(s),
        },
        Err(e) => Err(e),
    }
}

/// The match states `vals` and the index `pos` stand for the state `st`.
pub open spec fn holds(defs: Seq<Argument>, vals: Seq<Arg>, pos: int, st: Scan) -> bool {
    &&& vals.len() == defs.len()
    &&& st.vals.len() == defs.len()
    &&& st.counts.len() == defs.len()
    &&& st.pos == pos
    &&& forall|i: int|
        0 <= i < vals.len() ==> {
            &&& vals_view((#[trigger] vals[i]).value@) == st.vals[i]
            &&& vals[i].occured as nat == sat(st.counts[i])
            &&& vals[i].argrc == i
        }
}

/// The view of an optional string.
pub open spec fn opt_text(s: Option<String>) -> Option<Seq<char>> {
    match s {
        Some(x) => Some(x@),
        None => None,
    }
}

impl<'a> OptTable<'a> {
    /// The table holds the final state `s`.
    pub open spec fn models(&self, s: Scan) -> bool {
        &&& self.wf()
        &&& holds(self.parser.args@, self.opts@, s.pos, s)
        &&& self.free matches Some(f) && texts(f@) == s.free
    }
}

/// Adds one occurrence, with its capture if any, to the state of definition `id`.
fn record_exec(vals: &mut Vec<Arg>, id: usize, captured: Option<ArgVal>)
    requires
        id < old(vals)@.len(),
    ensures
        final(vals)@.len() == old(vals)@.len(),
        forall|i: int| 0 <= i < old(vals)@.len() && i != id ==> final(vals)@[i] == old(vals)@[i],
        final(vals)@[id as int].argrc == old(vals)@[id as int].argrc,
        final(vals)@[id as int].occured as nat == sat(old(vals)@[id as int].occured as nat + 1),
        vals_view(final(vals)@[id as int].value@) == match captured {
            Some(v) => vals_view(old(vals)@[id as int].value@).push(v@),
            None => vals_view(old(vals)@[id as int].value@),
        },
{
    let ghost before = vals@[id as int].value@;
    match captured {
        Some(v) => {
            vals[id].value.push(v);
            assert(vals_view(vals@[id as int].value@) =~= vals_view(before).push(v@));
        },
        None => {},
    }
    if vals[id].occured < usize::MAX {
        vals[id].occured = vals[id].occured + 1;
    }
}

impl OptParser {
    /// An occurrence of `name` with the value `inline`; the token at `*pos`
    /// may be taken as its value.
    fn apply_name(
        &self,
        args: &Vec<String>,
        vals: &mut Vec<Arg>,
        pos: &mut usize,
        name: &Name,
        inline: Option<String>,
        Ghost(st): Ghost<Scan>,
    ) -> (r: Result<(), Fail>)
        requires
            holds(self.args@, old(vals)@, *old(pos) as int, st),
            *old(pos) <= args@.len(),
        ensures
            match apply(self.args@, texts(args@), st, name@, opt_text(inline)) {
                Ok(s) => {
                    &&& r is Ok
                    &&& holds(self.args@, final(vals)@, *final(pos) as int, s)
                    &&& *old(pos) <= *final(pos) <= args@.len()
                    &&& s.free == st.free
                },
                Err(e) => r matches Err(f) && f@ == e,
            },
    {
        let ghost toks = texts(args@);
        let id = match self.find_opt(name) {
            Some(id) => id,
            None => {
                return Err(Fail::UnknownArgument(name.to_string()));
            },
        };
        let ghost i = id as int;
        let captured = match self.args[id].hasarg {
            HasArg::NO => {
                if inline.is_some() {
                    return Err(Fail::UnexpectedArgument(name.to_string()));
                }
                None
            },
            HasArg::May => match inline {
                Some(v) => Some(ArgVal::Val(v)),
                None => {
                    if *pos < args.len() && !Self::is_arg(args[*pos].as_str()) {
                        let v = args[*pos].clone();
                        *pos = *pos + 1;
                        Some(ArgVal::Val(v))
                    } else {
                        Some(ArgVal::Given)
                    }
                },
            },
            HasArg::YES => match inline {
                Some(v) => Some(ArgVal::Val(v)),
                None => {
                    if *pos < args.len() {
                        let v = args[*pos].clone();
                        *pos = *pos + 1;
                        Some(ArgVal::Val(v))
                    } else {
                        return Err(Fail::UnexpectedArgument(name.to_string()));
                    }
                },
            },
        };
        let ghost mid = *vals;
        record_exec(vals, id, captured);
        proof {
            let s = apply(self.args@, toks, st, name@, opt_text(inline))->Ok_0;
            assert forall|k: int| 0 <= k < vals@.len() implies {
                &&& vals_view((#[trigger] vals@[k]).value@) == s.vals[k]
                &&& vals@[k].occured as nat == sat(s.counts[k])
                &&& vals@[k].argrc == k
            } by {
                if k != i {
                    assert(vals@[k] == mid@[k]);
                }
            }
        }
        Ok(())
    }

    /// Index of the first `=` in `s`.
    fn first_eq(s: &str) -> (r: Option<usize>)
        ensures
            match r {
                Some(k) => find_eq(s@, 0) == Some(k as int) && k < s@.len(),
                None => find_eq(s@, 0) is None,
            },
    {
        let n = s.unicode_len();
        let mut j: usize = 0;
        while j < n
            invariant
                n == s@.len(),
                j <= n,
                find_eq(s@, 0) == find_eq(s@, j as int),
            decreases n - j,
        {
            if s.get_char(j) == '=' {
                return Some(j);
            }
            j = j + 1;
        }
        None
    }

    /// Matches `args` against the registry: the table of captures when every
    /// token is understood and every occurrence policy holds, else the first
    /// failure.
    pub fn parse_arguments(&self, args: Vec<String>) -> (r: Result<OptTable<'_>, Fail>)
        ensures
            match parse_model(self.args@, self.style == ParseStyle::StrictStyle, texts(args@)) {
                Ok(s) => r matches Ok(t) && t.models(s) && t.parser == self,
                Err(e) => r matches Err(f) && f@ == e,
            },
    {
        let ghost defs = self.args@;
        let ghost strict = self.style == ParseStyle::StrictStyle;
        let ghost toks = texts(args@);
        assert(toks.len() == args@.len());
        let mut vals: Vec<Arg> = Vec::new();
        let mut k: usize = 0;
        while k < self.args.len()
            invariant
                k <= self.args@.len(),
                vals@.len() == k,
                forall|i: int|
                    0 <= i < k ==> {
                        &&& (#[trigger] vals@[i]).value@.len() == 0
                        &&& vals@[i].occured == 0
                        &&& vals@[i].argrc == i
                    },
            decreases self.args@.len() - k,
        {
            vals.push(self.args[k].transform(k));
            k = k + 1;
        }
        let ghost init = start(defs.len());
        assert(holds(defs, vals@, 0, init)) by {
            assert forall|i: int| 0 <= i < vals@.len() implies vals_view(
                (#[trigger] vals@[i]).value@,
            ) == init.vals[i] by {
                assert(vals_view(vals@[i].value@) =~= Seq::<Option<Seq<char>>>::empty());
            }
        }
        let mut free: Vec<String> = Vec::new();
        let mut pos: usize = 0;
        let ghost mut st = init;
        assert(texts(free@) =~= st.free);
        while pos < args.len()
            invariant
                defs == self.args@,
                toks == texts(args@),
                toks.len() == args@.len(),
                init == start(defs.len()),
                strict == (self.style == ParseStyle::StrictStyle),
                pos <= args@.len(),
                holds(defs, vals@, pos as int, st),
                texts(free@) == st.free,
                scan(defs, strict, toks, init) == scan(defs, strict, toks, st),
            decreases args@.len() - pos,
        {
            let ghost before = st;
            let cur = &args[pos];
            let s = cur.as_str();
            assert(s@ == toks[pos as int]);
            pos = pos + 1;
            if !Self::is_arg(s) {
                match self.style {
                    ParseStyle::StrictStyle => {
                        assert(step(defs, strict, toks, before) == Err::<Scan, FailModel>(
                            FailModel::Unexpected(s@),
                        ));
                        return Err(Fail::UnexpectedArgument(cur.clone()));
                    },
                    ParseStyle::FreeStyle => {},
                }
                free.push(cur.clone());
                proof {
                    st = Scan { free: st.free.push(s@), ..advance(st) };
                    assert(texts(free@) =~= st.free);
                }
            } else if s.unicode_len() == 2 && s.get_char(1) == '-' {
                assert(s@ =~= terminator());
                while pos < args.len()
                    invariant
                        toks == texts(args@),
                        toks.len() == args@.len(),
                        0 <= before.pos,
                        before.pos + 1 <= pos <= args@.len(),
                        texts(free@) == before.free + toks.subrange(before.pos + 1, pos as int),
                    decreases args@.len() - pos,
                {
                    let ghost prev = free@;
                    let ghost p = pos as int;
                    free.push(args[pos].clone());
                    assert(texts(free@) =~= texts(prev).push(toks[p]));
                    assert(toks.subrange(before.pos + 1, p + 1) =~= toks.subrange(
                        before.pos + 1,
                        p,
                    ).push(toks[p]));
                    pos = pos + 1;
                    assert(texts(free@) =~= before.free + toks.subrange(
                        before.pos + 1,
                        pos as int,
                    ));
                }
                proof {
                    st = Scan { pos: toks.len() as int, free: texts(free@), ..before };
                }
            } else if s.get_char(1) == '-' {
                let n = s.unicode_len();
                let tail = s.substring_char(2, n);
                let tn = tail.unicode_len();
                let (name, inline) = match Self::first_eq(tail) {
                    Some(e) => {
                        let part = tail.substring_char(0, e);
                        (Name::from_str(part), Some(owned(tail.substring_char(e + 1, tn))))
                    },
                    None => (Name::from_str(tail), None),
                };
                match self.apply_name(&args, &mut vals, &mut pos, &name, inline, Ghost(advance(st))) {
                    Ok(()) => {},
                    Err(e) => {
                        return Err(e);
                    },
                }
                proof {
                    st = step(defs, strict, toks, before)->Ok_0;
                }
            } else {
                let n = s.unicode_len();
                let mut j: usize = 1;
                proof {
                    st = advance(st);
                }
                while j < n
                    invariant
                        defs == self.args@,
                        toks == texts(args@),
                        n == s@.len(),
                        1 <= j <= n,
                        init == start(defs.len()),
                        strict == (self.style == ParseStyle::StrictStyle),
                        toks.len() == args@.len(),
                        scan(defs, strict, toks, init) == scan(defs, strict, toks, before),
                        0 <= before.pos < toks.len(),
                        before.pos + 1 <= pos <= args@.len(),
                        holds(defs, vals@, pos as int, st),
                        st.free == before.free,
                        step(defs, strict, toks, before) == apply_shorts(
                            defs,
                            toks,
                            st,
                            s@.subrange(j as int, n as int),
                        ),
                    decreases n - j,
                {
                    let c = s.get_char(j);
                    let name = Name::Short(c);
                    let ghost rest = s@.subrange(j as int, n as int);
                    assert(rest[0] == c);
                    assert(rest.drop_first() =~= s@.subrange(j + 1, n as int));
                    match self.apply_name(&args, &mut vals, &mut pos, &name, None, Ghost(st)) {
                        Ok(()) => {},
                        Err(e) => {
                            assert(apply_shorts(defs, toks, st, rest) == Err::<Scan, FailModel>(
                                e@,
                            ));
                            assert(step(defs, strict, toks, before) == Err::<Scan, FailModel>(e@));
                            assert(scan(defs, strict, toks, before) == Err::<Scan, FailModel>(e@));
                            return Err(e);
                        },
                    }
                    proof {
                        st = apply(defs, toks, st, name@, None)->Ok_0;
                    }
                    j = j + 1;
                }
                assert(s@.subrange(n as int, n as int) =~= Seq::<char>::empty());
            }
        }
        let table = OptTable { opts: vals, free: Some(free), parser: self };
        assert(table.counts() =~= st.counts.map_values(|c: nat| sat(c)));
        proof {
            lemma_violation_sat(defs, st.counts, 0);
        }
        table.check_occur()
    }
}

/// Holding counts past `usize::MAX` at `usize::MAX` changes no failure.
proof fn lemma_violation_sat(defs: Seq<Argument>, counts: Seq<nat>, from: int)
    requires
        counts.len() == defs.len(),
    ensures
        violation(defs, counts.map_values(|c: nat| sat(c)), from) == violation(defs, counts, from),
    decreases defs.len() - from,
{
    if 0 <= from < defs.len() {
        lemma_violation_sat(defs, counts, from + 1);
    }
}

} // verus!
