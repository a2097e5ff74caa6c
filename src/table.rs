//! The result of a parse: captured values, occurrence counts and free arguments.
use vstd::prelude::*;
use crate::error::{Fail, FailModel};
use crate::parser::{lookup, name_of, Argument, Name, Occur, OptParser};
use crate::text::push_text;

verus! {

/// One captured value: a text, or presence alone.
#[derive(Debug, Clone)]
pub enum ArgVal {
    Val(String),
    Given,
}

/// `Some(text)` for a captured text, `None` for presence alone.
impl View for ArgVal {
    type V = Option<Seq<char>>;

    open spec fn view(&self) -> Option<Seq<char>> {
        match self {
            ArgVal::Val(s) => Some(s@),
            ArgVal::Given => None,
        }
    }
}

/// The views of a sequence of captures.
pub open spec fn vals_view(v: Seq<ArgVal>) -> Seq<Option<Seq<char>>> {
    v.map_values(|a: ArgVal| a@)
}

/// The views of a sequence of strings.
pub open spec fn texts(v: Seq<String>) -> Seq<Seq<char>> {
    v.map_values(|s: String| s@)
}

/// An occurrence count as a `usize` holds it: counts past `usize::MAX` stay there,
/// which keeps apart the only classes that matter (none, one, more).
pub open spec fn sat(c: nat) -> nat {
    if c < usize::MAX {
        c
    } else {
        usize::MAX as nat
    }
}

/// The match state of one option during and after a parse.
#[derive(Debug, Clone)]
pub struct Arg {
    /// Captures in the order they were met.
    pub value: Vec<ArgVal>,
    /// How many times the option occurred.
    pub occured: usize,
    /// The index of the option's definition in the registry.
    pub argrc: usize,
}

impl Argument {
    /// A fresh match state for the definition at `index`.
    pub fn transform(&self, index: usize) -> (r: Arg)
        ensures
            r.value@.len() == 0,
            r.occured == 0,
            r.argrc == index,
    {
        Arg { value: Vec::new(), occured: 0, argrc: index }
    }
}

/// The text naming an option in a failure: ` --long ` then ` -s `, for the
/// names that the definition has.
pub open spec fn display_name(a: Argument) -> Seq<char> {
    (match a.long_name {
        Some(n) => " --"@ + n@.1 + " "@,
        None => Seq::empty(),
    }) + (match a.short_name {
        Some(n) => " -"@ + n@.1 + " "@,
        None => Seq::empty(),
    })
}

/// The failure that a definition's occurrence policy gives for a count, if any.
pub open spec fn occur_failure(a: Argument, c: nat) -> Option<FailModel> {
    if a.occur == Occur::Once && c == 0 {
        Some(FailModel::Missing(display_name(a)))
    } else if (a.occur == Occur::Once || a.occur == Occur::Opt) && c >= 2 {
        Some(FailModel::Duplicated(display_name(a)))
    } else {
        None
    }
}

/// The first failure, in registration order from `from` on.
pub open spec fn violation(defs: Seq<Argument>, counts: Seq<nat>, from: int) -> Option<FailModel>
    decreases defs.len() - from,
{
    if from < 0 || from >= defs.len() {
        None
    } else if occur_failure(defs[from], counts[from]) is Some {
        occur_failure(defs[from], counts[from])
    } else {
        violation(defs, counts, from + 1)
    }
}

/// The parsed table for a registry.
pub struct OptTable<'a> {
    pub opts: Vec<Arg>,
    pub free: Option<Vec<String>>,
    pub parser: &'a OptParser,
}

impl<'a> OptTable<'a> {
    /// One match state per definition, each pointing at its own definition.
    pub open spec fn wf(&self) -> bool {
        &&& self.opts@.len() == self.parser.args@.len()
        &&& forall|i: int| 0 <= i < self.opts@.len() ==> (#[trigger] self.opts@[i]).argrc == i
    }

    /// The occurrence counts held by the table.
    pub open spec fn counts(&self) -> Seq<nat> {
        self.opts@.map_values(|a: Arg| a.occured as nat)
    }

    /// Keeps the table when every definition's occurrence policy holds, else
    /// gives the first failure in registration order.
    pub fn check_occur(self) -> (r: Result<OptTable<'a>, Fail>)
        requires
            self.wf(),
        ensures
            match violation(self.parser.args@, self.counts(), 0) {
                None => r == Ok::<OptTable<'a>, Fail>(self),
                Some(e) => r matches Err(f) && f@ == e,
            },
    {
        let mut i: usize = 0;
        while i < self.opts.len()
            invariant
                self.wf(),
                i <= self.opts@.len(),
                violation(self.parser.args@, self.counts(), 0) == violation(
                    self.parser.args@,
                    self.counts(),
                    i as int,
                ),
            decreases self.opts@.len() - i,
        {
            let a = &self.parser.args[i];
            let c = self.opts[i].occured;
            assert(self.counts()[i as int] == c as nat);
            let broken = match a.occur {
                Occur::Once => c != 1,
                Occur::Opt => c >= 2,
                Occur::Multi => false,
            };
            if broken {
                let info = display(a);
                if c == 0 {
                    return Err(Fail::MissingArgument(info));
                } else {
                    return Err(Fail::DuplicatedArgument(info));
                }
            }
            i = i + 1;
        }
        Ok(self)
    }

    /// The index of the definition that answers to `name`.
    fn index_of(&self, name: &str) -> (r: usize)
        requires
            self.wf(),
            lookup(self.parser.args@, name_of(name@)) is Some,
        ensures
            lookup(self.parser.args@, name_of(name@)) == Some(r as int),
            r < self.opts@.len(),
    {
        match self.parser.find_opt(&Name::from_str(name)) {
            Some(id) => id,
            None => 0,
        }
    }

    /// All captures of the named option, in order; the name must be registered.
    pub fn get_vals(&self, name: &str) -> (r: Vec<ArgVal>)
        requires
            self.wf(),
            lookup(self.parser.args@, name_of(name@)) is Some,
        ensures
            vals_view(r@) == vals_view(
                self.opts@[lookup(self.parser.args@, name_of(name@))->Some_0].value@,
            ),
    {
        let id = self.index_of(name);
        let src = &self.opts[id].value;
        let mut r: Vec<ArgVal> = Vec::new();
        let mut j: usize = 0;
        while j < src.len()
            invariant
                j <= src@.len(),
                r@.len() == j,
                forall|k: int| 0 <= k < j ==> (#[trigger] r@[k])@ == src@[k]@,
            decreases src@.len() - j,
        {
            let v = match &src[j] {
                ArgVal::Val(s) => ArgVal::Val(s.clone()),
                ArgVal::Given => ArgVal::Given,
            };
            r.push(v);
            j = j + 1;
        }
        assert(vals_view(r@) =~= vals_view(src@));
        r
    }

    /// The first capture of the named option if it is a text; the name must
    /// be registered.
    pub fn get_val(&self, name: &str) -> (r: Option<String>)
        requires
            self.wf(),
            lookup(self.parser.args@, name_of(name@)) is Some,
        ensures
            ({
                let v = vals_view(
                    self.opts@[lookup(self.parser.args@, name_of(name@))->Some_0].value@,
                );
                match r {
                    Some(s) => v.len() > 0 && v[0] == Some(s@),
                    None => v.len() == 0 || v[0] is None,
                }
            }),
    {
        let id = self.index_of(name);
        if self.opts[id].value.len() == 0 {
            return None;
        }
        match &self.opts[id].value[0] {
            ArgVal::Val(s) => Some(s.clone()),
            ArgVal::Given => None,
        }
    }

    /// Whether the named option occurred; the name must be registered.
    pub fn get_flag(&self, name: &str) -> (r: bool)
        requires
            self.wf(),
            lookup(self.parser.args@, name_of(name@)) is Some,
        ensures
            r == (self.opts@[lookup(self.parser.args@, name_of(name@))->Some_0].occured > 0),
    {
        let id = self.index_of(name);
        self.opts[id].occured > 0
    }
}

/// The text naming a definition in a failure.
fn display(a: &Argument) -> (r: String)
    ensures
        r@ == display_name(*a),
{
    let mut r = String::new();
    match &a.long_name {
        Some(n) => {
            push_text(&mut r, " --");
            let t = n.to_string();
            push_text(&mut r, t.as_str());
            push_text(&mut r, " ");
        },
        None => {},
    }
    match &a.short_name {
        Some(n) => {
            push_text(&mut r, " -");
            let t = n.to_string();
            push_text(&mut r, t.as_str());
            push_text(&mut r, " ");
        },
        None => {},
    }
    assert(r@ =~= display_name(*a));
    r
}

} // verus!
