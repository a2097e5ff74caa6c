//! The registry of option definitions.
use vstd::prelude::*;
use vstd::string::*;
use crate::text::{owned, push_char};

verus! {

/// The name of an option: one character after `-`, or a longer word after `--`.
#[derive(Debug, Clone, PartialEq, Eq)]
pub enum Name {
    Long(String),
    Short(char),
}

/// The view of a name: whether it is long, and its characters.
/// Two names are equal exactly when their views are.
impl View for Name {
    type V = (bool, Seq<char>);

    open spec fn view(&self) -> (bool, Seq<char>) {
        match self {
            Name::Long(s) => (true, s@),
            Name::Short(c) => (false, seq![*c]),
        }
    }
}

/// The name that a text stands for: a short one for a single character,
/// a long one otherwise.
pub open spec fn name_of(s: Seq<char>) -> (bool, Seq<char>) {
    (s.len() != 1, s)
}

impl Name {
    pub fn from_str(name: &str) -> (r: Name)
        ensures
            r@ == name_of(name@),
    {
        if name.unicode_len() == 1 {
            let c = name.get_char(0);
            assert(name@ =~= seq![c]);
            Name::Short(c)
        } else {
            Name::Long(owned(name))
        }
    }

    pub fn to_string(&self) -> (r: String)
        ensures
            r@ == self@.1,
    {
        match self {
            Name::Short(ch) => {
                let mut s = String::new();
                push_char(&mut s, *ch);
                assert(s@ =~= seq![*ch]);
                s
            },
            Name::Long(s) => s.clone(),
        }
    }
}

/// Whether an option takes a value: always, never, or when one follows.
#[derive(Debug, Clone, Copy, PartialEq, Eq, Structural)]
pub enum HasArg {
    YES,
    NO,
    May,
}

/// How many times an option may occur.
#[derive(Debug, Clone, Copy, PartialEq, Eq, Structural)]
pub enum Occur {
    /// At most once.
    Opt,
    /// Exactly once.
    Once,
    /// Any number of times.
    Multi,
}

/// Whether tokens that are not options are refused or kept as free arguments.
#[derive(Debug, Clone, Copy, PartialEq, Eq, Structural)]
pub enum ParseStyle {
    StrictStyle,
    FreeStyle,
}

/// The definition of one option.
#[derive(Debug, Clone)]
pub struct Argument {
    pub short_name: Option<Name>,
    pub long_name: Option<Name>,
    pub hint: String,
    pub desc: String,
    pub hasarg: HasArg,
    pub occur: Occur,
}

/// The view of an optional name.
pub open spec fn opt_name(n: Option<Name>) -> Option<(bool, Seq<char>)> {
    match n {
        Some(x) => Some(x@),
        None => None,
    }
}

impl Argument {
    /// Whether this definition answers to the name `n`.
    pub open spec fn answers(self, n: (bool, Seq<char>)) -> bool {
        opt_name(self.long_name) == Some(n) || opt_name(self.short_name) == Some(n)
    }

    pub fn has_arg(&self) -> (r: HasArg)
        ensures
            r == self.hasarg,
    {
        self.hasarg
    }

    pub fn occur(&self) -> (r: Occur)
        ensures
            r == self.occur,
    {
        self.occur
    }
}

/// The index of the first definition, from `from` on, that answers to `n`.
pub open spec fn find_from(defs: Seq<Argument>, n: (bool, Seq<char>), from: int) -> Option<int>
    decreases defs.len() - from,
{
    if from < 0 || from >= defs.len() {
        None
    } else if defs[from].answers(n) {
        Some(from)
    } else {
        find_from(defs, n, from + 1)
    }
}

/// The index of the first definition that answers to `n`.
pub open spec fn lookup(defs: Seq<Argument>, n: (bool, Seq<char>)) -> Option<int> {
    find_from(defs, n, 0)
}

/// The registration shape of names: a short name is empty or one character,
/// a long name is empty or longer than one character.
pub open spec fn names_valid(short_name: Seq<char>, long_name: Seq<char>) -> bool {
    (short_name.len() == 0 || short_name.len() == 1) && (long_name.len() == 0
        || long_name.len() > 1)
}

/// The definition that registration builds from its arguments.
pub open spec fn defined(
    short_name: Seq<char>,
    long_name: Seq<char>,
    hint: Seq<char>,
    desc: Seq<char>,
    hasarg: HasArg,
    occur: Occur,
    a: Argument,
) -> bool {
    &&& opt_name(a.short_name) == (if short_name.len() == 0 {
        None::<(bool, Seq<char>)>
    } else {
        Some((false, short_name))
    })
    &&& opt_name(a.long_name) == (if long_name.len() == 0 {
        None::<(bool, Seq<char>)>
    } else {
        Some((true, long_name))
    })
    &&& a.hint@ == hint
    &&& a.desc@ == desc
    &&& a.hasarg == hasarg
    &&& a.occur == occur
}

/// A registry of option definitions, in registration order, with a parse style.
pub struct OptParser {
    pub args: Vec<Argument>,
    pub style: ParseStyle,
}

impl OptParser {
    /// An empty registry in free style.
    pub fn new() -> (r: Self)
        ensures
            r.args@.len() == 0,
            r.style == ParseStyle::FreeStyle,
    {
        OptParser { args: Vec::new(), style: ParseStyle::FreeStyle }
    }

    /// Whether a token is an option token: it starts with `-` and has more
    /// than one character.
    pub open spec fn is_arg_spec(t: Seq<char>) -> bool {
        t.len() > 1 && t[0] == '-'
    }

    pub fn is_arg(arg: &str) -> (r: bool)
        ensures
            r == Self::is_arg_spec(arg@),
    {
        arg.unicode_len() > 1 && arg.get_char(0) == '-'
    }

    /// The index of the first definition that answers to `name`, long names
    /// of a definition tried before its short one.
    pub fn find_opt(&self, name: &Name) -> (r: Option<usize>)
        ensures
            match r {
                Some(i) => lookup(self.args@, name@) == Some(i as int) && i < self.args@.len(),
                None => lookup(self.args@, name@) is None,
            },
    {
        let mut i: usize = 0;
        while i < self.args.len()
            invariant
                i <= self.args@.len(),
                lookup(self.args@, name@) == find_from(self.args@, name@, i as int),
            decreases self.args@.len() - i,
        {
            let a = &self.args[i];
            let hit_long = match &a.long_name {
                Some(n) => same_name(n, name),
                None => false,
            };
            let hit_short = match &a.short_name {
                Some(n) => same_name(n, name),
                None => false,
            };
            if hit_long || hit_short {
                return Some(i);
            }
            i = i + 1;
        }
        None
    }

    pub fn choose_strict_style(&mut self) -> (r: &mut Self)
        ensures
            r.args@ == old(self).args@,
            r.style == ParseStyle::StrictStyle,
            *final(self) == *final(r),
    {
        self.style = ParseStyle::StrictStyle;
        self
    }

    pub fn choose_free_style(&mut self) -> (r: &mut Self)
        ensures
            r.args@ == old(self).args@,
            r.style == ParseStyle::FreeStyle,
            *final(self) == *final(r),
    {
        self.style = ParseStyle::FreeStyle;
        self
    }

    /// Appends a definition; the names must have the registration shape.
    pub fn add_argument(
        &mut self,
        short_name: &str,
        long_name: &str,
        hint: &str,
        desc: &str,
        hasarg: HasArg,
        occur: Occur,
    ) -> (r: &mut Self)
        requires
            names_valid(short_name@, long_name@),
        ensures
            r.style == old(self).style,
            r.args@.len() == old(self).args@.len() + 1,
            r.args@.drop_last() == old(self).args@,
            defined(short_name@, long_name@, hint@, desc@, hasarg, occur, r.args@.last()),
            *final(self) == *final(r),
    {
        let short = if short_name.unicode_len() == 0 {
            None
        } else {
            let c = short_name.get_char(0);
            assert(short_name@ =~= seq![c]);
            Some(Name::Short(c))
        };
        let long = if long_name.unicode_len() == 0 {
            None
        } else {
            Some(Name::from_str(long_name))
        };
        let a = Argument {
            short_name: short,
            long_name: long,
            hint: owned(hint),
            desc: owned(desc),
            hasarg: hasarg,
            occur: occur,
        };
        self.args.push(a);
        assert(self.args@.drop_last() =~= old(self).args@);
        self
    }

    /// An option with a value that may occur any number of times.
    pub fn add_multi_arg(&mut self, short: &str, long: &str, desc: &str, hint: &str) -> (r:
        &mut Self)
        requires
            names_valid(short@, long@),
        ensures
            r.style == old(self).style,
            r.args@.len() == old(self).args@.len() + 1,
            r.args@.drop_last() == old(self).args@,
            defined(short@, long@, hint@, desc@, HasArg::YES, Occur::Multi, r.args@.last()),
            *final(self) == *final(r),
    {
        self.add_argument(short, long, hint, desc, HasArg::YES, Occur::Multi)
    }

    /// An option with a value that must occur exactly once.
    pub fn add_necessary_arg(&mut self, short: &str, long: &str, desc: &str, hint: &str) -> (r:
        &mut Self)
        requires
            names_valid(short@, long@),
        ensures
            r.style == old(self).style,
            r.args@.len() == old(self).args@.len() + 1,
            r.args@.drop_last() == old(self).args@,
            defined(short@, long@, hint@, desc@, HasArg::YES, Occur::Once, r.args@.last()),
            *final(self) == *final(r),
    {
        self.add_argument(short, long, hint, desc, HasArg::YES, Occur::Once)
    }

    /// An option with a value that may occur at most once.
    pub fn add_optional_arg(&mut self, short: &str, long: &str, desc: &str, hint: &str) -> (r:
        &mut Self)
        requires
            names_valid(short@, long@),
        ensures
            r.style == old(self).style,
            r.args@.len() == old(self).args@.len() + 1,
            r.args@.drop_last() == old(self).args@,
            defined(short@, long@, hint@, desc@, HasArg::YES, Occur::Opt, r.args@.last()),
            *final(self) == *final(r),
    {
        self.add_argument(short, long, hint, desc, HasArg::YES, Occur::Opt)
    }

    /// A flag that must occur exactly once.
    pub fn add_necessary_flag(&mut self, short: &str, long: &str, desc: &str) -> (r: &mut Self)
        requires
            names_valid(short@, long@),
        ensures
            r.style == old(self).style,
            r.args@.len() == old(self).args@.len() + 1,
            r.args@.drop_last() == old(self).args@,
            defined(short@, long@, Seq::empty(), desc@, HasArg::NO, Occur::Once, r.args@.last()),
            *final(self) == *final(r),
    {
        proof {
            reveal_strlit("");
            assert(""@ =~= Seq::<char>::empty());
        }
        self.add_argument(short, long, "", desc, HasArg::NO, Occur::Once)
    }

    /// A flag that may occur at most once.
    pub fn add_optional_flag(&mut self, short: &str, long: &str, desc: &str) -> (r: &mut Self)
        requires
            names_valid(short@, long@),
        ensures
            r.style == old(self).style,
            r.args@.len() == old(self).args@.len() + 1,
            r.args@.drop_last() == old(self).args@,
            defined(short@, long@, Seq::empty(), desc@, HasArg::NO, Occur::Opt, r.args@.last()),
            *final(self) == *final(r),
    {
        proof {
            reveal_strlit("");
            assert(""@ =~= Seq::<char>::empty());
        }
        self.add_argument(short, long, "", desc, HasArg::NO, Occur::Opt)
    }
}

/// Structural equality of names.
pub fn same_name(a: &Name, b: &Name) -> (r: bool)
    ensures
        r == (a@ == b@),
{
    match (a, b) {
        (Name::Short(x), Name::Short(y)) => {
            if *x == *y {
                true
            } else {
                assert(a@.1[0] != b@.1[0]);
                false
            }
        },
        (Name::Long(x), Name::Long(y)) => {
            let r = *x == *y;
            r
        },
        _ => false,
    }
}

} // verus!

verus! {

/// A definition found from `from` on lies between `from` and the end, and
/// answers to the name.
pub proof fn lemma_lookup_range(defs: Seq<Argument>, n: (bool, Seq<char>), from: int)
    ensures
        find_from(defs, n, from) matches Some(i) ==> from <= i < defs.len() && defs[i].answers(n),
    decreases defs.len() - from,
{
    if 0 <= from < defs.len() && !defs[from].answers(n) {
        lemma_lookup_range(defs, n, from + 1);
    }
}

} // verus!
