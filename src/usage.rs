//! Rendering the registry as help text.
use vstd::prelude::*;
use crate::parser::{Argument, HasArg, OptParser};
use crate::text::push_char;

verus! {

/// `n` spaces.
pub open spec fn spaces(n: nat) -> Seq<char> {
    Seq::new(n, |i: int| ' ')
}

/// The start of a usage line: indent, `-s`, `--long`, then the value placeholder.
pub open spec fn row_prefix(a: Argument) -> Seq<char> {
    spaces(4) + (match a.short_name {
        Some(n) => seq!['-'] + n@.1 + spaces(2),
        None => Seq::empty(),
    }) + (match a.long_name {
        Some(n) => seq!['-', '-'] + n@.1 + spaces(2),
        None => Seq::empty(),
    }) + (match a.hasarg {
        HasArg::NO => Seq::empty(),
        HasArg::YES => a.hint@,
        HasArg::May => seq!['['] + a.hint@ + seq![']'],
    })
}

/// The usage line of a definition: a short prefix is padded to column 24, a
/// long one is followed by a new line indented to that column; then the
/// description.
pub open spec fn usage_row(a: Argument) -> Seq<char> {
    let p = row_prefix(a);
    (if p.len() < 20 {
        p + spaces((24 - p.len()) as nat)
    } else {
        p + seq!['\n'] + spaces(24)
    }) + a.desc@
}

/// Lines joined by new lines.
pub open spec fn join_lines(rows: Seq<Seq<char>>) -> Seq<char>
    decreases rows.len(),
{
    if rows.len() == 0 {
        Seq::empty()
    } else if rows.len() == 1 {
        rows[0]
    } else {
        join_lines(rows.drop_last()) + seq!['\n'] + rows.last()
    }
}

/// The default usage text: the banner, a blank line, the heading, then the
/// lines.
pub open spec fn usage_text(brief: Seq<char>, rows: Seq<Seq<char>>) -> Seq<char> {
    brief + seq!['\n', '\n', 'O', 'p', 't', 'i', 'o', 'n', 's', ':', '\n'] + join_lines(rows)
        + seq!['\n']
}

/// Appends `n` spaces.
fn push_spaces(s: &mut String, n: usize)
    ensures
        final(s)@ == old(s)@ + spaces(n as nat),
{
    let mut k: usize = 0;
    while k < n
        invariant
            k <= n,
            s@ == old(s)@ + spaces(k as nat),
        decreases n - k,
    {
        push_char(s, ' ');
        assert(s@ =~= old(s)@ + spaces((k + 1) as nat));
        k = k + 1;
    }
}

/// Appends the characters of `t`.
fn push_all(s: &mut String, t: &str)
    ensures
        final(s)@ == old(s)@ + t@,
{
    let n = t.unicode_len();
    let mut k: usize = 0;
    while k < n
        invariant
            n == t@.len(),
            k <= n,
            s@ == old(s)@ + t@.subrange(0, k as int),
        decreases n - k,
    {
        push_char(s, t.get_char(k));
        assert(s@ =~= old(s)@ + t@.subrange(0, k + 1));
        k = k + 1;
    }
    assert(t@.subrange(0, n as int) =~= t@);
}

/// The usage line of one definition.
fn usage_row_exec(a: &Argument) -> (r: String)
    ensures
        r@ == usage_row(*a),
{
    let mut row = String::new();
    push_spaces(&mut row, 4);
    match &a.short_name {
        Some(nm) => {
            push_char(&mut row, '-');
            push_all(&mut row, nm.to_string().as_str());
            push_spaces(&mut row, 2);
        },
        None => {},
    }
    match &a.long_name {
        Some(nm) => {
            push_char(&mut row, '-');
            push_char(&mut row, '-');
            push_all(&mut row, nm.to_string().as_str());
            push_spaces(&mut row, 2);
        },
        None => {},
    }
    match a.hasarg {
        HasArg::NO => {},
        HasArg::YES => {
            push_all(&mut row, a.hint.as_str());
        },
        HasArg::May => {
            push_char(&mut row, '[');
            push_all(&mut row, a.hint.as_str());
            push_char(&mut row, ']');
        },
    }
    assert(row@ =~= row_prefix(*a));
    let len = row.as_str().unicode_len();
    if len < 20 {
        push_spaces(&mut row, 24 - len);
    } else {
        push_char(&mut row, '\n');
        push_spaces(&mut row, 24);
    }
    push_all(&mut row, a.desc.as_str());
    assert(row@ =~= usage_row(*a));
    row
}

impl OptParser {
    /// The usage lines of the definitions, in registration order.
    pub fn usage_items(&self) -> (r: Vec<String>)
        ensures
            r@.len() == self.args@.len(),
            forall|i: int| 0 <= i < r@.len() ==> (#[trigger] r@[i])@ == usage_row(self.args@[i]),
    {
        let mut r: Vec<String> = Vec::new();
        let mut i: usize = 0;
        while i < self.args.len()
            invariant
                i <= self.args@.len(),
                r@.len() == i,
                forall|k: int| 0 <= k < i ==> (#[trigger] r@[k])@ == usage_row(self.args@[k]),
            decreases self.args@.len() - i,
        {
            r.push(usage_row_exec(&self.args[i]));
            i = i + 1;
        }
        r
    }

    /// The usage text under the banner `brief` and the heading `Options:`.
    pub fn usage(&self, brief: &str) -> (r: String)
        ensures
            r@ == usage_text(brief@, self.args@.map_values(|a: Argument| usage_row(a))),
    {
        let rows = self.usage_items();
        let ghost model = self.args@.map_values(|a: Argument| usage_row(a));
        let mut r = String::new();
        push_all(&mut r, brief);
        push_char(&mut r, '\n');
        push_char(&mut r, '\n');
        push_all(&mut r, "Options:");
        proof {
            reveal_strlit("Options:");
        }
        push_char(&mut r, '\n');
        let ghost head = r@;
        assert(head =~= brief@ + seq!['\n', '\n', 'O', 'p', 't', 'i', 'o', 'n', 's', ':', '\n']);
        let mut i: usize = 0;
        while i < rows.len()
            invariant
                rows@.len() == self.args@.len(),
                model.len() == rows@.len(),
                forall|k: int| 0 <= k < rows@.len() ==> (#[trigger] rows@[k])@ == model[k],
                i <= rows@.len(),
                r@ == head + join_lines(model.subrange(0, i as int)),
            decreases rows@.len() - i,
        {
            if i > 0 {
                push_char(&mut r, '\n');
            }
            push_all(&mut r, rows[i].as_str());
            let ghost next = model.subrange(0, i + 1);
            assert(next.drop_last() =~= model.subrange(0, i as int));
            assert(r@ =~= head + join_lines(next));
            i = i + 1;
        }
        assert(model.subrange(0, rows@.len() as int) =~= model);
        push_char(&mut r, '\n');
        assert(r@ =~= usage_text(brief@, model));
        r
    }

    /// The usage lines handed to a formatter of the caller's, whose text is returned.
    pub fn usage_with_format<F: FnOnce(Vec<String>) -> String>(&self, formatter: F) -> (r: String)
        requires
            forall|rows: Vec<String>| formatter.requires((rows,)),
        ensures
            exists|rows: Vec<String>|
                {
                    &&& rows@.len() == self.args@.len()
                    &&& forall|i: int|
                        0 <= i < rows@.len() ==> (#[trigger] rows@[i])@ == usage_row(self.args@[i])
                    &&& formatter.ensures((rows,), r)
                },
    {
        let rows = self.usage_items();
        let ghost seen = rows;
        let r = formatter(rows);
        assert(formatter.ensures((seen,), r));
        r
    }
}

} // verus!
