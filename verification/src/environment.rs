//! Environment variable operations and the startup script they produce.

use vstd::prelude::*;
use crate::text::opt_text;

verus! {

/// Separator between the entries of a list-valued variable when an operation names none.
pub const DEFAULT_SEPARATOR: &'static str = ":";

/// Priority of a startup script whose operations name none.
pub const DEFAULT_PRIORITY: u8 = 50;

/// Assigns a value to a variable.
#[derive(Debug, PartialEq, Eq)]
pub struct SetEnv {
    pub set: String,
    pub value: String,
}

/// Puts a value in front of a variable's current value.
#[derive(Debug, PartialEq, Eq)]
pub struct PrependEnv {
    pub prepend: String,
    pub value: String,
    pub separator: Option<String>,
}

/// Puts a value behind a variable's current value.
#[derive(Debug, PartialEq, Eq)]
pub struct AppendEnv {
    pub append: String,
    pub value: String,
    pub separator: Option<String>,
}

/// A remark carried into the startup script.
#[derive(Debug, PartialEq, Eq)]
pub struct CommentEnv {
    pub comment: String,
}

/// The priority under which the startup script is installed.
#[derive(Debug, PartialEq, Eq)]
pub struct PriorityEnv {
    pub priority: u8,
}

/// One operation on the environment. Operations are applied in list order.
#[derive(Debug, PartialEq, Eq)]
pub enum EnvOp {
    Append(AppendEnv),
    Comment(CommentEnv),
    Prepend(PrependEnv),
    Priority(PriorityEnv),
    Assign(SetEnv),
}

/// The mathematical value of an [`EnvOp`].
pub enum EnvOpView {
    Append { name: Seq<char>, value: Seq<char>, separator: Option<Seq<char>> },
    Comment { text: Seq<char> },
    Prepend { name: Seq<char>, value: Seq<char>, separator: Option<Seq<char>> },
    Priority { level: u8 },
    Assign { name: Seq<char>, value: Seq<char> },
}

impl View for EnvOp {
    type V = EnvOpView;

    open spec fn view(&self) -> EnvOpView {
        match *self {
            EnvOp::Append(a) => EnvOpView::Append {
                name: a.append@,
                value: a.value@,
                separator: opt_text(a.separator),
            },
            EnvOp::Comment(c) => EnvOpView::Comment { text: c.comment@ },
            EnvOp::Prepend(p) => EnvOpView::Prepend {
                name: p.prepend@,
                value: p.value@,
                separator: opt_text(p.separator),
            },
            EnvOp::Priority(p) => EnvOpView::Priority { level: p.priority },
            EnvOp::Assign(s) => EnvOpView::Assign { name: s.set@, value: s.value@ },
        }
    }
}

impl Clone for EnvOp {
    fn clone(&self) -> (out: Self)
        ensures
            out@ == self@,
    {
        match self {
            EnvOp::Append(a) => EnvOp::Append(
                AppendEnv {
                    append: a.append.clone(),
                    value: a.value.clone(),
                    separator: a.separator.clone(),
                },
            ),
            EnvOp::Comment(c) => EnvOp::Comment(CommentEnv { comment: c.comment.clone() }),
            EnvOp::Prepend(p) => EnvOp::Prepend(
                PrependEnv {
                    prepend: p.prepend.clone(),
                    value: p.value.clone(),
                    separator: p.separator.clone(),
                },
            ),
            EnvOp::Priority(p) => EnvOp::Priority(PriorityEnv { priority: p.priority }),
            EnvOp::Assign(s) => EnvOp::Assign(SetEnv { set: s.set.clone(), value: s.value.clone() }),
        }
    }
}

/// The mathematical values of a list of operations.
pub open spec fn ops_view(ops: Seq<EnvOp>) -> Seq<EnvOpView> {
    ops.map_values(|op: EnvOp| op@)
}

/// A copy of `ops` with equal contents.
pub fn clone_ops(ops: &Vec<EnvOp>) -> (out: Vec<EnvOp>)
    ensures
        ops_view(out@) == ops_view(ops@),
{
    let mut out: Vec<EnvOp> = Vec::new();
    extend_ops(&mut out, ops);
    assert(ops_view(Seq::<EnvOp>::empty()) + ops_view(ops@) =~= ops_view(ops@));
    out
}

/// Appends copies of the operations of `more` to `list`, in order.
pub fn extend_ops(list: &mut Vec<EnvOp>, more: &Vec<EnvOp>)
    ensures
        ops_view(final(list)@) == ops_view(old(list)@) + ops_view(more@),
{
    let mut i: usize = 0;
    while i < more.len()
        invariant
            i <= more.len(),
            ops_view(list@) == ops_view(old(list)@) + ops_view(more@).take(i as int),
        decreases more.len() - i,
    {
        let ghost before = list@;
        list.push(more[i].clone());
        proof {
            assert(ops_view(list@) =~= ops_view(before).push(more[i as int]@));
            assert(ops_view(more@).take(i + 1) =~= ops_view(more@).take(i as int).push(
                more[i as int]@,
            ));
        }
        i = i + 1;
    }
    proof {
        assert(ops_view(more@).take(more.len() as int) =~= ops_view(more@));
    }
}

/// Whether a character must be escaped inside a double-quoted shell word.
pub open spec fn needs_escape(c: char) -> bool {
    c == '\\' || c == '"' || c == '$' || c == '`'
}

/// What one character of a value becomes inside double quotes.
pub open spec fn escaped_char(c: char) -> Seq<char> {
    if needs_escape(c) {
        "\\"@.push(c)
    } else {
        seq![c]
    }
}

/// A value as it is written inside double quotes: every character that the
/// shell would interpret there is preceded by a backslash.
pub open spec fn escaped(value: Seq<char>) -> Seq<char>
    decreases value.len(),
{
    if value.len() == 0 {
        Seq::empty()
    } else {
        escaped(value.drop_last()) + escaped_char(value.last())
    }
}

/// The separator an operation uses.
pub open spec fn separator_or_default(separator: Option<Seq<char>>) -> Seq<char> {
    match separator {
        Some(s) => s,
        None => DEFAULT_SEPARATOR@,
    }
}

/// The script line of one operation, with its line end; empty for a priority.
pub open spec fn op_source(op: EnvOpView) -> Seq<char> {
    match op {
        EnvOpView::Append { name, value, separator } => "export "@ + name + "=\"${"@ + name
            + "}"@ + separator_or_default(separator) + escaped(value) + "\"\n"@,
        EnvOpView::Comment { text } => "# "@ + text + "\n"@,
        EnvOpView::Prepend { name, value, separator } => "export "@ + name + "=\""@ + escaped(
            value,
        ) + separator_or_default(separator) + "${"@ + name + "}\"\n"@,
        EnvOpView::Priority { level } => Seq::empty(),
        EnvOpView::Assign { name, value } => "export "@ + name + "=\""@ + escaped(value)
            + "\"\n"@,
    }
}

/// The startup script of a list of operations: their lines in list order.
pub open spec fn script_text(ops: Seq<EnvOpView>) -> Seq<char>
    decreases ops.len(),
{
    if ops.len() == 0 {
        Seq::empty()
    } else {
        script_text(ops.drop_last()) + op_source(ops.last())
    }
}

/// The priority a list of operations asks for: that of its last priority
/// operation, or the default where it has none.
pub open spec fn priority_of(ops: Seq<EnvOpView>) -> u8
    decreases ops.len(),
{
    if ops.len() == 0 {
        DEFAULT_PRIORITY
    } else {
        match ops.last() {
            EnvOpView::Priority { level } => level,
            _ => priority_of(ops.drop_last()),
        }
    }
}

/// Appends `value` to `out`, escaped for use inside double quotes.
pub fn push_escaped(out: &mut String, value: &str)
    ensures
        final(out)@ == old(out)@ + escaped(value@),
{
    let n = value.unicode_len();
    let mut i: usize = 0;
    while i < n
        invariant
            n == value@.len(),
            i <= n,
            out@ == old(out)@ + escaped(value@.take(i as int)),
        decreases n - i,
    {
        let c = value.get_char(i);
        proof {
            assert(value@.take(i + 1).drop_last() =~= value@.take(i as int));
            assert(value@.take(i + 1).last() == c);
            assert(value@.subrange(i as int, i + 1) =~= seq![c]);
        }
        if c == '\\' || c == '"' || c == '$' || c == '`' {
            out.append("\\");
        }
        out.append(value.substring_char(i, i + 1));
        i = i + 1;
    }
    proof {
        assert(value@.take(n as int) =~= value@);
    }
}

/// Appends the script line of `op` to `out`.
pub fn push_op_source(out: &mut String, op: &EnvOp)
    ensures
        final(out)@ == old(out)@ + op_source(op@),
{
    match op {
        EnvOp::Append(a) => {
            out.append("export ");
            out.append(a.append.as_str());
            out.append("=\"${");
            out.append(a.append.as_str());
            out.append("}");
            match &a.separator {
                Some(s) => out.append(s.as_str()),
                None => out.append(DEFAULT_SEPARATOR),
            }
            push_escaped(out, a.value.as_str());
            out.append("\"\n");
        },
        EnvOp::Comment(c) => {
            out.append("# ");
            out.append(c.comment.as_str());
            out.append("\n");
        },
        EnvOp::Prepend(p) => {
            out.append("export ");
            out.append(p.prepend.as_str());
            out.append("=\"");
            push_escaped(out, p.value.as_str());
            match &p.separator {
                Some(s) => out.append(s.as_str()),
                None => out.append(DEFAULT_SEPARATOR),
            }
            out.append("${");
            out.append(p.prepend.as_str());
            out.append("}\"\n");
        },
        EnvOp::Priority(_) => {},
        EnvOp::Assign(s) => {
            out.append("export ");
            out.append(s.set.as_str());
            out.append("=\"");
            push_escaped(out, s.value.as_str());
            out.append("\"\n");
        },
    }
    proof {
        assert(out@ =~= old(out)@ + op_source(op@));
    }
}

/// Writes the shell script that applies `ops` in order.
///
/// Every `Assign`, `Prepend` and `Append` becomes one `export` line whose value
/// is escaped for double quotes; every `Comment` becomes a `#` line; a
/// `Priority` leaves no line.
pub fn generate_startup_script(ops: &[EnvOp]) -> (script: String)
    ensures
        script@ == script_text(ops_view(ops@)),
{
    let mut script = String::new();
    let mut i: usize = 0;
    while i < ops.len()
        invariant
            i <= ops.len(),
            script@ == script_text(ops_view(ops@).take(i as int)),
        decreases ops.len() - i,
    {
        proof {
            let all = ops_view(ops@);
            assert(all.take(i + 1).drop_last() =~= all.take(i as int));
            assert(all.take(i + 1).last() == ops[i as int]@);
        }
        push_op_source(&mut script, &ops[i]);
        i = i + 1;
    }
    proof {
        assert(ops_view(ops@).take(ops.len() as int) =~= ops_view(ops@));
    }
    script
}

/// The priority under which the startup script of `ops` is installed.
pub fn get_priority(ops: &[EnvOp]) -> (priority: u8)
    ensures
        priority == priority_of(ops_view(ops@)),
{
    let mut priority: u8 = DEFAULT_PRIORITY;
    let mut i: usize = 0;
    while i < ops.len()
        invariant
            i <= ops.len(),
            priority == priority_of(ops_view(ops@).take(i as int)),
        decreases ops.len() - i,
    {
        proof {
            let all = ops_view(ops@);
            assert(all.take(i + 1).drop_last() =~= all.take(i as int));
            assert(all.take(i + 1).last() == ops[i as int]@);
        }
        match &ops[i] {
            EnvOp::Priority(p) => {
                priority = p.priority;
            },
            _ => {},
        }
        i = i + 1;
    }
    proof {
        assert(ops_view(ops@).take(ops.len() as int) =~= ops_view(ops@));
    }
    priority
}

} // verus!
