//! A discovery result and its composition as text.

use vstd::prelude::*;
use crate::compose::{ComposedEnvironment, ComposedView};
use crate::declaration::{specs_view, EnvSpec, EnvSpecView};
use crate::environment::{ops_view, EnvOp, EnvOpView};
use crate::text::{decimal, join, joined, texts, to_decimal};

verus! {

/// The comment line for one discovered file; nothing for a declaration that
/// was not loaded from a file.
pub open spec fn file_line(spec: EnvSpecView) -> Seq<char> {
    match spec.source_path {
        Some(path) => "# - "@ + path + "\n"@,
        None => Seq::empty(),
    }
}

/// The comment lines for the discovered files, in order.
pub open spec fn file_lines(specs: Seq<EnvSpecView>) -> Seq<char>
    decreases specs.len(),
{
    if specs.len() == 0 {
        Seq::empty()
    } else {
        file_lines(specs.drop_last()) + file_line(specs.last())
    }
}

/// The list items for the layers, in order.
pub open spec fn layer_items(layers: Seq<Seq<char>>) -> Seq<char>
    decreases layers.len(),
{
    if layers.len() == 0 {
        Seq::empty()
    } else {
        layer_items(layers.drop_last()) + "  - "@ + layers.last() + "\n"@
    }
}

/// The line for the separator of an operation, where it names one.
pub open spec fn separator_line(separator: Option<Seq<char>>) -> Seq<char> {
    match separator {
        Some(s) => "    separator: "@ + s + "\n"@,
        None => Seq::empty(),
    }
}

/// The list item for one environment operation.
pub open spec fn op_item(op: EnvOpView) -> Seq<char> {
    match op {
        EnvOpView::Assign { name, value } => "  - set: "@ + name + "\n    value: "@ + value
            + "\n"@,
        EnvOpView::Prepend { name, value, separator } => "  - prepend: "@ + name
            + "\n    value: "@ + value + "\n"@ + separator_line(separator),
        EnvOpView::Append { name, value, separator } => "  - append: "@ + name
            + "\n    value: "@ + value + "\n"@ + separator_line(separator),
        EnvOpView::Comment { text } => "  - comment: "@ + text + "\n"@,
        EnvOpView::Priority { level } => "  - priority: "@ + decimal(level as nat) + "\n"@,
    }
}

/// The list items for the environment operations, in order.
pub open spec fn op_items(ops: Seq<EnvOpView>) -> Seq<char>
    decreases ops.len(),
{
    if ops.len() == 0 {
        Seq::empty()
    } else {
        op_items(ops.drop_last()) + op_item(ops.last())
    }
}

/// The `environment:` section; nothing where there are no operations.
pub open spec fn environment_section(ops: Seq<EnvOpView>) -> Seq<char> {
    if ops.len() == 0 {
        Seq::empty()
    } else {
        "\nenvironment:\n"@ + op_items(ops)
    }
}

/// A discovery result and its composition in YAML.
pub open spec fn yaml_text(specs: Seq<EnvSpecView>, composed: ComposedView) -> Seq<char> {
    "# Discovered Files:\n"@ + file_lines(specs) + "\n# Composed Environment:\nlayers:\n"@
        + layer_items(composed.layers) + environment_section(composed.environment)
}

/// The files that declarations were loaded from, in order.
pub open spec fn source_paths(specs: Seq<EnvSpecView>) -> Seq<Seq<char>>
    decreases specs.len(),
{
    if specs.len() == 0 {
        Seq::empty()
    } else {
        match specs.last().source_path {
            Some(path) => source_paths(specs.drop_last()).push(path),
            None => source_paths(specs.drop_last()),
        }
    }
}

/// Each text between double quotes.
pub open spec fn quoted(list: Seq<Seq<char>>) -> Seq<Seq<char>> {
    list.map_values(|t: Seq<char>| "\""@ + t + "\""@)
}

/// A discovery result and its composition in JSON.
pub open spec fn json_text(specs: Seq<EnvSpecView>, composed: ComposedView) -> Seq<char> {
    "{\n  \"discovered_files\": ["@ + joined(quoted(source_paths(specs)), ", "@)
        + "],\n  \"layers\": ["@ + joined(quoted(composed.layers), ", "@)
        + "],\n  \"total_files\": "@ + decimal(specs.len()) + ",\n  \"total_layers\": "@ + decimal(
        composed.layers.len(),
    ) + "\n}\n"@
}

fn push_separator_line(out: &mut String, separator: &Option<String>)
    ensures
        final(out)@ == old(out)@ + separator_line(crate::text::opt_text(*separator)),
{
    match separator {
        Some(s) => {
            out.append("    separator: ");
            out.append(s.as_str());
            out.append("\n");
            proof {
                assert(out@ =~= old(out)@ + separator_line(Some(s@)));
            }
        },
        None => {
            proof {
                assert(out@ =~= old(out)@ + Seq::<char>::empty());
            }
        },
    }
}

fn push_op_item(out: &mut String, op: &EnvOp)
    ensures
        final(out)@ == old(out)@ + op_item(op@),
{
    match op {
        EnvOp::Assign(s) => {
            out.append("  - set: ");
            out.append(s.set.as_str());
            out.append("\n    value: ");
            out.append(s.value.as_str());
            out.append("\n");
        },
        EnvOp::Prepend(p) => {
            out.append("  - prepend: ");
            out.append(p.prepend.as_str());
            out.append("\n    value: ");
            out.append(p.value.as_str());
            out.append("\n");
            push_separator_line(out, &p.separator);
        },
        EnvOp::Append(a) => {
            out.append("  - append: ");
            out.append(a.append.as_str());
            out.append("\n    value: ");
            out.append(a.value.as_str());
            out.append("\n");
            push_separator_line(out, &a.separator);
        },
        EnvOp::Comment(c) => {
            out.append("  - comment: ");
            out.append(c.comment.as_str());
            out.append("\n");
        },
        EnvOp::Priority(p) => {
            out.append("  - priority: ");
            out.append(to_decimal(p.priority as usize).as_str());
            out.append("\n");
        },
    }
    proof {
        assert(out@ =~= old(out)@ + op_item(op@));
    }
}

/// Writes a discovery result and its composition in YAML: the discovered
/// files as comments, the layers, and the environment operations where
/// there are any.
pub fn show_yaml(specs: &[EnvSpec], composed: &ComposedEnvironment) -> (text: String)
    ensures
        text@ == yaml_text(specs_view(specs@), composed@),
{
    let mut text = "# Discovered Files:\n".to_owned();
    let ghost head = text@;
    let mut i: usize = 0;
    while i < specs.len()
        invariant
            i <= specs.len(),
            text@ == head + file_lines(specs_view(specs@).take(i as int)),
        decreases specs.len() - i,
    {
        proof {
            let all = specs_view(specs@);
            assert(all.take(i + 1).drop_last() =~= all.take(i as int));
            assert(all.take(i + 1).last() == specs[i as int]@);
        }
        let ghost before = text@;
        match &specs[i].source_path {
            Some(path) => {
                text.append("# - ");
                text.append(path.as_str());
                text.append("\n");
                proof {
                    assert(text@ =~= before + file_line(specs[i as int]@));
                }
            },
            None => {
                proof {
                    assert(text@ =~= before + file_line(specs[i as int]@));
                }
            },
        }
        proof {
            assert(text@ =~= head + (file_lines(specs_view(specs@).take(i as int)) + file_line(
                specs[i as int]@,
            )));
        }
        i = i + 1;
    }
    proof {
        assert(specs_view(specs@).take(specs.len() as int) =~= specs_view(specs@));
    }
    text.append("\n# Composed Environment:\nlayers:\n");
    let ghost head = text@;
    let ghost layers = composed@.layers;
    let mut k: usize = 0;
    while k < composed.layers.len()
        invariant
            k <= composed.layers.len(),
            layers == texts(composed.layers@),
            text@ == head + layer_items(layers.take(k as int)),
        decreases composed.layers.len() - k,
    {
        proof {
            assert(layers.take(k + 1).drop_last() =~= layers.take(k as int));
            assert(layers.take(k + 1).last() == composed.layers[k as int]@);
        }
        text.append("  - ");
        text.append(composed.layers[k].as_str());
        text.append("\n");
        proof {
            assert(text@ =~= head + layer_items(layers.take(k + 1)));
        }
        k = k + 1;
    }
    proof {
        assert(layers.take(composed.layers.len() as int) =~= layers);
    }
    if composed.environment.len() > 0 {
        text.append("\nenvironment:\n");
        let ghost head = text@;
        let ghost ops = composed@.environment;
        let mut j: usize = 0;
        while j < composed.environment.len()
            invariant
                j <= composed.environment.len(),
                ops == ops_view(composed.environment@),
                text@ == head + op_items(ops.take(j as int)),
            decreases composed.environment.len() - j,
        {
            proof {
                assert(ops.take(j + 1).drop_last() =~= ops.take(j as int));
                assert(ops.take(j + 1).last() == composed.environment[j as int]@);
            }
            push_op_item(&mut text, &composed.environment[j]);
            proof {
                assert(text@ =~= head + op_items(ops.take(j + 1)));
            }
            j = j + 1;
        }
        proof {
            assert(ops.take(composed.environment.len() as int) =~= ops);
        }
    }
    proof {
        assert(text@ =~= yaml_text(specs_view(specs@), composed@));
    }
    text
}

/// Each string of `list` between double quotes.
fn quote_all(list: &Vec<String>) -> (out: Vec<String>)
    ensures
        texts(out@) == quoted(texts(list@)),
{
    let ghost want = quoted(texts(list@));
    let mut out: Vec<String> = Vec::new();
    let mut i: usize = 0;
    while i < list.len()
        invariant
            i <= list.len(),
            want == quoted(texts(list@)),
            texts(out@) == want.take(i as int),
        decreases list.len() - i,
    {
        let ghost before = out@;
        let mut item = "\"".to_owned();
        item.append(list[i].as_str());
        item.append("\"");
        out.push(item);
        proof {
            assert(texts(out@) =~= texts(before).push(item@));
            assert(want.take(i + 1) =~= want.take(i as int).push(want[i as int]));
        }
        i = i + 1;
    }
    proof {
        assert(want.take(list.len() as int) =~= want);
    }
    out
}

/// Writes a discovery result and its composition in JSON: the discovered
/// files, the layers, and how many there are of each.
pub fn show_json(specs: &[EnvSpec], composed: &ComposedEnvironment) -> (text: String)
    ensures
        text@ == json_text(specs_view(specs@), composed@),
{
    let mut files: Vec<String> = Vec::new();
    let mut i: usize = 0;
    while i < specs.len()
        invariant
            i <= specs.len(),
            texts(files@) == source_paths(specs_view(specs@).take(i as int)),
        decreases specs.len() - i,
    {
        proof {
            let all = specs_view(specs@);
            assert(all.take(i + 1).drop_last() =~= all.take(i as int));
            assert(all.take(i + 1).last() == specs[i as int]@);
        }
        let ghost before = files@;
        match &specs[i].source_path {
            Some(path) => {
                files.push(path.clone());
                proof {
                    assert(texts(files@) =~= texts(before).push(path@));
                }
            },
            None => {},
        }
        i = i + 1;
    }
    proof {
        assert(specs_view(specs@).take(specs.len() as int) =~= specs_view(specs@));
    }
    let mut text = "{\n  \"discovered_files\": [".to_owned();
    text.append(join(quote_all(&files).as_slice(), ", ").as_str());
    text.append("],\n  \"layers\": [");
    text.append(join(quote_all(&composed.layers).as_slice(), ", ").as_str());
    text.append("],\n  \"total_files\": ");
    text.append(to_decimal(specs.len()).as_str());
    text.append(",\n  \"total_layers\": ");
    text.append(to_decimal(composed.layers.len()).as_str());
    text.append("\n}\n");
    proof {
        assert(text@ =~= json_text(specs_view(specs@), composed@));
    }
    text
}

} // verus!
