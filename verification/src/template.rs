//! Texts of new declaration files.

use vstd::prelude::*;
use crate::text::{join, joined, texts};

verus! {

/// The standard template up to the value of `inherit`.
pub const STANDARD_HEAD: &'static str =
    "# spenv environment specification\n# See: https://spkenv.dev/docs/spenv\n\napi: spenv/v0\n\n# Optional: Human-readable description\n# description: \"My project environment\"\n\n# In-tree inheritance (default: false for security)\n# When true, walks up directory tree loading parent .spenv.yaml files\n# When false, only loads this file (recommended)\ninherit: ";

/// The standard template between the value of `inherit` and the layers.
pub const STANDARD_MIDDLE: &'static str =
    "\n\n# Explicit includes (recommended over inherit: true)\n# includes:\n#   - ~/.config/spenv/defaults.spenv.yaml\n#   - /team/shared/base.spenv.yaml\n#   - ../shared/common.spenv.yaml\n\n# SPFS layers to load (tags, digests, or .spfs.yaml paths)\n";

/// The standard template behind the layers.
pub const STANDARD_TAIL: &'static str =
    "\n# Environment variable operations\n# environment:\n#   - prepend: PATH\n#     value: /spfs/bin\n#   - set: PROJECT_ROOT\n#     value: /spfs/project\n\n# Bind mounts (host paths into /spfs)\n# contents:\n#   - bind: ./src\n#     dest: /spfs/project/src\n";

/// The layers of the standard template where none are given: an example,
/// commented out.
pub const EXAMPLE_LAYERS: &'static str =
    "# layers:\n#   - platform/centos7\n#   - dev-tools/latest\n";

/// The full template up to the value of `inherit`.
pub const FULL_HEAD: &'static str =
    "# spenv environment specification\n# Full example with all fields documented\n\napi: spenv/v0\n\ndescription: \"Full example environment\"\n\ninherit: ";

/// The full template behind the value of `inherit`.
pub const FULL_TAIL: &'static str =
    "\n\nincludes:\n#   - ~/.config/spenv/defaults.spenv.yaml\n#   - /team/shared/base.spenv.yaml\n\nlayers:\n#   - platform/centos7\n#   - dev-tools/latest\n\npackages:\n#   - python/3.9\n#   - cmake/3.20\n\npackage_options:\n#   binary_only: true\n#   solver: step\n#\n# Note: Repository selection is controlled via CLI flags, not in spec:\n#   spenv load --enable-repo origin --disable-repo local\n#   See docs for SPENV_ENABLE_REPO and other environment variables\n\nenvironment:\n#   - set: PROJECT_ROOT\n#     value: /spfs/project\n#   - prepend: PATH\n#     value: /spfs/bin\n#   - priority: 50\n\ncontents:\n#   - bind: ./src\n#     dest: /spfs/project/src\n#     readonly: false\n\nlock:\n#   enabled: true\n#   strict: false\n";

/// A truth value as a declaration file writes it.
pub open spec fn flag_text(flag: bool) -> Seq<char> {
    if flag {
        "true"@
    } else {
        "false"@
    }
}

/// The minimal template.
pub open spec fn minimal_text(inherit: bool) -> Seq<char> {
    "api: spenv/v0\ninherit: "@ + flag_text(inherit) + "\n\nlayers: []\n"@
}

/// The `layers:` section of the standard template.
pub open spec fn layers_section(layers: Seq<Seq<char>>) -> Seq<char> {
    if layers.len() == 0 {
        EXAMPLE_LAYERS@
    } else {
        "layers:\n"@ + joined(layers.map_values(|l: Seq<char>| "  - "@ + l), "\n"@) + "\n"@
    }
}

/// The standard template.
pub open spec fn standard_text(inherit: bool, layers: Seq<Seq<char>>) -> Seq<char> {
    STANDARD_HEAD@ + flag_text(inherit) + STANDARD_MIDDLE@ + layers_section(layers)
        + STANDARD_TAIL@
}

/// The full template.
pub open spec fn full_text(inherit: bool) -> Seq<char> {
    FULL_HEAD@ + flag_text(inherit) + FULL_TAIL@
}

fn flag(value: bool) -> (text: &'static str)
    ensures
        text@ == flag_text(value),
{
    if value {
        "true"
    } else {
        "false"
    }
}

/// The smallest declaration file: the version, `inherit`, and no layers.
pub fn generate_minimal_template(inherit: bool) -> (text: String)
    ensures
        text@ == minimal_text(inherit),
{
    let mut text = "api: spenv/v0\ninherit: ".to_owned();
    text.append(flag(inherit));
    text.append("\n\nlayers: []\n");
    text
}

/// A declaration file with the common fields explained: `inherit` as given,
/// and `layers` listed, or an example in their place where there are none.
pub fn generate_standard_template(inherit: bool, layers: &[String]) -> (text: String)
    ensures
        text@ == standard_text(inherit, texts(layers@)),
{
    let mut text = STANDARD_HEAD.to_owned();
    text.append(flag(inherit));
    text.append(STANDARD_MIDDLE);
    if layers.len() == 0 {
        text.append(EXAMPLE_LAYERS);
    } else {
        let ghost items = texts(layers@).map_values(|l: Seq<char>| "  - "@ + l);
        let mut lines: Vec<String> = Vec::new();
        let mut i: usize = 0;
        while i < layers.len()
            invariant
                i <= layers.len(),
                items == texts(layers@).map_values(|l: Seq<char>| "  - "@ + l),
                texts(lines@) == items.take(i as int),
            decreases layers.len() - i,
        {
            let ghost before = lines@;
            let mut line = "  - ".to_owned();
            line.append(layers[i].as_str());
            lines.push(line);
            proof {
                assert(texts(lines@) =~= texts(before).push(line@));
                assert(items.take(i + 1) =~= items.take(i as int).push(items[i as int]));
            }
            i = i + 1;
        }
        proof {
            assert(items.take(layers.len() as int) =~= items);
        }
        text.append("layers:\n");
        text.append(join(lines.as_slice(), "\n").as_str());
        text.append("\n");
    }
    text.append(STANDARD_TAIL);
    proof {
        assert(text@ =~= standard_text(inherit, texts(layers@)));
    }
    text
}

/// A declaration file that shows every field.
pub fn generate_full_template(inherit: bool) -> (text: String)
    ensures
        text@ == full_text(inherit),
{
    let mut text = FULL_HEAD.to_owned();
    text.append(flag(inherit));
    text.append(FULL_TAIL);
    text
}

} // verus!
