//! Ready-made configurations.

use vstd::prelude::*;

use crate::text::same_text;

verus! {

/// The names of the presets, in the order in which they are listed.
pub const PRESET_NAMES: [&'static str; 5] = [
    "minimal",
    "developer",
    "power-user",
    "cost-focused",
    "worktree-heavy",
];

/// The presets, each beside its name.
pub const PRESET_BODIES: [&'static str; 5] = [
    "[line]\nsegments = [\"model\", \"context_window\"]\n",
    "[line]\nsegments = [\n    \"model\",\n    \"workspace\",\n    \"context_window\",\n    \"cost\",\n    \"session_duration\",\n    \"rate_limit_5h\",\n    \"rate_limit_7d\",\n]\n",
    "layout = \"multi-line\"\n\n[line.1]\nsegments = [\"model\", \"context_window\", \"workspace\"]\n\n[line.2]\nsegments = [\"rate_limit_5h\", \"rate_limit_7d\", \"cost\", \"effort\", \"tokens_total\"]\n",
    "[line]\nsegments = [\"model\", \"context_window\", \"cost\", \"rate_limit_5h\", \"rate_limit_7d\"]\n",
    "[line]\nsegments = [\"model\", \"workspace\", \"context_window\"]\n",
];

/// The place of the preset `name`: the first of that name.
pub open spec fn preset_place(name: Seq<char>, from: int) -> Option<int>
    decreases 5 - from,
{
    if from < 0 || from >= 5 {
        None
    } else if PRESET_NAMES[from]@ == name {
        Some(from)
    } else {
        preset_place(name, from + 1)
    }
}

/// Preset names in the order in which they are listed.
pub fn names() -> (r: Vec<&'static str>)
    ensures
        r@ == PRESET_NAMES@,
{
    let all = PRESET_NAMES;
    let mut out: Vec<&'static str> = Vec::new();
    let mut i: usize = 0;
    while i < 5
        invariant
            i <= 5,
            all == PRESET_NAMES,
            out@ == all@.take(i as int),
        decreases 5 - i,
    {
        out.push(all[i]);
        assert(all@.take(i + 1) =~= all@.take(i as int).push(all@[i as int]));
        i += 1;
    }
    assert(all@.take(5) =~= all@);
    out
}

/// The body of the preset `name`, or `None` where there is none of that name.
/// Case matters.
#[must_use]
pub fn body(name: &str) -> (r: Option<&'static str>)
    ensures
        match preset_place(name@, 0) {
            Some(i) => r == Some(PRESET_BODIES[i]),
            None => r is None,
        },
{
    let all = PRESET_NAMES;
    let bodies = PRESET_BODIES;
    let mut i: usize = 0;
    while i < 5
        invariant
            i <= 5,
            all == PRESET_NAMES,
            bodies == PRESET_BODIES,
            preset_place(name@, 0) == preset_place(name@, i as int),
        decreases 5 - i,
    {
        if same_text(all[i], name) {
            return Some(bodies[i]);
        }
        i += 1;
    }
    None
}

/// No two presets have the same name, so each can be had by its own.
pub proof fn preset_names_are_unique(i: int, j: int)
    requires
        0 <= i < j < 5,
    ensures
        PRESET_NAMES[i]@ != PRESET_NAMES[j]@,
{
    reveal_strlit("minimal");
    reveal_strlit("developer");
    reveal_strlit("power-user");
    reveal_strlit("cost-focused");
    reveal_strlit("worktree-heavy");
    assert(PRESET_NAMES[0]@.len() == 7);
    assert(PRESET_NAMES[1]@.len() == 9);
    assert(PRESET_NAMES[2]@.len() == 10);
    assert(PRESET_NAMES[3]@.len() == 12);
    assert(PRESET_NAMES[4]@.len() == 14);
}

/// Every preset is had by its name: none is hidden behind another.
pub proof fn every_preset_is_found(i: int)
    requires
        0 <= i < 5,
    ensures
        preset_place(PRESET_NAMES[i]@, 0) == Some(i),
{
    reveal_with_fuel(preset_place, 6);
    if i > 0 {
        preset_names_are_unique(0, i);
    }
    if i > 1 {
        preset_names_are_unique(1, i);
    }
    if i > 2 {
        preset_names_are_unique(2, i);
    }
    if i > 3 {
        preset_names_are_unique(3, i);
    }
}

} // verus!
