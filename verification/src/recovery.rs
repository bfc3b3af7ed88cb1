//! Standalone desktop-audio recovery after a quit or crash left a hollow
//! session: pick the hardware sink and source from `pactl list short`
//! listings, move every stream onto the sink, and unload the Pulse modules
//! that still name BusChain nodes. The caller runs the commands.
use vstd::prelude::*;

use crate::modules::{chosen, lemma_chosen_step, parse_module_row};
use crate::ordset::strs_view;
use crate::text::{
    contains, ends_with, has_infix, has_prefix, has_suffix, lines, lines_spec, own, split_char,
    split_spec, starts_with, str_eq,
};

verus! {

/// The second tab-separated column of a line, when there is one.
pub open spec fn second_col(line: Seq<char>) -> Option<Seq<char>> {
    if split_spec(line, '\t').len() >= 2 {
        Some(split_spec(line, '\t')[1])
    } else {
        None
    }
}

/// A device name that is not BusChain's (current or pre-rebrand prefix).
pub open spec fn foreign_name(n: Seq<char>) -> bool {
    !has_prefix(n, "buschain_"@) && !has_prefix(n, "shadow_"@)
}

/// The first listed name (second column) that passes `ok`.
pub open spec fn first_name(ls: Seq<Seq<char>>, ok: spec_fn(Seq<char>) -> bool) -> Option<Seq<char>>
    decreases ls.len(),
{
    if ls.len() == 0 {
        None
    } else {
        match second_col(ls[0]) {
            Some(n) => if ok(n) {
                Some(n)
            } else {
                first_name(ls.drop_first(), ok)
            },
            None => first_name(ls.drop_first(), ok),
        }
    }
}

pub open spec fn sink_ok() -> spec_fn(Seq<char>) -> bool {
    |n: Seq<char>| foreign_name(n)
}

pub open spec fn source_ok() -> spec_fn(Seq<char>) -> bool {
    |n: Seq<char>| foreign_name(n) && !has_suffix(n, ".monitor"@)
}

fn first_name_exec(text: &str, monitors_too: bool) -> (r: Option<String>)
    ensures
        match r {
            Some(n) => first_name(lines_spec(text@), if monitors_too {
                sink_ok()
            } else {
                source_ok()
            }) == Some(n@),
            None => first_name(lines_spec(text@), if monitors_too {
                sink_ok()
            } else {
                source_ok()
            }) is None,
        },
{
    let ls = lines(text);
    let ghost lv = ls@.map_values(|t: String| t@);
    let ghost ok = if monitors_too {
        sink_ok()
    } else {
        source_ok()
    };
    let mut i: usize = 0;
    assert(lv.skip(0) =~= lv);
    while i < ls.len()
        invariant
            i <= ls.len(),
            lv == ls@.map_values(|t: String| t@),
            lv == lines_spec(text@),
            ok == (if monitors_too {
                sink_ok()
            } else {
                source_ok()
            }),
            first_name(lv, ok) == first_name(lv.skip(i as int), ok),
        decreases ls.len() - i,
    {
        assert(lv.skip(i as int)[0] == ls@[i as int]@);
        assert(lv.skip(i as int).drop_first() =~= lv.skip(i + 1));
        let cols = split_char(ls[i].as_str(), '\t');
        proof {
            assert(cols@.map_values(|t: String| t@) == split_spec(ls@[i as int]@, '\t'));
        }
        if cols.len() >= 2 {
            let n = cols[1].as_str();
            assert(n@ == split_spec(ls@[i as int]@, '\t')[1]);
            let pass = !starts_with(n, "buschain_") && !starts_with(n, "shadow_") && (monitors_too
                || !ends_with(n, ".monitor"));
            if pass {
                return Some(own(n));
            }
        }
        i += 1;
    }
    None
}

/// First column of each line (a sink-input listing's indices).
pub open spec fn first_cols(ls: Seq<Seq<char>>) -> Seq<Seq<char>> {
    ls.map_values(|l: Seq<char>| split_spec(l, '\t')[0])
}

/// Pulse modules recovery unloads: null sinks, loopbacks, remap sources and
/// LADSPA sinks whose arguments name BusChain nodes.
pub open spec fn recovery_pick() -> spec_fn(Seq<char>, Seq<char>) -> bool {
    |name: Seq<char>, args: Seq<char>|
        (has_infix(args, "buschain_"@) || has_infix(args, "shadow_"@)) && (name == "module-null-sink"@ || name
            == "module-loopback"@ || name == "module-remap-source"@ || name == "module-ladspa-sink"@)
}

/// What recovery does.
#[derive(Debug)]
pub struct RecoveryPlan {
    /// The sink made default and unmuted, and that every stream moves to.
    pub hw_sink: String,
    /// The source made default and unmuted, when one was found.
    pub hw_source: Option<String>,
    /// Sink-input indices to move onto `hw_sink`.
    pub move_inputs: Vec<String>,
    /// Module indices to unload.
    pub unload_modules: Vec<String>,
}

/// Recovery from `pactl list short sinks` / `sources`, and the sink-input and
/// module listings (none when they could not be had). None when no
/// non-BusChain sink is listed (recovery fails).
pub fn recover_desktop_audio(sinks: &str, sources: &str, sink_inputs: Option<&str>, modules: Option<&str>) -> (r:
    Option<RecoveryPlan>)
    ensures
        match first_name(lines_spec(sinks@), sink_ok()) {
            Some(n) if n.len() > 0 => r matches Some(p) && p.hw_sink@ == n && match first_name(
                lines_spec(sources@),
                source_ok(),
            ) {
                Some(s) if s.len() > 0 => p.hw_source matches Some(x) && x@ == s,
                _ => p.hw_source is None,
            } && strs_view(p.move_inputs@) == match sink_inputs {
                Some(t) => first_cols(lines_spec(t@)),
                None => Seq::empty(),
            } && strs_view(p.unload_modules@) == match modules {
                Some(m) => chosen(lines_spec(m@), recovery_pick()),
                None => Seq::empty(),
            },
            _ => r is None,
        },
{
    let hw_sink = match first_name_exec(sinks, true) {
        Some(n) => if n.as_str().unicode_len() > 0 {
            n
        } else {
            return None;
        },
        None => return None,
    };
    let hw_source = match first_name_exec(sources, false) {
        Some(n) => if n.as_str().unicode_len() > 0 {
            Some(n)
        } else {
            None
        },
        None => None,
    };
    let mut move_inputs: Vec<String> = Vec::new();
    match sink_inputs {
        Some(t) => {
            let ls = lines(t);
            let ghost lv = ls@.map_values(|x: String| x@);
            let mut i: usize = 0;
            while i < ls.len()
                invariant
                    i <= ls.len(),
                    lv == ls@.map_values(|x: String| x@),
                    lv == lines_spec(t@),
                    strs_view(move_inputs@) == first_cols(lv.take(i as int)),
                decreases ls.len() - i,
            {
                let cols = split_char(ls[i].as_str(), '\t');
                proof {
                    assert(cols@.map_values(|x: String| x@) == split_spec(ls@[i as int]@, '\t'));
                    assert(lv.take(i + 1) =~= lv.take(i as int).push(ls@[i as int]@));
                    let (d, c) = crate::text::split_acc(ls@[i as int]@, '\t');
                    assert(split_spec(ls@[i as int]@, '\t') == d.push(c));
                    assert(cols@.len() == cols@.map_values(|x: String| x@).len());
                    assert(cols@.len() >= 1);
                    assert(cols@[0]@ == split_spec(ls@[i as int]@, '\t')[0]);
                    assert(first_cols(lv.take(i + 1)) =~= first_cols(lv.take(i as int)).push(split_spec(lv[i as int], '\t')[0]));
                }
                move_inputs.push(own(cols[0].as_str()));
                assert(strs_view(move_inputs@) =~= first_cols(lv.take(i + 1)));
                i += 1;
            }
            assert(lv.take(ls.len() as int) =~= lv);
        },
        None => {},
    }
    let mut unload_modules: Vec<String> = Vec::new();
    match modules {
        Some(m) => {
            let ls = lines(m);
            let ghost lv = ls@.map_values(|x: String| x@);
            let ghost pick = recovery_pick();
            let mut i: usize = 0;
            while i < ls.len()
                invariant
                    i <= ls.len(),
                    lv == ls@.map_values(|x: String| x@),
                    lv == lines_spec(m@),
                    pick == recovery_pick(),
                    strs_view(unload_modules@) == chosen(lv.take(i as int), pick),
                decreases ls.len() - i,
            {
                proof {
                    lemma_chosen_step(lv, pick, i as int);
                }
                assert(lv[i as int] == ls@[i as int]@);
                match parse_module_row(ls[i].as_str()) {
                    Some(row) => {
                        let a = row.args.as_str();
                        let n = row.name.as_str();
                        let named = contains(a, "buschain_") || contains(a, "shadow_");
                        let kind = str_eq(n, "module-null-sink") || str_eq(n, "module-loopback") || str_eq(
                            n,
                            "module-remap-source",
                        ) || str_eq(n, "module-ladspa-sink");
                        if named && kind {
                            let ghost before = strs_view(unload_modules@);
                            unload_modules.push(row.index);
                            assert(strs_view(unload_modules@) =~= before.push(row.index@));
                        }
                    },
                    None => {},
                }
                i += 1;
            }
            assert(lv.take(ls.len() as int) =~= lv);
        },
        None => {},
    }
    Some(RecoveryPlan { hw_sink, hw_source, move_inputs, unload_modules })
}

} // verus!
