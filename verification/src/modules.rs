//! Pulse `module-loopback` bookkeeping: which modules of `pactl list short
//! modules` to unload, and the table of loopback hops BusChain owns.
use vstd::prelude::*;

use crate::ordset::strs_view;
use crate::text::{
    concat, contains, has_infix, has_prefix, lines, lines_spec, own, split_once_char,
    starts_with, str_eq, strip_prefix, strip_prefix_spec, tokens, tokens_spec,
};
use crate::unlink::{any_same_or_dotted, same_or_dotted};

verus! {

/// One row of `pactl list short modules`: index, module name and arguments
/// (`splitn(3, '\t')`; a row without a tab has no name and is skipped).
pub open spec fn module_row(line: Seq<char>) -> Option<(Seq<char>, Seq<char>, Seq<char>)> {
    match first_tab(line) {
        Some(i) => {
            let idx = line.subrange(0, i);
            let rest = line.subrange(i + 1, line.len() as int);
            match first_tab(rest) {
                Some(j) => Some((idx, rest.subrange(0, j), rest.subrange(j + 1, rest.len() as int))),
                None => Some((idx, rest, Seq::empty())),
            }
        },
        None => None,
    }
}

/// Index of the first tab.
pub open spec fn first_tab(s: Seq<char>) -> Option<int> {
    if s.contains('\t') {
        Some(choose|i: int| 0 <= i < s.len() && s[i] == '\t' && forall|j: int| 0 <= j < i ==> s[j] != '\t')
    } else {
        None
    }
}

proof fn lemma_first_tab(s: Seq<char>, a: Seq<char>, b: Seq<char>)
    requires
        s == a.push('\t') + b,
        !a.contains('\t'),
    ensures
        first_tab(s) == Some(a.len() as int),
        s.subrange(0, a.len() as int) == a,
        s.subrange(a.len() as int + 1, s.len() as int) == b,
{
    assert(s[a.len() as int] == '\t');
    assert(s.contains('\t'));
    let k = choose|i: int| 0 <= i < s.len() && s[i] == '\t' && forall|j: int| 0 <= j < i ==> s[j] != '\t';
    assert(k == a.len()) by {
        if k < a.len() {
            assert(a[k] == s[k]);
        }
        if k > a.len() {
            assert(s[a.len() as int] == '\t');
        }
    }
    assert(s.subrange(0, a.len() as int) =~= a);
    assert(s.subrange(a.len() as int + 1, s.len() as int) =~= b);
}

/// A module row.
pub struct ModuleRow {
    pub index: String,
    pub name: String,
    pub args: String,
}

pub open spec fn row_view(r: ModuleRow) -> (Seq<char>, Seq<char>, Seq<char>) {
    (r.index@, r.name@, r.args@)
}

/// Split one listing line into index, name and arguments.
pub fn parse_module_row(line: &str) -> (r: Option<ModuleRow>)
    ensures
        match r {
            Some(m) => module_row(line@) == Some(row_view(m)),
            None => module_row(line@) is None,
        },
{
    match split_once_char(line, '\t') {
        None => None,
        Some((idx, rest)) => {
            proof {
                lemma_first_tab(line@, idx@, rest@);
            }
            match split_once_char(rest.as_str(), '\t') {
                Some((name, args)) => {
                    proof {
                        lemma_first_tab(rest@, name@, args@);
                    }
                    Some(ModuleRow { index: idx, name, args })
                },
                None => {
                    assert(first_tab(rest@) is None);
                    Some(ModuleRow { index: idx, name: rest, args: String::new() })
                },
            }
        },
    }
}

/// Value of the first `source=` token of module arguments (empty when none).
pub open spec fn source_arg(toks: Seq<Seq<char>>) -> Seq<char>
    decreases toks.len(),
{
    if toks.len() == 0 {
        Seq::empty()
    } else {
        match strip_prefix_spec(toks[0], "source="@) {
            Some(v) => v,
            None => source_arg(toks.drop_first()),
        }
    }
}

fn source_arg_exec(args: &str) -> (r: String)
    ensures
        r@ == source_arg(tokens_spec(args@)),
{
    let toks = tokens(args);
    let ghost tv = toks@.map_values(|t: String| t@);
    let mut i: usize = 0;
    assert(tv.skip(0) =~= tv);
    while i < toks.len()
        invariant
            i <= toks.len(),
            tv == toks@.map_values(|t: String| t@),
            tv == tokens_spec(args@),
            source_arg(tv) == source_arg(tv.skip(i as int)),
        decreases toks.len() - i,
    {
        assert(tv.skip(i as int)[0] == toks@[i as int]@);
        assert(tv.skip(i as int).drop_first() =~= tv.skip(i + 1));
        match strip_prefix(toks[i].as_str(), "source=") {
            Some(v) => {
                return v;
            },
            None => {},
        }
        i += 1;
    }
    assert(tv.skip(i as int).len() == 0);
    String::new()
}

/// `src` and an allowed name refer to the same node (either may carry a dotted suffix).
pub open spec fn source_matches_allowed(src: Seq<char>, allow: Seq<Seq<char>>) -> bool {
    exists|i: int|
        0 <= i < allow.len() && (same_or_dotted(src, #[trigger] allow[i]) || has_prefix(
            allow[i],
            src + "."@,
        ))
}

fn source_matches_allowed_exec(src: &str, allow: &[String]) -> (r: bool)
    ensures
        r == source_matches_allowed(src@, strs_view(allow@)),
{
    let dotted = concat(src, ".");
    let mut i: usize = 0;
    while i < allow.len()
        invariant
            i <= allow.len(),
            dotted@ == src@ + "."@,
            forall|j: int|
                0 <= j < i ==> !(same_or_dotted(src@, #[trigger] strs_view(allow@)[j]) || has_prefix(
                    strs_view(allow@)[j],
                    src@ + "."@,
                )),
        decreases allow.len() - i,
    {
        assert(strs_view(allow@)[i as int] == allow@[i as int]@);
        let a = allow[i].as_str();
        let ad = concat(a, ".");
        if str_eq(src, a) || starts_with(src, ad.as_str()) || starts_with(a, dotted.as_str()) {
            return true;
        }
        i += 1;
    }
    false
}

/// Module indices chosen from a listing by a row predicate, in listing order.
pub open spec fn chosen(ls: Seq<Seq<char>>, pick: spec_fn(Seq<char>, Seq<char>) -> bool) -> Seq<
    Seq<char>,
>
    decreases ls.len(),
{
    if ls.len() == 0 {
        Seq::empty()
    } else {
        let rest = chosen(ls.drop_last(), pick);
        match module_row(ls.last()) {
            Some((idx, name, args)) => if pick(name, args) {
                rest.push(idx)
            } else {
                rest
            },
            None => rest,
        }
    }
}

/// `line` is a module row with index `idx` that `pick` selects.
pub open spec fn row_picked(line: Seq<char>, pick: spec_fn(Seq<char>, Seq<char>) -> bool, idx: Seq<char>) -> bool {
    match module_row(line) {
        Some((i, name, args)) => pick(name, args) && i == idx,
        None => false,
    }
}

/// Every module index a selector picks comes from a listing row whose name
/// and arguments pass it (so, e.g., teardown unloads only BusChain
/// loopbacks and pruning into a sink never unloads the keepalive hold's).
pub proof fn law_chosen_rows_pass(ls: Seq<Seq<char>>, pick: spec_fn(Seq<char>, Seq<char>) -> bool)
    ensures
        forall|k: int|
            0 <= k < chosen(ls, pick).len() ==> exists|j: int|
                0 <= j < ls.len() && row_picked(#[trigger] ls[j], pick, #[trigger] chosen(ls, pick)[k]),
    decreases ls.len(),
{
    if ls.len() > 0 {
        let init = ls.drop_last();
        law_chosen_rows_pass(init, pick);
        let prev = chosen(init, pick);
        let cur = chosen(ls, pick);
        assert forall|k: int| 0 <= k < cur.len() implies exists|j: int|
            0 <= j < ls.len() && row_picked(#[trigger] ls[j], pick, #[trigger] cur[k]) by {
            if k < prev.len() {
                assert(cur[k] == prev[k]);
                let j = choose|j: int| 0 <= j < init.len() && row_picked(#[trigger] init[j], pick, prev[k]);
                assert(ls[j] == init[j]);
            } else {
                assert(ls[ls.len() - 1] == ls.last());
            }
        }
    }
}

pub(crate) proof fn lemma_chosen_step(ls: Seq<Seq<char>>, pick: spec_fn(Seq<char>, Seq<char>) -> bool, i: int)
    requires
        0 <= i < ls.len(),
    ensures
        chosen(ls.take(i + 1), pick) == (match module_row(ls[i]) {
            Some((idx, name, args)) => if pick(name, args) {
                chosen(ls.take(i), pick).push(idx)
            } else {
                chosen(ls.take(i), pick)
            },
            None => chosen(ls.take(i), pick),
        }),
{
    assert(ls.take(i + 1).drop_last() =~= ls.take(i));
}

/// HW → `buschain_rs_*` loopbacks whose source is not in any track's input rack.
pub open spec fn orphan_rs_pick(allow: Seq<Seq<char>>) -> spec_fn(Seq<char>, Seq<char>) -> bool {
    |name: Seq<char>, args: Seq<char>|
        name == "module-loopback"@ && has_infix(args, "sink=buschain_rs_"@) && {
            let src = source_arg(tokens_spec(args));
            !(src.len() == 0 || source_matches_allowed(src, allow))
        }
}

/// Module indices of loopbacks into a rate bridge whose source no track captures.
pub fn unload_orphan_hw_to_rs_loopbacks(modules: &str, allow_sources: &[String]) -> (r: Vec<String>)
    ensures
        strs_view(r@) == chosen(lines_spec(modules@), orphan_rs_pick(strs_view(allow_sources@))),
{
    let ls = lines(modules);
    let ghost lv = ls@.map_values(|t: String| t@);
    let ghost pick = orphan_rs_pick(strs_view(allow_sources@));
    let mut out: Vec<String> = Vec::new();
    let mut i: usize = 0;
    while i < ls.len()
        invariant
            i <= ls.len(),
            lv == ls@.map_values(|t: String| t@),
            lv == lines_spec(modules@),
            pick == orphan_rs_pick(strs_view(allow_sources@)),
            strs_view(out@) == chosen(lv.take(i as int), pick),
        decreases ls.len() - i,
    {
        proof {
            lemma_chosen_step(lv, pick, i as int);
        }
        assert(lv[i as int] == ls@[i as int]@);
        match parse_module_row(ls[i].as_str()) {
            Some(m) => {
                let src = source_arg_exec(m.args.as_str());
                let take = str_eq(m.name.as_str(), "module-loopback") && contains(
                    m.args.as_str(),
                    "sink=buschain_rs_",
                ) && !(src.as_str().is_empty() || source_matches_allowed_exec(
                    src.as_str(),
                    allow_sources,
                ));
                if take {
                    let ghost before = strs_view(out@);
                    out.push(m.index);
                    assert(strs_view(out@) =~= before.push(m.index@));
                }
            },
            None => {},
        }
        i += 1;
    }
    assert(lv.take(ls.len() as int) =~= lv);
    out
}

/// Loopbacks into `sink` (never the keepalive hold) whose source is not allowed.
pub open spec fn into_sink_pick(sink: Seq<char>, allow: Seq<Seq<char>>) -> spec_fn(
    Seq<char>,
    Seq<char>,
) -> bool {
    |name: Seq<char>, args: Seq<char>|
        name == "module-loopback"@ && has_infix(args, "sink="@ + sink) && !has_infix(
            args,
            "sink=buschain_hold"@,
        ) && {
            let src = source_arg(tokens_spec(args));
            !(src.len() > 0 && source_matches_allowed(src, allow))
        }
}

/// Module indices of loopbacks into `sink` except those from allowed sources.
/// With nothing allowed, every loopback into `sink` goes.
pub fn unload_legacy_loopbacks_into_sink_except(modules: &str, sink: &str, allow_sources: &[String]) -> (r: Vec<String>)
    ensures
        strs_view(r@) == chosen(lines_spec(modules@), into_sink_pick(sink@, strs_view(allow_sources@))),
{
    let snk = concat("sink=", sink);
    let ls = lines(modules);
    let ghost lv = ls@.map_values(|t: String| t@);
    let ghost pick = into_sink_pick(sink@, strs_view(allow_sources@));
    let mut out: Vec<String> = Vec::new();
    let mut i: usize = 0;
    while i < ls.len()
        invariant
            i <= ls.len(),
            snk@ == "sink="@ + sink@,
            lv == ls@.map_values(|t: String| t@),
            lv == lines_spec(modules@),
            pick == into_sink_pick(sink@, strs_view(allow_sources@)),
            strs_view(out@) == chosen(lv.take(i as int), pick),
        decreases ls.len() - i,
    {
        proof {
            lemma_chosen_step(lv, pick, i as int);
        }
        assert(lv[i as int] == ls@[i as int]@);
        match parse_module_row(ls[i].as_str()) {
            Some(m) => {
                let src = source_arg_exec(m.args.as_str());
                let take = str_eq(m.name.as_str(), "module-loopback") && contains(
                    m.args.as_str(),
                    snk.as_str(),
                ) && !contains(m.args.as_str(), "sink=buschain_hold") && !(!src.as_str().is_empty()
                    && source_matches_allowed_exec(src.as_str(), allow_sources));
                if take {
                    let ghost before = strs_view(out@);
                    out.push(m.index);
                    assert(strs_view(out@) =~= before.push(m.index@));
                }
            },
            None => {},
        }
        i += 1;
    }
    assert(lv.take(ls.len() as int) =~= lv);
    out
}

/// Some allowed sink appears as `sink=<name>` in the arguments.
pub open spec fn names_allowed_sink(args: Seq<char>, sinks: Seq<Seq<char>>) -> bool {
    exists|i: int| 0 <= i < sinks.len() && has_infix(args, "sink="@ + #[trigger] sinks[i])
}

/// Loopbacks from `source` except into the hold sink or an allowed sink.
pub open spec fn from_source_pick(source: Seq<char>, sinks: Seq<Seq<char>>) -> spec_fn(
    Seq<char>,
    Seq<char>,
) -> bool {
    |name: Seq<char>, args: Seq<char>|
        name == "module-loopback"@ && has_infix(args, "source="@ + source) && !has_infix(
            args,
            "sink=buschain_hold"@,
        ) && !names_allowed_sink(args, sinks)
}

/// Module indices of loopbacks from `source` except into hold / allowed sinks.
pub fn unload_legacy_from_source_except(modules: &str, source: &str, allow_sinks: &[String]) -> (r: Vec<String>)
    ensures
        strs_view(r@) == chosen(lines_spec(modules@), from_source_pick(source@, strs_view(allow_sinks@))),
{
    let src = concat("source=", source);
    let ls = lines(modules);
    let ghost lv = ls@.map_values(|t: String| t@);
    let ghost pick = from_source_pick(source@, strs_view(allow_sinks@));
    let mut out: Vec<String> = Vec::new();
    let mut i: usize = 0;
    while i < ls.len()
        invariant
            i <= ls.len(),
            src@ == "source="@ + source@,
            lv == ls@.map_values(|t: String| t@),
            lv == lines_spec(modules@),
            pick == from_source_pick(source@, strs_view(allow_sinks@)),
            strs_view(out@) == chosen(lv.take(i as int), pick),
        decreases ls.len() - i,
    {
        proof {
            lemma_chosen_step(lv, pick, i as int);
        }
        assert(lv[i as int] == ls@[i as int]@);
        match parse_module_row(ls[i].as_str()) {
            Some(m) => {
                let mut allowed = false;
                let mut k: usize = 0;
                while k < allow_sinks.len()
                    invariant
                        k <= allow_sinks.len(),
                        allowed == exists|j: int|
                            0 <= j < k && has_infix(m.args@, "sink="@ + #[trigger] strs_view(allow_sinks@)[j]),
                    decreases allow_sinks.len() - k,
                {
                    assert(strs_view(allow_sinks@)[k as int] == allow_sinks@[k as int]@);
                    let want = concat("sink=", allow_sinks[k].as_str());
                    if contains(m.args.as_str(), want.as_str()) {
                        allowed = true;
                    }
                    k += 1;
                }
                let take = str_eq(m.name.as_str(), "module-loopback") && contains(
                    m.args.as_str(),
                    src.as_str(),
                ) && !contains(m.args.as_str(), "sink=buschain_hold") && !allowed;
                if take {
                    let ghost before = strs_view(out@);
                    out.push(m.index);
                    assert(strs_view(out@) =~= before.push(m.index@));
                }
            },
            None => {},
        }
        i += 1;
    }
    assert(lv.take(ls.len() as int) =~= lv);
    out
}

/// Loopbacks for exactly this `source → sink` hop.
pub open spec fn hop_pick(source: Seq<char>, sink: Seq<char>) -> spec_fn(Seq<char>, Seq<char>) -> bool {
    |name: Seq<char>, args: Seq<char>|
        name == "module-loopback"@ && has_infix(args, "source="@ + source) && has_infix(
            args,
            "sink="@ + sink,
        )
}

/// Module indices of loopbacks for the `source → sink` hop.
pub fn loopback_modules_for(modules: &str, source: &str, sink: &str) -> (r: Vec<String>)
    ensures
        strs_view(r@) == chosen(lines_spec(modules@), hop_pick(source@, sink@)),
{
    let src = concat("source=", source);
    let snk = concat("sink=", sink);
    let ls = lines(modules);
    let ghost lv = ls@.map_values(|t: String| t@);
    let ghost pick = hop_pick(source@, sink@);
    let mut out: Vec<String> = Vec::new();
    let mut i: usize = 0;
    while i < ls.len()
        invariant
            i <= ls.len(),
            src@ == "source="@ + source@,
            snk@ == "sink="@ + sink@,
            lv == ls@.map_values(|t: String| t@),
            lv == lines_spec(modules@),
            pick == hop_pick(source@, sink@),
            strs_view(out@) == chosen(lv.take(i as int), pick),
        decreases ls.len() - i,
    {
        proof {
            lemma_chosen_step(lv, pick, i as int);
        }
        assert(lv[i as int] == ls@[i as int]@);
        match parse_module_row(ls[i].as_str()) {
            Some(m) => {
                if str_eq(m.name.as_str(), "module-loopback") && contains(m.args.as_str(), src.as_str())
                    && contains(m.args.as_str(), snk.as_str()) {
                    let ghost before = strs_view(out@);
                    out.push(m.index);
                    assert(strs_view(out@) =~= before.push(m.index@));
                }
            },
            None => {},
        }
        i += 1;
    }
    assert(lv.take(ls.len() as int) =~= lv);
    out
}

/// Whether any listing line is a loopback for `source → sink`.
pub fn pulse_loopback_exists(modules: &str, source: &str, sink: &str) -> (r: bool)
    ensures
        r == exists|i: int|
            0 <= i < lines_spec(modules@).len() && {
                let l = #[trigger] lines_spec(modules@)[i];
                has_infix(l, "module-loopback"@) && has_infix(l, "source="@ + source@) && has_infix(
                    l,
                    "sink="@ + sink@,
                )
            },
{
    let src = concat("source=", source);
    let snk = concat("sink=", sink);
    let ls = lines(modules);
    let ghost lv = ls@.map_values(|t: String| t@);
    let mut i: usize = 0;
    while i < ls.len()
        invariant
            i <= ls.len(),
            src@ == "source="@ + source@,
            snk@ == "sink="@ + sink@,
            lv == ls@.map_values(|t: String| t@),
            lv == lines_spec(modules@),
            forall|j: int|
                0 <= j < i ==> !(has_infix(#[trigger] lv[j], "module-loopback"@) && has_infix(
                    lv[j],
                    "source="@ + source@,
                ) && has_infix(lv[j], "sink="@ + sink@)),
        decreases ls.len() - i,
    {
        assert(lv[i as int] == ls@[i as int]@);
        let l = ls[i].as_str();
        if contains(l, "module-loopback") && contains(l, src.as_str()) && contains(l, snk.as_str()) {
            return true;
        }
        i += 1;
    }
    false
}

// ---------------------------------------------------------------------------
// Owned loopback hops
// ---------------------------------------------------------------------------

/// The `(pulse_source, pulse_sink)` hops BusChain created, without duplicates.
pub struct OwnedLinks {
    pub pairs: Vec<(String, String)>,
}

pub open spec fn owned_view(o: OwnedLinks) -> Set<(Seq<char>, Seq<char>)> {
    o.pairs@.map_values(|p: (String, String)| (p.0@, p.1@)).to_set()
}

/// An owned hop that survives cutting `src_node` from all but `allow`.
pub open spec fn hop_kept(p: (Seq<char>, Seq<char>), src_node: Seq<char>, allow: Seq<Seq<char>>) -> bool {
    crate::text::without_suffix(p.0, ".monitor"@) != src_node || allow.contains(p.1) || p.1 == "buschain_hold"@
}

impl OwnedLinks {
    pub fn new() -> (r: Self)
        ensures
            owned_view(r) == Set::<(Seq<char>, Seq<char>)>::empty(),
    {
        let r = OwnedLinks { pairs: Vec::new() };
        assert(owned_view(r) =~= Set::<(Seq<char>, Seq<char>)>::empty());
        r
    }

    fn find(&self, source: &str, sink: &str) -> (r: Option<usize>)
        ensures
            match r {
                Some(i) => i < self.pairs@.len() && self.pairs@[i as int].0@ == source@
                    && self.pairs@[i as int].1@ == sink@,
                None => !owned_view(*self).contains((source@, sink@)),
            },
    {
        let mut i: usize = 0;
        while i < self.pairs.len()
            invariant
                i <= self.pairs.len(),
                forall|j: int|
                    0 <= j < i ==> !(self.pairs@[j].0@ == source@ && self.pairs@[j].1@ == sink@),
            decreases self.pairs.len() - i,
        {
            if str_eq(self.pairs[i].0.as_str(), source) && str_eq(self.pairs[i].1.as_str(), sink) {
                return Some(i);
            }
            i += 1;
        }
        proof {
            let pv = self.pairs@.map_values(|p: (String, String)| (p.0@, p.1@));
            if pv.to_set().contains((source@, sink@)) {
                let k = choose|k: int| 0 <= k < pv.len() && pv[k] == (source@, sink@);
                assert(pv[k] == (self.pairs@[k].0@, self.pairs@[k].1@));
            }
        }
        None
    }

    /// Record that BusChain owns the hop.
    pub fn insert(&mut self, source: &str, sink: &str)
        ensures
            owned_view(*final(self)) == owned_view(*old(self)).insert((source@, sink@)),
    {
        match self.find(source, sink) {
            Some(i) => {
                proof {
                    let pv = self.pairs@.map_values(|p: (String, String)| (p.0@, p.1@));
                    assert(pv[i as int] == (source@, sink@));
                    assert(owned_view(*self).contains((source@, sink@)));
                    assert(owned_view(*self).insert((source@, sink@)) =~= owned_view(*self));
                }
            },
            None => {
                let ghost before = self.pairs@.map_values(|p: (String, String)| (p.0@, p.1@));
                self.pairs.push((own(source), own(sink)));
                let ghost after = self.pairs@.map_values(|p: (String, String)| (p.0@, p.1@));
                assert(after =~= before.push((source@, sink@)));
                assert(after.to_set() =~= before.to_set().insert((source@, sink@))) by {
                    assert forall|x: (Seq<char>, Seq<char>)| after.to_set().contains(x) <==> before.to_set().insert((source@, sink@)).contains(x) by {
                        if after.to_set().contains(x) {
                            let k = choose|k: int| 0 <= k < after.len() && after[k] == x;
                            if k < before.len() {
                                assert(before[k] == x);
                            }
                        }
                        if before.to_set().contains(x) {
                            let k = choose|k: int| 0 <= k < before.len() && before[k] == x;
                            assert(after[k] == x);
                        }
                        if x == (source@, sink@) {
                            assert(after[before.len() as int] == x);
                        }
                    }
                }
            },
        }
    }

    /// Forget the hop.
    pub fn remove(&mut self, source: &str, sink: &str)
        ensures
            owned_view(*final(self)) == owned_view(*old(self)).remove((source@, sink@)),
    {
        let ghost before = self.pairs@.map_values(|p: (String, String)| (p.0@, p.1@));
        let ghost target = (source@, sink@);
        let mut kept: Vec<(String, String)> = Vec::new();
        let mut i: usize = 0;
        assert(before.take(0).to_set() =~= Set::<(Seq<char>, Seq<char>)>::empty());
        assert(kept@.map_values(|p: (String, String)| (p.0@, p.1@)).to_set() =~= Set::<(Seq<char>, Seq<char>)>::empty());
        while i < self.pairs.len()
            invariant
                i <= self.pairs.len(),
                before == self.pairs@.map_values(|p: (String, String)| (p.0@, p.1@)),
                target == (source@, sink@),
                kept@.map_values(|p: (String, String)| (p.0@, p.1@)).to_set() == before.take(i as int).to_set().remove(target),
            decreases self.pairs.len() - i,
        {
            let ghost kv = kept@.map_values(|p: (String, String)| (p.0@, p.1@));
            let ghost e = before[i as int];
            let keep = !(str_eq(self.pairs[i].0.as_str(), source) && str_eq(self.pairs[i].1.as_str(), sink));
            assert(before.take(i + 1) =~= before.take(i as int).push(e));
            proof {
                before.take(i as int).lemma_push_to_set_commute(e);
            }
            if keep {
                kept.push((own(self.pairs[i].0.as_str()), own(self.pairs[i].1.as_str())));
                let ghost kv2 = kept@.map_values(|p: (String, String)| (p.0@, p.1@));
                assert(kv2 =~= kv.push(e));
                proof {
                    kv.lemma_push_to_set_commute(e);
                }
                assert(kv2.to_set() =~= before.take(i + 1).to_set().remove(target));
            } else {
                assert(e == target);
                assert(kv.to_set() =~= before.take(i + 1).to_set().remove(target));
            }
            i += 1;
        }
        assert(before.take(self.pairs.len() as int) =~= before);
        self.pairs = kept;
    }

    /// After cutting `src_node` from all but `allow_sinks`: forget the owned
    /// hops out of that node (`.monitor` ignored) except those into an
    /// allowed sink or the keepalive hold.
    pub fn keep_allowed_from(&mut self, src_node: &str, allow_sinks: &[String])
        ensures
            owned_view(*final(self)) == owned_view(*old(self)).filter(
                |p: (Seq<char>, Seq<char>)| hop_kept(p, src_node@, strs_view(allow_sinks@)),
            ),
    {
        let ghost before = self.pairs@.map_values(|p: (String, String)| (p.0@, p.1@));
        let ghost pred = |p: (Seq<char>, Seq<char>)| hop_kept(p, src_node@, strs_view(allow_sinks@));
        let mut kept: Vec<(String, String)> = Vec::new();
        let mut i: usize = 0;
        assert(before.take(0).to_set() =~= Set::<(Seq<char>, Seq<char>)>::empty());
        assert(kept@.map_values(|p: (String, String)| (p.0@, p.1@)).to_set() =~= Set::<(Seq<char>, Seq<char>)>::empty().filter(pred));
        while i < self.pairs.len()
            invariant
                i <= self.pairs.len(),
                before == self.pairs@.map_values(|p: (String, String)| (p.0@, p.1@)),
                pred == (|p: (Seq<char>, Seq<char>)| hop_kept(p, src_node@, strs_view(allow_sinks@))),
                kept@.map_values(|p: (String, String)| (p.0@, p.1@)).to_set() == before.take(i as int).to_set().filter(pred),
            decreases self.pairs.len() - i,
        {
            let ghost kv = kept@.map_values(|p: (String, String)| (p.0@, p.1@));
            let ghost e = before[i as int];
            let s = self.pairs[i].0.as_str();
            let d = self.pairs[i].1.as_str();
            let node = crate::text::drop_suffix(s, ".monitor");
            let keep = !str_eq(node.as_str(), src_node) || crate::ordset::contains_str(allow_sinks, d) || str_eq(d, "buschain_hold");
            assert(keep == pred(e));
            assert(before.take(i + 1) =~= before.take(i as int).push(e));
            proof {
                before.take(i as int).lemma_push_to_set_commute(e);
            }
            if keep {
                kept.push((own(s), own(d)));
                let ghost kv2 = kept@.map_values(|p: (String, String)| (p.0@, p.1@));
                assert(kv2 =~= kv.push(e));
                proof {
                    kv.lemma_push_to_set_commute(e);
                }
                assert(kv2.to_set() =~= before.take(i + 1).to_set().filter(pred));
            } else {
                assert(kv.to_set() =~= before.take(i + 1).to_set().filter(pred));
            }
            i += 1;
        }
        assert(before.take(self.pairs.len() as int) =~= before);
        self.pairs = kept;
    }

    /// Whether BusChain owns the hop.
    pub fn contains(&self, source: &str, sink: &str) -> (r: bool)
        ensures
            r == owned_view(*self).contains((source@, sink@)),
    {
        match self.find(source, sink) {
            Some(i) => {
                proof {
                    let pv = self.pairs@.map_values(|p: (String, String)| (p.0@, p.1@));
                    assert(pv[i as int] == (source@, sink@));
                }
                true
            },
            None => false,
        }
    }
}

/// True when BusChain's ownership table recorded this Pulse hop.
pub fn pulse_loopback_owned(owned: &OwnedLinks, source: &str, sink: &str) -> (r: bool)
    ensures
        r == owned_view(*owned).contains((source@, sink@)),
{
    owned.contains(source, sink)
}

/// Unload the loopback for this hop only when BusChain owns it: the module
/// indices to unload, with the hop forgotten; nothing when it is not owned.
pub fn unload_legacy_loopback(owned: &mut OwnedLinks, modules: &str, source: &str, sink: &str) -> (r: Vec<String>)
    ensures
        owned_view(*old(owned)).contains((source@, sink@)) ==> strs_view(r@) == chosen(
            lines_spec(modules@),
            hop_pick(source@, sink@),
        ) && owned_view(*final(owned)) == owned_view(*old(owned)).remove((source@, sink@)),
        !owned_view(*old(owned)).contains((source@, sink@)) ==> r@.len() == 0 && owned_view(
            *final(owned),
        ) == owned_view(*old(owned)),
{
    if !owned.contains(source, sink) {
        return Vec::new();
    }
    unload_legacy_loopback_force(owned, modules, source, sink)
}

/// Force-unload the loopback for this hop (stale ghosts after mute / teardown):
/// the module indices to unload, with the hop forgotten.
pub fn unload_legacy_loopback_force(owned: &mut OwnedLinks, modules: &str, source: &str, sink: &str) -> (r: Vec<String>)
    ensures
        strs_view(r@) == chosen(lines_spec(modules@), hop_pick(source@, sink@)),
        owned_view(*final(owned)) == owned_view(*old(owned)).remove((source@, sink@)),
{
    let r = loopback_modules_for(modules, source, sink);
    owned.remove(source, sink);
    r
}


/// Loopback arguments that mark a loopback BusChain made (current and
/// pre-rebrand names).
pub open spec fn buschain_loopback_args(args: Seq<char>) -> bool {
    has_infix(args, "media.name=buschain-control"@)
        || has_infix(args, "media.name=buschain-keepalive"@)
        || has_infix(args, "media.name=shadow-audio"@)
        || has_infix(args, "media.name=shadow-fx"@)
        || has_infix(args, "buschain_fx_"@)
        || has_infix(args, "buschain_track_"@)
        || has_infix(args, "buschain_master"@)
        || has_infix(args, "buschain_post_"@)
        || has_infix(args, "buschain_rs_"@)
        || has_infix(args, "shadow_fx_"@)
        || has_infix(args, "shadow_track_"@)
        || has_infix(args, "shadow_master"@)
        || has_infix(args, "shadow_post_"@)
        || has_infix(args, "shadow_rs_"@)
        || has_infix(args, "shadow_hold"@)
}

/// A BusChain `module-loopback`.
pub open spec fn teardown_pick() -> spec_fn(Seq<char>, Seq<char>) -> bool {
    |name: Seq<char>, args: Seq<char>| name == "module-loopback"@ && buschain_loopback_args(args)
}

fn is_buschain_loopback_args(args: &str) -> (r: bool)
    ensures
        r == buschain_loopback_args(args@),
{
    contains(args, "media.name=buschain-control")
        || contains(args, "media.name=buschain-keepalive")
        || contains(args, "media.name=shadow-audio")
        || contains(args, "media.name=shadow-fx")
        || contains(args, "buschain_fx_")
        || contains(args, "buschain_track_")
        || contains(args, "buschain_master")
        || contains(args, "buschain_post_")
        || contains(args, "buschain_rs_")
        || contains(args, "shadow_fx_")
        || contains(args, "shadow_track_")
        || contains(args, "shadow_master")
        || contains(args, "shadow_post_")
        || contains(args, "shadow_rs_")
        || contains(args, "shadow_hold")
}

/// View of owned hop pairs.
pub open spec fn hop_pairs(v: Seq<(String, String)>) -> Seq<(Seq<char>, Seq<char>)> {
    v.map_values(|p: (String, String)| (p.0@, p.1@))
}

/// Full link teardown: every owned hop (to unlink; the table is emptied)
/// and the BusChain loopback modules of the `pactl list short modules`
/// listing to unload (none when the listing could not be had).
pub fn teardown_buschain_links(owned: &mut OwnedLinks, modules: Option<&str>) -> (r: (Vec<(String, String)>, Vec<String>))
    ensures
        owned_view(*final(owned)) == Set::<(Seq<char>, Seq<char>)>::empty(),
        hop_pairs(r.0@).to_set() == owned_view(*old(owned)),
        modules is None ==> r.1@.len() == 0,
        modules matches Some(m) ==> strs_view(r.1@) == chosen(lines_spec(m@), teardown_pick()),
{
    let mut drained: Vec<(String, String)> = Vec::new();
    std::mem::swap(&mut drained, &mut owned.pairs);
    assert(owned_view(*owned) =~= Set::<(Seq<char>, Seq<char>)>::empty());
    let text = match modules {
        Some(m) => m,
        None => return (drained, Vec::new()),
    };
    let ls = lines(text);
    let ghost lv = ls@.map_values(|t: String| t@);
    let ghost pick = teardown_pick();
    let mut out: Vec<String> = Vec::new();
    let mut i: usize = 0;
    while i < ls.len()
        invariant
            i <= ls.len(),
            lv == ls@.map_values(|t: String| t@),
            lv == lines_spec(text@),
            pick == teardown_pick(),
            strs_view(out@) == chosen(lv.take(i as int), pick),
        decreases ls.len() - i,
    {
        proof {
            lemma_chosen_step(lv, pick, i as int);
        }
        assert(lv[i as int] == ls@[i as int]@);
        match parse_module_row(ls[i].as_str()) {
            Some(m) => {
                if str_eq(m.name.as_str(), "module-loopback") && is_buschain_loopback_args(m.args.as_str()) {
                    let ghost before = strs_view(out@);
                    out.push(m.index);
                    assert(strs_view(out@) =~= before.push(m.index@));
                }
            },
            None => {},
        }
        i += 1;
    }
    assert(lv.take(ls.len() as int) =~= lv);
    (drained, out)
}

/// `pactl` arguments that load the stereo loopback hop `source` → `sink`
/// (5 ms latency, pinned ends, tagged as BusChain's).
pub open spec fn loopback_load_spec(source: Seq<char>, sink: Seq<char>) -> Seq<Seq<char>> {
    seq![
        "load-module"@,
        "module-loopback"@,
        "source="@ + source,
        "sink="@ + sink,
        "latency_msec=5"@,
        "source_dont_move=true"@,
        "sink_dont_move=true"@,
        "channels=2"@,
        "channel_map=front-left,front-right"@,
        "media.name=buschain-control"@,
    ]
}

/// Polls of `pactl list short modules` after loading a loopback before the
/// hop is declared missing (30 ms apart).
pub const LOOPBACK_APPEAR_POLLS: u32 = 20;

/// The `pactl` arguments that load the loopback hop `source` → `sink`.
pub fn load_pulse_loopback_args(source: &str, sink: &str) -> (r: Vec<String>)
    ensures
        r@.map_values(|a: String| a@) == loopback_load_spec(source@, sink@),
{
    let mut v: Vec<String> = Vec::new();
    v.push(own("load-module"));
    v.push(own("module-loopback"));
    v.push(concat("source=", source));
    v.push(concat("sink=", sink));
    v.push(own("latency_msec=5"));
    v.push(own("source_dont_move=true"));
    v.push(own("sink_dont_move=true"));
    v.push(own("channels=2"));
    v.push(own("channel_map=front-left,front-right"));
    v.push(own("media.name=buschain-control"));
    assert(v@.map_values(|a: String| a@) =~= loopback_load_spec(source@, sink@));
    v
}

} // verus!
