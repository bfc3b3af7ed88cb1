//! Hardware-rate probing: choosing the Master HW sink and reading the rates
//! that `pactl`, ALSA `/proc` files and PipeWire report (the caller runs the
//! commands and reads the files; these functions decide from what came back).
use vstd::prelude::*;

use crate::clock::{
    budget_quantum, fallback_rates_spec, nearest, nearest_of, quantum_for_budget, DeviceCaps,
    EndpointCaps,
};
use crate::cli::{elapsed_ms, TtlSlot};
use crate::domain::DeviceNode;
use crate::master::{card_of, copy_rates, find_alsa_card, named, DumpNode};
use crate::table::Table;
use crate::ordset::{insert_sorted_u32, sorted_u32};
use crate::text::{
    concat, contains, drop_suffix, find_from, from_chars_range, has_infix, has_prefix, lines,
    lines_spec, occurs_at, own, parse_u32, parse_u32_spec, split_spec, starts_with, str_eq,
    strip_suffix, strip_suffix_spec, to_chars, tokens, tokens_spec, u32_to_string,
    without_suffix, split_char, decimal,
};

verus! {

/// Sink names that belong to BusChain's own helpers (never Master HW).
pub open spec fn clock_helper_name(s: Seq<char>) -> bool {
    has_prefix(s, "buschain_fx_"@) || has_prefix(s, "buschain_post_"@) || has_prefix(
        s,
        "buschain_mid_"@,
    ) || has_prefix(s, "buschain_glc_"@) || has_prefix(s, "buschain_rs_"@) || s
        == "buschain_hold"@
}

pub fn is_buschain_helper(name: &str) -> (r: bool)
    ensures
        r == clock_helper_name(name@),
{
    starts_with(name, "buschain_fx_") || starts_with(name, "buschain_post_") || starts_with(
        name,
        "buschain_mid_",
    ) || starts_with(name, "buschain_glc_") || starts_with(name, "buschain_rs_") || str_eq(
        name,
        "buschain_hold",
    )
}

/// A sink usable as Master HW when no explicit choice applies.
pub open spec fn plain_hw_sink(s: Seq<char>) -> bool {
    !clock_helper_name(s) && !has_prefix(s, "buschain_"@) && !has_infix(s, "auto_null"@)
}

/// Sink `i` is the requested Master output and not a helper.
pub open spec fn wanted_at(sinks: Seq<DeviceNode>, master: Option<&str>, i: int) -> bool {
    0 <= i < sinks.len() && master is Some && sinks[i].name@ == master->0@ && !clock_helper_name(
        sinks[i].name@,
    )
}

/// Sink `i` is a plain hardware sink.
pub open spec fn plain_at(sinks: Seq<DeviceNode>, i: int) -> bool {
    0 <= i < sinks.len() && plain_hw_sink(sinks[i].name@)
}

pub fn pick_hw_sink(sinks: &[DeviceNode], master_output: Option<&str>) -> (r: Option<usize>)
    ensures
        match r {
            Some(i) => (wanted_at(sinks@, master_output, i as int) && forall|j: int|
                0 <= j < i ==> !wanted_at(sinks@, master_output, j)) || ((forall|j: int|
                !wanted_at(sinks@, master_output, j)) && plain_at(sinks@, i as int) && forall|
                j: int,
            |
                0 <= j < i ==> !plain_at(sinks@, j)),
            None => (forall|j: int| !wanted_at(sinks@, master_output, j)) && forall|j: int|
                !plain_at(sinks@, j),
        },
{
    match master_output {
        Some(name) => {
            let mut i: usize = 0;
            while i < sinks.len()
                invariant
                    i <= sinks.len(),
                    master_output == Some(name),
                    forall|j: int| 0 <= j < i ==> !wanted_at(sinks@, master_output, j),
                decreases sinks.len() - i,
            {
                if str_eq(sinks[i].name.as_str(), name) && !is_buschain_helper(
                    sinks[i].name.as_str(),
                ) {
                    return Some(i);
                }
                i += 1;
            }
        },
        None => {},
    }
    assert(forall|j: int| !wanted_at(sinks@, master_output, j));
    let mut i: usize = 0;
    while i < sinks.len()
        invariant
            i <= sinks.len(),
            forall|j: int| !wanted_at(sinks@, master_output, j),
            forall|j: int| 0 <= j < i ==> !plain_at(sinks@, j),
        decreases sinks.len() - i,
    {
        let n = sinks[i].name.as_str();
        if !is_buschain_helper(n) && !starts_with(n, "buschain_") && !contains(n, "auto_null") {
            return Some(i);
        }
        i += 1;
    }
    None
}

/// Capabilities of the Master HW out from the sink table plus what was probed
/// for the chosen sink: its advertised rates and its running rate. With no
/// hardware sink, a 48 kHz fallback record.
pub fn probe_master_hw_from_sinks(
    sinks: &[DeviceNode],
    master_output: Option<&str>,
    probed_rates: Vec<u32>,
    running: Option<u32>,
) -> (r: DeviceCaps)
    ensures
        match pick_hw_sink_result(sinks@, master_output) {
            None => r.sink_name@.len() == 0 && r.description@ == "(no hardware sink)"@
                && r.rates@ == fallback_rates_spec() && r.preferred_rate == 48_000
                && r.min_quantum == 64 && r.max_quantum == 2048 && r.preferred_quantum == 256,
            Some(i) => {
                let preferred = match running {
                    Some(x) => x,
                    None => if probed_rates@.len() > 0 {
                        probed_rates@[0]
                    } else {
                        48_000
                    },
                };
                &&& r.sink_name@ == sinks@[i].name@
                &&& r.description@ == sinks@[i].description@
                &&& r.preferred_rate == preferred
                &&& r.min_quantum == 64
                &&& r.max_quantum == 2048
                &&& r.preferred_quantum == budget_quantum(preferred, 64, 2048)
                &&& r.rates@ == running_first(
                    if probed_rates@.len() == 0 {
                        seq![preferred]
                    } else {
                        probed_rates@
                    },
                    running,
                )
            },
        },
{
    let chosen = pick_hw_sink(sinks, master_output);
    proof {
        lemma_pick_result(sinks@, master_output, chosen);
    }
    match chosen {
        None => DeviceCaps {
            sink_name: String::new(),
            description: own("(no hardware sink)"),
            rates: crate::clock::fallback_rates(),
            preferred_rate: 48_000,
            min_quantum: 64,
            max_quantum: 2048,
            preferred_quantum: 256,
        },
        Some(i) => {
            let preferred: u32 = match running {
                Some(x) => x,
                None => if probed_rates.len() > 0 {
                    probed_rates[0]
                } else {
                    48_000
                },
            };
            let mut rates = probed_rates;
            if rates.len() == 0 {
                rates.push(preferred);
                assert(rates@ =~= seq![preferred]);
            }
            let rates = move_running_first(rates, running);
            let preferred_quantum = quantum_for_budget(preferred, 64, 2048);
            DeviceCaps {
                sink_name: sinks[i].name.clone(),
                description: sinks[i].description.clone(),
                rates,
                preferred_rate: preferred,
                min_quantum: 64,
                max_quantum: 2048,
                preferred_quantum,
            }
        },
    }
}

/// The index `pick_hw_sink` settles on: the first requested output that is
/// not a helper, else the first plain hardware sink.
pub open spec fn pick_hw_sink_result(sinks: Seq<DeviceNode>, master: Option<&str>) -> Option<int> {
    if exists|i: int| #[trigger] wanted_at(sinks, master, i) {
        Some(
            choose|i: int|
                #[trigger] wanted_at(sinks, master, i) && forall|j: int|
                    0 <= j < i ==> !wanted_at(sinks, master, j),
        )
    } else if exists|i: int| #[trigger] plain_at(sinks, i) {
        Some(
            choose|i: int|
                #[trigger] plain_at(sinks, i) && forall|j: int| 0 <= j < i ==> !plain_at(sinks, j),
        )
    } else {
        None
    }
}

proof fn lemma_pick_result(sinks: Seq<DeviceNode>, master: Option<&str>, r: Option<usize>)
    requires
        match r {
            Some(i) => (wanted_at(sinks, master, i as int) && forall|j: int|
                0 <= j < i ==> !wanted_at(sinks, master, j)) || ((forall|j: int|
                !wanted_at(sinks, master, j)) && plain_at(sinks, i as int) && forall|j: int|
                0 <= j < i ==> !plain_at(sinks, j)),
            None => (forall|j: int| !wanted_at(sinks, master, j)) && forall|j: int|
                !plain_at(sinks, j),
        },
    ensures
        pick_hw_sink_result(sinks, master) == (match r {
            Some(i) => Some(i as int),
            None => None::<int>,
        }),
{
    match r {
        Some(i) => {
            if wanted_at(sinks, master, i as int) {
                let k = choose|k: int|
                    #[trigger] wanted_at(sinks, master, k) && forall|j: int|
                        0 <= j < k ==> !wanted_at(sinks, master, j);
                assert(k == i as int) by {
                    if k < i {
                        assert(!wanted_at(sinks, master, k));
                    }
                    if k > i {
                        assert(!wanted_at(sinks, master, i as int));
                    }
                }
            } else {
                assert(!exists|k: int| #[trigger] wanted_at(sinks, master, k));
                assert(plain_at(sinks, i as int));
                let k = choose|k: int|
                    #[trigger] plain_at(sinks, k) && forall|j: int| 0 <= j < k ==> !plain_at(sinks, j);
                assert(k == i as int) by {
                    if k < i {
                        assert(!plain_at(sinks, k));
                    }
                    if k > i {
                        assert(!plain_at(sinks, i as int));
                    }
                }
            }
        },
        None => {
            assert(!exists|k: int| #[trigger] wanted_at(sinks, master, k));
            assert(!exists|k: int| #[trigger] plain_at(sinks, k));
        },
    }
}

/// `rates` with `running` moved to the front (all other copies removed).
pub open spec fn running_first(rates: Seq<u32>, running: Option<u32>) -> Seq<u32> {
    match running {
        Some(r) => seq![r] + rates.filter(|x: u32| x != r),
        None => rates,
    }
}

fn move_running_first(rates: Vec<u32>, running: Option<u32>) -> (r: Vec<u32>)
    ensures
        r@ == running_first(rates@, running),
{
    match running {
        None => rates,
        Some(x) => {
            let mut out: Vec<u32> = Vec::new();
            out.push(x);
            let mut i: usize = 0;
            while i < rates.len()
                invariant
                    i <= rates.len(),
                    out@ == seq![x] + rates@.take(i as int).filter(|y: u32| y != x),
                decreases rates.len() - i,
            {
                let ghost before = rates@.take(i as int);
                assert(rates@.take(i as int + 1) =~= before.push(rates@[i as int]));
                proof {
                    before.filter_lemma(|y: u32| y != x);
                    assert(before.push(rates@[i as int]).filter(|y: u32| y != x) == if rates@[i as int] != x {
                        before.filter(|y: u32| y != x).push(rates@[i as int])
                    } else {
                        before.filter(|y: u32| y != x)
                    }) by {
                        reveal_with_fuel(Seq::<u32>::filter, 1);
                        assert(before.push(rates@[i as int]).drop_last() =~= before);
                    }
                }
                if rates[i] != x {
                    out.push(rates[i]);
                }
                i += 1;
            }
            assert(rates@.take(rates.len() as int) =~= rates@);
            out
        },
    }
}

// ---------------------------------------------------------------------------
// Running-rate parsers
// ---------------------------------------------------------------------------

/// Common sample rates a slightly-off hardware rate is snapped to.
pub open spec fn common_rates_spec() -> Seq<u32> {
    seq![
        8_000u32,
        16_000,
        22_050,
        32_000,
        44_100,
        48_000,
        88_200,
        96_000,
        176_400,
        192_000,
        352_800,
        384_000,
    ]
}

/// Nearest common rate (USB often reports 95999 Hz for 96 kHz).
pub fn snap_common_rate(r: u32) -> (s: u32)
    ensures
        s == nearest(common_rates_spec(), r),
{
    let cand = vec![
        8_000u32,
        16_000,
        22_050,
        32_000,
        44_100,
        48_000,
        88_200,
        96_000,
        176_400,
        192_000,
        352_800,
        384_000,
    ];
    assert(cand@ =~= common_rates_spec());
    nearest_of(&cand, r)
}

/// A plausible audio rate.
pub open spec fn in_audio_range(r: u32) -> bool {
    8_000 <= r <= 384_000
}

/// First token of `toks` that parses to an in-range rate.
pub open spec fn first_rate_token(toks: Seq<Seq<char>>) -> Option<u32>
    decreases toks.len(),
{
    if toks.len() == 0 {
        None
    } else {
        match parse_u32_spec(toks[0]) {
            Some(r) => if in_audio_range(r) {
                Some(r)
            } else {
                first_rate_token(toks.drop_first())
            },
            None => first_rate_token(toks.drop_first()),
        }
    }
}

/// Index of the first occurrence of `p` in `s`.
pub open spec fn first_occ(s: Seq<char>, p: Seq<char>) -> Option<int> {
    if exists|i: int| #[trigger] occurs_at(s, p, i) {
        Some(
            choose|i: int|
                #[trigger] occurs_at(s, p, i) && forall|j: int| 0 <= j < i ==> !occurs_at(s, p, j),
        )
    } else {
        None
    }
}

/// The text after the first `Momentary freq` up to the next one, if any
/// (the second piece of `line.split("Momentary freq")`).
pub open spec fn after_momentary(line: Seq<char>) -> Option<Seq<char>> {
    segment_after(line, "Momentary freq"@)
}

pub proof fn lemma_first_occ(s: Seq<char>, p: Seq<char>, r: Option<usize>, from: int)
    requires
        from == 0,
        match r {
            Some(i) => from <= i && occurs_at(s, p, i as int) && forall|j: int|
                from <= j < i ==> !occurs_at(s, p, j),
            None => forall|j: int| from <= j ==> !occurs_at(s, p, j),
        },
    ensures
        first_occ(s, p) == (match r {
            Some(i) => Some(i as int),
            None => None::<int>,
        }),
{
    match r {
        Some(i) => {
            let k = choose|k: int|
                #[trigger] occurs_at(s, p, k) && forall|j: int| 0 <= j < k ==> !occurs_at(s, p, j);
            assert(k == i as int) by {
                if k < i {
                    assert(!occurs_at(s, p, k));
                }
                if k > i {
                    assert(!occurs_at(s, p, i as int));
                }
            }
        },
        None => {
            assert forall|k: int| !occurs_at(s, p, k) by {
                if k < 0 {
                }
            }
        },
    }
}

/// ALSA `Momentary freq = N Hz` in `/proc/asound/cardN/stream0`, snapped to a
/// common rate: the first line whose text after the marker holds an in-range number.
pub open spec fn momentary_rate_spec(ls: Seq<Seq<char>>) -> Option<u32>
    decreases ls.len(),
{
    if ls.len() == 0 {
        None
    } else {
        match after_momentary(ls[0]) {
            Some(rest) => match first_rate_token(tokens_spec(rest)) {
                Some(r) => Some(nearest(common_rates_spec(), r)),
                None => momentary_rate_spec(ls.drop_first()),
            },
            None => momentary_rate_spec(ls.drop_first()),
        }
    }
}

/// First in-range rate among `toks[i..]`.
fn first_rate_in(toks: &Vec<String>, i: usize) -> (r: Option<u32>)
    requires
        i <= toks.len(),
    ensures
        r == first_rate_token(toks@.map_values(|t: String| t@).skip(i as int)),
    decreases toks.len() - i,
{
    let ghost tv = toks@.map_values(|t: String| t@);
    if i == toks.len() {
        assert(tv.skip(i as int).len() == 0);
        return None;
    }
    assert(tv.skip(i as int)[0] == toks@[i as int]@);
    assert(tv.skip(i as int).drop_first() =~= tv.skip(i + 1));
    match parse_u32(toks[i].as_str()) {
        Some(r) => if 8_000 <= r && r <= 384_000 {
            Some(r)
        } else {
            first_rate_in(toks, i + 1)
        },
        None => first_rate_in(toks, i + 1),
    }
}

/// Text after the first occurrence of `pat` up to the next one (what
/// `split(pat).nth(1)` gives).
#[verifier::opaque]
pub open spec fn segment_after(line: Seq<char>, pat: Seq<char>) -> Option<Seq<char>> {
    match first_occ(line, pat) {
        Some(i) => {
            let rest = line.subrange(i + pat.len(), line.len() as int);
            match first_occ(rest, pat) {
                Some(j) => Some(rest.subrange(0, j)),
                None => Some(rest),
            }
        },
        None => None,
    }
}

/// Text after the first occurrence of `pat` up to the next one.
pub fn split_segment(line: &str, pat: &str) -> (r: Option<String>)
    ensures
        match r {
            Some(t) => segment_after(line@, pat@) == Some(t@),
            None => segment_after(line@, pat@) is None,
        },
{
    proof {
        reveal(segment_after);
    }
    let x = to_chars(line);
    let pv = to_chars(pat);
    let found = find_from(&x, &pv, 0);
    proof {
        lemma_first_occ(x@, pv@, found, 0);
    }
    match found {
        None => None,
        Some(i) => {
            assert(i + pv@.len() <= x@.len());
            assert(x@.len() == x.len());
            let start = i + pv.len();
            let rest_v = from_chars_range(&x, start, x.len());
            let rest_c = to_chars(rest_v.as_str());
            let found2 = find_from(&rest_c, &pv, 0);
            proof {
                lemma_first_occ(rest_c@, pv@, found2, 0);
            }
            match found2 {
                Some(j) => Some(from_chars_range(&rest_c, 0, j)),
                None => Some(rest_v),
            }
        },
    }
}

/// Text after the first `Momentary freq` up to the next one.
fn momentary_segment(line: &str) -> (r: Option<String>)
    ensures
        match r {
            Some(t) => after_momentary(line@) == Some(t@),
            None => after_momentary(line@) is None,
        },
{
    split_segment(line, "Momentary freq")
}

/// Rate from ALSA `/proc/asound/cardN/stream0` text (`Momentary freq`), snapped.
pub fn parse_momentary_rate(text: &str) -> (r: Option<u32>)
    ensures
        r == momentary_rate_spec(lines_spec(text@)),
{
    let ls = lines(text);
    let ghost lv = ls@.map_values(|t: String| t@);
    assert(lv.skip(0) =~= lv);
    let mut i: usize = 0;
    while i < ls.len()
        invariant
            i <= ls.len(),
            lv == ls@.map_values(|t: String| t@),
            lv == lines_spec(text@),
            momentary_rate_spec(lv) == momentary_rate_spec(lv.skip(i as int)),
        decreases ls.len() - i,
    {
        assert(lv.skip(i as int)[0] == ls@[i as int]@);
        assert(lv.skip(i as int).drop_first() =~= lv.skip(i + 1));
        match momentary_segment(ls[i].as_str()) {
            Some(seg) => {
                let toks = tokens(seg.as_str());
                assert(toks@.map_values(|t: String| t@).skip(0) =~= toks@.map_values(
                    |t: String| t@,
                ));
                match first_rate_in(&toks, 0) {
                    Some(rate) => {
                        return Some(snap_common_rate(rate));
                    },
                    None => {},
                }
            },
            None => {},
        }
        i += 1;
    }
    assert(lv.skip(i as int).len() == 0);
    None
}

/// Rate of one `pactl list short` line: the first `<N>Hz` token of the sample
/// spec column with `N >= 8000`, tagged with the name column.
pub open spec fn pactl_line_rate(line: Seq<char>) -> Option<(Seq<char>, u32)> {
    let cols = split_spec(line, '\t');
    if cols.len() < 2 {
        None
    } else {
        let spec = if cols.len() >= 4 {
            cols[3]
        } else {
            Seq::<char>::empty()
        };
        match first_hz_token(tokens_spec(spec)) {
            Some(r) => Some((cols[1], r)),
            None => None,
        }
    }
}

/// First `<N>Hz` token with `N >= 8000`.
pub open spec fn first_hz_token(toks: Seq<Seq<char>>) -> Option<u32>
    decreases toks.len(),
{
    if toks.len() == 0 {
        None
    } else {
        match strip_suffix_spec(toks[0], "Hz"@) {
            Some(n) => match parse_u32_spec(n) {
                Some(r) => if r >= 8_000 {
                    Some(r)
                } else {
                    first_hz_token(toks.drop_first())
                },
                None => first_hz_token(toks.drop_first()),
            },
            None => first_hz_token(toks.drop_first()),
        }
    }
}

/// Rate `pactl list short` reports for `name`: the last line naming it with a rate.
pub open spec fn pactl_rate_spec(ls: Seq<Seq<char>>, name: Seq<char>) -> Option<u32>
    decreases ls.len(),
{
    if ls.len() == 0 {
        None
    } else {
        match pactl_line_rate(ls.last()) {
            Some((n, r)) => if n == name {
                Some(r)
            } else {
                pactl_rate_spec(ls.drop_last(), name)
            },
            None => pactl_rate_spec(ls.drop_last(), name),
        }
    }
}

fn first_hz_in(toks: &Vec<String>, i: usize) -> (r: Option<u32>)
    requires
        i <= toks.len(),
    ensures
        r == first_hz_token(toks@.map_values(|t: String| t@).skip(i as int)),
    decreases toks.len() - i,
{
    let ghost tv = toks@.map_values(|t: String| t@);
    if i == toks.len() {
        assert(tv.skip(i as int).len() == 0);
        return None;
    }
    assert(tv.skip(i as int)[0] == toks@[i as int]@);
    assert(tv.skip(i as int).drop_first() =~= tv.skip(i + 1));
    match strip_suffix(toks[i].as_str(), "Hz") {
        Some(n) => match parse_u32(n.as_str()) {
            Some(r) => if r >= 8_000 {
                Some(r)
            } else {
                first_hz_in(toks, i + 1)
            },
            None => first_hz_in(toks, i + 1),
        },
        None => first_hz_in(toks, i + 1),
    }
}

/// Name and rate of one `pactl list short` line.
fn line_rate(line: &str) -> (r: Option<(String, u32)>)
    ensures
        match r {
            Some((n, rate)) => pactl_line_rate(line@) == Some((n@, rate)),
            None => pactl_line_rate(line@) is None,
        },
{
    let cols = split_char(line, '\t');
    let ghost cv = cols@.map_values(|t: String| t@);
    assert(cv.len() == cols.len());
    if cols.len() < 2 {
        return None;
    }
    let spec = if cols.len() >= 4 {
        cols[3].clone()
    } else {
        String::new()
    };
    assert(spec@ == (if cv.len() >= 4 {
        cv[3]
    } else {
        Seq::<char>::empty()
    }));
    let toks = tokens(spec.as_str());
    assert(toks@.map_values(|t: String| t@).skip(0) =~= toks@.map_values(|t: String| t@));
    match first_hz_in(&toks, 0) {
        Some(r) => Some((cols[1].clone(), r)),
        None => None,
    }
}

/// Running rate of `name` from `pactl list short sinks|sources` output.
pub fn pactl_running_rate(text: &str, name: &str) -> (r: Option<u32>)
    ensures
        r == pactl_rate_spec(lines_spec(text@), name@),
{
    let ls = lines(text);
    let ghost lv = ls@.map_values(|t: String| t@);
    assert(lv.take(ls.len() as int) =~= lv);
    let mut i: usize = ls.len();
    while i > 0
        invariant
            i <= ls.len(),
            lv == ls@.map_values(|t: String| t@),
            lv == lines_spec(text@),
            pactl_rate_spec(lv, name@) == pactl_rate_spec(lv.take(i as int), name@),
        decreases i,
    {
        assert(lv.take(i as int).last() == ls@[i - 1]@);
        assert(lv.take(i as int).drop_last() =~= lv.take(i - 1));
        match line_rate(ls[i - 1].as_str()) {
            Some((n, rate)) => {
                if str_eq(n.as_str(), name) {
                    return Some(rate);
                }
            },
            None => {},
        }
        i -= 1;
    }
    None
}

/// Live sample rate of a sink: for hardware (non-BusChain) sinks the ALSA
/// momentary rate, then the PipeWire `Format` rate; then `pactl`, then the
/// PipeWire `Format` rate.
pub open spec fn sink_running_rate_spec(
    name: Seq<char>,
    momentary: Option<u32>,
    pw_format: Option<u32>,
    pactl: Option<u32>,
) -> Option<u32> {
    if !has_prefix(name, "buschain_"@) && momentary is Some {
        momentary
    } else if !has_prefix(name, "buschain_"@) && pw_format is Some {
        pw_format
    } else if pactl is Some {
        pactl
    } else {
        pw_format
    }
}

/// Live sample rate of a sink from what was read: the card's `stream0` text,
/// the PipeWire `Format` rate and `pactl list short sinks` output.
pub fn probe_sink_running_rate(
    name: &str,
    alsa_stream0: Option<&str>,
    pw_format_rate: Option<u32>,
    pactl_sinks: Option<&str>,
) -> (r: Option<u32>)
    ensures
        r == sink_running_rate_spec(
            name@,
            match alsa_stream0 {
                Some(t) => momentary_rate_spec(lines_spec(t@)),
                None => None,
            },
            pw_format_rate,
            match pactl_sinks {
                Some(t) => pactl_rate_spec(lines_spec(t@), name@),
                None => None,
            },
        ),
{
    let momentary = match alsa_stream0 {
        Some(t) => parse_momentary_rate(t),
        None => None,
    };
    let pactl = match pactl_sinks {
        Some(t) => pactl_running_rate(t, name),
        None => None,
    };
    let hw = !starts_with(name, "buschain_");
    if hw && momentary.is_some() {
        momentary
    } else if hw && pw_format_rate.is_some() {
        pw_format_rate
    } else if pactl.is_some() {
        pactl
    } else {
        pw_format_rate
    }
}

/// Live sample rate of a source from `pactl list short sources` output: the
/// node (without `.monitor`) first, then its `.monitor`.
pub fn probe_source_running_rate(name: &str, pactl_sources: &str) -> (r: Option<u32>)
    ensures
        ({
            let node = without_suffix(name@, ".monitor"@);
            r == match pactl_rate_spec(lines_spec(pactl_sources@), node) {
                Some(x) => Some(x),
                None => pactl_rate_spec(lines_spec(pactl_sources@), node + ".monitor"@),
            }
        }),
{
    let node = drop_suffix(name, ".monitor");
    match pactl_running_rate(pactl_sources, node.as_str()) {
        Some(x) => Some(x),
        None => {
            let mon = concat(node.as_str(), ".monitor");
            pactl_running_rate(pactl_sources, mon.as_str())
        },
    }
}

/// One endpoint's rate: the running source rate, else the running sink rate,
/// else the first advertised rate; two channels.
pub fn probe_endpoint_caps(
    name: &str,
    source_rate: Option<u32>,
    sink_rate: Option<u32>,
    advertised: &[u32],
) -> (r: EndpointCaps)
    ensures
        r.name@ == without_suffix(name@, ".monitor"@),
        r.rate == (if source_rate is Some {
            source_rate
        } else if sink_rate is Some {
            sink_rate
        } else if advertised@.len() > 0 {
            Some(advertised@[0])
        } else {
            None
        }),
        r.channels == Some(2u32),
{
    let node = drop_suffix(name, ".monitor");
    let rate = if source_rate.is_some() {
        source_rate
    } else if sink_rate.is_some() {
        sink_rate
    } else if advertised.len() > 0 {
        Some(advertised[0])
    } else {
        None
    };
    EndpointCaps { name: node, rate, channels: Some(2) }
}

/// The candidate rates that are in the audio range, sorted without duplicates.
#[verifier::spinoff_prover]
pub fn merge_device_rates(rates: &[u32]) -> (r: Vec<u32>)
    ensures
        sorted_u32(r@),
        forall|x: u32| r@.contains(x) <==> in_audio_range(x) && rates@.contains(x),
{
    let mut out: Vec<u32> = Vec::new();
    let mut i: usize = 0;
    assert(out@.to_set() =~= rates@.take(0).to_set().filter(|y: u32| in_audio_range(y)));
    while i < rates.len()
        invariant
            i <= rates.len(),
            sorted_u32(out@),
            out@.to_set() == rates@.take(i as int).to_set().filter(|y: u32| in_audio_range(y)),
        decreases rates.len() - i,
    {
        let x = rates[i];
        assert(rates@.take(i + 1) =~= rates@.take(i as int).push(x));
        proof {
            rates@.take(i as int).lemma_push_to_set_commute(x);
        }
        if 8_000 <= x && x <= 384_000 {
            insert_sorted_u32(&mut out, x);
        }
        assert(out@.to_set() =~= rates@.take(i + 1).to_set().filter(|y: u32| in_audio_range(y)));
        i += 1;
    }
    assert(rates@.take(rates.len() as int) =~= rates@);
    assert forall|x: u32| out@.contains(x) <==> in_audio_range(x) && rates@.contains(x) by {
        assert(out@.contains(x) == out@.to_set().contains(x));
        assert(rates@.contains(x) == rates@.to_set().contains(x));
        assert(out@.to_set().contains(x) == (rates@.to_set().contains(x) && in_audio_range(x)));
    }
    out
}

/// `clock.force-rate` / `clock.force-quantum` settings-metadata writes (0 clears).
pub fn set_graph_force_clock(rate: u32, quantum: u32) -> (r: Vec<(String, String)>)
    ensures
        r@.len() == 2,
        r@[0].0@ == "clock.force-rate"@,
        r@[0].1@ == decimal(rate as nat),
        r@[1].0@ == "clock.force-quantum"@,
        r@[1].1@ == decimal(quantum as nat),
{
    let mut v: Vec<(String, String)> = Vec::new();
    v.push((own("clock.force-rate"), u32_to_string(rate)));
    v.push((own("clock.force-quantum"), u32_to_string(quantum)));
    v
}

/// The next step of forcing the graph clock: what to run, or the result.
#[derive(Debug)]
pub enum ForceClockStep {
    /// Run `pw-metadata -n settings 0 <key> <value>`.
    Run(String, String),
    /// Finished with this result.
    Done(Result<(), String>),
}

/// Forcing the graph clock, one `pw-metadata` run at a time: `outcomes` are
/// the results of the runs made so far (an error carries its message). The
/// rate is written first; the quantum only after the rate write succeeded;
/// the result is the first failure, or success once both writes succeeded.
pub fn force_clock_next(rate: u32, quantum: u32, outcomes: &Vec<Result<(), String>>) -> (r: ForceClockStep)
    ensures
        outcomes@.len() == 0 ==> (r matches ForceClockStep::Run(k, v) && k@ == "clock.force-rate"@
            && v@ == decimal(rate as nat)),
        outcomes@.len() > 0 ==> match outcomes@[0] {
            Err(e) => r matches ForceClockStep::Done(Err(m)) && m@ == e@,
            Ok(_) => if outcomes@.len() == 1 {
                r matches ForceClockStep::Run(k, v) && k@ == "clock.force-quantum"@ && v@ == decimal(
                    quantum as nat,
                )
            } else {
                match outcomes@[1] {
                    Err(e) => r matches ForceClockStep::Done(Err(m)) && m@ == e@,
                    Ok(_) => r matches ForceClockStep::Done(Ok(_)),
                }
            },
        },
{
    if outcomes.len() == 0 {
        return ForceClockStep::Run(own("clock.force-rate"), u32_to_string(rate));
    }
    match &outcomes[0] {
        Err(e) => ForceClockStep::Done(Err(own(e.as_str()))),
        Ok(_) => {
            if outcomes.len() == 1 {
                ForceClockStep::Run(own("clock.force-quantum"), u32_to_string(quantum))
            } else {
                match &outcomes[1] {
                    Err(e) => ForceClockStep::Done(Err(own(e.as_str()))),
                    Ok(_) => ForceClockStep::Done(Ok(())),
                }
            }
        },
    }
}

/// Release the session-wide force-rate / force-quantum (write both as 0).
pub fn clear_graph_force_clock() -> (r: Vec<(String, String)>)
    ensures
        r@.len() == 2,
        r@[0].0@ == "clock.force-rate"@,
        r@[0].1@ == decimal(0),
        r@[1].0@ == "clock.force-quantum"@,
        r@[1].1@ == decimal(0),
{
    set_graph_force_clock(0, 0)
}


// ---------------------------------------------------------------------------
// True device rates
// ---------------------------------------------------------------------------

/// Rates advertised (EnumFormat / Format) by the nodes named `name`, in dump order.
pub open spec fn named_rates(dump: Seq<DumpNode>, name: Seq<char>) -> Seq<u32>
    decreases dump.len(),
{
    if dump.len() == 0 {
        Seq::empty()
    } else {
        named_rates(dump.drop_last(), name) + if named(dump.last(), name) {
            dump.last().enum_rates@
        } else {
            Seq::empty()
        }
    }
}

/// The node sits on ALSA card `card` by `alsa.card` or `api.alsa.card`.
pub open spec fn on_card(o: DumpNode, card: u32) -> bool {
    o.has_props && (o.alsa_card_prop == Some(card) || o.api_alsa_card_prop == Some(card))
}

/// Rates advertised by the nodes on ALSA card `card`, in dump order.
pub open spec fn card_rates(dump: Seq<DumpNode>, card: u32) -> Seq<u32>
    decreases dump.len(),
{
    if dump.len() == 0 {
        Seq::empty()
    } else {
        card_rates(dump.drop_last(), card) + if on_card(dump.last(), card) {
            dump.last().enum_rates@
        } else {
            Seq::empty()
        }
    }
}

/// Every rate the device behind `sink` is seen to support: its own node's
/// formats, and, when the dump ties it to an ALSA card, the formats of the
/// nodes on that card and the card's ALSA `Rates:` (`alsa_rates`).
pub open spec fn device_rate_candidates(dump: Seq<DumpNode>, sink: Seq<char>, alsa_rates: Seq<u32>) -> Seq<u32> {
    named_rates(dump, sink) + match card_of(dump, sink) {
        Some(c) => card_rates(dump, c) + alsa_rates,
        None => Seq::empty(),
    }
}

fn push_all(out: &mut Vec<u32>, v: &Vec<u32>)
    ensures
        final(out)@ == old(out)@ + v@,
{
    let ghost start = out@;
    let mut i: usize = 0;
    while i < v.len()
        invariant
            i <= v.len(),
            out@ == start + v@.take(i as int),
        decreases v.len() - i,
    {
        out.push(v[i]);
        assert(v@.take(i + 1) =~= v@.take(i as int).push(v@[i as int]));
        i += 1;
    }
    assert(v@.take(v.len() as int) =~= v@);
}

/// The current `Format` rate of the first node named `name` that reports one.
pub open spec fn format_rate_of(dump: Seq<DumpNode>, name: Seq<char>) -> Option<u32>
    decreases dump.len(),
{
    if dump.len() == 0 {
        None
    } else if named(dump[0], name) && dump[0].format_rate is Some {
        dump[0].format_rate
    } else {
        format_rate_of(dump.drop_first(), name)
    }
}

/// The PipeWire `Format` rate of node `name` from the dump (none without one).
pub fn probe_pw_format_rate(dump: Option<&Vec<DumpNode>>, name: &str) -> (r: Option<u32>)
    ensures
        r == match dump {
            Some(d) => format_rate_of(d@, name@),
            None => None,
        },
{
    let d = match dump {
        Some(d) => d,
        None => return None,
    };
    let mut i: usize = 0;
    assert(d@.skip(0) =~= d@);
    while i < d.len()
        invariant
            i <= d.len(),
            dump == Some(d),
            format_rate_of(d@, name@) == format_rate_of(d@.skip(i as int), name@),
        decreases d.len() - i,
    {
        assert(d@.skip(i as int)[0] == d@[i as int]);
        assert(d@.skip(i as int).drop_first() =~= d@.skip(i + 1));
        let hit = d[i].has_props && match &d[i].name {
            Some(n) => str_eq(n.as_str(), name),
            None => false,
        };
        if hit && d[i].format_rate.is_some() {
            assert(named(d@[i as int], name@));
            return d[i].format_rate;
        }
        assert(!(named(d@[i as int], name@) && d@[i as int].format_rate is Some));
        i += 1;
    }
    None
}

/// The ALSA card whose stream files list the device rates of `sink` (none
/// without a dump or when no node named `sink` carries a card).
pub fn device_rates_card(dump: Option<&Vec<DumpNode>>, sink: &str) -> (r: Option<u32>)
    ensures
        r == match dump {
            Some(d) => card_of(d@, sink@),
            None => None,
        },
{
    match dump {
        Some(d) => find_alsa_card(d, sink),
        None => None,
    }
}

/// True device rates of `sink`, sorted and without duplicates: the
/// candidates of `device_rate_candidates` (with `alsa_rates` read from the
/// card `device_rates_card` names) kept to 8 kHz–384 kHz. Never a rate that
/// only some unrelated node advertises; none without a dump.
#[verifier::spinoff_prover]
pub fn true_device_rates(dump: Option<&Vec<DumpNode>>, sink: &str, alsa_rates: &[u32]) -> (r: Vec<u32>)
    ensures
        sorted_u32(r@),
        forall|x: u32|
            r@.contains(x) <==> in_audio_range(x) && match dump {
                Some(d) => device_rate_candidates(d@, sink@, alsa_rates@).contains(x),
                None => false,
            },
{
    let d = match dump {
        Some(d) => d,
        None => {
            let e: Vec<u32> = Vec::new();
            return e;
        },
    };
    let mut all: Vec<u32> = Vec::new();
    let mut i: usize = 0;
    while i < d.len()
        invariant
            i <= d.len(),
            all@ == named_rates(d@.take(i as int), sink@),
        decreases d.len() - i,
    {
        assert(d@.take(i + 1).drop_last() =~= d@.take(i as int));
        assert(d@.take(i + 1).last() == d@[i as int]);
        let hit = d[i].has_props && match &d[i].name {
            Some(n) => str_eq(n.as_str(), sink),
            None => false,
        };
        if hit {
            push_all(&mut all, &d[i].enum_rates);
        }
        i += 1;
    }
    assert(d@.take(d.len() as int) =~= d@);
    let ghost named_part = all@;
    match find_alsa_card(d, sink) {
        Some(c) => {
            let mut j: usize = 0;
            while j < d.len()
                invariant
                    j <= d.len(),
                    all@ == named_part + card_rates(d@.take(j as int), c),
                decreases d.len() - j,
            {
                assert(d@.take(j + 1).drop_last() =~= d@.take(j as int));
                assert(d@.take(j + 1).last() == d@[j as int]);
                if d[j].has_props && (d[j].alsa_card_prop == Some(c) || d[j].api_alsa_card_prop == Some(c)) {
                    push_all(&mut all, &d[j].enum_rates);
                    assert(all@ =~= named_part + card_rates(d@.take(j + 1), c));
                } else {
                    assert(all@ =~= named_part + card_rates(d@.take(j + 1), c));
                }
                j += 1;
            }
            let mut k: usize = 0;
            let ghost with_card = all@;
            while k < alsa_rates.len()
                invariant
                    k <= alsa_rates.len(),
                    all@ == with_card + alsa_rates@.take(k as int),
                decreases alsa_rates.len() - k,
            {
                all.push(alsa_rates[k]);
                assert(alsa_rates@.take(k + 1) =~= alsa_rates@.take(k as int).push(alsa_rates@[k as int]));
                k += 1;
            }
            assert(alsa_rates@.take(alsa_rates.len() as int) =~= alsa_rates@);
            assert(all@ =~= device_rate_candidates(d@, sink@, alsa_rates@));
        },
        None => {
            assert(all@ =~= device_rate_candidates(d@, sink@, alsa_rates@));
        },
    }
    let cand = all.as_slice();
    assert(cand@ == device_rate_candidates(d@, sink@, alsa_rates@));
    let r = merge_device_rates(cand);
    assert forall|x: u32|
        r@.contains(x) <==> in_audio_range(x) && device_rate_candidates(d@, sink@, alsa_rates@).contains(x) by {
        assert(r@.contains(x) <==> in_audio_range(x) && cand@.contains(x));
    }
    r
}


/// The maximal runs of ASCII digits of `s` seen so far, and the run in progress.
pub open spec fn digit_runs_acc(s: Seq<char>) -> (Seq<Seq<char>>, Seq<char>)
    decreases s.len(),
{
    if s.len() == 0 {
        (Seq::empty(), Seq::empty())
    } else {
        let (d, cur) = digit_runs_acc(s.drop_last());
        let c = s.last();
        if crate::text::is_digit(c) {
            (d, cur.push(c))
        } else if cur.len() > 0 {
            (d.push(cur), Seq::empty())
        } else {
            (d, Seq::empty())
        }
    }
}

/// The maximal runs of ASCII digits of `s`, in order (splitting on every
/// non-digit and dropping the empty pieces).
pub open spec fn digit_runs(s: Seq<char>) -> Seq<Seq<char>> {
    let (d, cur) = digit_runs_acc(s);
    if cur.len() > 0 {
        d.push(cur)
    } else {
        d
    }
}

/// The runs that parse as `u32`, as numbers.
pub open spec fn run_values(runs: Seq<Seq<char>>) -> Seq<u32>
    decreases runs.len(),
{
    if runs.len() == 0 {
        Seq::empty()
    } else {
        run_values(runs.drop_last()) + match parse_u32_spec(runs.last()) {
            Some(v) => seq![v],
            None => Seq::empty(),
        }
    }
}

/// Numbers of a `Rates: 44100, 48000, …` line of an ALSA stream file.
pub open spec fn rates_line(line: Seq<char>) -> Seq<u32> {
    match crate::text::strip_prefix_spec(crate::text::trim_spec(line), "Rates:"@) {
        Some(rest) => run_values(digit_runs(rest)),
        None => Seq::empty(),
    }
}

/// Numbers of every `Rates:` line, in order.
pub open spec fn rates_lines(ls: Seq<Seq<char>>) -> Seq<u32>
    decreases ls.len(),
{
    if ls.len() == 0 {
        Seq::empty()
    } else {
        rates_lines(ls.drop_last()) + rates_line(ls.last())
    }
}

fn digit_run_values(s: &str) -> (r: Vec<u32>)
    ensures
        r@ == run_values(digit_runs(s@)),
{
    let x = to_chars(s);
    let mut out: Vec<u32> = Vec::new();
    let mut cur = String::new();
    let mut i: usize = 0;
    while i < x.len()
        invariant
            i <= x.len(),
            x@ == s@,
            out@ == run_values(digit_runs_acc(s@.take(i as int)).0),
            cur@ == digit_runs_acc(s@.take(i as int)).1,
        decreases x.len() - i,
    {
        assert(s@.take(i + 1).drop_last() =~= s@.take(i as int));
        assert(s@.take(i + 1).last() == x@[i as int]);
        let c = x[i];
        if '0' <= c && c <= '9' {
            crate::text::push_char(&mut cur, c);
        } else if cur.as_str().unicode_len() > 0 {
            proof {
                let d = digit_runs_acc(s@.take(i as int)).0;
                assert(d.push(cur@).drop_last() =~= d);
            }
            match parse_u32(cur.as_str()) {
                Some(v) => out.push(v),
                None => {},
            }
            cur = String::new();
        }
        i += 1;
    }
    assert(s@.take(x.len() as int) =~= s@);
    if cur.as_str().unicode_len() > 0 {
        proof {
            let d = digit_runs_acc(s@).0;
            assert(d.push(cur@).drop_last() =~= d);
        }
        match parse_u32(cur.as_str()) {
            Some(v) => out.push(v),
            None => {},
        }
    }
    out
}

/// Rates an ALSA card lists in its `/proc/asound/cardN/stream*` files
/// (`streams`: their text, one after another), sorted and without
/// duplicates, kept to 8 kHz–384 kHz.
#[verifier::spinoff_prover]
pub fn probe_rates_alsa_card(streams: &str) -> (r: Vec<u32>)
    ensures
        sorted_u32(r@),
        forall|x: u32| r@.contains(x) <==> in_audio_range(x) && rates_lines(lines_spec(streams@)).contains(x),
{
    let ls = lines(streams);
    let ghost lv = ls@.map_values(|t: String| t@);
    let mut all: Vec<u32> = Vec::new();
    let mut i: usize = 0;
    while i < ls.len()
        invariant
            i <= ls.len(),
            lv == ls@.map_values(|t: String| t@),
            all@ == rates_lines(lv.take(i as int)),
        decreases ls.len() - i,
    {
        assert(lv.take(i + 1).drop_last() =~= lv.take(i as int));
        assert(lv.take(i + 1).last() == ls@[i as int]@);
        let t = crate::text::trim(ls[i].as_str());
        match crate::text::strip_prefix(t.as_str(), "Rates:") {
            Some(rest) => {
                let vals = digit_run_values(rest.as_str());
                push_all(&mut all, &vals);
            },
            None => {
                assert(all@ =~= rates_lines(lv.take(i + 1)));
            },
        }
        i += 1;
    }
    assert(lv.take(ls.len() as int) =~= lv);
    assert(all@ == rates_lines(lines_spec(streams@)));
    let r = merge_device_rates(all.as_slice());
    r
}


// ---------------------------------------------------------------------------
// Clock probe caches
// ---------------------------------------------------------------------------

/// `pw-dump` output stays fresh this long (ms).
pub const PW_DUMP_TTL_MS: u64 = 800;

/// Probed device rates stay fresh this long (ms).
pub const DEVICE_RATES_TTL_MS: u64 = 8000;

/// `pactl list short sinks` / `sources` stay fresh this long (ms).
pub const PACTL_SHORT_TTL_MS: u64 = 400;

/// What the clock probes keep between calls.
#[derive(Debug)]
pub struct ClockProbeCaches {
    /// The last `pw-dump` output.
    pub pw_dump: TtlSlot,
    /// The last `pactl list short sinks`.
    pub pactl_short_sinks: TtlSlot,
    /// The last `pactl list short sources`.
    pub pactl_short_sources: TtlSlot,
    /// Sink name -> when its rates were probed, and the rates.
    pub device_rates: Table<String, (u64, Vec<u32>)>,
}

impl ClockProbeCaches {
    /// The rate table is well formed and each slot has its lifetime.
    pub open spec fn wf(&self) -> bool {
        &&& self.device_rates.wf()
        &&& self.pw_dump.ttl_ms == PW_DUMP_TTL_MS
        &&& self.pactl_short_sinks.ttl_ms == PACTL_SHORT_TTL_MS
        &&& self.pactl_short_sources.ttl_ms == PACTL_SHORT_TTL_MS
    }

    /// Nothing cached.
    pub open spec fn is_empty(&self) -> bool {
        &&& self.pw_dump.entry is None
        &&& self.pactl_short_sinks.entry is None
        &&& self.pactl_short_sources.entry is None
        &&& self.device_rates@ == Map::<Seq<char>, (u64, Vec<u32>)>::empty()
    }

    /// Empty caches.
    pub fn new() -> (r: Self)
        ensures
            r.wf(),
            r.is_empty(),
    {
        ClockProbeCaches {
            pw_dump: TtlSlot::new(PW_DUMP_TTL_MS),
            pactl_short_sinks: TtlSlot::new(PACTL_SHORT_TTL_MS),
            pactl_short_sources: TtlSlot::new(PACTL_SHORT_TTL_MS),
            device_rates: Table::new(),
        }
    }
}

/// Drop every cached dump, listing and rate list (after a clock bind, so
/// the next probe sees the hardware anew).
pub fn invalidate_clock_probe_caches(c: &mut ClockProbeCaches)
    requires
        old(c).wf(),
    ensures
        final(c).wf(),
        final(c).is_empty(),
{
    c.pw_dump.invalidate();
    c.pactl_short_sinks.invalidate();
    c.pactl_short_sources.invalidate();
    c.device_rates = Table::new();
}

/// The rates of `sink` probed less than `DEVICE_RATES_TTL_MS` before `now`.
pub open spec fn cached_rates(c: ClockProbeCaches, sink: Seq<char>, now: u64) -> Option<Seq<u32>> {
    if c.device_rates@.contains_key(sink) && elapsed_ms(c.device_rates@[sink].0, now) < DEVICE_RATES_TTL_MS {
        Some(c.device_rates@[sink].1@)
    } else {
        None
    }
}

/// The true device rates of `sink` when a probe of them is still fresh at
/// `now_ms`; otherwise none, and the caller probes (`true_device_rates`) and
/// records the result with `store_device_rates`.
pub fn probe_true_device_rates(c: &ClockProbeCaches, sink: &str, now_ms: u64) -> (r: Option<Vec<u32>>)
    requires
        c.wf(),
    ensures
        match r {
            Some(v) => cached_rates(*c, sink@, now_ms) == Some(v@),
            None => cached_rates(*c, sink@, now_ms) is None,
        },
{
    match c.device_rates.get(&own(sink)) {
        Some(e) => if now_ms.saturating_sub(e.0) < DEVICE_RATES_TTL_MS {
            Some(copy_rates(&e.1))
        } else {
            None
        },
        None => None,
    }
}

/// The sample rates of node `node` (the older name of `probe_true_device_rates`).
pub fn probe_rates_pw(c: &ClockProbeCaches, node: &str, now_ms: u64) -> (r: Option<Vec<u32>>)
    requires
        c.wf(),
    ensures
        match r {
            Some(v) => cached_rates(*c, node@, now_ms) == Some(v@),
            None => cached_rates(*c, node@, now_ms) is None,
        },
{
    probe_true_device_rates(c, node, now_ms)
}

/// Record the rates of `sink` probed at `now_ms`, and hand them back.
pub fn store_device_rates(c: &mut ClockProbeCaches, sink: &str, now_ms: u64, rates: Vec<u32>) -> (r: Vec<u32>)
    requires
        old(c).wf(),
    ensures
        final(c).wf(),
        r@ == rates@,
        final(c).device_rates@.dom() == old(c).device_rates@.dom().insert(sink@),
        final(c).device_rates@[sink@].0 == now_ms,
        final(c).device_rates@[sink@].1@ == rates@,
        forall|k: Seq<char>| k != sink@ ==> #[trigger] final(c).device_rates@.get(k) == old(c).device_rates@.get(k),
        final(c).pw_dump == old(c).pw_dump,
        final(c).pactl_short_sinks == old(c).pactl_short_sinks,
        final(c).pactl_short_sources == old(c).pactl_short_sources,
{
    let copy = copy_rates(&rates);
    c.device_rates.insert(own(sink), (now_ms, rates));
    copy
}

/// Rates stored for a sink are what a probe of it answers until they are
/// `DEVICE_RATES_TTL_MS` old.
pub proof fn law_stored_rates_are_reused(c: ClockProbeCaches, sink: Seq<char>, at: u64, rates: Seq<u32>, now: u64)
    requires
        c.device_rates@.contains_key(sink),
        c.device_rates@[sink].0 == at,
        c.device_rates@[sink].1@ == rates,
        at <= now,
        now - at < DEVICE_RATES_TTL_MS,
    ensures
        cached_rates(c, sink, now) == Some(rates),
{
}

/// After invalidation no probe is answered from the cache.
pub proof fn law_invalidated_caches_answer_nothing(c: ClockProbeCaches, sink: Seq<char>, now: u64)
    requires
        c.is_empty(),
    ensures
        cached_rates(c, sink, now) is None,
        c.pw_dump.fresh_spec(now) is None,
        c.pactl_short_sinks.fresh_spec(now) is None,
        c.pactl_short_sources.fresh_spec(now) is None,
{
}

} // verus!
