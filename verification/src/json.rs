//! JSON values as the library reads them (`pw-dump` output, metadata
//! values), with the rules that turn a `pw-dump` object into a `DumpNode`:
//! which properties are read, how numbers and numeric strings become
//! integers, and which sample rates a node advertises.
use vstd::prelude::*;
use vstd::string::StringSliceAdditionalSpecFns;

use crate::master::DumpNode;
use crate::ordset::{insert_sorted_u32, sorted_u32};
use crate::text::{
    opt_view, own, parse_i64, parse_i64_spec, parse_u32, parse_u32_spec, split_char, split_spec,
    strip_prefix, strip_prefix_spec,
};

verus! {

/// A JSON value. Numbers are split as `serde_json` keeps them: non-negative
/// integers, negative integers, and other numbers (whose value the library
/// never reads). Object members are in key order, each key once.
#[derive(Debug)]
pub enum JsonValue {
    Null,
    Bool(bool),
    UInt(u64),
    Int(i64),
    Float,
    Str(String),
    Arr(Vec<JsonValue>),
    Obj(Vec<(String, JsonValue)>),
}

#[verifier::external_type_specification]
#[verifier::external_body]
pub struct ExSerdeJsonValue(serde_json::Value);

/// Name for what `serde_json::from_slice::<Value>` makes of `bytes`, as a
/// `JsonValue`; none when the bytes are not one JSON value.
pub uninterp spec fn json_parse(bytes: Seq<u8>) -> Option<JsonValue>;

/// `serde_json::from_slice::<Value>` on `bytes`, converted one for one into
/// a `JsonValue`; the result is named `json_parse` (the JSON grammar is not
/// restated).
#[verifier::external_body]
fn parse_json(bytes: &[u8]) -> (r: Option<JsonValue>)
    ensures
        r == json_parse(bytes@),
{
    match serde_json::from_slice::<serde_json::Value>(bytes) {
        Ok(v) => Some(json_from_serde(&v)),
        Err(_) => None,
    }
}

/// The one-for-one conversion of a `serde_json::Value` that `parse_json`
/// hands back (part of that trusted call; numbers by `as_u64` / `as_i64`).
#[verifier::external_body]
fn json_from_serde(v: &serde_json::Value) -> JsonValue {
    match v {
        serde_json::Value::Null => JsonValue::Null,
        serde_json::Value::Bool(b) => JsonValue::Bool(*b),
        serde_json::Value::Number(n) => match (n.as_u64(), n.as_i64()) {
            (Some(u), _) => JsonValue::UInt(u),
            (None, Some(i)) => JsonValue::Int(i),
            _ => JsonValue::Float,
        },
        serde_json::Value::String(s) => JsonValue::Str(s.clone()),
        serde_json::Value::Array(a) => JsonValue::Arr(a.iter().map(json_from_serde).collect()),
        serde_json::Value::Object(m) => JsonValue::Obj(m.iter().map(|(k, x)| (k.clone(), json_from_serde(x))).collect()),
    }
}

/// The `pw-dump` objects of its output: the elements of the top-level
/// array; none when the output is not JSON or not an array.
pub fn parse_pw_dump(bytes: &[u8]) -> (r: Option<Vec<JsonValue>>)
    ensures
        match r {
            Some(items) => json_parse(bytes@) == Some(JsonValue::Arr(items)),
            None => !(json_parse(bytes@) matches Some(JsonValue::Arr(_))),
        },
{
    match parse_json(bytes) {
        Some(JsonValue::Arr(items)) => Some(items),
        _ => None,
    }
}

// ---------------------------------------------------------------------------
// Reading values
// ---------------------------------------------------------------------------

/// The value of the first member named `key`.
pub open spec fn obj_get(fields: Seq<(String, JsonValue)>, key: Seq<char>) -> Option<JsonValue>
    decreases fields.len(),
{
    if fields.len() == 0 {
        None
    } else if fields[0].0@ == key {
        Some(fields[0].1)
    } else {
        obj_get(fields.drop_first(), key)
    }
}

/// `Value::get(key)`: the member `key` of an object; nothing for any other value.
pub open spec fn member(v: JsonValue, key: Seq<char>) -> Option<JsonValue> {
    match v {
        JsonValue::Obj(fields) => obj_get(fields@, key),
        _ => None,
    }
}

/// `member` of an optional value.
pub open spec fn member_of(v: Option<JsonValue>, key: Seq<char>) -> Option<JsonValue> {
    match v {
        Some(x) => member(x, key),
        None => None,
    }
}

/// `Value::as_str` of an optional value.
pub open spec fn str_of(v: Option<JsonValue>) -> Option<Seq<char>> {
    match v {
        Some(JsonValue::Str(s)) => Some(s@),
        _ => None,
    }
}

/// An integer read as `u32`: a number (cut to its low 32 bits, as `as u32`
/// does) or a string that parses as one.
pub open spec fn json_u32_spec(v: JsonValue) -> Option<u32> {
    match v {
        JsonValue::UInt(n) => Some(n as u32),
        JsonValue::Int(n) => Some(n as u32),
        JsonValue::Str(s) => parse_u32_spec(s@),
        _ => None,
    }
}

/// An integer read as `i64`: a number in range or a string that parses as one.
pub open spec fn json_i64_spec(v: JsonValue) -> Option<i64> {
    match v {
        JsonValue::UInt(n) => if n <= i64::MAX {
            Some(n as i64)
        } else {
            None
        },
        JsonValue::Int(n) => Some(n),
        JsonValue::Str(s) => parse_i64_spec(s@),
        _ => None,
    }
}

/// `json_u32_spec` of an optional value.
pub open spec fn u32_of(v: Option<JsonValue>) -> Option<u32> {
    match v {
        Some(x) => json_u32_spec(x),
        None => None,
    }
}

/// `json_i64_spec` of an optional value.
pub open spec fn i64_of(v: Option<JsonValue>) -> Option<i64> {
    match v {
        Some(x) => json_i64_spec(x),
        None => None,
    }
}

fn obj_field<'a>(fields: &'a Vec<(String, JsonValue)>, key: &str) -> (r: Option<&'a JsonValue>)
    ensures
        match r {
            Some(x) => obj_get(fields@, key@) == Some(*x),
            None => obj_get(fields@, key@) is None,
        },
{
    let mut i: usize = 0;
    assert(fields@.skip(0) =~= fields@);
    while i < fields.len()
        invariant
            i <= fields.len(),
            obj_get(fields@, key@) == obj_get(fields@.skip(i as int), key@),
        decreases fields.len() - i,
    {
        assert(fields@.skip(i as int)[0] == fields@[i as int]);
        assert(fields@.skip(i as int).drop_first() =~= fields@.skip(i + 1));
        if crate::text::str_eq(fields[i].0.as_str(), key) {
            return Some(&fields[i].1);
        }
        i += 1;
    }
    None
}

/// `Value::get(key)`.
pub fn json_member<'a>(v: &'a JsonValue, key: &str) -> (r: Option<&'a JsonValue>)
    ensures
        match r {
            Some(x) => member(*v, key@) == Some(*x),
            None => member(*v, key@) is None,
        },
{
    match v {
        JsonValue::Obj(fields) => obj_field(fields, key),
        _ => None,
    }
}

fn opt_member<'a>(v: Option<&'a JsonValue>, key: &str) -> (r: Option<&'a JsonValue>)
    ensures
        match r {
            Some(x) => member_of(opt_val(v), key@) == Some(*x),
            None => member_of(opt_val(v), key@) is None,
        },
{
    match v {
        Some(x) => json_member(x, key),
        None => None,
    }
}

/// The value behind an optional reference.
pub open spec fn opt_val(v: Option<&JsonValue>) -> Option<JsonValue> {
    match v {
        Some(x) => Some(*x),
        None => None,
    }
}

fn opt_str(v: Option<&JsonValue>) -> (r: Option<String>)
    ensures
        opt_view(r) == str_of(opt_val(v)),
{
    match v {
        Some(JsonValue::Str(s)) => Some(own(s.as_str())),
        _ => None,
    }
}

/// A JSON integer or numeric string as `u32` (numbers cut to 32 bits).
pub fn json_u32(v: &JsonValue) -> (r: Option<u32>)
    ensures
        r == json_u32_spec(*v),
{
    match v {
        JsonValue::UInt(n) => Some(*n as u32),
        JsonValue::Int(n) => Some(*n as u32),
        JsonValue::Str(s) => parse_u32(s.as_str()),
        _ => None,
    }
}

/// A JSON integer or numeric string as `i64`.
pub fn json_i64(v: &JsonValue) -> (r: Option<i64>)
    ensures
        r == json_i64_spec(*v),
{
    match v {
        JsonValue::UInt(n) => if *n <= i64::MAX as u64 {
            Some(*n as i64)
        } else {
            None
        },
        JsonValue::Int(n) => Some(*n),
        JsonValue::Str(s) => parse_i64(s.as_str()),
        _ => None,
    }
}

fn opt_u32(v: Option<&JsonValue>) -> (r: Option<u32>)
    ensures
        r == u32_of(opt_val(v)),
{
    match v {
        Some(x) => json_u32(x),
        None => None,
    }
}

fn opt_i64(v: Option<&JsonValue>) -> (r: Option<i64>)
    ensures
        r == i64_of(opt_val(v)),
{
    match v {
        Some(x) => json_i64(x),
        None => None,
    }
}

// ---------------------------------------------------------------------------
// Advertised rates
// ---------------------------------------------------------------------------

/// Lowest and highest rate a node may advertise.
pub const RATE_MIN: u32 = 8_000;
pub const RATE_MAX: u32 = 384_000;

/// Fallback rates inside `[lo, hi]`.
pub open spec fn range_rates(lo: u32, hi: u32) -> Set<u32> {
    Set::new(|r: u32| crate::clock::fallback_rates_spec().contains(r) && lo <= r && r <= hi)
}

/// Rates a value advertises: an integer (or numeric string) between 8 kHz and
/// 384 kHz; every rate of an array; every rate of an object's members and,
/// when it has integer `min` and `max`, each fallback rate in that range.
pub open spec fn rate_set(v: JsonValue) -> Set<u32>
    decreases v,
{
    match json_u32_spec(v) {
        Some(n) => if RATE_MIN <= n && n <= RATE_MAX {
            set![n]
        } else {
            Set::empty()
        },
        None => match v {
            JsonValue::Arr(items) => items_rates(items@),
            JsonValue::Obj(fields) => fields_rates(fields@).union(
                match (u32_of(obj_get(fields@, "min"@)), u32_of(obj_get(fields@, "max"@))) {
                    (Some(lo), Some(hi)) => range_rates(lo, hi),
                    _ => Set::empty(),
                },
            ),
            _ => Set::empty(),
        },
    }
}

/// Rates of every element.
pub open spec fn items_rates(s: Seq<JsonValue>) -> Set<u32>
    decreases s,
{
    if s.len() == 0 {
        Set::empty()
    } else {
        items_rates(s.drop_last()).union(rate_set(s.last()))
    }
}

/// Rates of every member value.
pub open spec fn fields_rates(s: Seq<(String, JsonValue)>) -> Set<u32>
    decreases s,
{
    if s.len() == 0 {
        Set::empty()
    } else {
        fields_rates(s.drop_last()).union(rate_set(s.last().1))
    }
}

fn add_range_rates(lo: u32, hi: u32, out: &mut Vec<u32>)
    requires
        sorted_u32(old(out)@),
    ensures
        sorted_u32(final(out)@),
        final(out)@.to_set() == old(out)@.to_set().union(range_rates(lo, hi)),
{
    let fb = crate::clock::fallback_rates();
    let ghost start = out@.to_set();
    let mut j: usize = 0;
    while j < fb.len()
        invariant
            j <= fb.len(),
            fb@ == crate::clock::fallback_rates_spec(),
            sorted_u32(out@),
            out@.to_set() == start.union(Set::new(|r: u32| fb@.take(j as int).contains(r) && lo <= r && r <= hi)),
        decreases fb.len() - j,
    {
        let r = fb[j];
        let ghost before = out@.to_set();
        if r >= lo && r <= hi {
            insert_sorted_u32(out, r);
        }
        proof {
            assert(fb@.take(j + 1) =~= fb@.take(j as int).push(r));
            assert(out@.to_set() =~= start.union(Set::new(|x: u32| fb@.take(j + 1).contains(x) && lo <= x && x <= hi))) by {
                broadcast use vstd::seq_lib::group_seq_properties;
                assert forall|x: u32| fb@.take(j + 1).contains(x) <==> (fb@.take(j as int).contains(x) || x == r) by {
                    assert(fb@.take(j + 1) == fb@.take(j as int).push(r));
                }
            }
        }
        j += 1;
    }
    assert(fb@.take(fb.len() as int) =~= fb@);
    assert(out@.to_set() =~= start.union(range_rates(lo, hi)));
}

/// Add the rates `v` advertises (see `rate_set`) to a strictly increasing
/// list, keeping it so.
pub fn collect_rate_value(v: &JsonValue, out: &mut Vec<u32>)
    requires
        sorted_u32(old(out)@),
    ensures
        sorted_u32(final(out)@),
        final(out)@.to_set() == old(out)@.to_set().union(rate_set(*v)),
    decreases v,
{
    let ghost start = out@.to_set();
    match json_u32(v) {
        Some(n) => {
            if n >= RATE_MIN && n <= RATE_MAX {
                insert_sorted_u32(out, n);
                assert(out@.to_set() =~= start.union(set![n]));
            } else {
                assert(start.union(Set::<u32>::empty()) =~= start);
            }
            return;
        },
        None => {},
    }
    match v {
        JsonValue::Arr(items) => {
            let mut i: usize = 0;
            while i < items.len()
                invariant
                    i <= items.len(),
                    sorted_u32(out@),
                    out@.to_set() == start.union(items_rates(items@.take(i as int))),
                    *v == JsonValue::Arr(*items),
                decreases items.len() - i,
            {
                assert(items@.take(i + 1).drop_last() =~= items@.take(i as int));
                proof {
                    assert(decreases_to!(*v => v->Arr_0));
                    assert(decreases_to!(*items => items@));
                    assert(decreases_to!(items@ => items@[i as int]));
                    assert(decreases_to!(*v => items@[i as int]));
                }
                collect_rate_value(&items[i], out);
                assert(out@.to_set() =~= start.union(items_rates(items@.take(i + 1))));
                i += 1;
            }
            assert(items@.take(items.len() as int) =~= items@);
        },
        JsonValue::Obj(fields) => {
            let mut i: usize = 0;
            while i < fields.len()
                invariant
                    i <= fields.len(),
                    sorted_u32(out@),
                    out@.to_set() == start.union(fields_rates(fields@.take(i as int))),
                    *v == JsonValue::Obj(*fields),
                decreases fields.len() - i,
            {
                assert(fields@.take(i + 1).drop_last() =~= fields@.take(i as int));
                proof {
                    assert(decreases_to!(*v => v->Obj_0));
                    assert(decreases_to!(*fields => fields@));
                    assert(decreases_to!(fields@ => fields@[i as int]));
                    assert(decreases_to!(fields@[i as int] => fields@[i as int].1));
                    assert(decreases_to!(*v => fields@[i as int].1));
                }
                collect_rate_value(&fields[i].1, out);
                assert(out@.to_set() =~= start.union(fields_rates(fields@.take(i + 1))));
                i += 1;
            }
            assert(fields@.take(fields.len() as int) =~= fields@);
            let ghost mid = out@.to_set();
            let lo = opt_u32(obj_field(fields, "min"));
            let hi = opt_u32(obj_field(fields, "max"));
            match (lo, hi) {
                (Some(l), Some(h)) => {
                    add_range_rates(l, h, out);
                    assert(out@.to_set() =~= start.union(rate_set(*v)));
                },
                _ => {
                    assert(out@.to_set() =~= start.union(rate_set(*v)));
                },
            }
        },
        _ => {
            assert(start.union(Set::<u32>::empty()) =~= start);
        },
    }
}

// ---------------------------------------------------------------------------
// pw-dump objects
// ---------------------------------------------------------------------------

/// `/info/props` of a `pw-dump` object.
pub open spec fn props_of(o: JsonValue) -> Option<JsonValue> {
    member_of(member(o, "info"@), "props"@)
}

/// Property `k` of a `pw-dump` object.
pub open spec fn prop(o: JsonValue, k: Seq<char>) -> Option<JsonValue> {
    member_of(props_of(o), k)
}

/// `/info/params` of a `pw-dump` object.
pub open spec fn params_of(o: JsonValue) -> Option<JsonValue> {
    member_of(member(o, "info"@), "params"@)
}

/// Rates under `rate` of each item.
pub open spec fn item_rates(s: Seq<JsonValue>) -> Set<u32>
    decreases s.len(),
{
    if s.len() == 0 {
        Set::empty()
    } else {
        item_rates(s.drop_last()).union(
            match member(s.last(), "rate"@) {
                Some(x) => rate_set(x),
                None => Set::empty(),
            },
        )
    }
}

/// Rates advertised under the param list `key` (an array of format objects).
pub open spec fn param_rates(o: JsonValue, key: Seq<char>) -> Set<u32> {
    match member_of(params_of(o), key) {
        Some(JsonValue::Arr(items)) => item_rates(items@),
        _ => Set::empty(),
    }
}

/// Every rate the object advertises in its `EnumFormat` and `Format` params.
pub open spec fn enum_rate_set(o: JsonValue) -> Set<u32> {
    param_rates(o, "EnumFormat"@).union(param_rates(o, "Format"@))
}

/// The first item whose `rate` is an integer within 8 kHz–384 kHz.
pub open spec fn first_plain_rate(s: Seq<JsonValue>) -> Option<u32>
    decreases s.len(),
{
    if s.len() == 0 {
        None
    } else {
        match u32_of(member(s[0], "rate"@)) {
            Some(r) => if RATE_MIN <= r && r <= RATE_MAX {
                Some(r)
            } else {
                first_plain_rate(s.drop_first())
            },
            None => first_plain_rate(s.drop_first()),
        }
    }
}

/// The current rate: the first plain rate of the `Format` params.
pub open spec fn format_rate_spec(o: JsonValue) -> Option<u32> {
    match member_of(params_of(o), "Format"@) {
        Some(JsonValue::Arr(items)) => first_plain_rate(items@),
        _ => None,
    }
}

/// The ALSA card number: `alsa.card`, else `api.alsa.card`, else, when the
/// object has an `api.alsa.path`, the card that path names (`from_path`).
pub open spec fn card_spec(o: JsonValue, from_path: Option<u32>) -> Option<u32> {
    match u32_of(prop(o, "alsa.card"@)) {
        Some(c) => Some(c),
        None => match u32_of(prop(o, "api.alsa.card"@)) {
            Some(c) => Some(c),
            None => if str_of(prop(o, "api.alsa.path"@)) is Some {
                from_path
            } else {
                None
            },
        },
    }
}

/// `api.alsa.path` of a `pw-dump` object, if it is a string.
pub fn alsa_path_of(o: &JsonValue) -> (r: Option<String>)
    ensures
        opt_view(r) == str_of(prop(*o, "api.alsa.path"@)),
{
    let props = opt_member(json_member(o, "info"), "props");
    opt_str(opt_member(props, "api.alsa.path"))
}

/// The card id of an ALSA device path `hw:ID,DEV`: the text after `hw:` up to
/// the first comma; none without the `hw:` prefix.
pub open spec fn hw_card_id_spec(path: Seq<char>) -> Option<Seq<char>> {
    match strip_prefix_spec(path, "hw:"@) {
        Some(rest) => Some(split_spec(rest, ',')[0]),
        None => None,
    }
}

/// The card id of an ALSA device path (`hw:USB,0` gives `USB`).
pub fn hw_card_id(path: &str) -> (r: Option<String>)
    ensures
        opt_view(r) == hw_card_id_spec(path@),
{
    match strip_prefix(path, "hw:") {
        Some(rest) => {
            let parts = split_char(rest.as_str(), ',');
            assert(parts@.map_values(|t: String| t@) == split_spec(rest@, ','));
            assert(parts@.len() > 0);
            assert(parts@.map_values(|t: String| t@)[0] == parts@[0]@);
            Some(own(parts[0].as_str()))
        },
        None => None,
    }
}

/// The card number of an ALSA device path whose card id is numeric
/// (`hw:0,0` gives 0); none for a named card id such as `hw:USB,0`.
pub fn hw_card_index(path: &str) -> (r: Option<u32>)
    ensures
        r == match hw_card_id_spec(path@) {
            Some(id) => parse_u32_spec(id),
            None => None,
        },
{
    match hw_card_id(path) {
        Some(id) => parse_u32(id.as_str()),
        None => None,
    }
}

fn add_item_rates(items: &Vec<JsonValue>, out: &mut Vec<u32>)
    requires
        sorted_u32(old(out)@),
    ensures
        sorted_u32(final(out)@),
        final(out)@.to_set() == old(out)@.to_set().union(item_rates(items@)),
{
    let ghost start = out@.to_set();
    let mut i: usize = 0;
    while i < items.len()
        invariant
            i <= items.len(),
            sorted_u32(out@),
            out@.to_set() == start.union(item_rates(items@.take(i as int))),
        decreases items.len() - i,
    {
        assert(items@.take(i + 1).drop_last() =~= items@.take(i as int));
        match json_member(&items[i], "rate") {
            Some(x) => {
                collect_rate_value(x, out);
            },
            None => {},
        }
        assert(out@.to_set() =~= start.union(item_rates(items@.take(i + 1))));
        i += 1;
    }
    assert(items@.take(items.len() as int) =~= items@);
}

fn add_param_rates(params: Option<&JsonValue>, key: &str, out: &mut Vec<u32>)
    requires
        sorted_u32(old(out)@),
    ensures
        sorted_u32(final(out)@),
        final(out)@.to_set() == old(out)@.to_set().union(
            match member_of(opt_val(params), key@) {
                Some(JsonValue::Arr(items)) => item_rates(items@),
                _ => Set::empty(),
            },
        ),
{
    match opt_member(params, key) {
        Some(JsonValue::Arr(items)) => add_item_rates(items, out),
        _ => {
            assert(out@.to_set().union(Set::<u32>::empty()) =~= out@.to_set());
        },
    }
}

fn first_rate_in(items: &Vec<JsonValue>) -> (r: Option<u32>)
    ensures
        r == first_plain_rate(items@),
{
    let mut i: usize = 0;
    assert(items@.skip(0) =~= items@);
    while i < items.len()
        invariant
            i <= items.len(),
            first_plain_rate(items@) == first_plain_rate(items@.skip(i as int)),
        decreases items.len() - i,
    {
        assert(items@.skip(i as int)[0] == items@[i as int]);
        assert(items@.skip(i as int).drop_first() =~= items@.skip(i + 1));
        match opt_u32(json_member(&items[i], "rate")) {
            Some(r) => {
                if r >= RATE_MIN && r <= RATE_MAX {
                    return Some(r);
                }
            },
            None => {},
        }
        i += 1;
    }
    None
}

/// One `pw-dump` object as the clock logic reads it. `card_from_path` is the
/// card that the object's `api.alsa.path` names (the caller resolves named
/// card ids); it counts only when neither card property is an integer.
pub fn dump_node(o: &JsonValue, card_from_path: Option<u32>) -> (r: DumpNode)
    ensures
        r.id == u32_of(member(*o, "id"@)),
        r.has_props == props_of(*o) is Some,
        opt_view(r.name) == str_of(prop(*o, "node.name"@)),
        opt_view(r.state) == str_of(member_of(member(*o, "info"@), "state"@)),
        r.driver_id == i64_of(prop(*o, "node.driver-id"@)),
        r.priority_driver == i64_of(prop(*o, "priority.driver"@)),
        opt_view(r.card_name) == str_of(prop(*o, "api.alsa.card.name"@)),
        opt_view(r.card_name_alt) == str_of(prop(*o, "alsa.card_name"@)),
        opt_view(r.split_name) == str_of(prop(*o, "api.alsa.split.name"@)),
        r.alsa_card_prop == u32_of(prop(*o, "alsa.card"@)),
        r.api_alsa_card_prop == u32_of(prop(*o, "api.alsa.card"@)),
        r.alsa_card == card_spec(*o, card_from_path),
        sorted_u32(r.enum_rates@),
        r.enum_rates@.to_set() == enum_rate_set(*o),
        r.format_rate == format_rate_spec(*o),
{
    let info = json_member(o, "info");
    let props = opt_member(info, "props");
    let params = opt_member(info, "params");
    let alsa_card_prop = opt_u32(opt_member(props, "alsa.card"));
    let api_alsa_card_prop = opt_u32(opt_member(props, "api.alsa.card"));
    let has_path = opt_member(props, "api.alsa.path");
    let alsa_card = match alsa_card_prop {
        Some(c) => Some(c),
        None => match api_alsa_card_prop {
            Some(c) => Some(c),
            None => match has_path {
                Some(JsonValue::Str(_)) => card_from_path,
                _ => None,
            },
        },
    };
    let mut rates: Vec<u32> = Vec::new();
    add_param_rates(params, "EnumFormat", &mut rates);
    add_param_rates(params, "Format", &mut rates);
    assert(rates@.to_set() =~= enum_rate_set(*o));
    let format_rate = match opt_member(params, "Format") {
        Some(JsonValue::Arr(items)) => first_rate_in(items),
        _ => None,
    };
    DumpNode {
        id: opt_u32(json_member(o, "id")),
        has_props: props.is_some(),
        name: opt_str(opt_member(props, "node.name")),
        state: opt_str(opt_member(info, "state")),
        driver_id: opt_i64(opt_member(props, "node.driver-id")),
        priority_driver: opt_i64(opt_member(props, "priority.driver")),
        card_name: opt_str(opt_member(props, "api.alsa.card.name")),
        card_name_alt: opt_str(opt_member(props, "alsa.card_name")),
        split_name: opt_str(opt_member(props, "api.alsa.split.name")),
        alsa_card,
        alsa_card_prop,
        api_alsa_card_prop,
        enum_rates: rates,
        format_rate,
    }
}

/// The string under the top-level key `key` of the JSON text whose bytes
/// are `bytes`: nothing when the text is not JSON, not an object, or holds
/// no string under that key.
pub open spec fn json_str_member(bytes: Seq<u8>, key: Seq<char>) -> Option<Seq<char>> {
    str_of(member_of(json_parse(bytes), key))
}

/// The string under the top-level key `key` of the JSON text `text`.
pub fn json_str_field(text: &str, key: &str) -> (r: Option<String>)
    ensures
        opt_view(r) == json_str_member(text.spec_bytes(), key@),
{
    let bytes = text.as_bytes();
    match parse_json(bytes) {
        Some(v) => opt_str(json_member(&v, key)),
        None => None,
    }
}

} // verus!
