//! Finding the plugin editor's own windows in a Hyprland client listing
//! (`hyprctl clients -j`), so that they can be asked to float.
use vstd::prelude::*;

use crate::text::{
    concat, decimal, has_infix, split_char, split_once_spec, split_once_str, split_spec,
    strip_prefix, strip_prefix_spec, trim, trim_spec, u32_to_string,
};

verus! {

/// `s.split(pat).nth(1)`: the text after the first `pat` up to the next one.
pub open spec fn second_piece(s: Seq<char>, pat: Seq<char>) -> Option<Seq<char>> {
    match split_once_spec(s, pat) {
        None => None,
        Some((_, rest)) => match split_once_spec(rest, pat) {
            Some((a, _)) => Some(a),
            None => Some(rest),
        },
    }
}

/// The window address of a client block: the quoted value after the first
/// `"address":`, up to its closing quote.
pub open spec fn block_address(block: Seq<char>) -> Option<Seq<char>> {
    match second_piece(block, "\"address\":"@) {
        None => None,
        Some(piece) => match strip_prefix_spec(trim_spec(piece), "\""@) {
            None => None,
            Some(x) => match split_once_spec(x, "\""@) {
                Some((a, _)) => Some(a),
                None => Some(x),
            },
        },
    }
}

/// The block describes a client of process `pid` (either JSON spacing).
pub open spec fn block_of_pid(block: Seq<char>, pid: u32) -> bool {
    has_infix(block, "\"pid\": "@ + decimal(pid as nat)) || has_infix(
        block,
        "\"pid\":"@ + decimal(pid as nat),
    )
}

/// Addresses of the clients of `pid`, block by block (blocks are the pieces
/// of the listing between `{`).
pub open spec fn pid_addresses(blocks: Seq<Seq<char>>, pid: u32) -> Seq<Seq<char>>
    decreases blocks.len(),
{
    if blocks.len() == 0 {
        Seq::empty()
    } else {
        let prev = pid_addresses(blocks.drop_last(), pid);
        if block_of_pid(blocks.last(), pid) {
            match block_address(blocks.last()) {
                Some(a) => prev.push(a),
                None => prev,
            }
        } else {
            prev
        }
    }
}

fn second_piece_of(s: &str, pat: &str) -> (r: Option<String>)
    ensures
        match r {
            Some(t) => second_piece(s@, pat@) == Some(t@),
            None => second_piece(s@, pat@) is None,
        },
{
    match split_once_str(s, pat) {
        None => None,
        Some((_, rest)) => match split_once_str(rest.as_str(), pat) {
            Some((a, _)) => Some(a),
            None => Some(rest),
        },
    }
}

/// The window address in one client block, if it has one.
pub fn address_in_block(block: &str) -> (r: Option<String>)
    ensures
        match r {
            Some(t) => block_address(block@) == Some(t@),
            None => block_address(block@) is None,
        },
{
    let piece = match second_piece_of(block, "\"address\":") {
        None => return None,
        Some(p) => p,
    };
    let t = trim(piece.as_str());
    let x = match strip_prefix(t.as_str(), "\"") {
        None => return None,
        Some(x) => x,
    };
    match split_once_str(x.as_str(), "\"") {
        Some((a, _)) => Some(a),
        None => Some(x),
    }
}

/// Window addresses of the clients of process `pid` in a `hyprctl clients -j`
/// listing, in listing order: the listing is cut at each `{`, and each piece
/// that names the pid yields the address it carries, if any.
pub fn client_addresses_of_pid(listing: &str, pid: u32) -> (r: Vec<String>)
    ensures
        r@.map_values(|s: String| s@) == pid_addresses(split_spec(listing@, '{'), pid),
{
    let digits = u32_to_string(pid);
    let key = concat("\"pid\": ", digits.as_str());
    let key2 = concat("\"pid\":", digits.as_str());
    let blocks = split_char(listing, '{');
    let ghost bs = split_spec(listing@, '{');
    let mut out: Vec<String> = Vec::new();
    let mut i: usize = 0;
    while i < blocks.len()
        invariant
            i <= blocks.len(),
            blocks@.map_values(|t: String| t@) == bs,
            key@ == "\"pid\": "@ + decimal(pid as nat),
            key2@ == "\"pid\":"@ + decimal(pid as nat),
            out@.map_values(|s: String| s@) == pid_addresses(bs.take(i as int), pid),
        decreases blocks.len() - i,
    {
        let b = blocks[i].as_str();
        let ghost before = out@.map_values(|s: String| s@);
        proof {
            assert(bs.take(i as int + 1).drop_last() =~= bs.take(i as int));
            assert(bs.take(i as int + 1).last() == b@);
        }
        if crate::text::contains(b, key.as_str()) || crate::text::contains(b, key2.as_str()) {
            match address_in_block(b) {
                Some(a) => {
                    out.push(a);
                    assert(out@.map_values(|s: String| s@) =~= before.push(a@));
                },
                None => {},
            }
        }
        i += 1;
    }
    assert(bs.take(blocks.len() as int) =~= bs);
    out
}

/// The pause before each round of asking Hyprland to float the editor's
/// windows: 80 ms, 200 ms, then 500 ms; after the third round it gives up.
/// A round stops at the first window Hyprland accepts; a round that floats
/// none ends by floating the editor window class instead.
pub fn float_retry_delay(round: usize) -> (r: Option<u64>)
    ensures
        r == (if round == 0 {
            Some(80u64)
        } else if round == 1 {
            Some(200u64)
        } else if round == 2 {
            Some(500u64)
        } else {
            None
        }),
{
    if round == 0 {
        Some(80)
    } else if round == 1 {
        Some(200)
    } else if round == 2 {
        Some(500)
    } else {
        None
    }
}

/// The `hyprctl dispatch setfloating` target for the editor window class.
pub fn editor_float_class() -> (r: &'static str)
    ensures
        r@ == "class:^(buschain-vst3)$"@,
{
    "class:^(buschain-vst3)$"
}

} // verus!
