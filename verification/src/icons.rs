//! Where Freedesktop theme icons of apps are looked up: the icon roots and the
//! theme / size / category / file candidates, in search order.
use vstd::prelude::*;

use crate::link::lemma_filter_take_step;
use crate::text::{
    concat, concat3, ends_with, lowercase, replace_char, replace_char_spec, split_char, split_spec,
    to_lowercase,
};

verus! {

/// Pixel size of the icons drawn next to apps.
pub const ICON_PX: u16 = 24;

/// Icon sizes tried, best first.
pub open spec fn icon_sizes() -> Seq<Seq<char>> {
    seq!["24x24"@, "22x22"@, "32x32"@, "16x16"@, "48x48"@, "64x64"@]
}

/// Icon themes tried, in order.
pub open spec fn icon_themes() -> Seq<Seq<char>> {
    seq!["hicolor"@, "Adwaita"@, "WhiteSur"@, "breeze"@, "Papirus"@]
}

/// Theme categories that hold app icons.
pub open spec fn icon_categories() -> Seq<Seq<char>> {
    seq!["apps"@, "applications"@]
}

/// File stems tried for an icon name: as given, with `_` as `-`, lowercased.
pub open spec fn icon_stems(name: Seq<char>) -> Seq<Seq<char>> {
    seq![name, replace_char_spec(name, '_', '-'), lowercase(name)]
}

/// Number of (directory, file) candidates under one root.
pub const ICON_CANDIDATES: usize = 180;

/// The `k`-th candidate under a root: theme outermost, then size, category
/// and stem; the directory `theme/size/category` and the file `stem.png`.
pub open spec fn icon_candidate(name: Seq<char>, k: int) -> (Seq<char>, Seq<char>) {
    let t = k / 36;
    let z = (k / 6) % 6;
    let c = (k / 3) % 2;
    let n = k % 3;
    (
        icon_themes()[t] + "/"@ + icon_sizes()[z] + "/"@ + icon_categories()[c],
        icon_stems(name)[n] + ".png"@,
    )
}

fn theme_at(t: usize) -> (r: &'static str)
    requires
        t < 5,
    ensures
        r@ == icon_themes()[t as int],
{
    if t == 0 {
        "hicolor"
    } else if t == 1 {
        "Adwaita"
    } else if t == 2 {
        "WhiteSur"
    } else if t == 3 {
        "breeze"
    } else {
        "Papirus"
    }
}

fn size_at(z: usize) -> (r: &'static str)
    requires
        z < 6,
    ensures
        r@ == icon_sizes()[z as int],
{
    if z == 0 {
        "24x24"
    } else if z == 1 {
        "22x22"
    } else if z == 2 {
        "32x32"
    } else if z == 3 {
        "16x16"
    } else if z == 4 {
        "48x48"
    } else {
        "64x64"
    }
}

fn category_at(c: usize) -> (r: &'static str)
    requires
        c < 2,
    ensures
        r@ == icon_categories()[c as int],
{
    if c == 0 {
        "apps"
    } else {
        "applications"
    }
}

/// The (directory, file) pairs to try under each icon root, in search order:
/// every theme, size and category, with the icon name as given, with `_` as
/// `-`, and lowercased.
pub fn icon_file_candidates(icon_name: &str) -> (r: Vec<(String, String)>)
    ensures
        r.len() == ICON_CANDIDATES,
        forall|k: int|
            0 <= k < ICON_CANDIDATES ==> (#[trigger] r@[k].0@, r@[k].1@) == icon_candidate(
                icon_name@,
                k,
            ),
{
    let dashed = replace_char(icon_name, '_', '-');
    let lower = to_lowercase(icon_name);
    let mut out: Vec<(String, String)> = Vec::new();
    let mut k: usize = 0;
    while k < ICON_CANDIDATES
        invariant
            k <= ICON_CANDIDATES,
            out.len() == k,
            dashed@ == replace_char_spec(icon_name@, '_', '-'),
            lower@ == lowercase(icon_name@),
            forall|j: int|
                0 <= j < k ==> (#[trigger] out@[j].0@, out@[j].1@) == icon_candidate(
                    icon_name@,
                    j,
                ),
        decreases ICON_CANDIDATES - k,
    {
        let t = k / 36;
        let z = (k / 6) % 6;
        let c = (k / 3) % 2;
        let n = k % 3;
        let dir1 = concat3(theme_at(t), "/", size_at(z));
        let dir = concat3(dir1.as_str(), "/", category_at(c));
        let stem: &str = if n == 0 {
            icon_name
        } else if n == 1 {
            dashed.as_str()
        } else {
            lower.as_str()
        };
        let file = concat(stem, ".png");
        proof {
            assert(icon_stems(icon_name@)[n as int] == stem@);
        }
        out.push((dir, file));
        k += 1;
    }
    out
}

/// `base.join(sub)` for a relative `sub`: a separator is added unless `base`
/// is empty or already ends with one.
pub open spec fn join_path(base: Seq<char>, sub: Seq<char>) -> Seq<char> {
    if base.len() == 0 {
        sub
    } else if base.last() == '/' {
        base + sub
    } else {
        base + "/"@ + sub
    }
}

fn join_rel(base: &str, sub: &str) -> (r: String)
    ensures
        r@ == join_path(base@, sub@),
{
    proof {
        reveal_strlit("/");
    }
    if base.unicode_len() == 0 {
        assert(base@ + sub@ =~= sub@);
        return concat(base, sub);
    }
    let slash = ends_with(base, "/");
    proof {
        let tail = base@.subrange(base@.len() - 1, base@.len() as int);
        assert(tail.len() == 1 && tail[0] == base@.last());
        if base@.last() == '/' {
            assert(tail =~= "/"@);
        }
        if slash {
            assert(tail == "/"@);
            assert(tail[0] == '/');
        }
    }
    if slash {
        concat(base, sub)
    } else {
        concat3(base, "/", sub)
    }
}

/// Icon roots in search order: `icons` under each non-empty entry of
/// `XDG_DATA_DIRS`, then `~/.local/share/icons`, then the NixOS and the
/// usual system icon directories.
pub open spec fn icon_roots_spec(xdg_data_dirs: Option<Seq<char>>, home: Option<Seq<char>>) -> Seq<
    Seq<char>,
> {
    let xdg = match xdg_data_dirs {
        Some(x) => split_spec(x, ':').filter(|p: Seq<char>| p.len() > 0).map_values(
            |p: Seq<char>| join_path(p, "icons"@),
        ),
        None => Seq::empty(),
    };
    let user = match home {
        Some(h) => seq![join_path(h, ".local/share/icons"@)],
        None => Seq::empty(),
    };
    xdg + user + seq!["/run/current-system/sw/share/icons"@, "/usr/share/icons"@]
}

/// The icon roots to search, from `XDG_DATA_DIRS` and `HOME` (each none when
/// unset).
pub fn icon_roots(xdg_data_dirs: Option<&str>, home: Option<&str>) -> (r: Vec<String>)
    ensures
        r@.map_values(|s: String| s@) == icon_roots_spec(
            match xdg_data_dirs {
                Some(x) => Some(x@),
                None => None,
            },
            match home {
                Some(h) => Some(h@),
                None => None,
            },
        ),
{
    let mut out: Vec<String> = Vec::new();
    let ghost nonempty = |p: Seq<char>| p.len() > 0;
    let ghost to_root = |p: Seq<char>| join_path(p, "icons"@);
    match xdg_data_dirs {
        Some(x) => {
            let parts = split_char(x, ':');
            let ghost ps = split_spec(x@, ':');
            assert(parts@.map_values(|t: String| t@) == ps);
            let mut i: usize = 0;
            while i < parts.len()
                invariant
                    i <= parts.len(),
                    parts@.map_values(|t: String| t@) == ps,
                    nonempty == (|p: Seq<char>| p.len() > 0),
                    to_root == (|p: Seq<char>| join_path(p, "icons"@)),
                    out@.map_values(|s: String| s@) == ps.take(i as int).filter(nonempty).map_values(
                        to_root,
                    ),
                decreases parts.len() - i,
            {
                proof {
                    lemma_filter_take_step(ps, nonempty, i as int);
                    assert(ps[i as int] == parts@[i as int]@);
                }
                if parts[i].as_str().unicode_len() > 0 {
                    let root = join_rel(parts[i].as_str(), "icons");
                    let ghost before = out@.map_values(|s: String| s@);
                    proof {
                        assert(nonempty(ps[i as int]));
                        assert(to_root(ps[i as int]) == root@);
                        assert(ps.take(i as int + 1).filter(nonempty) == ps.take(i as int).filter(
                            nonempty,
                        ).push(ps[i as int]));
                        assert(ps.take(i as int + 1).filter(nonempty).map_values(to_root) =~= before.push(
                            root@,
                        ));
                    }
                    out.push(root);
                    assert(out@.map_values(|s: String| s@) =~= ps.take(i as int + 1).filter(
                        nonempty,
                    ).map_values(to_root));
                } else {
                    assert(out@.map_values(|s: String| s@) =~= ps.take(i as int + 1).filter(
                        nonempty,
                    ).map_values(to_root));
                }
                i += 1;
            }
            assert(ps.take(parts.len() as int) =~= ps);
        },
        None => {},
    }
    let ghost xdg_part = out@.map_values(|s: String| s@);
    match home {
        Some(h) => {
            out.push(join_rel(h, ".local/share/icons"));
        },
        None => {},
    }
    out.push(crate::text::own("/run/current-system/sw/share/icons"));
    out.push(crate::text::own("/usr/share/icons"));
    proof {
        let m = out@.map_values(|s: String| s@);
        let want = icon_roots_spec(
            match xdg_data_dirs {
                Some(x) => Some(x@),
                None => None,
            },
            match home {
                Some(h) => Some(h@),
                None => None,
            },
        );
        assert(m =~= want);
    }
    out
}

} // verus!
