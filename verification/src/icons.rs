//! Icon resolution: an icon token (bare name or absolute path) is
//! mapped to an existing image file, searching base directories in a
//! fixed preference order, first flat, then by themed size directories.

use vstd::prelude::*;

use crate::strutil::{str_starts_with, views_of_strings};

verus! {

/// The fixed system icon directories, searched after the user's own.
pub open spec fn sys_icon_bases() -> Seq<Seq<char>> {
    seq!["/usr/share/pixmaps"@, "/usr/share/icons/hicolor"@, "/usr/share/icons"@]
}

/// Icon base directories: the user's icon directories first, when the
/// home directory is known, then the fixed system ones.
pub open spec fn icon_bases_spec(home: Option<Seq<char>>) -> Seq<Seq<char>> {
    match home {
        Some(h) => seq![h + "/.local/share/icons"@, h + "/.icons"@] + sys_icon_bases(),
        None => sys_icon_bases(),
    }
}

pub fn icon_bases(home: &Option<String>) -> (r: Vec<String>)
    ensures
        views_of_strings(r@) == icon_bases_spec(
            match home {
                Some(h) => Some(h@),
                None => None,
            },
        ),
{
    let mut out: Vec<String> = Vec::new();
    match home {
        Some(h) => {
            let mut u1 = h.clone();
            u1.append("/.local/share/icons");
            out.push(u1);
            let mut u2 = h.clone();
            u2.append("/.icons");
            out.push(u2);
        },
        None => {},
    }
    out.push(String::from_str("/usr/share/pixmaps"));
    out.push(String::from_str("/usr/share/icons/hicolor"));
    out.push(String::from_str("/usr/share/icons"));
    proof {
        assert(views_of_strings(out@) =~= icon_bases_spec(
            match home {
                Some(h) => Some(h@),
                None => None,
            },
        ));
    }
    out
}

fn concat5(a: &str, b: &str, c: &str, d: &str, e: &str) -> (r: String)
    ensures
        r@ == a@ + b@ + c@ + d@ + e@,
{
    let mut s = a.to_owned();
    s.append(b);
    s.append(c);
    s.append(d);
    s.append(e);
    s
}

fn concat7(a: &str, b: &str, c: &str, d: &str, e: &str, f: &str, g: &str) -> (r: String)
    ensures
        r@ == a@ + b@ + c@ + d@ + e@ + f@ + g@,
{
    let mut s = a.to_owned();
    s.append(b);
    s.append(c);
    s.append(d);
    s.append(e);
    s.append(f);
    s.append(g);
    s
}

/// The three flat candidates under one base: `<dir>/<token>.<ext>` for
/// each extension, png then svg then xpm.
pub open spec fn flat_for_base(b: Seq<char>, t: Seq<char>) -> Seq<Seq<char>> {
    seq![
        b + "/"@ + t + "."@ + "png"@,
        b + "/"@ + t + "."@ + "svg"@,
        b + "/"@ + t + "."@ + "xpm"@,
    ]
}

/// Flat candidates over all bases, in base order.
pub open spec fn flat_cands(bases: Seq<Seq<char>>, t: Seq<char>) -> Seq<Seq<char>>
    decreases bases.len(),
{
    if bases.len() == 0 {
        Seq::empty()
    } else {
        flat_cands(bases.drop_last(), t) + flat_for_base(bases.last(), t)
    }
}

/// The six themed candidates under one base for one size: for each
/// extension, the `apps` subdirectory first, then the size directory.
pub open spec fn themed_for_size(b: Seq<char>, sz: Seq<char>, t: Seq<char>) -> Seq<Seq<char>> {
    seq![
        b + "/"@ + sz + "/apps/"@ + t + "."@ + "png"@,
        b + "/"@ + sz + "/"@ + t + "."@ + "png"@,
        b + "/"@ + sz + "/apps/"@ + t + "."@ + "svg"@,
        b + "/"@ + sz + "/"@ + t + "."@ + "svg"@,
        b + "/"@ + sz + "/apps/"@ + t + "."@ + "xpm"@,
        b + "/"@ + sz + "/"@ + t + "."@ + "xpm"@,
    ]
}

/// Themed candidates under one base, sizes in preference order.
pub open spec fn themed_for_base(b: Seq<char>, t: Seq<char>) -> Seq<Seq<char>> {
    themed_for_size(b, "128x128"@, t) + themed_for_size(b, "256x256"@, t) + themed_for_size(
        b,
        "scalable"@,
        t,
    ) + themed_for_size(b, "64x64"@, t) + themed_for_size(b, "48x48"@, t) + themed_for_size(
        b,
        "32x32"@,
        t,
    )
}

pub open spec fn themed_cands(bases: Seq<Seq<char>>, t: Seq<char>) -> Seq<Seq<char>>
    decreases bases.len(),
{
    if bases.len() == 0 {
        Seq::empty()
    } else {
        themed_cands(bases.drop_last(), t) + themed_for_base(bases.last(), t)
    }
}

/// Every path the resolver may probe for a token, in probe order:
/// the flat pass over all bases, then the themed pass.
pub open spec fn icon_candidates_spec(t: Seq<char>, bases: Seq<Seq<char>>) -> Seq<Seq<char>> {
    flat_cands(bases, t) + themed_cands(bases, t)
}

fn push_flat(out: &mut Vec<String>, b: &str, t: &str)
    ensures
        views_of_strings(final(out)@) == views_of_strings(old(out)@) + flat_for_base(b@, t@),
{
    let ghost before = views_of_strings(out@);
    out.push(concat5(b, "/", t, ".", "png"));
    out.push(concat5(b, "/", t, ".", "svg"));
    out.push(concat5(b, "/", t, ".", "xpm"));
    proof {
        assert(views_of_strings(out@) =~= before + flat_for_base(b@, t@));
    }
}

fn push_size(out: &mut Vec<String>, b: &str, sz: &str, t: &str)
    ensures
        views_of_strings(final(out)@) == views_of_strings(old(out)@) + themed_for_size(
            b@,
            sz@,
            t@,
        ),
{
    let ghost before = views_of_strings(out@);
    out.push(concat7(b, "/", sz, "/apps/", t, ".", "png"));
    out.push(concat7(b, "/", sz, "/", t, ".", "png"));
    out.push(concat7(b, "/", sz, "/apps/", t, ".", "svg"));
    out.push(concat7(b, "/", sz, "/", t, ".", "svg"));
    out.push(concat7(b, "/", sz, "/apps/", t, ".", "xpm"));
    out.push(concat7(b, "/", sz, "/", t, ".", "xpm"));
    proof {
        assert(views_of_strings(out@) =~= before + themed_for_size(b@, sz@, t@));
    }
}

fn push_themed(out: &mut Vec<String>, b: &str, t: &str)
    ensures
        views_of_strings(final(out)@) == views_of_strings(old(out)@) + themed_for_base(b@, t@),
{
    let ghost before = views_of_strings(out@);
    push_size(out, b, "128x128", t);
    push_size(out, b, "256x256", t);
    push_size(out, b, "scalable", t);
    push_size(out, b, "64x64", t);
    push_size(out, b, "48x48", t);
    push_size(out, b, "32x32", t);
    proof {
        assert(views_of_strings(out@) =~= before + themed_for_base(b@, t@));
    }
}

/// Build the full probe list for a token over the given bases.
pub fn icon_candidates(token: &str, bases: &Vec<String>) -> (r: Vec<String>)
    ensures
        views_of_strings(r@) == icon_candidates_spec(token@, views_of_strings(bases@)),
{
    let ghost bs = views_of_strings(bases@);
    let n = bases.len();
    let mut out: Vec<String> = Vec::new();
    let mut i: usize = 0;
    proof {
        assert(bs.take(0) =~= Seq::<Seq<char>>::empty());
        assert(views_of_strings(out@) =~= flat_cands(bs.take(0), token@));
    }
    while i < n
        invariant
            n == bases@.len(),
            bs == views_of_strings(bases@),
            0 <= i <= n,
            views_of_strings(out@) == flat_cands(bs.take(i as int), token@),
        decreases n - i,
    {
        push_flat(&mut out, bases[i].as_str(), token);
        proof {
            assert(bs.take(i + 1).drop_last() =~= bs.take(i as int));
            assert(bs.take(i + 1).last() == bs[i as int]);
            assert(bs[i as int] == bases@[i as int]@);
        }
        i = i + 1;
    }
    proof {
        assert(bs.take(n as int) =~= bs);
    }
    let mut j: usize = 0;
    proof {
        assert(themed_cands(bs.take(0), token@) =~= Seq::<Seq<char>>::empty());
        assert(views_of_strings(out@) =~= flat_cands(bs, token@) + themed_cands(
            bs.take(0),
            token@,
        ));
    }
    while j < n
        invariant
            n == bases@.len(),
            bs == views_of_strings(bases@),
            0 <= j <= n,
            views_of_strings(out@) == flat_cands(bs, token@) + themed_cands(
                bs.take(j as int),
                token@,
            ),
        decreases n - j,
    {
        push_themed(&mut out, bases[j].as_str(), token);
        proof {
            assert(bs.take(j + 1).drop_last() =~= bs.take(j as int));
            assert(bs.take(j + 1).last() == bs[j as int]);
            assert(bs[j as int] == bases@[j as int]@);
            assert(views_of_strings(out@) =~= flat_cands(bs, token@) + themed_cands(
                bs.take(j + 1),
                token@,
            ));
        }
        j = j + 1;
    }
    proof {
        assert(views_of_strings(out@) =~= icon_candidates_spec(token@, bs));
    }
    out
}

/// Relies on std::path::Path::is_file: whether a regular file exists at
/// this path right now; the filesystem gives no contract to state.
#[verifier::external_body]
fn file_exists(p: &str) -> bool {
    std::path::Path::new(p).is_file()
}

/// Whether a token names an absolute path.
pub open spec fn is_absolute(t: Seq<char>) -> bool {
    t.len() > 0 && t[0] == '/'
}

/// Resolve an icon token. An absolute token that exists is returned
/// unchanged; otherwise the probe list is walked and the first existing
/// candidate is returned. What exists depends on the filesystem, so the
/// contract pins only where an answer can come from.
pub fn resolve_icon(token: &str, bases: &Vec<String>) -> (r: Option<String>)
    ensures
        match r {
            Some(p) => (is_absolute(token@) && p@ == token@) || icon_candidates_spec(
                token@,
                views_of_strings(bases@),
            ).contains(p@),
            None => true,
        },
{
    if str_starts_with(token, "/") {
        proof {
            reveal_strlit("/");
            assert("/"@.len() == 1);
            assert(token@.subrange(0, 1) == "/"@);
            assert(token@.subrange(0, 1)[0] == token@[0]);
            assert(is_absolute(token@));
        }
        if file_exists(token) {
            return Some(token.to_owned());
        }
    }
    let cands = icon_candidates(token, bases);
    let ghost cs = icon_candidates_spec(token@, views_of_strings(bases@));
    let n = cands.len();
    let mut i: usize = 0;
    while i < n
        invariant
            n == cands@.len(),
            cs.len() == n,
            cs == icon_candidates_spec(token@, views_of_strings(bases@)),
            views_of_strings(cands@) == cs,
            0 <= i <= n,
        decreases n - i,
    {
        if file_exists(cands[i].as_str()) {
            let p = cands[i].clone();
            proof {
                assert(views_of_strings(cands@)[i as int] == cands@[i as int]@);
                assert(cs[i as int] == p@);
                assert(cs.contains(p@));
            }
            return Some(p);
        }
        i = i + 1;
    }
    None
}

} // verus!
