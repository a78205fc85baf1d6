//! Search roots: the directories a query crawls, derived from the home
//! directory when known, and the PATH variable split into entries.

use vstd::prelude::*;

use crate::strutil::{split_on, split_on_char, views_of_strings};

verus! {

/// The crawl roots, in order: home, the fixed application-metadata and
/// binary directories, then home's Desktop, Downloads and Documents.
/// No home directory silently drops the home-derived roots.
pub open spec fn roots_spec(home: Option<Seq<char>>) -> Seq<Seq<char>> {
    match home {
        Some(h) => seq![
            h,
            "/usr/share/applications"@,
            "/usr/bin"@,
            "/snap/bin"@,
            "/usr/local"@,
            h + "/Desktop"@,
            h + "/Downloads"@,
            h + "/Documents"@,
        ],
        None => seq!["/usr/share/applications"@, "/usr/bin"@, "/snap/bin"@, "/usr/local"@],
    }
}

pub fn search_roots(home: &Option<String>) -> (r: Vec<String>)
    ensures
        views_of_strings(r@) == roots_spec(
            match home {
                Some(h) => Some(h@),
                None => None,
            },
        ),
{
    let mut out: Vec<String> = Vec::new();
    match home {
        Some(h) => {
            out.push(h.clone());
        },
        None => {},
    }
    out.push(String::from_str("/usr/share/applications"));
    out.push(String::from_str("/usr/bin"));
    out.push(String::from_str("/snap/bin"));
    out.push(String::from_str("/usr/local"));
    match home {
        Some(h) => {
            let mut d1 = h.clone();
            d1.append("/Desktop");
            out.push(d1);
            let mut d2 = h.clone();
            d2.append("/Downloads");
            out.push(d2);
            let mut d3 = h.clone();
            d3.append("/Documents");
            out.push(d3);
        },
        None => {},
    }
    proof {
        assert(views_of_strings(out@) =~= roots_spec(
            match home {
                Some(h) => Some(h@),
                None => None,
            },
        ));
    }
    out
}

/// The metadata directories, highest priority first: the user's local
/// one when home is known, then the snap vendor directory, then the
/// system directory.
pub open spec fn desktop_dirs_spec(home: Option<Seq<char>>) -> Seq<Seq<char>> {
    match home {
        Some(h) => seq![
            h + "/.local/share/applications"@,
            "/var/lib/snapd/desktop/applications"@,
            "/usr/share/applications"@,
        ],
        None => seq!["/var/lib/snapd/desktop/applications"@, "/usr/share/applications"@],
    }
}

pub fn desktop_dirs(home: &Option<String>) -> (r: Vec<String>)
    ensures
        views_of_strings(r@) == desktop_dirs_spec(
            match home {
                Some(h) => Some(h@),
                None => None,
            },
        ),
{
    let mut out: Vec<String> = Vec::new();
    match home {
        Some(h) => {
            let mut u = h.clone();
            u.append("/.local/share/applications");
            out.push(u);
        },
        None => {},
    }
    out.push(String::from_str("/var/lib/snapd/desktop/applications"));
    out.push(String::from_str("/usr/share/applications"));
    proof {
        assert(views_of_strings(out@) =~= desktop_dirs_spec(
            match home {
                Some(h) => Some(h@),
                None => None,
            },
        ));
    }
    out
}

/// The pieces of a split, empty ones dropped.
pub open spec fn non_empty(pieces: Seq<Seq<char>>) -> Seq<Seq<char>>
    decreases pieces.len(),
{
    if pieces.len() == 0 {
        Seq::empty()
    } else {
        let front = non_empty(pieces.drop_last());
        if pieces.last().len() == 0 {
            front
        } else {
            front.push(pieces.last())
        }
    }
}

/// PATH entries: the variable split on `:`, empty entries dropped, in
/// order; deduplication by name later depends on this order.
pub open spec fn path_entries_spec(pv: Seq<char>) -> Seq<Seq<char>> {
    non_empty(split_on(pv, ':'))
}

pub fn path_entries(path_var: &str) -> (r: Vec<String>)
    ensures
        views_of_strings(r@) == path_entries_spec(path_var@),
{
    let pieces = split_on_char(path_var, ':');
    let ghost pv = views_of_strings(pieces@);
    let n = pieces.len();
    let mut out: Vec<String> = Vec::new();
    let mut i: usize = 0;
    proof {
        assert(pv.take(0) =~= Seq::<Seq<char>>::empty());
        assert(views_of_strings(out@) =~= non_empty(pv.take(0)));
    }
    while i < n
        invariant
            n == pieces@.len(),
            pv == views_of_strings(pieces@),
            0 <= i <= n,
            views_of_strings(out@) == non_empty(pv.take(i as int)),
        decreases n - i,
    {
        let ghost prev = out@;
        proof {
            assert(pv[i as int] == pieces@[i as int]@);
            assert(pv.take(i + 1).drop_last() =~= pv.take(i as int));
            assert(pv.take(i + 1).last() == pv[i as int]);
        }
        if pieces[i].as_str().unicode_len() > 0 {
            out.push(pieces[i].clone());
            proof {
                assert(views_of_strings(out@) =~= views_of_strings(prev).push(pv[i as int]));
            }
        }
        i = i + 1;
    }
    proof {
        assert(pv.take(n as int) =~= pv);
    }
    out
}

} // verus!
