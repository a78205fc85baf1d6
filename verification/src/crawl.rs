//! Bounded-depth filesystem crawl: best-effort discovery of regular
//! files under the search roots, and the file-search entry point.

use vstd::prelude::*;

use crate::rank::{cand_views, Candidate, CandView};
use crate::roots::search_roots;
use crate::search::{results_sorted, result_views, search_files_from, SearchResult};
use crate::strutil::trimmed;
use walkdir::WalkDir;

verus! {

/// One entry the walker yielded: its final component (when valid
/// text), its full path, and whether it is a regular file.
pub struct RawEntry {
    pub name: Option<String>,
    pub path: String,
    pub is_file: bool,
}

pub ghost struct RawEntryView {
    pub name: Option<Seq<char>>,
    pub path: Seq<char>,
    pub is_file: bool,
}

impl View for RawEntry {
    type V = RawEntryView;

    open spec fn view(&self) -> RawEntryView {
        RawEntryView {
            name: match self.name {
                Some(s) => Some(s@),
                None => None,
            },
            path: self.path@,
            is_file: self.is_file,
        }
    }
}

pub open spec fn raw_views(s: Seq<RawEntry>) -> Seq<RawEntryView> {
    Seq::new(s.len(), |i: int| s[i]@)
}

/// Relies on walkdir's WalkDir: walks `root` at most `max_depth` deep,
/// skipping unreadable subtrees and a missing root (their entries come
/// as errors and are dropped); what comes back depends on the disk, so
/// nothing more can be promised of it.
#[verifier::external_body]
fn walk_root(root: &str, max_depth: usize) -> Vec<RawEntry> {
    WalkDir::new(root)
        .max_depth(max_depth)
        .into_iter()
        .filter_map(|e| e.ok())
        .map(
            |e| RawEntry {
                name: e.file_name().to_str().map(|s| s.to_string()),
                path: e.path().display().to_string(),
                is_file: e.file_type().is_file(),
            },
        )
        .collect()
}

/// The candidates among walked entries: regular files with a readable
/// name, in walk order.
pub open spec fn kept_candidates(s: Seq<RawEntryView>) -> Seq<CandView>
    decreases s.len(),
{
    if s.len() == 0 {
        Seq::empty()
    } else {
        let front = kept_candidates(s.drop_last());
        match s.last().name {
            Some(n) => if s.last().is_file {
                front.push(CandView { name: n, path: s.last().path })
            } else {
                front
            },
            None => front,
        }
    }
}

pub fn candidates_of(raw: &Vec<RawEntry>) -> (r: Vec<Candidate>)
    ensures
        cand_views(r@) == kept_candidates(raw_views(raw@)),
{
    let ghost rv = raw_views(raw@);
    let n = raw.len();
    let mut out: Vec<Candidate> = Vec::new();
    let mut i: usize = 0;
    proof {
        assert(rv.take(0) =~= Seq::<RawEntryView>::empty());
        assert(cand_views(out@) =~= kept_candidates(rv.take(0)));
    }
    while i < n
        invariant
            n == raw@.len(),
            rv == raw_views(raw@),
            0 <= i <= n,
            cand_views(out@) == kept_candidates(rv.take(i as int)),
        decreases n - i,
    {
        let ghost prev = out@;
        proof {
            assert(rv[i as int] == raw@[i as int]@);
            assert(rv.take(i + 1).drop_last() =~= rv.take(i as int));
            assert(rv.take(i + 1).last() == rv[i as int]);
        }
        if raw[i].is_file {
            match &raw[i].name {
                Some(nm) => {
                    let c = Candidate { name: nm.clone(), path: raw[i].path.clone() };
                    out.push(c);
                    proof {
                        assert(cand_views(out@) =~= cand_views(prev).push(
                            CandView { name: nm@, path: raw@[i as int].path@ },
                        ));
                    }
                },
                None => {},
            }
        }
        i = i + 1;
    }
    proof {
        assert(rv.take(n as int) =~= rv);
    }
    out
}

/// Crawl every root, best effort: a root that does not exist or cannot
/// be read contributes nothing, and no error is reported. The result
/// depends on the filesystem; what is done with it is specified in the
/// ranking functions it is handed to.
pub fn crawl(roots: &Vec<String>, max_depth: usize) -> Vec<Candidate> {
    let n = roots.len();
    let mut out: Vec<Candidate> = Vec::new();
    let mut i: usize = 0;
    while i < n
        invariant
            n == roots@.len(),
            0 <= i <= n,
        decreases n - i,
    {
        let raw = walk_root(roots[i].as_str(), max_depth);
        let mut cands = candidates_of(&raw);
        out.append(&mut cands);
        i = i + 1;
    }
    out
}

/// The file-search boundary operation: crawl the roots derived from
/// the home directory, six levels deep, and rank what was found. The
/// crawl depends on the disk; the list's shape does not: it is capped
/// at 100, scores never increase, and a blank query finds nothing.
pub fn search_file(query: &str, home: &Option<String>) -> (r: Vec<SearchResult>)
    ensures
        r@.len() <= 100,
        results_sorted(result_views(r@)),
        trimmed(query@).len() == 0 ==> r@.len() == 0,
{
    let roots = search_roots(home);
    let cands = crawl(&roots, 6);
    search_files_from(query, &cands)
}

} // verus!
