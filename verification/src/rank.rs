//! Fuzzy ranking: candidates are scored against a query in parallel,
//! sorted by descending score with a stable insertion sort, and capped.

use vstd::prelude::*;

use crate::strutil::{trim, trimmed};
use fuzzy_matcher::skim::SkimMatcherV2;
use fuzzy_matcher::FuzzyMatcher;
use rayon::iter::IntoParallelRefIterator;
use rayon::iter::ParallelIterator;

verus! {

/// A discovered filesystem entry or executable, eligible for matching.
pub struct Candidate {
    pub name: String,
    pub path: String,
}

/// The mathematical shape of a candidate.
pub ghost struct CandView {
    pub name: Seq<char>,
    pub path: Seq<char>,
}

impl View for Candidate {
    type V = CandView;

    open spec fn view(&self) -> CandView {
        CandView { name: self.name@, path: self.path@ }
    }
}

/// A candidate together with its fuzzy-match score.
pub struct Scored {
    pub name: String,
    pub path: String,
    pub score: i64,
}

/// The mathematical shape of a scored candidate.
pub ghost struct ScoredView {
    pub name: Seq<char>,
    pub path: Seq<char>,
    pub score: int,
}

impl View for Scored {
    type V = ScoredView;

    open spec fn view(&self) -> ScoredView {
        ScoredView { name: self.name@, path: self.path@, score: self.score as int }
    }
}

pub open spec fn cand_views(s: Seq<Candidate>) -> Seq<CandView> {
    Seq::new(s.len(), |i: int| s[i]@)
}

pub open spec fn scored_views(s: Seq<Scored>) -> Seq<ScoredView> {
    Seq::new(s.len(), |i: int| s[i]@)
}

/// The score the skim subsequence matcher gives `choice` against
/// `pattern`, or none when the pattern is not a subsequence of the
/// choice; a function of the two strings alone.
pub uninterp spec fn skim_score(choice: Seq<char>, pattern: Seq<char>) -> Option<i64>;

/// Relies on fuzzy_matcher's SkimMatcherV2 in its default configuration:
/// fuzzy_match computes its score from the two strings alone.
#[verifier::external_body]
fn skim_match(choice: &str, pattern: &str) -> (r: Option<i64>)
    ensures
        r == skim_score(choice@, pattern@),
{
    SkimMatcherV2::default().fuzzy_match(choice, pattern)
}

/// Scoring one candidate: kept, with its score, only when it matches.
pub open spec fn score_one(c: CandView, q: Seq<char>) -> Option<ScoredView> {
    match skim_score(c.name, q) {
        Some(s) => Some(ScoredView { name: c.name, path: c.path, score: s as int }),
        None => None,
    }
}

pub fn score_candidate(c: &Candidate, q: &str) -> (r: Option<Scored>)
    ensures
        match r {
            Some(s) => score_one(c@, q@) == Some(s@),
            None => score_one(c@, q@) is None,
        },
{
    match skim_match(c.name.as_str(), q) {
        Some(s) => Some(Scored { name: c.name.clone(), path: c.path.clone(), score: s }),
        None => None,
    }
}

/// Every candidate scored independently, in order, keeping the matches.
pub open spec fn scored_seq(cands: Seq<CandView>, q: Seq<char>) -> Seq<ScoredView>
    decreases cands.len(),
{
    if cands.len() == 0 {
        Seq::empty()
    } else {
        match score_one(cands[0], q) {
            Some(sv) => seq![sv] + scored_seq(cands.skip(1), q),
            None => scored_seq(cands.skip(1), q),
        }
    }
}

/// Relies on rayon: par_iter, a filter_map that only applies the
/// verified score_candidate, and collect into a Vec, which keeps the
/// input order (rayon documents that a collected Vec equals the
/// sequential result).
#[verifier::external_body]
fn par_score(cands: &Vec<Candidate>, q: &str) -> (r: Vec<Scored>)
    ensures
        scored_views(r@) == scored_seq(cand_views(cands@), q@),
{
    cands.par_iter().filter_map(|c| score_candidate(c, q)).collect()
}

/// Scores never increase along the list.
pub open spec fn sorted_desc(s: Seq<ScoredView>) -> bool {
    forall|i: int, j: int| 0 <= i <= j < s.len() ==> s[i].score >= s[j].score
}

/// Where a stable descending insertion places `x`: after every element
/// strictly greater, before the first less-or-equal one.
pub open spec fn insert_pos(x: ScoredView, s: Seq<ScoredView>) -> int
    decreases s.len(),
{
    if s.len() == 0 {
        0
    } else if s[0].score > x.score {
        1 + insert_pos(x, s.skip(1))
    } else {
        0
    }
}

pub open spec fn insert_desc(x: ScoredView, s: Seq<ScoredView>) -> Seq<ScoredView>
    decreases s.len(),
{
    if s.len() == 0 {
        seq![x]
    } else if s[0].score > x.score {
        seq![s[0]] + insert_desc(x, s.skip(1))
    } else {
        seq![x] + s
    }
}

/// Stable descending sort by score: each element, taken left to right,
/// is inserted into the sorted rest of the list.
pub open spec fn sort_desc(s: Seq<ScoredView>) -> Seq<ScoredView>
    decreases s.len(),
{
    if s.len() == 0 {
        Seq::empty()
    } else {
        insert_desc(s[0], sort_desc(s.skip(1)))
    }
}

pub proof fn lemma_insert_desc_shape(x: ScoredView, s: Seq<ScoredView>)
    ensures
        0 <= insert_pos(x, s) <= s.len(),
        insert_desc(x, s) =~= s.take(insert_pos(x, s)) + seq![x] + s.skip(insert_pos(x, s)),
        forall|k: int| 0 <= k < insert_pos(x, s) ==> s[k].score > x.score,
        insert_pos(x, s) < s.len() ==> s[insert_pos(x, s)].score <= x.score,
    decreases s.len(),
{
    if s.len() > 0 && s[0].score > x.score {
        lemma_insert_desc_shape(x, s.skip(1));
        let p = insert_pos(x, s);
        assert(s.skip(1).take(p - 1) =~= s.take(p).skip(1));
        assert(insert_desc(x, s) =~= s.take(p) + seq![x] + s.skip(p));
        assert forall|k: int| 0 <= k < p implies s[k].score > x.score by {
            if k > 0 {
                assert(s.skip(1)[k - 1].score > x.score);
            }
        }
    }
}

proof fn lemma_insert_desc_sorted(x: ScoredView, s: Seq<ScoredView>)
    requires
        sorted_desc(s),
    ensures
        sorted_desc(insert_desc(x, s)),
        insert_desc(x, s).len() == s.len() + 1,
{
    lemma_insert_desc_shape(x, s);
}

pub proof fn lemma_sort_desc_sorted(s: Seq<ScoredView>)
    ensures
        sorted_desc(sort_desc(s)),
        sort_desc(s).len() == s.len(),
    decreases s.len(),
{
    if s.len() > 0 {
        lemma_sort_desc_sorted(s.skip(1));
        lemma_insert_desc_sorted(s[0], sort_desc(s.skip(1)));
    }
}

proof fn lemma_insert_at(x: ScoredView, s: Seq<ScoredView>, j: int)
    requires
        0 <= j <= s.len(),
        forall|k: int| 0 <= k < j ==> s[k].score > x.score,
        j == s.len() || s[j].score <= x.score,
    ensures
        insert_pos(x, s) == j,
    decreases j,
{
    if j > 0 {
        lemma_insert_at(x, s.skip(1), j - 1);
    }
}

/// Insert `x` into a vector sorted by descending score, keeping it
/// ahead of nothing it ties with.
fn insert_scored(out: &mut Vec<Scored>, x: Scored)
    ensures
        scored_views(final(out)@) == insert_desc(x@, scored_views(old(out)@)),
{
    let ghost s = scored_views(out@);
    let n = out.len();
    let mut j: usize = 0;
    while j < n && out[j].score > x.score
        invariant
            n == out@.len(),
            s == scored_views(out@),
            0 <= j <= n,
            forall|k: int| 0 <= k < j ==> s[k].score > x@.score,
        decreases n - j,
    {
        proof {
            assert(s[j as int] == out@[j as int]@);
        }
        j = j + 1;
    }
    proof {
        lemma_insert_at(x@, s, j as int);
        lemma_insert_desc_shape(x@, s);
    }
    out.insert(j, x);
    proof {
        assert(scored_views(out@) =~= s.take(j as int) + seq![x@] + s.skip(j as int));
    }
}

/// Sort by descending score; the stable insertion keeps equal scores
/// in their input order.
pub fn sort_scored(v: Vec<Scored>) -> (r: Vec<Scored>)
    ensures
        scored_views(r@) == sort_desc(scored_views(v@)),
{
    let ghost full = scored_views(v@);
    let mut src = v;
    let mut out: Vec<Scored> = Vec::new();
    proof {
        assert(full.skip(full.len() as int) =~= Seq::<ScoredView>::empty());
    }
    while src.len() > 0
        invariant
            src@.len() <= full.len(),
            scored_views(src@) =~= full.take(src@.len() as int),
            scored_views(out@) == sort_desc(full.skip(src@.len() as int)),
        decreases src.len(),
    {
        let ghost m = src@.len() as int;
        let ghost before = src@;
        let x = src.pop().unwrap();
        proof {
            assert(scored_views(before) == full.take(m));
            assert(full.take(m)[m - 1] == full[m - 1]);
            assert(scored_views(before)[m - 1] == before[m - 1]@);
            assert(x@ == full[m - 1]);
            assert forall|i: int| 0 <= i < m - 1 implies scored_views(src@)[i] == full[i] by {
                assert(full.take(m)[i] == full[i]);
                assert(scored_views(before)[i] == before[i]@);
                assert(scored_views(src@)[i] == src@[i]@);
            }
            assert(scored_views(src@) =~= full.take(m - 1));
            let suffix = full.skip(m - 1);
            assert(suffix.len() > 0);
            assert(suffix[0] == full[m - 1]);
            assert(suffix.skip(1) =~= full.skip(m));
            assert(sort_desc(suffix) == insert_desc(x@, sort_desc(full.skip(m))));
        }
        insert_scored(&mut out, x);
    }
    proof {
        assert(full.skip(0) =~= full);
    }
    out
}

/// The capped, descending-score ranking of the candidates: an empty or
/// whitespace-only query ranks nothing; otherwise each candidate is
/// scored against the trimmed query and non-matches are dropped.
pub open spec fn rank_spec(q: Seq<char>, cands: Seq<CandView>, cap: int) -> Seq<ScoredView> {
    let t = trimmed(q);
    if t.len() == 0 {
        Seq::empty()
    } else {
        let sorted = sort_desc(scored_seq(cands, t));
        if sorted.len() > cap {
            sorted.take(cap)
        } else {
            sorted
        }
    }
}

pub fn rank(query: &str, cands: &Vec<Candidate>, cap: usize) -> (r: Vec<Scored>)
    ensures
        scored_views(r@) == rank_spec(query@, cand_views(cands@), cap as int),
        r@.len() <= cap,
        sorted_desc(scored_views(r@)),
        trimmed(query@).len() == 0 ==> r@.len() == 0,
{
    let t = trim(query);
    if t.as_str().unicode_len() == 0 {
        Vec::new()
    } else {
        let scored = par_score(cands, t.as_str());
        let mut sorted = sort_scored(scored);
        proof {
            lemma_sort_desc_sorted(scored_seq(cand_views(cands@), trimmed(query@)));
        }
        if sorted.len() > cap {
            sorted.truncate(cap);
            proof {
                let full = sort_desc(scored_seq(cand_views(cands@), trimmed(query@)));
                assert(scored_views(sorted@) =~= full.take(cap as int));
            }
        }
        sorted
    }
}

} // verus!
