//! The two search operations: general file search and executable
//! search, each a capped, descending-score result list; executable
//! results are deduplicated by name before scoring and enriched with
//! an icon from the desktop-entry index.

use vstd::prelude::*;

use crate::desktop::{entry_lookup, index_views, opt_str_view, DesktopEntryView, DesktopIndex};
use crate::kind::{classify, classify_spec, Kind};
use crate::rank::{
    cand_views, rank, rank_spec, scored_seq, scored_views, score_one, sort_desc, insert_desc,
    insert_pos, Candidate, CandView, Scored, ScoredView,
};
use crate::strutil::{eq_str, trimmed};

verus! {

/// One search result as it crosses the boundary; `icon` is the
/// resolved icon path, when one was found for an executable result.
pub struct SearchResult {
    pub name: String,
    pub path: String,
    pub kind: Kind,
    pub score: i64,
    pub icon: Option<String>,
}

pub ghost struct SearchResultView {
    pub name: Seq<char>,
    pub path: Seq<char>,
    pub kind: Kind,
    pub score: int,
    pub icon: Option<Seq<char>>,
}

impl View for SearchResult {
    type V = SearchResultView;

    open spec fn view(&self) -> SearchResultView {
        SearchResultView {
            name: self.name@,
            path: self.path@,
            kind: self.kind,
            score: self.score as int,
            icon: opt_str_view(self.icon),
        }
    }
}

pub open spec fn result_views(s: Seq<SearchResult>) -> Seq<SearchResultView> {
    Seq::new(s.len(), |i: int| s[i]@)
}

/// Scores never increase along a result list.
pub open spec fn results_sorted(s: Seq<SearchResultView>) -> bool {
    forall|i: int, j: int| 0 <= i <= j < s.len() ==> s[i].score >= s[j].score
}

/// No two entries share a name.
pub open spec fn results_unique_names(s: Seq<SearchResultView>) -> bool {
    forall|i: int, j: int| 0 <= i < j < s.len() ==> s[i].name != s[j].name
}

pub open spec fn cand_name_in(s: Seq<CandView>, n: Seq<char>) -> bool {
    exists|i: int| 0 <= i < s.len() && s[i].name == n
}

pub open spec fn unique_cand_names(s: Seq<CandView>) -> bool {
    forall|i: int, j: int| 0 <= i < j < s.len() ==> s[i].name != s[j].name
}

pub open spec fn scored_name_in(s: Seq<ScoredView>, n: Seq<char>) -> bool {
    exists|i: int| 0 <= i < s.len() && s[i].name == n
}

pub open spec fn unique_scored_names(s: Seq<ScoredView>) -> bool {
    forall|i: int, j: int| 0 <= i < j < s.len() ==> s[i].name != s[j].name
}

/// Deduplication by name, first occurrence winning, order kept.
pub open spec fn dedup_names(s: Seq<CandView>) -> Seq<CandView>
    decreases s.len(),
{
    if s.len() == 0 {
        Seq::empty()
    } else {
        let d = dedup_names(s.drop_last());
        if cand_name_in(s.drop_last(), s.last().name) {
            d
        } else {
            d.push(s.last())
        }
    }
}

pub proof fn lemma_dedup_props(s: Seq<CandView>)
    ensures
        unique_cand_names(dedup_names(s)),
        forall|n: Seq<char>| #[trigger] cand_name_in(dedup_names(s), n) == cand_name_in(s, n),
        dedup_names(s).len() <= s.len(),
    decreases s.len(),
{
    if s.len() > 0 {
        lemma_dedup_props(s.drop_last());
        let pre = s.drop_last();
        let d = dedup_names(pre);
        assert forall|n: Seq<char>| #[trigger] cand_name_in(dedup_names(s), n) == cand_name_in(
            s,
            n,
        ) by {
            if cand_name_in(dedup_names(s), n) {
                let i = choose|i: int|
                    0 <= i < dedup_names(s).len() && dedup_names(s)[i].name == n;
                if i < d.len() {
                    assert(cand_name_in(d, n));
                    let j = choose|j: int| 0 <= j < pre.len() && pre[j].name == n;
                    assert(s[j].name == n);
                    assert(cand_name_in(s, n));
                } else {
                    assert(dedup_names(s)[i] == s.last());
                    assert(s[s.len() - 1].name == n);
                    assert(cand_name_in(s, n));
                }
            }
            if cand_name_in(s, n) {
                let i = choose|i: int| 0 <= i < s.len() && s[i].name == n;
                if i < s.len() - 1 {
                    assert(pre[i].name == n);
                    assert(cand_name_in(pre, n));
                    assert(cand_name_in(dedup_names(pre), n) == cand_name_in(pre, n));
                    let j = choose|j: int| 0 <= j < d.len() && d[j].name == n;
                    if cand_name_in(pre, s.last().name) {
                        assert(dedup_names(s)[j].name == n);
                    } else {
                        assert(dedup_names(s)[j].name == n);
                    }
                    assert(cand_name_in(dedup_names(s), n));
                } else {
                    if cand_name_in(pre, n) {
                        assert(cand_name_in(dedup_names(pre), n) == cand_name_in(pre, n));
                        let k = choose|k: int| 0 <= k < d.len() && d[k].name == n;
                        assert(dedup_names(s)[k].name == n);
                        assert(cand_name_in(dedup_names(s), n));
                    } else {
                        let m = dedup_names(s).len() - 1;
                        assert(dedup_names(s)[m] == s.last());
                        assert(cand_name_in(dedup_names(s), n));
                    }
                }
            }
        }
        if !cand_name_in(pre, s.last().name) {
            assert forall|i: int, j: int|
                0 <= i < j < dedup_names(s).len() implies dedup_names(s)[i].name != dedup_names(
                s,
            )[j].name by {
                if j < d.len() {
                } else {
                    assert(dedup_names(s)[j] == s.last());
                    assert(dedup_names(s)[i] == d[i]);
                    if d[i].name == s.last().name {
                        assert(cand_name_in(d, s.last().name));
                        assert(cand_name_in(pre, s.last().name));
                    }
                }
            }
        }
    }
}

fn contains_cand_name(v: &Vec<Candidate>, n: &str) -> (r: bool)
    ensures
        r == cand_name_in(cand_views(v@), n@),
{
    let ghost cs = cand_views(v@);
    let m = v.len();
    let mut i: usize = 0;
    while i < m
        invariant
            m == v@.len(),
            cs == cand_views(v@),
            cs.len() == m,
            0 <= i <= m,
            forall|k: int| 0 <= k < i ==> cs[k].name != n@,
        decreases m - i,
    {
        proof {
            assert(cs[i as int] == v@[i as int]@);
        }
        if eq_str(v[i].name.as_str(), n) {
            return true;
        }
        i = i + 1;
    }
    false
}

/// Drop every candidate whose name already occurred earlier.
pub fn dedup_by_name(cands: &Vec<Candidate>) -> (r: Vec<Candidate>)
    ensures
        cand_views(r@) == dedup_names(cand_views(cands@)),
{
    let ghost cv = cand_views(cands@);
    let n = cands.len();
    let mut out: Vec<Candidate> = Vec::new();
    let mut i: usize = 0;
    proof {
        assert(cv.take(0) =~= Seq::<CandView>::empty());
        assert(cand_views(out@) =~= dedup_names(cv.take(0)));
    }
    while i < n
        invariant
            n == cands@.len(),
            cv == cand_views(cands@),
            0 <= i <= n,
            cand_views(out@) == dedup_names(cv.take(i as int)),
        decreases n - i,
    {
        proof {
            lemma_dedup_props(cv.take(i as int));
            assert(cv[i as int] == cands@[i as int]@);
        }
        let ghost prev = out@;
        let present = contains_cand_name(&out, cands[i].name.as_str());
        proof {
            assert(cand_name_in(cand_views(out@), cv[i as int].name) == cand_name_in(
                cv.take(i as int),
                cv[i as int].name,
            ));
        }
        if !present {
            let c = Candidate {
                name: cands[i].name.clone(),
                path: cands[i].path.clone(),
            };
            out.push(c);
            proof {
                assert(cand_views(out@) =~= cand_views(prev).push(cv[i as int]));
            }
        }
        proof {
            assert(cv.take(i + 1).drop_last() =~= cv.take(i as int));
            assert(cv.take(i + 1).last() == cv[i as int]);
        }
        i = i + 1;
    }
    proof {
        assert(cv.take(n as int) =~= cv);
    }
    out
}

proof fn lemma_scored_names(cands: Seq<CandView>, q: Seq<char>)
    ensures
        forall|n: Seq<char>| #[trigger] scored_name_in(scored_seq(cands, q), n) ==> cand_name_in(
            cands,
            n,
        ),
    decreases cands.len(),
{
    if cands.len() > 0 {
        lemma_scored_names(cands.skip(1), q);
        let rest = scored_seq(cands.skip(1), q);
        assert forall|n: Seq<char>| #[trigger] scored_name_in(scored_seq(cands, q), n) implies
            cand_name_in(cands, n) by {
            let ss = scored_seq(cands, q);
            let i = choose|i: int| 0 <= i < ss.len() && ss[i].name == n;
            match score_one(cands[0], q) {
                Some(sv) => {
                    if i == 0 {
                        assert(cands[0].name == n);
                        assert(cand_name_in(cands, n));
                    } else {
                        assert(ss[i] == rest[i - 1]);
                        assert(scored_name_in(rest, n));
                        let j = choose|j: int|
                            0 <= j < cands.skip(1).len() && cands.skip(1)[j].name == n;
                        assert(cands[j + 1].name == n);
                        assert(cand_name_in(cands, n));
                    }
                },
                None => {
                    assert(ss[i] == rest[i]);
                    assert(scored_name_in(rest, n));
                    let j = choose|j: int|
                        0 <= j < cands.skip(1).len() && cands.skip(1)[j].name == n;
                    assert(cands[j + 1].name == n);
                    assert(cand_name_in(cands, n));
                },
            }
        }
    }
}

proof fn lemma_scored_unique(cands: Seq<CandView>, q: Seq<char>)
    requires
        unique_cand_names(cands),
    ensures
        unique_scored_names(scored_seq(cands, q)),
    decreases cands.len(),
{
    if cands.len() > 0 {
        let rest_c = cands.skip(1);
        assert forall|i: int, j: int| 0 <= i < j < rest_c.len() implies rest_c[i].name
            != rest_c[j].name by {
            assert(cands[i + 1].name != cands[j + 1].name);
        }
        lemma_scored_unique(rest_c, q);
        lemma_scored_names(rest_c, q);
        let rest = scored_seq(rest_c, q);
        match score_one(cands[0], q) {
            Some(sv) => {
                let ss = scored_seq(cands, q);
                assert forall|i: int, j: int| 0 <= i < j < ss.len() implies ss[i].name
                    != ss[j].name by {
                    if i == 0 {
                        assert(ss[j] == rest[j - 1]);
                        if sv.name == ss[j].name {
                            assert(scored_name_in(rest, sv.name));
                            assert(cand_name_in(rest_c, sv.name));
                            let k = choose|k: int|
                                0 <= k < rest_c.len() && rest_c[k].name == sv.name;
                            assert(cands[k + 1].name == cands[0].name);
                        }
                    } else {
                        assert(ss[i] == rest[i - 1]);
                        assert(ss[j] == rest[j - 1]);
                    }
                }
            },
            None => {},
        }
    }
}

proof fn lemma_insert_names(x: ScoredView, s: Seq<ScoredView>)
    ensures
        forall|n: Seq<char>| #[trigger] scored_name_in(insert_desc(x, s), n) == (x.name == n
            || scored_name_in(s, n)),
{
    crate::rank::lemma_insert_desc_shape(x, s);
    let p = insert_pos(x, s);
    let ins = insert_desc(x, s);
    assert forall|n: Seq<char>| #[trigger] scored_name_in(ins, n) == (x.name == n
        || scored_name_in(s, n)) by {
        if scored_name_in(ins, n) {
            let i = choose|i: int| 0 <= i < ins.len() && ins[i].name == n;
            if i < p {
                assert(s[i].name == n);
                assert(scored_name_in(s, n));
            } else if i == p {
                assert(x.name == n);
            } else {
                assert(ins[i] == s[i - 1]);
                assert(scored_name_in(s, n));
            }
        }
        if x.name == n {
            assert(ins[p].name == n);
            assert(scored_name_in(ins, n));
        }
        if scored_name_in(s, n) {
            let i = choose|i: int| 0 <= i < s.len() && s[i].name == n;
            if i < p {
                assert(ins[i].name == n);
            } else {
                assert(ins[i + 1] == s[i]);
            }
            assert(scored_name_in(ins, n));
        }
    }
}

proof fn lemma_insert_unique(x: ScoredView, s: Seq<ScoredView>)
    requires
        unique_scored_names(s),
        !scored_name_in(s, x.name),
    ensures
        unique_scored_names(insert_desc(x, s)),
{
    crate::rank::lemma_insert_desc_shape(x, s);
    let p = insert_pos(x, s);
    let ins = insert_desc(x, s);
    assert forall|i: int, j: int| 0 <= i < j < ins.len() implies ins[i].name != ins[j].name by {
        let a: ScoredView = if i < p {
            s[i]
        } else if i == p {
            x
        } else {
            s[i - 1]
        };
        let b: ScoredView = if j < p {
            s[j]
        } else if j == p {
            x
        } else {
            s[j - 1]
        };
        assert(ins[i] == a);
        assert(ins[j] == b);
        if i == p {
            if b.name == x.name {
                assert(s[j - 1].name == x.name);
                assert(scored_name_in(s, x.name));
            }
        } else if j == p {
            if a.name == x.name {
                assert(scored_name_in(s, x.name));
            }
        }
    }
}

proof fn lemma_sort_names(s: Seq<ScoredView>)
    ensures
        forall|n: Seq<char>| #[trigger] scored_name_in(sort_desc(s), n) == scored_name_in(s, n),
    decreases s.len(),
{
    if s.len() > 0 {
        lemma_sort_names(s.skip(1));
        lemma_insert_names(s[0], sort_desc(s.skip(1)));
        let rest = s.skip(1);
        assert forall|n: Seq<char>| #[trigger] scored_name_in(sort_desc(s), n) == scored_name_in(
            s,
            n,
        ) by {
            if scored_name_in(sort_desc(s), n) {
                if s[0].name == n {
                    assert(scored_name_in(s, n));
                } else {
                    assert(scored_name_in(rest, n));
                    let j = choose|j: int| 0 <= j < rest.len() && rest[j].name == n;
                    assert(s[j + 1].name == n);
                    assert(scored_name_in(s, n));
                }
            }
            if scored_name_in(s, n) {
                let i = choose|i: int| 0 <= i < s.len() && s[i].name == n;
                if i == 0 {
                    assert(scored_name_in(sort_desc(s), n));
                } else {
                    assert(rest[i - 1].name == n);
                    assert(scored_name_in(rest, n));
                    assert(scored_name_in(sort_desc(s), n));
                }
            }
        }
    }
}

proof fn lemma_sort_unique(s: Seq<ScoredView>)
    requires
        unique_scored_names(s),
    ensures
        unique_scored_names(sort_desc(s)),
    decreases s.len(),
{
    if s.len() > 0 {
        let rest = s.skip(1);
        assert forall|i: int, j: int| 0 <= i < j < rest.len() implies rest[i].name
            != rest[j].name by {
            assert(s[i + 1].name != s[j + 1].name);
        }
        lemma_sort_unique(rest);
        lemma_sort_names(rest);
        if scored_name_in(sort_desc(rest), s[0].name) {
            assert(scored_name_in(rest, s[0].name));
            let k = choose|k: int| 0 <= k < rest.len() && rest[k].name == s[0].name;
            assert(s[k + 1].name == s[0].name);
            assert(false);
        }
        lemma_insert_unique(s[0], sort_desc(rest));
    }
}

/// Uniqueness of names survives ranking: scoring keeps at most one
/// entry per candidate, sorting permutes, capping takes a prefix.
pub proof fn lemma_rank_unique_names(q: Seq<char>, cands: Seq<CandView>, cap: int)
    requires
        0 <= cap,
        unique_cand_names(cands),
    ensures
        unique_scored_names(rank_spec(q, cands, cap)),
{
    let t = trimmed(q);
    if t.len() != 0 {
        lemma_scored_unique(cands, t);
        lemma_sort_unique(scored_seq(cands, t));
        let sorted = sort_desc(scored_seq(cands, t));
        if sorted.len() > cap {
            assert(sorted.take(cap).len() == cap);
            assert forall|i: int, j: int| 0 <= i < j < sorted.take(cap).len() implies sorted.take(
                cap,
            )[i].name != sorted.take(cap)[j].name by {
                assert(sorted.take(cap)[i] == sorted[i]);
                assert(sorted.take(cap)[j] == sorted[j]);
                assert(sorted[i].name != sorted[j].name);
            }
        }
    }
}

/// A file-search result: kind from the extension table, no icon.
pub open spec fn file_result_of(sv: ScoredView) -> SearchResultView {
    SearchResultView {
        name: sv.name,
        path: sv.path,
        kind: classify_spec(sv.path),
        score: sv.score,
        icon: None,
    }
}

pub open spec fn search_files_spec(q: Seq<char>, cands: Seq<CandView>) -> Seq<SearchResultView> {
    Seq::new(rank_spec(q, cands, 100).len(), |i: int| file_result_of(rank_spec(q, cands, 100)[i]))
}

/// Rank the crawled candidates against the query, cap 100, and
/// classify each result by its extension.
pub fn search_files_from(query: &str, cands: &Vec<Candidate>) -> (r: Vec<SearchResult>)
    ensures
        result_views(r@) == search_files_spec(query@, cand_views(cands@)),
        r@.len() <= 100,
        results_sorted(result_views(r@)),
        trimmed(query@).len() == 0 ==> r@.len() == 0,
{
    let ranked = rank(query, cands, 100);
    let ghost rv = scored_views(ranked@);
    let ghost target = search_files_spec(query@, cand_views(cands@));
    let n = ranked.len();
    let mut out: Vec<SearchResult> = Vec::new();
    let mut i: usize = 0;
    while i < n
        invariant
            n == ranked@.len(),
            rv == scored_views(ranked@),
            rv == rank_spec(query@, cand_views(cands@), 100),
            target == search_files_spec(query@, cand_views(cands@)),
            0 <= i <= n,
            out@.len() == i,
            forall|k: int| 0 <= k < i ==> result_views(out@)[k] == target[k],
        decreases n - i,
    {
        let ghost prev = out@;
        let kind = classify(ranked[i].path.as_str());
        let sr = SearchResult {
            name: ranked[i].name.clone(),
            path: ranked[i].path.clone(),
            kind,
            score: ranked[i].score,
            icon: None,
        };
        out.push(sr);
        proof {
            assert(rv[i as int] == ranked@[i as int]@);
            assert(sr@ == file_result_of(rv[i as int]));
            assert forall|k: int| 0 <= k < i + 1 implies result_views(out@)[k] == target[k] by {
                assert(result_views(out@)[k] == out@[k]@);
                if k < i {
                    assert(out@[k] == prev[k]);
                    assert(result_views(prev)[k] == prev[k]@);
                }
            }
        }
        i = i + 1;
    }
    proof {
        assert(result_views(out@) =~= target);
        assert forall|a: int, b: int| 0 <= a <= b < out@.len() implies result_views(out@)[a].score
            >= result_views(out@)[b].score by {
            assert(target[a] == file_result_of(rv[a]));
            assert(target[b] == file_result_of(rv[b]));
        }
    }
    out
}

/// An executable-search result: kind is always App, icon from the
/// index entry bound to the result's name.
pub open spec fn exec_result_of(
    sv: ScoredView,
    idx: Seq<(Seq<char>, DesktopEntryView)>,
) -> SearchResultView {
    SearchResultView {
        name: sv.name,
        path: sv.path,
        kind: Kind::App,
        score: sv.score,
        icon: match entry_lookup(idx, sv.name) {
            Some(e) => e.icon,
            None => None,
        },
    }
}

pub open spec fn search_execs_spec(
    q: Seq<char>,
    cands: Seq<CandView>,
    idx: Seq<(Seq<char>, DesktopEntryView)>,
) -> Seq<SearchResultView> {
    let ranked = rank_spec(q, dedup_names(cands), 50);
    Seq::new(ranked.len(), |i: int| exec_result_of(ranked[i], idx))
}

fn clone_icon(o: &Option<String>) -> (r: Option<String>)
    ensures
        opt_str_view(r) == opt_str_view(*o),
{
    match o {
        Some(s) => Some(s.clone()),
        None => None,
    }
}

/// Executable search over candidates scanned in directory order:
/// deduplicate by name (first occurrence wins), rank with cap 50,
/// mark every result an application, and attach the indexed icon.
pub fn search_executables_from(query: &str, cands: &Vec<Candidate>, index: &DesktopIndex) -> (r:
    Vec<SearchResult>)
    ensures
        result_views(r@) == search_execs_spec(
            query@,
            cand_views(cands@),
            index_views(index.entries@),
        ),
        r@.len() <= 50,
        results_sorted(result_views(r@)),
        results_unique_names(result_views(r@)),
        trimmed(query@).len() == 0 ==> r@.len() == 0,
{
    let deduped = dedup_by_name(cands);
    let ranked = rank(query, &deduped, 50);
    let ghost rv = scored_views(ranked@);
    let ghost idx = index_views(index.entries@);
    let ghost target = search_execs_spec(query@, cand_views(cands@), idx);
    proof {
        lemma_dedup_props(cand_views(cands@));
        lemma_rank_unique_names(query@, dedup_names(cand_views(cands@)), 50);
    }
    let n = ranked.len();
    let mut out: Vec<SearchResult> = Vec::new();
    let mut i: usize = 0;
    while i < n
        invariant
            n == ranked@.len(),
            rv == scored_views(ranked@),
            rv == rank_spec(query@, dedup_names(cand_views(cands@)), 50),
            idx == index_views(index.entries@),
            target == search_execs_spec(query@, cand_views(cands@), idx),
            0 <= i <= n,
            out@.len() == i,
            forall|k: int| 0 <= k < i ==> result_views(out@)[k] == target[k],
        decreases n - i,
    {
        let ghost prev = out@;
        let icon = match index.lookup(ranked[i].name.as_str()) {
            Some(e) => clone_icon(&e.icon),
            None => None,
        };
        let sr = SearchResult {
            name: ranked[i].name.clone(),
            path: ranked[i].path.clone(),
            kind: Kind::App,
            score: ranked[i].score,
            icon,
        };
        out.push(sr);
        proof {
            assert(rv[i as int] == ranked@[i as int]@);
            assert(sr@ == exec_result_of(rv[i as int], idx));
            assert forall|k: int| 0 <= k < i + 1 implies result_views(out@)[k] == target[k] by {
                assert(result_views(out@)[k] == out@[k]@);
                if k < i {
                    assert(out@[k] == prev[k]);
                    assert(result_views(prev)[k] == prev[k]@);
                }
            }
        }
        i = i + 1;
    }
    proof {
        assert(result_views(out@) =~= target);
        assert forall|a: int, b: int| 0 <= a <= b < out@.len() implies result_views(out@)[a].score
            >= result_views(out@)[b].score by {
            assert(target[a] == exec_result_of(rv[a], idx));
            assert(target[b] == exec_result_of(rv[b], idx));
        }
        assert forall|a: int, b: int| 0 <= a < b < out@.len() implies result_views(out@)[a].name
            != result_views(out@)[b].name by {
            assert(target[a] == exec_result_of(rv[a], idx));
            assert(target[b] == exec_result_of(rv[b], idx));
        }
    }
    out
}

} // verus!
