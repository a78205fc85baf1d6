//! Application-metadata files: parsing Name=/Exec=/Icon= lines and the
//! exec-name index built from them, insert-if-absent in priority order.

use vstd::prelude::*;

use crate::icons::{icon_candidates_spec, resolve_icon};
use crate::strutil::{
    basename, basename_spec, eq_str, first_token, first_token_spec, split_on, split_on_char,
    str_starts_with, views_of_strings,
};

verus! {

/// One metadata file handed to the index builder: the file name's stem
/// and the file's text, in priority order of its directory.
pub struct DesktopFile {
    pub stem: String,
    pub content: String,
}

pub ghost struct DesktopFileView {
    pub stem: Seq<char>,
    pub content: Seq<char>,
}

impl View for DesktopFile {
    type V = DesktopFileView;

    open spec fn view(&self) -> DesktopFileView {
        DesktopFileView { stem: self.stem@, content: self.content@ }
    }
}

pub open spec fn file_views(s: Seq<DesktopFile>) -> Seq<DesktopFileView> {
    Seq::new(s.len(), |i: int| s[i]@)
}

pub open spec fn opt_str_view(o: Option<String>) -> Option<Seq<char>> {
    match o {
        Some(s) => Some(s@),
        None => None,
    }
}

/// What one parsed metadata file yields: the first Name= value (kept
/// but unused downstream), the first Exec= value's first token, and
/// the first Icon= value.
pub struct ParsedEntry {
    pub name: Option<String>,
    pub exec_name: String,
    pub icon: Option<String>,
}

pub ghost struct ParsedEntryView {
    pub name: Option<Seq<char>>,
    pub exec_name: Seq<char>,
    pub icon: Option<Seq<char>>,
}

impl View for ParsedEntry {
    type V = ParsedEntryView;

    open spec fn view(&self) -> ParsedEntryView {
        ParsedEntryView {
            name: opt_str_view(self.name),
            exec_name: self.exec_name@,
            icon: opt_str_view(self.icon),
        }
    }
}

/// The value after `prefix` on the first line that starts with it.
pub open spec fn value_of_prefixed(lines: Seq<Seq<char>>, prefix: Seq<char>) -> Option<Seq<char>>
    decreases lines.len(),
{
    if lines.len() == 0 {
        None
    } else if prefix.is_prefix_of(lines[0]) {
        Some(lines[0].skip(prefix.len() as int))
    } else {
        value_of_prefixed(lines.skip(1), prefix)
    }
}

fn find_prefixed(lines: &Vec<String>, prefix: &str) -> (r: Option<String>)
    ensures
        match r {
            Some(v) => value_of_prefixed(views_of_strings(lines@), prefix@) == Some(v@),
            None => value_of_prefixed(views_of_strings(lines@), prefix@) is None,
        },
{
    let ghost ls = views_of_strings(lines@);
    let n = lines.len();
    let mut i: usize = 0;
    proof {
        assert(ls.skip(0) =~= ls);
    }
    while i < n
        invariant
            n == lines@.len(),
            ls == views_of_strings(lines@),
            0 <= i <= n,
            value_of_prefixed(ls, prefix@) == value_of_prefixed(ls.skip(i as int), prefix@),
        decreases n - i,
    {
        proof {
            assert(ls.skip(i as int)[0] == ls[i as int]);
            assert(ls[i as int] == lines@[i as int]@);
        }
        if str_starts_with(lines[i].as_str(), prefix) {
            let li = lines[i].as_str();
            let plen = prefix.unicode_len();
            let llen = li.unicode_len();
            let v = li.substring_char(plen, llen).to_owned();
            proof {
                assert(li@.subrange(plen as int, llen as int) =~= li@.skip(plen as int));
            }
            return Some(v);
        }
        proof {
            assert(ls.skip(i as int).skip(1) =~= ls.skip(i + 1));
        }
        i = i + 1;
    }
    None
}

/// Parsing one metadata file: a file without an Exec= line yields
/// nothing; otherwise the Exec= value is cut at its first whitespace.
pub open spec fn parse_spec(content: Seq<char>) -> Option<ParsedEntryView> {
    let lines = split_on(content, '\n');
    match value_of_prefixed(lines, "Exec="@) {
        Some(v) => Some(
            ParsedEntryView {
                name: value_of_prefixed(lines, "Name="@),
                exec_name: first_token_spec(v),
                icon: value_of_prefixed(lines, "Icon="@),
            },
        ),
        None => None,
    }
}

pub fn parse_desktop(content: &str) -> (r: Option<ParsedEntry>)
    ensures
        match r {
            Some(pe) => parse_spec(content@) == Some(pe@),
            None => parse_spec(content@) is None,
        },
{
    let lines = split_on_char(content, '\n');
    match find_prefixed(&lines, "Exec=") {
        Some(v) => {
            let cmd = first_token(v.as_str());
            let name = find_prefixed(&lines, "Name=");
            let icon = find_prefixed(&lines, "Icon=");
            let pe = ParsedEntry { name, exec_name: cmd, icon };
            proof {
                let ls = views_of_strings(lines@);
                assert(parse_spec(content@) == Some(pe@));
            }
            Some(pe)
        },
        None => None,
    }
}

/// One application entry held by the index: the executable (the Exec=
/// value's first token) and the resolved icon path, when there is one.
pub struct DesktopEntry {
    pub exec_name: String,
    pub icon: Option<String>,
}

pub ghost struct DesktopEntryView {
    pub exec_name: Seq<char>,
    pub icon: Option<Seq<char>>,
}

impl View for DesktopEntry {
    type V = DesktopEntryView;

    open spec fn view(&self) -> DesktopEntryView {
        DesktopEntryView { exec_name: self.exec_name@, icon: opt_str_view(self.icon) }
    }
}

/// The exec-name index: an association list from key (executable base
/// name, or file stem) to entry; the first binding of a key wins.
pub struct DesktopIndex {
    pub entries: Vec<(String, DesktopEntry)>,
}

pub open spec fn index_views(s: Seq<(String, DesktopEntry)>) -> Seq<(Seq<char>, DesktopEntryView)> {
    Seq::new(s.len(), |i: int| (s[i].0@, s[i].1@))
}

/// The key/executable skeleton of an index, the part the filesystem
/// cannot influence.
pub open spec fn ke_of(s: Seq<(Seq<char>, DesktopEntryView)>) -> Seq<(Seq<char>, Seq<char>)> {
    Seq::new(s.len(), |i: int| (s[i].0, s[i].1.exec_name))
}

pub open spec fn ke_contains(s: Seq<(Seq<char>, Seq<char>)>, k: Seq<char>) -> bool {
    exists|i: int| 0 <= i < s.len() && s[i].0 == k
}

pub open spec fn ke_insert_absent(
    s: Seq<(Seq<char>, Seq<char>)>,
    k: Seq<char>,
    x: Seq<char>,
) -> Seq<(Seq<char>, Seq<char>)> {
    if ke_contains(s, k) {
        s
    } else {
        s.push((k, x))
    }
}

/// What one file adds to the skeleton: its entry under the executable's
/// base name, and, when different, under the file's own stem.
pub open spec fn add_file_ke(
    s: Seq<(Seq<char>, Seq<char>)>,
    f: DesktopFileView,
) -> Seq<(Seq<char>, Seq<char>)> {
    match parse_spec(f.content) {
        Some(pe) => {
            let k1 = basename_spec(pe.exec_name);
            let s1 = ke_insert_absent(s, k1, pe.exec_name);
            if f.stem == k1 {
                s1
            } else {
                ke_insert_absent(s1, f.stem, pe.exec_name)
            }
        },
        None => s,
    }
}

/// The skeleton the whole file list builds, files in priority order.
pub open spec fn index_ke_spec(files: Seq<DesktopFileView>) -> Seq<(Seq<char>, Seq<char>)>
    decreases files.len(),
{
    if files.len() == 0 {
        Seq::empty()
    } else {
        add_file_ke(index_ke_spec(files.drop_last()), files.last())
    }
}

/// An icon path is accounted for when some file's parsed token either
/// is that path or generates it as a probe candidate.
pub open spec fn icon_from_file(p: Seq<char>, content: Seq<char>, bases: Seq<Seq<char>>) -> bool {
    match parse_spec(content) {
        Some(pe) => match pe.icon {
            Some(tok) => p == tok || icon_candidates_spec(tok, bases).contains(p),
            None => false,
        },
        None => false,
    }
}

pub open spec fn icon_from_files(
    p: Seq<char>,
    files: Seq<DesktopFileView>,
    bases: Seq<Seq<char>>,
) -> bool {
    exists|j: int| 0 <= j < files.len() && icon_from_file(p, files[j].content, bases)
}

/// Every icon an index entry carries is accounted for by some file.
pub open spec fn entry_icon_ok(
    e: DesktopEntryView,
    files: Seq<DesktopFileView>,
    bases: Seq<Seq<char>>,
) -> bool {
    match e.icon {
        Some(q) => icon_from_files(q, files, bases),
        None => true,
    }
}

fn contains_key(entries: &Vec<(String, DesktopEntry)>, k: &str) -> (r: bool)
    ensures
        r == ke_contains(ke_of(index_views(entries@)), k@),
{
    let ghost s = ke_of(index_views(entries@));
    let n = entries.len();
    let mut i: usize = 0;
    while i < n
        invariant
            n == entries@.len(),
            s == ke_of(index_views(entries@)),
            s.len() == n,
            0 <= i <= n,
            forall|j: int| 0 <= j < i ==> s[j].0 != k@,
        decreases n - i,
    {
        proof {
            assert(s[i as int].0 == entries@[i as int].0@);
        }
        if eq_str(entries[i].0.as_str(), k) {
            return true;
        }
        i = i + 1;
    }
    false
}

fn clone_opt_string(o: &Option<String>) -> (r: Option<String>)
    ensures
        opt_str_view(r) == opt_str_view(*o),
{
    match o {
        Some(s) => Some(s.clone()),
        None => None,
    }
}

impl DesktopIndex {
    /// Build the index from metadata files given in priority order:
    /// each file's entry is bound, insert-if-absent, under its
    /// executable's base name and under the file's stem. A non-absolute
    /// icon token is resolved against the icon bases at once.
    pub fn build(files: &Vec<DesktopFile>, bases: &Vec<String>) -> (r: DesktopIndex)
        ensures
            ke_of(index_views(r.entries@)) == index_ke_spec(file_views(files@)),
            forall|i: int|
                0 <= i < r.entries@.len() ==> entry_icon_ok(
                    (#[trigger] r.entries@[i]).1@,
                    file_views(files@),
                    views_of_strings(bases@),
                ),
    {
        let ghost fv = file_views(files@);
        let n = files.len();
        let mut entries: Vec<(String, DesktopEntry)> = Vec::new();
        let mut i: usize = 0;
        proof {
            assert(fv.take(0) =~= Seq::<DesktopFileView>::empty());
            assert(ke_of(index_views(entries@)) =~= index_ke_spec(fv.take(0)));
        }
        while i < n
            invariant
                n == files@.len(),
                fv == file_views(files@),
                0 <= i <= n,
                ke_of(index_views(entries@)) == index_ke_spec(fv.take(i as int)),
                forall|p: int|
                    0 <= p < entries@.len() ==> entry_icon_ok(
                        (#[trigger] entries@[p]).1@,
                        fv,
                        views_of_strings(bases@),
                    ),
            decreases n - i,
        {
            let ghost before = ke_of(index_views(entries@));
            proof {
                assert(fv[i as int] == files@[i as int]@);
            }
            match parse_desktop(files[i].content.as_str()) {
                Some(pe) => {
                    let icon: Option<String> = match &pe.icon {
                        Some(tok) => {
                            if str_starts_with(tok.as_str(), "/") {
                                Some(tok.clone())
                            } else {
                                resolve_icon(tok.as_str(), bases)
                            }
                        },
                        None => None,
                    };
                    proof {
                        match opt_str_view(icon) {
                            Some(q) => {
                                assert(icon_from_file(q, fv[i as int].content, views_of_strings(
                                    bases@,
                                )));
                                assert(icon_from_files(q, fv, views_of_strings(bases@)));
                            },
                            None => {},
                        }
                    }
                    let k1 = basename(pe.exec_name.as_str());
                    if !contains_key(&entries, k1.as_str()) {
                        let e = DesktopEntry { exec_name: pe.exec_name.clone(), icon: clone_opt_string(&icon) };
                        let ghost prev = entries@;
                        entries.push((k1.clone(), e));
                        proof {
                            assert(ke_of(index_views(entries@)) =~= before.push(
                                (k1@, pe.exec_name@),
                            ));
                            assert(entry_icon_ok(e@, fv, views_of_strings(bases@)));
                            assert forall|p: int| 0 <= p < entries@.len() implies entry_icon_ok(
                                (#[trigger] entries@[p]).1@,
                                fv,
                                views_of_strings(bases@),
                            ) by {
                                if p < prev.len() {
                                    assert(entries@[p] == prev[p]);
                                }
                            }
                        }
                    }
                    let ghost mid = ke_of(index_views(entries@));
                    let k2 = &files[i].stem;
                    if !eq_str(k2.as_str(), k1.as_str()) {
                        if !contains_key(&entries, k2.as_str()) {
                            let e2 = DesktopEntry {
                                exec_name: pe.exec_name.clone(),
                                icon: clone_opt_string(&icon),
                            };
                            let ghost prev2 = entries@;
                            entries.push((k2.clone(), e2));
                            proof {
                                assert(ke_of(index_views(entries@)) =~= mid.push(
                                    (k2@, pe.exec_name@),
                                ));
                                assert(entry_icon_ok(e2@, fv, views_of_strings(bases@)));
                                assert forall|p: int| 0 <= p < entries@.len() implies entry_icon_ok(
                                    (#[trigger] entries@[p]).1@,
                                    fv,
                                    views_of_strings(bases@),
                                ) by {
                                    if p < prev2.len() {
                                        assert(entries@[p] == prev2[p]);
                                    }
                                }
                            }
                        }
                    }
                },
                None => {},
            }
            proof {
                assert(fv.take(i + 1).drop_last() =~= fv.take(i as int));
                assert(fv.take(i + 1).last() == fv[i as int]);
                assert(index_ke_spec(fv.take(i + 1)) == add_file_ke(
                    index_ke_spec(fv.take(i as int)),
                    fv[i as int],
                ));
            }
            i = i + 1;
        }
        proof {
            assert(fv.take(n as int) =~= fv);
        }
        DesktopIndex { entries }
    }

    /// Look a key up; with insert-if-absent the first binding is the
    /// only one.
    pub fn lookup<'a>(&'a self, key: &str) -> (r: Option<&'a DesktopEntry>)
        ensures
            match r {
                Some(e) => entry_lookup(index_views(self.entries@), key@) == Some(e@),
                None => entry_lookup(index_views(self.entries@), key@) is None,
            },
    {
        let ghost s = index_views(self.entries@);
        let n = self.entries.len();
        let mut i: usize = 0;
        proof {
            assert(s.skip(0) =~= s);
        }
        while i < n
            invariant
                n == self.entries@.len(),
                s == index_views(self.entries@),
                0 <= i <= n,
                entry_lookup(s, key@) == entry_lookup(s.skip(i as int), key@),
            decreases n - i,
        {
            proof {
                assert(s.skip(i as int)[0] == s[i as int]);
                assert(s[i as int] == (self.entries@[i as int].0@, self.entries@[i as int].1@));
            }
            if eq_str(self.entries[i].0.as_str(), key) {
                return Some(&self.entries[i].1);
            }
            proof {
                assert(s.skip(i as int).skip(1) =~= s.skip(i + 1));
            }
            i = i + 1;
        }
        None
    }
}

/// First binding of a key in the index, at the entry level.
pub open spec fn entry_lookup(
    s: Seq<(Seq<char>, DesktopEntryView)>,
    k: Seq<char>,
) -> Option<DesktopEntryView>
    decreases s.len(),
{
    if s.len() == 0 {
        None
    } else if s[0].0 == k {
        Some(s[0].1)
    } else {
        entry_lookup(s.skip(1), k)
    }
}

/// First binding of a key in a skeleton.
pub open spec fn ke_lookup(s: Seq<(Seq<char>, Seq<char>)>, k: Seq<char>) -> Option<Seq<char>>
    decreases s.len(),
{
    if s.len() == 0 {
        None
    } else if s[0].0 == k {
        Some(s[0].1)
    } else {
        ke_lookup(s.skip(1), k)
    }
}

proof fn lemma_ke_lookup_push(s: Seq<(Seq<char>, Seq<char>)>, p: (Seq<char>, Seq<char>), k: Seq<char>)
    requires
        ke_lookup(s, k) is Some,
    ensures
        ke_lookup(s.push(p), k) == ke_lookup(s, k),
    decreases s.len(),
{
    if s.len() > 0 {
        if s[0].0 == k {
            assert(s.push(p)[0] == s[0]);
        } else {
            lemma_ke_lookup_push(s.skip(1), p, k);
            assert(s.push(p).skip(1) =~= s.skip(1).push(p));
        }
    }
}

proof fn lemma_add_file_keeps_binding(s: Seq<(Seq<char>, Seq<char>)>, f: DesktopFileView, k: Seq<char>)
    requires
        ke_lookup(s, k) is Some,
    ensures
        ke_lookup(add_file_ke(s, f), k) == ke_lookup(s, k),
{
    match parse_spec(f.content) {
        Some(pe) => {
            let k1 = basename_spec(pe.exec_name);
            let s1 = ke_insert_absent(s, k1, pe.exec_name);
            if !ke_contains(s, k1) {
                lemma_ke_lookup_push(s, (k1, pe.exec_name), k);
            }
            if f.stem != k1 {
                if !ke_contains(s1, f.stem) {
                    lemma_ke_lookup_push(s1, (f.stem, pe.exec_name), k);
                }
            }
        },
        None => {},
    }
}

/// The priority law: once some prefix of the file list, scanned in
/// priority order, binds a key, no later file changes that binding.
pub proof fn lemma_earlier_file_wins(files: Seq<DesktopFileView>, n: int, k: Seq<char>)
    requires
        0 <= n <= files.len(),
        ke_lookup(index_ke_spec(files.take(n)), k) is Some,
    ensures
        ke_lookup(index_ke_spec(files), k) == ke_lookup(index_ke_spec(files.take(n)), k),
    decreases files.len(),
{
    if n == files.len() {
        assert(files.take(n) =~= files);
    } else {
        assert(files.drop_last().take(n) =~= files.take(n));
        lemma_earlier_file_wins(files.drop_last(), n, k);
        lemma_add_file_keeps_binding(index_ke_spec(files.drop_last()), files.last(), k);
    }
}

} // verus!
