//! Ranking, search operations, the desktop-entry index, icon
//! candidates and root derivation.

use launchkit::desktop::{parse_desktop, DesktopFile, DesktopIndex};
use launchkit::icons::{icon_bases, icon_candidates, resolve_icon};
use launchkit::kind::Kind;
use launchkit::rank::Candidate;
use launchkit::roots::{desktop_dirs, path_entries, search_roots};
use launchkit::search::{search_executables_from, search_files_from, SearchResult};

fn cand(name: &str, path: &str) -> Candidate {
    Candidate { name: name.to_string(), path: path.to_string() }
}

fn empty_index() -> DesktopIndex {
    DesktopIndex::build(&Vec::new(), &Vec::new())
}

#[test]
fn blank_query_finds_nothing() {
    let cands = vec![cand("firefox", "/usr/bin/firefox")];
    assert!(search_files_from("", &cands).is_empty());
    assert!(search_files_from("   \t ", &cands).is_empty());
    let idx = empty_index();
    assert!(search_executables_from("", &cands, &idx).is_empty());
    assert!(search_executables_from(" \n ", &cands, &idx).is_empty());
}

#[test]
fn file_search_caps_at_one_hundred() {
    let mut cands: Vec<Candidate> = Vec::new();
    for i in 0..150 {
        cands.push(cand("match", &format!("/tmp/match{}", i)));
    }
    let r = search_files_from("match", &cands);
    assert_eq!(r.len(), 100);
}

#[test]
fn executable_search_caps_at_fifty() {
    let mut cands: Vec<Candidate> = Vec::new();
    for i in 0..80 {
        cands.push(cand(&format!("match{}", i), &format!("/usr/bin/match{}", i)));
    }
    let idx = empty_index();
    let r = search_executables_from("match", &cands, &idx);
    assert_eq!(r.len(), 50);
}

#[test]
fn scores_never_increase() {
    let cands = vec![
        cand("firefox", "/usr/bin/firefox"),
        cand("zzzz", "/usr/bin/zzzz"),
        cand("fire", "/usr/bin/fire"),
        cand("x-fire-y", "/usr/bin/x-fire-y"),
        cand("Firefox Browser.desktop", "/usr/share/applications/firefox.desktop"),
    ];
    let r = search_files_from("fire", &cands);
    assert!(r.len() >= 2);
    for w in r.windows(2) {
        assert!(w[0].score >= w[1].score);
    }
    for sr in &r {
        assert_ne!(sr.name.as_str(), "zzzz");
    }
}

#[test]
fn non_matching_candidates_are_excluded() {
    let cands = vec![cand("firefox", "/usr/bin/firefox"), cand("gimp", "/usr/bin/gimp")];
    let r = search_files_from("firefox", &cands);
    assert_eq!(r.len(), 1);
    assert_eq!(r[0].name.as_str(), "firefox");
    assert_eq!(r[0].path.as_str(), "/usr/bin/firefox");
    assert!(r[0].score > 0);
    assert!(r[0].icon.is_none());
}

#[test]
fn equal_scores_keep_input_order() {
    let cands = vec![cand("abc", "/first/abc"), cand("abc", "/second/abc")];
    let r = search_files_from("abc", &cands);
    assert_eq!(r.len(), 2);
    assert_eq!(r[0].score, r[1].score);
    assert_eq!(r[0].path.as_str(), "/first/abc");
    assert_eq!(r[1].path.as_str(), "/second/abc");
}

#[test]
fn file_search_classifies_kinds() {
    let cands = vec![cand("notes.txt", "/home/u/notes.txt")];
    let r = search_files_from("notes", &cands);
    assert_eq!(r.len(), 1);
    assert_eq!(r[0].kind, Kind::Text);
}

#[test]
fn executable_results_are_unique_by_name() {
    let cands = vec![
        cand("firefox", "/usr/bin/firefox"),
        cand("firefox", "/snap/bin/firefox"),
        cand("firefly", "/usr/bin/firefly"),
    ];
    let idx = empty_index();
    let r = search_executables_from("fire", &cands, &idx);
    for i in 0..r.len() {
        for j in (i + 1)..r.len() {
            assert_ne!(r[i].name.as_str(), r[j].name.as_str());
        }
    }
    let fox: Vec<&SearchResult> = r.iter().filter(|s| s.name.as_str() == "firefox").collect();
    assert_eq!(fox.len(), 1);
    assert_eq!(fox[0].path.as_str(), "/usr/bin/firefox");
    assert_eq!(fox[0].kind, Kind::App);
}

#[test]
fn parse_desktop_fields() {
    let content = "Name=Firefox\nComment=Browse\nExec=firefox %u\nIcon=firefox\n";
    let pe = parse_desktop(content).unwrap();
    assert_eq!(pe.name.unwrap().as_str(), "Firefox");
    assert_eq!(pe.exec_name.as_str(), "firefox");
    assert_eq!(pe.icon.unwrap().as_str(), "firefox");
}

#[test]
fn parse_desktop_without_exec_is_dropped() {
    assert!(parse_desktop("Name=Broken\nIcon=broken\n").is_none());
}

#[test]
fn parse_desktop_strips_exec_arguments() {
    let pe = parse_desktop("Exec=/opt/app/run --flag %F\n").unwrap();
    assert_eq!(pe.exec_name.as_str(), "/opt/app/run");
    assert!(pe.name.is_none());
    assert!(pe.icon.is_none());
}

#[test]
fn first_metadata_file_wins() {
    let files = vec![
        DesktopFile {
            stem: "user-foo".to_string(),
            content: "Exec=foo\nIcon=/icons/user.png\n".to_string(),
        },
        DesktopFile {
            stem: "system-foo".to_string(),
            content: "Exec=foo\nIcon=/icons/system.png\n".to_string(),
        },
    ];
    let idx = DesktopIndex::build(&files, &Vec::new());
    let e = idx.lookup("foo").unwrap();
    assert_eq!(e.exec_name.as_str(), "foo");
    assert_eq!(e.icon.as_ref().unwrap().as_str(), "/icons/user.png");
    let under_stem = idx.lookup("user-foo").unwrap();
    assert_eq!(under_stem.exec_name.as_str(), "foo");
}

#[test]
fn index_keys_exec_basename_and_stem() {
    let files = vec![
        DesktopFile {
            stem: "org.app.Editor".to_string(),
            content: "Exec=/usr/bin/editor --new\n".to_string(),
        },
    ];
    let idx = DesktopIndex::build(&files, &Vec::new());
    assert!(idx.lookup("editor").is_some());
    assert!(idx.lookup("org.app.Editor").is_some());
    assert!(idx.lookup("missing").is_none());
}

#[test]
fn executable_search_attaches_indexed_icon() {
    let files = vec![
        DesktopFile {
            stem: "firefox".to_string(),
            content: "Exec=firefox\nIcon=/icons/firefox.png\n".to_string(),
        },
    ];
    let idx = DesktopIndex::build(&files, &Vec::new());
    let cands = vec![cand("firefox", "/usr/bin/firefox")];
    let r = search_executables_from("firefox", &cands, &idx);
    assert_eq!(r.len(), 1);
    assert_eq!(r[0].icon.as_ref().unwrap().as_str(), "/icons/firefox.png");
}

#[test]
fn icon_candidates_theme_order() {
    let bases = vec!["/theme".to_string()];
    let c = icon_candidates("firefox", &bases);
    assert_eq!(c[0].as_str(), "/theme/firefox.png");
    assert_eq!(c[1].as_str(), "/theme/firefox.svg");
    assert_eq!(c[2].as_str(), "/theme/firefox.xpm");
    assert_eq!(c[3].as_str(), "/theme/128x128/apps/firefox.png");
    assert_eq!(c[4].as_str(), "/theme/128x128/firefox.png");
    assert_eq!(c.len(), 3 + 36);
    assert!(c.iter().any(|p| p.as_str() == "/theme/scalable/apps/firefox.svg"));
    assert!(c.iter().any(|p| p.as_str() == "/theme/32x32/firefox.xpm"));
}

#[test]
fn resolve_icon_none_when_nothing_matches() {
    let bases = vec!["/nonexistent-theme-dir-for-tests".to_string()];
    assert!(resolve_icon("no-such-icon-name", &bases).is_none());
    assert!(resolve_icon("/absolute/missing/icon.png", &Vec::new()).is_none());
}

#[test]
fn icon_bases_user_first() {
    let b = icon_bases(&Some("/home/u".to_string()));
    assert_eq!(b[0].as_str(), "/home/u/.local/share/icons");
    assert_eq!(b[1].as_str(), "/home/u/.icons");
    assert_eq!(b[2].as_str(), "/usr/share/pixmaps");
    let no_home = icon_bases(&None);
    assert_eq!(no_home[0].as_str(), "/usr/share/pixmaps");
    assert_eq!(no_home.len(), 3);
}

#[test]
fn search_roots_home_derived() {
    let r = search_roots(&Some("/home/u".to_string()));
    assert_eq!(r[0].as_str(), "/home/u");
    assert_eq!(r[1].as_str(), "/usr/share/applications");
    assert!(r.iter().any(|p| p.as_str() == "/home/u/Desktop"));
    assert!(r.iter().any(|p| p.as_str() == "/home/u/Downloads"));
    assert!(r.iter().any(|p| p.as_str() == "/home/u/Documents"));
    let bare = search_roots(&None);
    assert_eq!(bare.len(), 4);
    assert_eq!(bare[0].as_str(), "/usr/share/applications");
}

#[test]
fn desktop_dirs_priority_order() {
    let d = desktop_dirs(&Some("/home/u".to_string()));
    assert_eq!(d[0].as_str(), "/home/u/.local/share/applications");
    assert_eq!(d[1].as_str(), "/var/lib/snapd/desktop/applications");
    assert_eq!(d[2].as_str(), "/usr/share/applications");
    let bare = desktop_dirs(&None);
    assert_eq!(bare[0].as_str(), "/var/lib/snapd/desktop/applications");
}

#[test]
fn path_entries_split_and_drop_empty() {
    let e = path_entries("/usr/bin::/bin:/snap/bin:");
    assert_eq!(e.len(), 3);
    assert_eq!(e[0].as_str(), "/usr/bin");
    assert_eq!(e[1].as_str(), "/bin");
    assert_eq!(e[2].as_str(), "/snap/bin");
    assert!(path_entries("").is_empty());
}


#[test]
fn empty_candidate_list_yields_nothing() {
    let none: Vec<Candidate> = Vec::new();
    assert!(search_files_from("query", &none).is_empty());
    assert!(search_executables_from("query", &none, &empty_index()).is_empty());
}

#[test]
fn malformed_metadata_is_skipped_in_build() {
    let files = vec![
        DesktopFile { stem: "broken".to_string(), content: "Name=NoExecHere\n".to_string() },
        DesktopFile { stem: "good".to_string(), content: "Exec=good-app\n".to_string() },
    ];
    let idx = DesktopIndex::build(&files, &Vec::new());
    assert!(idx.lookup("broken").is_none());
    assert!(idx.lookup("good-app").is_some());
    assert!(idx.lookup("good").is_some());
}
