use std::path::Path;
use subagents::sorting::{name_less, sort_by_name};
use subagents::definition::{SubAgentDefinition, SubAgentMode};
use subagents::discovery::{
    default_subagents_dir, discover_subagents, discover_subagents_in, load_definition,
    subagent_name, subagent_search_roots, DirectoryEntry, DirectoryListing,
    CONFIG_DIR, SUBAGENTS_DIR,
};

fn file(file_name: &str, content: &[u8]) -> DirectoryEntry {
    DirectoryEntry { file_name: file_name.to_string(), is_file: true, content: Some(content.to_vec()) }
}

fn directory(file_name: &str) -> DirectoryEntry {
    DirectoryEntry { file_name: file_name.to_string(), is_file: false, content: None }
}

fn listing(dir: &str, entries: Vec<DirectoryEntry>) -> DirectoryListing {
    DirectoryListing { dir: dir.to_string(), entries }
}

fn names(found: &[SubAgentDefinition]) -> Vec<String> {
    found.iter().map(|d| d.name.clone()).collect()
}

fn joined(base: &str, part: &str) -> String {
    Path::new(base).join(part).to_string_lossy().into_owned()
}

#[test]
fn empty_when_dir_missing() {
    let missing = listing(&joined("/tmp/x", "nope"), Vec::new());
    let found = discover_subagents_in(&missing);
    assert!(found.is_empty());
}

#[test]
fn discovers_and_sorts_files() {
    let dir = listing("/tmp/x", vec![file("b.md", b"b"), file("a.md", b"a"), directory("subdir")]);
    let found = discover_subagents_in(&dir);
    let names: Vec<String> = found.into_iter().map(|e| e.name).collect();
    assert_eq!(names, vec!["a", "b"]);
}

#[test]
fn skips_non_utf8_files() {
    let dir = listing(
        "/tmp/x",
        vec![file("good.md", b"hello"), file("bad.md", &[0xFF, 0xFE, b'\n'])],
    );
    let found = discover_subagents_in(&dir);
    let names: Vec<String> = found.into_iter().map(|e| e.name).collect();
    assert_eq!(names, vec!["good"]);
}

#[test]
fn discover_subagents_uses_home_and_repo_roots_with_priority() {
    let codex_home = "/tmp/x/home";
    let repo_root = "/tmp/x/repo";
    let roots = subagent_search_roots(Some(repo_root), Some(codex_home));
    assert_eq!(roots.len(), 2);
    let repo_subagents = joined(&joined(repo_root, CONFIG_DIR), SUBAGENTS_DIR);
    let home_subagents = joined(codex_home, SUBAGENTS_DIR);
    assert_eq!(roots, vec![repo_subagents.clone(), home_subagents.clone()]);

    let repo = listing(
        &roots[0],
        vec![file("repo_only.md", b"repo"), file("shared.md", b"repo shared")],
    );
    let home = listing(
        &roots[1],
        vec![file("home_only.md", b"home"), file("shared.md", b"home shared")],
    );

    let subagents = discover_subagents(&vec![repo, home]);
    let names: Vec<String> = subagents.iter().map(|p| p.name.clone()).collect();
    assert_eq!(names, vec!["home_only", "repo_only", "shared"]);

    let shared = subagents
        .into_iter()
        .find(|p| p.name == "shared")
        .expect("shared subagent present");
    assert_eq!(shared.system_prompt, "repo shared");
    assert_eq!(shared.path, joined(&repo_subagents, "shared.md"));
}

#[test]
fn search_roots_list_the_project_before_the_home() {
    let project = joined(&joined("/work/repo", ".codex"), "subagents");
    let home = joined("/home/u/.codex", "subagents");
    assert!(project.ends_with("subagents") && project.contains(".codex"));
    assert_ne!(project, "/work/repo");
    assert_eq!(
        subagent_search_roots(Some("/work/repo"), Some("/home/u/.codex")),
        vec![project.clone(), home.clone()]
    );
    assert_eq!(subagent_search_roots(Some("/work/repo"), None), vec![project]);
    assert_eq!(subagent_search_roots(None, Some("/home/u/.codex")), vec![home]);
    assert!(subagent_search_roots(None, None).is_empty());
}

#[test]
fn default_dir_is_subagents_under_the_home() {
    let expected = joined("/home/u/.codex", "subagents");
    assert_ne!(expected, "/home/u/.codex");
    assert_eq!(default_subagents_dir(Some("/home/u/.codex")), Some(expected));
    assert_eq!(default_subagents_dir(None), None);
}

#[test]
fn subagent_name_agrees_with_std_paths() {
    let file_names = [
        "a.md", "a.MD", "a.Md", "a.mD", "b.txt", "md", ".md", "..md", "a.b.md", "a.md.bak", "a.",
        "a", "", "a.mdx", "a.m", "x.md ", " .md", "r\u{e9}sum\u{e9}.md", "\u{1f600}.MD", "a..md",
        ".hidden.md",
    ];
    for file_name in file_names {
        let path = Path::new(file_name);
        let is_md = path
            .extension()
            .and_then(|s| s.to_str())
            .map(|ext| ext.eq_ignore_ascii_case("md"))
            .unwrap_or(false);
        let expected = if is_md {
            path.file_stem().and_then(|s| s.to_str()).map(str::to_string)
        } else {
            None
        };
        assert_eq!(subagent_name(file_name), expected, "file name {file_name:?}");
    }
    assert_eq!(subagent_name("planner.md"), Some("planner".to_string()));
    assert_eq!(subagent_name("notes.txt"), None);
}

#[test]
fn entries_that_are_no_readable_documents_are_skipped() {
    let dir = listing(
        "/d",
        vec![
            directory("dir.md"),
            file("notes.txt", b"text"),
            file(".md", b"no name"),
            DirectoryEntry { file_name: "unreadable.md".to_string(), is_file: true, content: None },
            file("truncated.md", &[b'a', 0xE2, 0x82]),
            file("kept.MD", b"kept"),
        ],
    );
    assert_eq!(names(&discover_subagents_in(&dir)), vec!["kept"]);
}

#[test]
fn definition_carries_the_parsed_document() {
    let content = "---\ndescription: Plans work\ntools_allowed: read, grep\ntools_blocked: write\nmode: read-only\n---\nYou plan.\r\n";
    let entry = file("planner.md", content.as_bytes());
    let definition = load_definition("/agents", &entry).expect("a definition");
    assert_eq!(definition.name, "planner");
    assert_eq!(definition.path, joined("/agents", "planner.md"));
    assert_ne!(definition.path, "/agents");
    assert_eq!(definition.system_prompt, "You plan.\r\n");
    assert_eq!(definition.description.as_deref(), Some("Plans work"));
    assert_eq!(definition.tools_allowed, vec!["read", "grep"]);
    assert_eq!(definition.tools_blocked, vec!["write"]);
    assert_eq!(definition.mode, Some(SubAgentMode::ReadOnly));
}

#[test]
fn content_is_decoded_as_utf8() {
    let entry = file("a.md", "h\u{e9}llo \u{1f600}".as_bytes());
    let definition = load_definition("/d", &entry).expect("a definition");
    assert_eq!(definition.system_prompt, "h\u{e9}llo \u{1f600}");
    assert_eq!(definition.system_prompt.chars().count(), 7);
    for bad in [&[0xC0, 0x80][..], &[0xED, 0xA0, 0x80][..], &[0xF4, 0x90, 0x80, 0x80][..], &[0x80][..]] {
        assert!(load_definition("/d", &file("a.md", bad)).is_none());
    }
}

#[test]
fn names_sort_in_ordinal_order() {
    let dir = listing(
        "/d",
        vec![
            file("b.md", b""),
            file("B.md", b""),
            file("a10.md", b""),
            file("a2.md", b""),
            file("\u{e9}.md", b""),
            file("z.md", b""),
            file("ab.md", b""),
            file("a.md", b""),
        ],
    );
    let found = names(&discover_subagents_in(&dir));
    assert_eq!(found, vec!["B", "a", "a10", "a2", "ab", "b", "z", "\u{e9}"]);
    let mut expected = found.clone();
    expected.sort();
    assert_eq!(found, expected);
}

#[test]
fn name_less_agrees_with_std_order() {
    let samples = ["", "a", "A", "ab", "b", "a\u{e9}", "\u{e9}", "\u{1f600}", "\u{ffff}", "z", "aa"];
    for a in samples {
        for b in samples {
            assert_eq!(name_less(a, b), a < b, "{a:?} < {b:?}");
        }
    }
}

#[test]
fn equal_names_keep_their_listing_order() {
    let dir = listing("/d", vec![file("a.md", b"lower"), file("b.md", b"b"), file("a.MD", b"upper")]);
    let found = discover_subagents_in(&dir);
    assert_eq!(names(&found), vec!["a", "a", "b"]);
    assert_eq!(found[0].system_prompt, "lower");
    assert_eq!(found[1].system_prompt, "upper");
}

#[test]
fn sort_by_name_sorts_and_keeps_every_definition() {
    let unsorted: Vec<SubAgentDefinition> = ["m", "c", "x", "a", "c"]
        .iter()
        .enumerate()
        .map(|(i, name)| SubAgentDefinition {
            name: name.to_string(),
            path: format!("/d/{i}"),
            system_prompt: String::new(),
            description: None,
            tools_allowed: Vec::new(),
            tools_blocked: Vec::new(),
            mode: None,
        })
        .collect();
    let sorted = sort_by_name(unsorted);
    assert_eq!(names(&sorted), vec!["a", "c", "c", "m", "x"]);
    let paths: Vec<String> = sorted.iter().map(|d| d.path.clone()).collect();
    assert_eq!(paths, vec!["/d/3", "/d/1", "/d/4", "/d/0", "/d/2"]);
}

#[test]
fn first_root_wins_for_every_shared_name() {
    let first = listing("/1", vec![file("x.md", b"one"), file("y.md", b"one")]);
    let second = listing("/2", vec![file("y.md", b"two"), file("z.md", b"two")]);
    let third = listing("/3", vec![file("z.md", b"three"), file("x.md", b"three"), file("w.md", b"three")]);
    let found = discover_subagents(&vec![first, second, third]);
    assert_eq!(names(&found), vec!["w", "x", "y", "z"]);
    let prompts: Vec<String> = found.iter().map(|d| d.system_prompt.clone()).collect();
    assert_eq!(prompts, vec!["three", "one", "one", "two"]);
}

#[test]
fn discovery_without_roots_is_empty() {
    assert!(discover_subagents(&Vec::new()).is_empty());
    assert!(discover_subagents(&vec![listing("/1", Vec::new()), listing("/2", Vec::new())]).is_empty());
}

#[test]
fn definition_can_be_cloned() {
    let entry = file("a.md", b"---\ndescription: d\ntools_allowed: t\n---\nbody");
    let definition = load_definition("/d", &entry).expect("a definition");
    let copy = definition.clone();
    assert_eq!(copy.name, definition.name);
    assert_eq!(copy.path, definition.path);
    assert_eq!(copy.system_prompt, "body");
    assert_eq!(copy.description.as_deref(), Some("d"));
    assert_eq!(copy.tools_allowed, vec!["t"]);
    assert!(copy.tools_blocked.is_empty());
    assert_eq!(copy.mode, None);
}
