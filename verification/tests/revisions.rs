use ordo::args::{unknown_revision, unresolved};
use ordo::filter::{build_globs, Filter, Ledger};
use ordo::git::{
    attribute_query, blob_specs, declared_generated, gather_range, gather_uncommitted, gather_worktree_range,
    git_cat_file_batch, parent_of, path_lines, range_specs, resolve, resolve_range, review_commit_sha,
    uncommitted_paths, workspace_change_paths, worktree_paths, Ask, BytesRead, Finding, Target, EMPTY_TREE,
};
use ordo::rules::FileRead;
use ordo::textmap::TextMap;

fn lines(v: &[&str]) -> Vec<String> {
    v.iter().map(|s| s.to_string()).collect()
}

const MAIN: &str = "1111111111111111111111111111111111111111";
const HEAD: &str = "2222222222222222222222222222222222222222";
const FORK: &str = "3333333333333333333333333333333333333333";

fn answer(ask: &Ask) -> String {
    let reply = match ask {
        Ask::Commit(r) if r == "main" || r == MAIN => MAIN,
        Ask::Commit(r) if r == "HEAD" || r == HEAD => HEAD,
        Ask::MergeBase(..) => FORK,
        Ask::Parent(_) => "",
        Ask::Workspace => "",
        _ => "",
    };
    format!("{reply}\n")
}

fn settle(first: impl Fn(&[String]) -> Finding) -> Option<Target> {
    let mut replies: Vec<String> = vec![];
    loop {
        match first(&replies) {
            Finding::Found(t) => return Some(t),
            Finding::Unknown => return None,
            Finding::Ask(a) => replies.push(answer(&a)),
        }
        assert!(replies.len() < 4, "three replies settle a revision");
    }
}

fn resolved(arg: &str) -> Option<Target> {
    settle(|r| resolve(arg, r))
}

#[test]
fn base_dotdot_zz_resolves_to_a_worktree_range_at_base() {
    match resolved("main..zz") {
        Some(Target::WorktreeRange(b)) => assert_eq!(b, MAIN),
        _ => panic!("expected a WorktreeRange at main"),
    }
}

#[test]
fn base_dotdotdot_zz_resolves_to_the_merge_base_with_head() {
    match resolved("main...zz") {
        Some(Target::WorktreeRange(b)) => assert_eq!(b, FORK),
        _ => panic!("expected a WorktreeRange at the merge base"),
    }
}

#[test]
fn zz_on_the_left_is_rejected() {
    assert!(settle(|r| resolve_range("zz..main", r)).is_none());
    assert!(settle(|r| resolve_range("zz...main", r)).is_none());
    assert!(resolved("zz..main").is_none());
}

#[test]
fn plain_zz_is_unchanged() {
    assert!(matches!(resolved("zz"), Some(Target::Uncommitted)));
}

#[test]
fn ordinary_commit_range_is_unchanged() {
    match resolved("main..HEAD") {
        Some(Target::Range(_, tip)) => assert_eq!(tip, HEAD),
        _ => panic!("expected a plain commit Range"),
    }
}

#[test]
fn e_command_rejects_an_unresolvable_revision() {
    assert!(resolved("not-a-real-rev-xyzzy-12345").is_none());
    assert!(unknown_revision("not-a-real-rev-xyzzy-12345").contains("not-a-real-rev-xyzzy-12345"));
    assert_eq!(
        unresolved("x"),
        "ordo: 'x' is not a git revision, a commit range or a GitButler CLI ID (see `but status`)"
    );
}

#[test]
fn e_command_resolves_head_to_a_reload_outcome() {
    assert!(matches!(resolved("HEAD"), Some(Target::Commit(c)) if c == HEAD));
}

#[test]
fn a_side_that_is_left_out_is_the_present_commit() {
    assert!(matches!(resolved("main.."), Some(Target::Range(b, t)) if b == MAIN && t == HEAD));
    assert!(matches!(resolved("main...HEAD"), Some(Target::Range(b, t)) if b == FORK && t == HEAD));
    assert!(resolved("a..b..c").is_none());
}

#[test]
fn a_branch_of_the_workspace_is_reviewed_from_its_first_commit() {
    let status = "{\"stacks\":[{\"branches\":[{\"cliId\":\"b1\",\"commits\":[{\"cliId\":\"c2\",\"commitId\":\"tip\"},{\"cliId\":\"c1\",\"commitId\":\"old\"}]}]}]}";
    let replies = vec![status.to_string()];
    match resolve("b1", &replies) {
        Finding::Ask(Ask::Parent(c)) => assert_eq!(c, "old"),
        _ => panic!("expected the parent of the branch's first commit to be asked for"),
    }
    let replies = vec![status.to_string(), format!("{FORK}\n")];
    assert!(matches!(resolve("b1", &replies), Finding::Found(Target::Range(b, t)) if b == FORK && t == "tip"));
}

#[test]
fn a_commit_without_a_parent_is_compared_with_the_empty_tree() {
    assert_eq!(parent_of(""), EMPTY_TREE);
    assert_eq!(parent_of("abc\n"), "abc");
}

#[test]
fn a_review_belongs_to_the_commit_at_its_end() {
    assert_eq!(review_commit_sha(&Target::Commit("c".to_string()), HEAD), Some("c".to_string()));
    assert_eq!(
        review_commit_sha(&Target::Range("a".to_string(), "b".to_string()), HEAD),
        Some("b".to_string())
    );
    assert_eq!(review_commit_sha(&Target::Uncommitted, "\n"), None);
    assert_eq!(review_commit_sha(&Target::Uncommitted, "abc\n"), Some("abc".to_string()));
    assert!(Target::Uncommitted.is_worktree());
    assert!(!Target::Commit("c".to_string()).is_worktree());
}

#[test]
fn a_batch_is_read_blob_by_blob() {
    let specs = lines(&["HEAD:a.rs", "HEAD:gone.rs", "HEAD:b.rs"]);
    let reply = b"0123 blob 6\nfn a()\nHEAD:gone.rs missing\n4567 blob 3\nb\xff\n\n";
    let got = git_cat_file_batch(&specs, reply);
    assert_eq!(got.get("HEAD:a.rs").map(String::as_str), Some("fn a()"));
    assert!(got.get("HEAD:gone.rs").is_none());
    assert_eq!(got.get("HEAD:b.rs").map(String::as_str), Some("b\u{fffd}\n"));
}

#[test]
fn blobs_are_asked_for_by_revision_and_path() {
    assert_eq!(blob_specs("HEAD", &lines(&["a", "b"])), lines(&["HEAD:a", "HEAD:b"]));
    let specs = range_specs("x", "y", &lines(&["a"]));
    assert_eq!(specs.len(), 2);
    assert!(specs.contains(&"x:a".to_string()) && specs.contains(&"y:a".to_string()));
}

#[test]
fn a_file_that_is_missing_on_one_side_is_empty_there() {
    let mut blobs = TextMap::new();
    blobs.insert("y:new.rs".to_string(), "fn n() {}\n".to_string());
    let got = gather_range(&lines(&["new.rs"]), "x", "y", blobs);
    assert_eq!(got.len(), 1);
    assert_eq!(got[0].path, "new.rs");
    assert_eq!(got[0].old.as_deref(), Some(""));
    assert_eq!(got[0].new.as_deref(), Some("fn n() {}\n"));
}

#[test]
fn the_working_tree_is_compared_with_the_present_commit() {
    let mut blobs = TextMap::new();
    blobs.insert("HEAD:a.rs".to_string(), "old\n".to_string());
    let got = gather_uncommitted(&lines(&["a.rs"]), blobs, vec![FileRead::Text("new\n".to_string())]);
    assert_eq!(got.len(), 1);
    assert_eq!(got[0].old.as_deref(), Some("old\n"));
    assert_eq!(got[0].new.as_deref(), Some("new\n"));
}

#[test]
fn a_file_that_is_not_text_is_left_out() {
    let paths = lines(&["a.rs", "b.bin", "gone.rs", "shut.rs"]);
    let mut blobs = TextMap::new();
    for p in &paths {
        blobs.insert(format!("main:{p}"), "old\n".to_string());
    }
    let reads = vec![
        BytesRead::Bytes("né\n".as_bytes().to_vec()),
        BytesRead::Bytes(vec![0x66, 0xff, 0x0a]),
        BytesRead::Missing("gone".to_string()),
        BytesRead::Failed("denied".to_string()),
    ];
    let mut filter =
        Filter { globs: build_globs(&[]).unwrap(), skip_generated: false, negatives_emptied: false, tally: Ledger::new() };
    let got = gather_worktree_range(&paths, "main", blobs, reads, &mut filter);
    let kept: Vec<&str> = got.iter().map(|c| c.path.as_str()).collect();
    assert_eq!(kept, ["a.rs", "gone.rs"]);
    assert_eq!(got[0].new.as_deref(), Some("né\n"));
    assert_eq!(got[1].new.as_deref(), Some(""));
    assert_eq!(filter.tally.files_unreadable, 2);
}

#[test]
fn the_files_of_the_working_tree_are_listed_once() {
    assert_eq!(path_lines("a\n\nb\n"), lines(&["a", "b"]));
    let paths = worktree_paths("a.rs\nb.rs\n", "", "b.rs\nc.rs\n");
    assert_eq!(paths, lines(&["a.rs", "b.rs", "c.rs"]));
    assert!(workspace_change_paths("not json").is_none());
    assert_eq!(
        workspace_change_paths("{\"uncommittedChanges\":[{\"filePath\":\"a.rs\"}],\"stacks\":[]}"),
        Some(lines(&["a.rs"]))
    );
    assert_eq!(
        uncommitted_paths("{\"uncommittedChanges\":[{\"filePath\":\"a.rs\"},{\"filePath\":\"a.rs\"}],\"stacks\":[]}"),
        lines(&["a.rs"])
    );
}

#[test]
fn a_repository_declares_which_files_are_generated() {
    assert_eq!(attribute_query(&lines(&["a", "b"])), "a\0b\0");
    let reply = "gen.rs\0linguist-generated\0set\0a.rs\0linguist-generated\0unspecified\0";
    assert_eq!(declared_generated(reply), lines(&["gen.rs"]));
}
