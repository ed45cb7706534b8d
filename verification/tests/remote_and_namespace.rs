use josh_proxy::error::ProxyError;
use josh_proxy::namespace::TmpGitNamespace;
use josh_proxy::options::PushOptions;
use josh_proxy::remote::{
    fetch_command, fetch_outcome, fetch_refspecs, head_from_ls_remote, ls_remote_command,
    push_head_outcome, push_head_plan, to_ns,
};

#[test]
fn push_plan_without_force() {
    let p = push_head_plan("refs/heads/main", "https://example.com/r.git", "request_1", false);
    assert_eq!(p.head_ref, "refs/request_1");
    assert_eq!(p.command, "git push  https://example.com/r.git 'refs/request_1:refs/heads/main'");
}

#[test]
fn push_plan_with_force() {
    let p = push_head_plan("refs/heads/@heads/main/a@b", "u", "ns", true);
    assert_eq!(p.command, "git push -f u 'refs/ns:refs/heads/@heads/main/a@b'");
}

#[test]
fn push_output_names_the_display_name() {
    let (text, status) = push_head_outcome(
        "To u\n ! [rejected] refs/ns -> main\nrefs/nsx refs/ns",
        1,
        "ns",
        "JOSH_PUSH",
    );
    assert_eq!(text, "To u\n ! [rejected] JOSH_PUSH -> main\nJOSH_PUSHx JOSH_PUSH");
    assert_eq!(status, 1);
}

#[test]
fn push_output_without_the_reference_is_kept() {
    let (text, status) = push_head_outcome("everything up to date", 0, "ns", "X");
    assert_eq!(text, "everything up to date");
    assert_eq!(status, 0);
}

#[test]
fn ls_remote_command_line() {
    assert_eq!(ls_remote_command("https://h/r.git"), "git ls-remote --symref https://h/r.git HEAD");
}

#[test]
fn head_from_symref_listing() {
    let out = "ref: refs/heads/main\tHEAD\n0123456789012345678901234567890123456789\tHEAD\n";
    assert_eq!(head_from_ls_remote(out), "refs/heads/main");
}

#[test]
fn head_defaults_to_master() {
    assert_eq!(head_from_ls_remote(""), "refs/heads/master");
}

#[test]
fn head_of_windows_line_ending() {
    assert_eq!(head_from_ls_remote("ref: refs/heads/dev\tHEAD\r\nrest"), "refs/heads/dev");
}

#[test]
fn head_of_empty_first_line() {
    assert_eq!(head_from_ls_remote("\nref: refs/heads/x\tHEAD"), "");
}

#[test]
fn namespace_of_upstream_path() {
    assert_eq!(to_ns("/a/b.git/"), "a/refs/namespaces/b.git");
    assert_eq!(to_ns("repo.git"), "repo.git");
    assert_eq!(to_ns("//"), "");
}

#[test]
fn fetch_refspecs_and_command() {
    let prefixes = vec!["refs/heads".to_string(), "HEAD".to_string()];
    let specs = fetch_refspecs("/org/repo.git", &prefixes);
    assert_eq!(
        specs,
        vec![
            "'+refs/heads:refs/josh/upstream/org/refs/namespaces/repo.git/refs/heads'".to_string(),
            "'+HEAD:refs/josh/upstream/org/refs/namespaces/repo.git/HEAD'".to_string(),
        ]
    );
    assert_eq!(
        fetch_command("https://h", "/org/repo.git", &prefixes),
        "git fetch --prune --no-tags https://h '+refs/heads:refs/josh/upstream/org/refs/namespaces/repo.git/refs/heads' '+HEAD:refs/josh/upstream/org/refs/namespaces/repo.git/HEAD'"
    );
    assert_eq!(fetch_command("u", "r", &vec![]), "git fetch --prune --no-tags u ");
}

#[test]
fn fetch_outcomes() {
    assert_eq!(fetch_outcome("").unwrap(), true);
    assert_eq!(fetch_outcome("From u\n * branch main").unwrap(), true);
    assert_eq!(
        fetch_outcome("fatal: Authentication failed for 'u'").unwrap(),
        false
    );
    let e = fetch_outcome("fatal: repository not found").unwrap_err();
    assert!(matches!(&e, ProxyError::FetchFailed(t) if t == "fatal: repository not found"));
    assert_eq!(e.message(), "git error: \"fatal: repository not found\"");
    let e = fetch_outcome("error: cannot lock ref").unwrap_err();
    assert!(matches!(e, ProxyError::FetchFailed(_)));
}

#[test]
fn fetch_error_message_is_debug_quoted() {
    let e = fetch_outcome("error: a \"b\"\n").unwrap_err();
    assert_eq!(e.message(), "git error: \"error: a \\\"b\\\"\\n\"");
}

#[test]
fn request_namespace_name_and_references() {
    let ns = TmpGitNamespace::new("/data/git/repo.git");
    let name = ns.name().to_string();
    assert!(name.starts_with("request_"));
    let id = &name["request_".len()..];
    assert_eq!(id.len(), 36);
    for (i, c) in id.chars().enumerate() {
        if i == 8 || i == 13 || i == 18 || i == 23 {
            assert_eq!(c, '-');
        } else {
            assert!(c.is_ascii_digit() || ('a'..='f').contains(&c));
        }
    }
    assert_eq!(id.chars().nth(14), Some('4'));
    assert_eq!(ns.repo_path(), "/data/git/repo.git");
    assert_eq!(ns.reference("refs/heads/x"), format!("refs/namespaces/{}/refs/heads/x", name));
    let other = TmpGitNamespace::new("/data/git/repo.git");
    assert_ne!(other.name(), ns.name());
}

#[test]
fn namespace_named_after_a_given_uuid() {
    let ns = TmpGitNamespace::with_uuid("/r.git", "0f3c2a1e-9b7d-4c5e-8a6f-1d2e3f4a5b6c");
    assert_eq!(ns.name(), "request_0f3c2a1e-9b7d-4c5e-8a6f-1d2e3f4a5b6c");
    assert_eq!(ns.repo_path(), "/r.git");
    assert_eq!(
        ns.reference("refs/heads/main"),
        "refs/namespaces/request_0f3c2a1e-9b7d-4c5e-8a6f-1d2e3f4a5b6c/refs/heads/main"
    );
}

#[test]
fn push_options_from_json() {
    let o = PushOptions::parse("{\"base\": \"main\", \"author\": \"a@b.c\"}").unwrap();
    assert_eq!(o.get("base"), Some("main".to_string()));
    assert_eq!(o.get("author"), Some("a@b.c".to_string()));
    assert_eq!(o.get("merge"), None);
    assert!(o.contains_key("base"));
    assert!(!o.contains_key("create"));
}

#[test]
fn bad_push_options_are_refused() {
    let e = PushOptions::parse("[1, 2]").err().unwrap();
    assert!(matches!(e, ProxyError::BadPushOptions(_)));
    assert!(!e.message().is_empty());
    assert!(PushOptions::parse("{\"a\": 1}").is_err());
    assert!(!PushOptions::empty().contains_key("merge"));
}

#[test]
fn error_messages() {
    let m = ProxyError::TargetMissing("refs/heads/main".to_string()).message();
    assert_eq!(
        m,
        "Reference \"refs/heads/main\" does not exist on remote.\nIf you want to create it, pass \"-o base=<basebranch>\" or \"-o base=path/to/ref\"\nto specify a base branch/reference.\n"
    );
    assert_eq!(
        ProxyError::BranchDoesNotExist.message(),
        "branch does not exist on remote"
    );
    assert_eq!(ProxyError::RejectMerge("no merges".to_string()).message(), "no merges");
    assert_eq!(
        ProxyError::RejectAmend("abc".to_string()).message(),
        "rejecting to amend \"abc\" with conflicting changes"
    );
    assert_eq!(ProxyError::MergeFailed.message(), "josh_merge failed");
    assert_eq!(ProxyError::PushFailed("denied".to_string()).message(), "denied");
    assert_eq!(ProxyError::Outside("disk full".to_string()).message(), "disk full");
    assert_eq!(ProxyError::UnexpectedEvent.message(), "unexpected event");
}

#[test]
fn push_output_renamed_to_itself_is_kept() {
    let (text, _) = push_head_outcome("rejected refs/ns -> main", 1, "ns", "refs/ns");
    assert_eq!(text, "rejected refs/ns -> main");
}

#[test]
fn namespace_references_do_not_collide() {
    let ns = TmpGitNamespace::new("/r");
    assert_ne!(ns.reference("refs/heads/a"), ns.reference("refs/heads/b"));
    assert!(!ns.name().contains('/'));
}
