use ccline::modules::git_branch::{
    git_dir_step, parse_gitdir_pointer, parse_head_ref, render_name_str, render_sep_str, DotGit,
    GitDirStep,
};

#[test]
fn parse_head_ref_on_branch() {
    assert_eq!(
        parse_head_ref("ref: refs/heads/master\n"),
        Some("master".into())
    );
}

#[test]
fn parse_head_ref_on_branch_with_slash() {
    assert_eq!(
        parse_head_ref("ref: refs/heads/feature/x\n"),
        Some("feature/x".into())
    );
}

#[test]
fn parse_head_ref_detached_returns_none() {
    assert_eq!(
        parse_head_ref("a1b2c3d4e5f6a7b8c9d0e1f2a3b4c5d6e7f8a9b0\n"),
        None
    );
}

#[test]
fn parse_head_ref_empty_returns_none() {
    assert_eq!(parse_head_ref(""), None);
}

#[test]
fn parse_head_ref_non_heads_returns_none() {
    assert_eq!(parse_head_ref("ref: refs/remotes/origin/master\n"), None);
}

#[test]
fn parse_head_ref_no_trailing_newline() {
    assert_eq!(parse_head_ref("ref: refs/heads/main"), Some("main".into()));
}

#[test]
fn parse_head_ref_bare_prefix_returns_none() {
    assert_eq!(parse_head_ref("ref: refs/heads/\n"), None);
}

#[test]
fn parse_head_ref_trims_surrounding_whitespace() {
    assert_eq!(
        parse_head_ref("  \tref: refs/heads/dev \r\n"),
        Some("dev".into())
    );
}

#[test]
fn parse_gitdir_pointer_reads_relative_path() {
    assert_eq!(
        parse_gitdir_pointer("gitdir: ../.git/worktrees/foo\n"),
        Some("../.git/worktrees/foo")
    );
}

#[test]
fn parse_gitdir_pointer_reads_absolute_path() {
    assert_eq!(
        parse_gitdir_pointer("gitdir: /abs/repo/.git/modules/sub\n"),
        Some("/abs/repo/.git/modules/sub")
    );
}

#[test]
fn parse_gitdir_pointer_missing_returns_none() {
    assert_eq!(parse_gitdir_pointer(""), None);
    assert_eq!(parse_gitdir_pointer("something else\n"), None);
}

#[test]
fn parse_gitdir_pointer_takes_first_matching_line() {
    assert_eq!(
        parse_gitdir_pointer("x\r\ngitdir: a \r\ngitdir: b\n"),
        Some("a")
    );
}

#[test]
fn render_name_returns_branch_when_present() {
    assert_eq!(render_name_str(Some("master")), "master");
}

#[test]
fn render_name_returns_empty_when_absent() {
    assert_eq!(render_name_str(None), "");
}

#[test]
fn render_name_returns_empty_when_branch_is_empty() {
    assert_eq!(render_name_str(Some("")), "");
}

#[test]
fn render_sep_wraps_branch_with_prefix() {
    assert_eq!(render_sep_str(Some("feature/x")), " | 🌿 feature/x");
}

#[test]
fn render_sep_empty_outside_repo() {
    assert_eq!(render_sep_str(None), "");
}

#[test]
fn render_sep_empty_when_branch_is_empty_string() {
    assert_eq!(render_sep_str(Some("")), "");
}

#[test]
fn git_dir_step_walks_on_past_a_missing_entry() {
    assert!(matches!(git_dir_step("/repo/sub", DotGit::Missing), GitDirStep::Next));
}

#[test]
fn git_dir_step_takes_a_git_directory() {
    match git_dir_step("/repo", DotGit::Dir) {
        GitDirStep::Found(g) => assert_eq!(g, "/repo/.git"),
        _ => panic!("expected the git directory"),
    }
    match git_dir_step("/", DotGit::Dir) {
        GitDirStep::Found(g) => assert_eq!(g, "/.git"),
        _ => panic!("expected the git directory"),
    }
}

#[test]
fn git_dir_step_follows_a_gitdir_pointer() {
    let relative = DotGit::File(Some("gitdir: ../.git/worktrees/wt\n".to_string()));
    match git_dir_step("/repo/wt", relative) {
        GitDirStep::Found(g) => assert_eq!(g, "/repo/wt/../.git/worktrees/wt"),
        _ => panic!("expected the pointed-at directory"),
    }
    let absolute = DotGit::File(Some("gitdir: /srv/repo/.git/modules/m\n".to_string()));
    match git_dir_step("/repo/m", absolute) {
        GitDirStep::Found(g) => assert_eq!(g, "/srv/repo/.git/modules/m"),
        _ => panic!("expected the pointed-at directory"),
    }
}

#[test]
fn git_dir_step_stops_at_an_unusable_file() {
    assert!(matches!(git_dir_step("/repo", DotGit::File(None)), GitDirStep::Stop));
    let no_pointer = DotGit::File(Some("something else\n".to_string()));
    assert!(matches!(git_dir_step("/repo", no_pointer), GitDirStep::Stop));
}
