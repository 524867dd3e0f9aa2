use solscrape::naming::{
    extract_repo_name, local_output_name, output_file_name, remote_output_name,
};
use solscrape::tempfile::{temp_dir_name, TempDir};

#[test]
fn repository_name_is_the_last_segment() {
    assert_eq!(extract_repo_name("https://github.com/user/repo.git"), "repo");
    assert_eq!(extract_repo_name("git@github.com:user/repo.git"), "repo");
    assert_eq!(extract_repo_name("repo"), "repo");
    assert_eq!(extract_repo_name("a/b/c"), "c");
}

#[test]
fn every_trailing_slash_is_cut() {
    assert_eq!(extract_repo_name("https://host/user/repo///"), "repo");
    assert_eq!(extract_repo_name("https://host/user/repo.git//"), "repo");
}

#[test]
fn every_trailing_git_ending_is_cut() {
    assert_eq!(extract_repo_name("https://host/user/repo.git.git"), "repo");
    assert_eq!(extract_repo_name("https://host/user/.git"), "");
    assert_eq!(extract_repo_name("https://host/user/repo.git/.git"), "");
}

#[test]
fn slashes_before_a_git_ending_stay() {
    assert_eq!(extract_repo_name("https://host/user/repo/.git/"), "");
    assert_eq!(extract_repo_name("repo.gitx"), "repo.gitx");
    assert_eq!(extract_repo_name("repo.GIT"), "repo.GIT");
}

#[test]
fn empty_addresses_give_an_empty_name() {
    assert_eq!(extract_repo_name(""), "");
    assert_eq!(extract_repo_name("///"), "");
    assert_eq!(extract_repo_name(".git"), "");
}

#[test]
fn repository_name_agrees_with_trimming_and_splitting() {
    let addresses = [
        "https://github.com/user/repo.git",
        "https://github.com/user/repo",
        "https://github.com/user/my-project.git/",
        "a.git.git//",
        "/.git",
        "x/.gi",
        "git",
        ".git.gi",
        "ü/é.git",
    ];
    for address in addresses {
        let cut = address.trim_end_matches('/').trim_end_matches(".git");
        let expected = cut.rsplit('/').next().unwrap_or("repository");
        assert_eq!(extract_repo_name(address), expected, "address {:?}", address);
    }
}

#[test]
fn output_file_is_named_after_the_run() {
    assert_eq!(output_file_name("repo"), "repo_scraped.sol");
    assert_eq!(output_file_name(""), "_scraped.sol");
}

#[test]
fn asked_name_wins_over_the_repository_name() {
    assert_eq!(
        remote_output_name(Some("mine"), "https://host/user/repo.git"),
        "mine"
    );
    assert_eq!(
        remote_output_name(None, "https://host/user/repo.git"),
        "repo"
    );
}

#[test]
fn local_name_falls_back_to_directory_then_to_local() {
    assert_eq!(local_output_name(Some("mine"), Some("dir")), "mine");
    assert_eq!(local_output_name(None, Some("dir")), "dir");
    assert_eq!(local_output_name(None, None), "local");
    assert_eq!(local_output_name(Some("mine"), None), "mine");
}

#[test]
fn working_directory_is_named_by_the_instant() {
    assert_eq!(temp_dir_name(0), "solscrape_0");
    assert_eq!(temp_dir_name(7), "solscrape_7");
    assert_eq!(temp_dir_name(10), "solscrape_10");
    assert_eq!(
        temp_dir_name(1_700_000_000_123_456_789),
        "solscrape_1700000000123456789"
    );
    assert_eq!(temp_dir_name(u128::MAX), format!("solscrape_{}", u128::MAX));
}

#[test]
fn temporary_directory_remembers_its_path() {
    let dir = TempDir::new(String::from("/tmp/solscrape_42"));
    assert_eq!(dir.path(), "/tmp/solscrape_42");
}
