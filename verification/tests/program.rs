use solscrape::blank_lines::remove_empty_lines;
use solscrape::cleaner::clean_solidity;
use solscrape::comments::remove_comments;
use solscrape::naming::extract_repo_name;

#[test]
fn main_test_remove_single_line_comments() {
    let code = "uint256 x; // this is a comment\nuint256 y;";
    let result = remove_comments(code);
    assert!(!result.contains("this is a comment"));
    assert!(result.contains("uint256 x;"));
    assert!(result.contains("uint256 y;"));
}

#[test]
fn main_test_remove_multi_line_comments() {
    let code = "uint256 x; /* multi\nline\ncomment */ uint256 y;";
    let result = remove_comments(code);
    assert!(!result.contains("multi"));
    assert!(!result.contains("comment"));
    assert!(result.contains("uint256 x;"));
    assert!(result.contains("uint256 y;"));
}

#[test]
fn main_test_preserve_strings() {
    let code = r#"string s = "// not a comment";"#;
    let result = remove_comments(code);
    assert!(result.contains("// not a comment"));
}

#[test]
fn main_test_preserve_strings_multiline() {
    let code = r#"string s = "/* not a comment */";"#;
    let result = remove_comments(code);
    assert!(result.contains("/* not a comment */"));
}

#[test]
fn main_test_remove_empty_lines() {
    let code = "line1\n\n\nline2\n  \nline3";
    let result = remove_empty_lines(code);
    assert_eq!(result, "line1\nline2\nline3");
}

#[test]
fn main_test_clean_solidity() {
    let code = r#"
// SPDX-License-Identifier: MIT
pragma solidity ^0.8.0;

/* This is a 
   multi-line comment */
contract Test {
    // Single line comment
    uint256 public value;
    
    string public name = "// not removed";
}
"#;
    let result = clean_solidity(code);

    assert!(!result.contains("SPDX-License-Identifier"));
    assert!(!result.contains("multi-line comment"));
    assert!(!result.contains("Single line comment"));
    assert!(result.contains("pragma solidity"));
    assert!(result.contains("contract Test"));
    assert!(result.contains("uint256 public value"));
    assert!(result.contains(r#""// not removed""#));
}

#[test]
fn main_test_extract_repo_name() {
    assert_eq!(
        extract_repo_name("https://github.com/user/repo.git"),
        "repo"
    );
    assert_eq!(extract_repo_name("https://github.com/user/repo"), "repo");
    assert_eq!(
        extract_repo_name("https://github.com/user/my-project.git/"),
        "my-project"
    );
}
