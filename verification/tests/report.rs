use solscrape::aggregator::ScraperResult;
use solscrape::report::summary;

const RULE: &str = "════════════════════════════════════════════════════════════════";

fn result_of(paths: Vec<String>) -> ScraperResult {
    ScraperResult {
        output_path: String::from("out/run_scraped.sol"),
        file_count: paths.len(),
        line_count: 1234,
        files_processed: paths,
    }
}

#[test]
fn quiet_run_shows_the_output_path_only() {
    let result = result_of(vec![String::from("A.sol")]);
    assert_eq!(summary(&result, true), vec!["out/run_scraped.sol"]);
}

#[test]
fn run_shows_its_figures_and_its_files() {
    let result = result_of(vec![String::from("A.sol"), String::from("b/B.sol")]);
    assert_eq!(
        summary(&result, false),
        vec![
            "",
            RULE,
            "✅ Success!",
            "   Files processed: 2",
            "   Total lines:     1234",
            "   Output:          out/run_scraped.sol",
            RULE,
            "",
            "Files included:",
            "  • A.sol",
            "  • b/B.sol",
        ]
    );
}

#[test]
fn twenty_five_files_are_listed_and_twenty_six_are_not() {
    let names = |n: usize| (0..n).map(|i| format!("F{i}.sol")).collect::<Vec<String>>();
    let listed = summary(&result_of(names(25)), false);
    assert_eq!(listed.len(), 7 + 2 + 25);
    assert_eq!(listed[3], "   Files processed: 25");
    assert_eq!(listed[9], "  • F0.sol");
    assert_eq!(listed[33], "  • F24.sol");
    let unlisted = summary(&result_of(names(26)), false);
    assert_eq!(unlisted.len(), 7);
    assert_eq!(unlisted[3], "   Files processed: 26");
    assert_eq!(unlisted[6], RULE);
}

#[test]
fn run_without_files_lists_none() {
    let shown = summary(&result_of(Vec::new()), false);
    assert_eq!(shown.len(), 9);
    assert_eq!(shown[3], "   Files processed: 0");
    assert_eq!(shown[8], "Files included:");
}
