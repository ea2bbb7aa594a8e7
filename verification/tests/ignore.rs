use blabla::diagnostic::Span;
use blabla::project::ignore::{Ignore, IgnoreDeclaration};

fn span() -> Span {
    Span { start: 0, end: 0, line: 1, column: 1 }
}

fn patterns(written: &[&str], protected: &[&str]) -> Ignore {
    let declarations: Vec<IgnoreDeclaration> = written
        .iter()
        .map(|pattern| IgnoreDeclaration::Pattern { written: (*pattern).to_owned(), span: span() })
        .collect();
    let sources: Vec<Result<String, String>> = declarations.iter().map(|_| Ok(String::new())).collect();
    Ignore::new(".", &declarations, &sources, protected.iter().map(|path| (*path).to_owned()).collect())
        .unwrap()
}

fn listed(lines: &str) -> Ignore {
    let declarations = vec![IgnoreDeclaration::List {
        written: "sub/.gitignore".to_owned(),
        path: "/project/sub/.gitignore".to_owned(),
        span: span(),
    }];
    let sources = vec![Ok(lines.to_owned())];
    Ignore::new("/project", &declarations, &sources, Vec::new()).unwrap()
}

#[test]
fn a_name_pattern_matches_at_any_depth_and_a_slash_anchors_it() {
    let ignore = patterns(&["*.log", "/build", "docs/out"], &[]);
    assert!(ignore.skips_file("app.log"));
    assert!(ignore.skips_file("deep/nested/app.log"));
    assert!(ignore.skips_directory("build"));
    assert!(!ignore.skips_directory("src/build"));
    assert!(ignore.skips_file("docs/out"));
    assert!(!ignore.skips_file("more/docs/out"));
}

#[test]
fn a_trailing_slash_matches_directories_and_everything_under_them() {
    let ignore = patterns(&["cache/"], &[]);
    assert!(ignore.skips_directory("cache"));
    assert!(ignore.skips_directory("src/cache"));
    assert!(!ignore.skips_file("cache"));
    assert!(ignore.skips_file("cache/entry.bin"));
}

#[test]
fn double_stars_span_directories() {
    let ignore = patterns(&["**/generated", "logs/**", "a/**/z.txt"], &[]);
    assert!(ignore.skips_file("generated"));
    assert!(ignore.skips_file("x/y/generated"));
    assert!(ignore.skips_file("logs/day/one.txt"));
    assert!(!ignore.skips_directory("logs"));
    assert!(ignore.skips_file("a/z.txt"));
    assert!(ignore.skips_file("a/b/c/z.txt"));
    assert!(!ignore.skips_file("b/z.txt"));
}

#[test]
fn the_last_matching_pattern_decides_and_a_negation_reincludes() {
    let ignore = patterns(&[".env.*", "!.env.example"], &[]);
    assert!(ignore.skips_file(".env.local"));
    assert!(!ignore.skips_file(".env.example"));
}

#[test]
fn a_file_under_an_ignored_directory_cannot_be_reincluded() {
    let ignore = patterns(&["out/", "!out/keep.txt"], &[]);
    assert!(ignore.skips_file("out/keep.txt"));
}

#[test]
fn classes_single_characters_and_escapes_follow_gitignore() {
    let ignore = patterns(&["file[0-9].txt", "?.tmp", "\\#literal", "\\!bang", "[!a]b"], &[]);
    assert!(ignore.skips_file("file7.txt"));
    assert!(!ignore.skips_file("filex.txt"));
    assert!(ignore.skips_file("q.tmp"));
    assert!(!ignore.skips_file("qq.tmp"));
    assert!(ignore.skips_file("#literal"));
    assert!(ignore.skips_file("!bang"));
    assert!(ignore.skips_file("xb"));
    assert!(!ignore.skips_file("ab"));
}

#[test]
fn a_list_file_anchors_its_patterns_to_its_own_directory_and_skips_comments() {
    let ignore = listed("# comment\n\n/local\ntemp/\n");
    assert!(ignore.skips_file("sub/local"));
    assert!(!ignore.skips_file("local"));
    assert!(ignore.skips_directory("sub/deep/temp"));
    assert!(!ignore.skips_directory("temp"));
    assert_eq!(ignore.rule_for("sub/local", false), Some("sub/.gitignore:3: /local"));
}

#[test]
fn protected_paths_stay_tracked_whatever_the_patterns_say() {
    let ignore = patterns(&["*", "contracts/"], &["project.bla", "contracts/app.bla"]);
    assert!(!ignore.skips_file("project.bla"));
    assert!(!ignore.skips_file("contracts/app.bla"));
    assert!(!ignore.skips_directory("contracts"));
    assert!(ignore.skips_file("contracts/other.bla"));
    assert!(ignore.skips_file("notes.md"));
}

#[test]
fn a_missing_list_file_and_one_outside_the_project_are_refused() {
    for (written, code) in [("absent.txt", "E_IGNORE_LIST_MISSING"), ("../outside", "E_IGNORE_LIST_OUTSIDE")] {
        let declarations = vec![IgnoreDeclaration::List {
            written: written.to_owned(),
            path: format!("/project/{written}"),
            span: span(),
        }];
        let sources = vec![Err("No such file or directory (os error 2)".to_owned())];
        let failure = Ignore::new("/project", &declarations, &sources, Vec::new()).unwrap_err();
        assert_eq!(failure.code, code);
    }
}

#[test]
fn a_listed_file_is_itself_kept_tracked() {
    let ignore = listed("*\n");
    assert!(!ignore.skips_file("sub/.gitignore"));
    assert!(ignore.skips_file("sub/other.txt"));
}
