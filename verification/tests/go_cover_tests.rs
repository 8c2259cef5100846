use testx::coverage::parsers::go_cover::{parse_coverage_line, simplify_go_path};


#[test]
fn simplify_module_path() {
    assert_eq!(
        simplify_go_path("github.com/user/project/pkg/file.go"),
        "pkg/file.go"
    );
    assert_eq!(
        simplify_go_path("github.com/user/project/main.go"),
        "main.go"
    );
}

#[test]
fn simplify_local_path() {
    assert_eq!(simplify_go_path("main.go"), "main.go");
    assert_eq!(simplify_go_path("pkg/util.go"), "pkg/util.go");
}

#[test]
fn parse_coverage_line_valid() {
    let block = parse_coverage_line("github.com/user/project/main.go:10.14,12.2 1 5").unwrap();
    assert_eq!(block.file, "github.com/user/project/main.go");
    assert_eq!(block.start_line, 10);
    assert_eq!(block.end_line, 12);
    assert_eq!(block.count, 5);
}

#[test]
fn parse_coverage_line_invalid() {
    assert!(parse_coverage_line("invalid line").is_none());
    assert!(parse_coverage_line("").is_none());
}

#[test]
fn go_cover_line_needs_three_words() {
    assert!(parse_coverage_line("a.go:1.1,2.2 1").is_none());
    let b = parse_coverage_line("dir:x/a.go:3.1,7.4 2 0").unwrap();
    assert_eq!(b.file, "dir:x/a.go");
    assert_eq!(b.start_line, 3);
    assert_eq!(b.end_line, 7);
    assert_eq!(b.count, 0);
}
