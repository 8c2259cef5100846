use std::path::PathBuf;
use testx::coverage::parsers::cobertura::parse_cobertura_files;
use testx::coverage::parsers::go_cover::parse_go_cover_files;
use testx::coverage::parsers::jacoco::parse_jacoco_files;
use testx::coverage::parsers::lcov::parse_lcov_files;

#[test]
fn lcov_files_single_record() {
    let lcov = "SF:src/main.rs\nDA:1,5\nDA:2,3\nDA:3,0\nDA:4,1\nLF:4\nLH:3\nend_of_record\n";
    let files = parse_lcov_files(lcov);
    assert_eq!(files.len(), 1);
    assert_eq!(files[0].total_lines, 4);
    assert_eq!(files[0].covered_lines, 3);
    assert_eq!(files[0].path, PathBuf::from("src/main.rs"));
}

#[test]
fn lcov_files_branches_and_max_hits() {
    let lcov = "SF:a.rs\nDA:1,3\nDA:1,5\nBRDA:1,0,0,-\nBRDA:1,0,1,5\nBRDA:1,0,2,0\n";
    let files = parse_lcov_files(lcov);
    assert_eq!(files.len(), 1);
    assert_eq!(files[0].line_hits[&1], 5);
    assert_eq!(files[0].total_branches, 3);
    assert_eq!(files[0].covered_branches, 1);
}

#[test]
fn lcov_files_empty() {
    assert!(parse_lcov_files("").is_empty());
}

#[test]
fn cobertura_files_classes() {
    let xml = r#"<coverage>
  <packages>
    <package name="src">
      <classes>
        <class name="main" filename="src/main.py">
          <lines>
            <line number="1" hits="5"/>
            <line number="2" hits="0" branch="true" condition-coverage="50% (1/2)"/>
          </lines>
        </class>
        <class name="util" filename="src/util.py">
          <lines>
            <line number="1" hits="1"/>
          </lines>
        </class>
      </classes>
    </package>
  </packages>
</coverage>"#;
    let files = parse_cobertura_files(xml);
    assert_eq!(files.len(), 2);
    assert_eq!(files[0].total_lines, 2);
    assert_eq!(files[0].covered_lines, 1);
    assert_eq!(files[0].total_branches, 2);
    assert_eq!(files[0].covered_branches, 1);
    assert_eq!(files[1].path, PathBuf::from("src/util.py"));
}

#[test]
fn jacoco_files_sourcefile() {
    let xml = r#"<report name="p">
  <package name="com/example">
    <sourcefile name="MyClass.java">
      <line nr="10" mi="0" ci="3" mb="1" cb="1"/>
      <line nr="11" mi="2" ci="0" mb="0" cb="0"/>
    </sourcefile>
  </package>
</report>"#;
    let files = parse_jacoco_files(xml);
    assert_eq!(files.len(), 1);
    assert_eq!(files[0].total_lines, 2);
    assert_eq!(files[0].covered_lines, 1);
    assert_eq!(files[0].total_branches, 2);
    assert_eq!(files[0].covered_branches, 1);
    assert_eq!(files[0].path, PathBuf::from("com/example").join("MyClass.java"));
    assert_eq!(files[0].path, PathBuf::from("com/example/MyClass.java"));
}

#[test]
fn go_cover_files_blocks() {
    let content = "mode: set\ngithub.com/user/project/main.go:5.2,10.3 1 1\ngithub.com/user/project/main.go:8.2,12.3 1 0\n";
    let files = parse_go_cover_files(content);
    assert_eq!(files.len(), 1);
    assert_eq!(files[0].total_lines, 8);
    assert_eq!(files[0].covered_lines, 6);
    assert_eq!(files[0].path, PathBuf::from("main.go"));
}
