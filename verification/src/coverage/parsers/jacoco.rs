//! JaCoCo XML coverage reports.

use vstd::prelude::*;
use crate::adapters::dotnet::{trx_attr, trx_attr_v};
use crate::adapters::java::replace_all_v;
use crate::coverage::{FileCovView, FileCoverage, files_cov_view};
use crate::coverage::parsers::{HitList, file_of_hits, hits_set};
use crate::num::{parse_u64, parse_u64_spec, parse_usize, parse_usize_spec};
use crate::text::{chars_of, lines, starts_with, starts_with_str, string_of, trim, trim_v};

verus! {

/// The value of `attr="..."` in a line of XML.
pub fn extract_attr_value(line: &str, attr: &str) -> (r: Option<String>)
    ensures
        match r {
            Some(x) => trx_attr(line@, attr@) == Some(x@),
            None => trx_attr(line@, attr@) is None,
        },
{
    match trx_attr_v(&chars_of(line), &chars_of(attr)) {
        Some(x) => Some(string_of(&x)),
        None => None,
    }
}


/// The platform's path separator (`std::path::MAIN_SEPARATOR_STR`): `/`
/// on Unix, `\\` on Windows.
#[verifier::external_body]
fn separator() -> (r: &'static str)
    ensures
        r@ == "/"@ || r@ == "\\"@,
{
    std::path::MAIN_SEPARATOR_STR
}

/// The path `Path::join` makes of a directory and a name.
pub uninterp spec fn path_joined(dir: Seq<char>, name: Seq<char>) -> std::path::PathBuf;

/// A directory and a relative name that `Path::join` puts together by
/// writing one separator between them: the directory is not empty, does
/// not start with a backslash and does not end with a separator, the name
/// is not empty and does not start with a separator, and neither holds a
/// `:` (so neither has a Windows drive prefix).
pub open spec fn plain_join(dir: Seq<char>, name: Seq<char>) -> bool {
    &&& dir.len() > 0 && dir[0] != '\\' && dir.last() != '/' && dir.last() != '\\'
    &&& name.len() > 0 && name[0] != '/' && name[0] != '\\'
    &&& !dir.contains(':') && !name.contains(':')
}

/// `dir.join(name)` for a directory path given as text (`Path::join`).  For
/// a relative name the result is the directory extended with the name
/// (`PathBuf::push`), with the platform separator (a slash on Unix, a
/// backslash on Windows) written between them when the directory does not
/// end with one.
#[verifier::external_body]
fn join_path(dir: &str, name: &str) -> (r: std::path::PathBuf)
    ensures
        r == path_joined(dir@, name@),
        plain_join(dir@, name@) ==> (r == crate::history::path_of(dir@ + "/"@ + name@)
            || r == crate::history::path_of(dir@ + "\\"@ + name@)),
{
    std::path::Path::new(dir).join(name)
}

/// A source file read from a JaCoCo report: its package's name (as
/// written, with `/`), its name, its line hits and its branch counts.
pub struct JcFile {
    pub package: Option<Seq<char>>,
    pub name: Seq<char>,
    pub hits: Seq<(usize, u64)>,
    pub tb: nat,
    pub cb: nat,
}

/// Reading state of a JaCoCo report: the files read, whether a source file
/// is open, the open package, the open file's name, line hits and branch
/// counts.
pub struct JcState {
    pub files: Seq<JcFile>,
    pub open: bool,
    pub package: Option<Seq<char>>,
    pub name: Seq<char>,
    pub hits: Seq<(usize, u64)>,
    pub tb: nat,
    pub cb: nat,
}

/// A file's path: its name joined to its package's directory (the package
/// name with `/` turned into the platform separator `sep`), or its name
/// alone outside a package.
pub open spec fn jc_path(package: Option<Seq<char>>, name: Seq<char>, sep: Seq<char>) -> std::path::PathBuf {
    match package {
        Some(p) => path_joined(crate::adapters::java::replace_all(p, "/"@, sep), name),
        None => crate::history::path_of(name),
    }
}

/// Where the directory and the name are plain (`plain_join`), a file's
/// path is the text of the two with one separator between them.
pub open spec fn jc_path_plain(f: JcFile, sep: Seq<char>) -> bool {
    match f.package {
        Some(p) => {
            let dir = crate::adapters::java::replace_all(p, "/"@, sep);
            plain_join(dir, f.name) ==> (path_joined(dir, f.name) == crate::history::path_of(dir + "/"@ + f.name)
                || path_joined(dir, f.name) == crate::history::path_of(dir + "\\"@ + f.name))
        },
        None => true,
    }
}

pub open spec fn jc_paths_plain(files: Seq<JcFile>, sep: Seq<char>) -> bool {
    forall|k: int| 0 <= k < files.len() ==> jc_path_plain(#[trigger] files[k], sep)
}

pub open spec fn jc_file_view(f: JcFile, sep: Seq<char>) -> FileCovView {
    file_of_hits(jc_path(f.package, f.name, sep), f.hits, f.tb, f.cb)
}

/// A count attribute, zero when missing or not a number.
pub open spec fn count_attr(t: Seq<char>, attr: Seq<char>) -> nat {
    match trx_attr(t, attr) {
        Some(v) => match parse_usize_spec(v) {
            Some(n) => n as nat,
            None => 0,
        },
        None => 0,
    }
}

pub open spec fn hits_attr(t: Seq<char>) -> u64 {
    match trx_attr(t, "ci"@) {
        Some(v) => match parse_u64_spec(v) {
            Some(n) => n,
            None => 0,
        },
        None => 0,
    }
}

/// The line number of a `<line nr="...">` element.
pub open spec fn line_number(t: Seq<char>) -> Option<usize> {
    match trx_attr(t, "nr"@) {
        Some(v) => parse_usize_spec(v),
        None => None,
    }
}

/// `<sourcefile name=...>` opens a file; `<line>` in an open file sets the
/// line's hits (covered instructions) and adds its branches (missed and
/// covered); `</sourcefile>` closes the file.
pub open spec fn jc_step(st: JcState, t: Seq<char>) -> JcState {
    let s0 = if starts_with(t, "<package "@) && trx_attr(t, "name"@) is Some {
        JcState { package: trx_attr(t, "name"@), ..st }
    } else if t == "</package>"@ {
        JcState { package: None, ..st }
    } else {
        st
    };
    let s1 = if starts_with(t, "<sourcefile "@) && trx_attr(t, "name"@) is Some {
        JcState { open: true, name: trx_attr(t, "name"@)->0, hits: seq![], tb: 0, cb: 0, ..s0 }
    } else {
        s0
    };
    let s2 = if starts_with(t, "<line "@) && s1.open && line_number(t) is Some {
        JcState {
            hits: hits_set(s1.hits, line_number(t)->0, hits_attr(t)),
            tb: s1.tb + count_attr(t, "mb"@) + count_attr(t, "cb"@),
            cb: s1.cb + count_attr(t, "cb"@),
            ..s1
        }
    } else {
        s1
    };
    if starts_with(t, "</sourcefile>"@) && s2.open {
        JcState {
            files: s2.files.push(JcFile { package: s2.package, name: s2.name, hits: s2.hits, tb: s2.tb, cb: s2.cb }),
            open: false,
            hits: seq![],
            tb: 0,
            cb: 0,
            ..s2
        }
    } else {
        s2
    }
}

pub open spec fn jc_fold(ls: Seq<Seq<char>>) -> JcState
    decreases ls.len(),
{
    if ls.len() == 0 {
        JcState { files: seq![], open: false, package: None, name: seq![], hits: seq![], tb: 0, cb: 0 }
    } else {
        jc_step(jc_fold(ls.drop_last()), trim(ls.last()))
    }
}

/// The closed source files of a JaCoCo report, on a platform whose path
/// separator is `sep`.
pub open spec fn jacoco_files(ls: Seq<Seq<char>>, sep: Seq<char>) -> Seq<FileCovView> {
    jc_fold(ls).files.map_values(|f: JcFile| jc_file_view(f, sep))
}

/// The branch counts of each source file fit in a machine word.
pub open spec fn jacoco_ok(ls: Seq<Seq<char>>) -> bool
    decreases ls.len(),
{
    if ls.len() == 0 {
        true
    } else {
        let t = trim(ls.last());
        let st = jc_fold(ls.drop_last());
        let s1 = if starts_with(t, "<sourcefile "@) && trx_attr(t, "name"@) is Some {
            JcState { open: true, hits: seq![], tb: 0, cb: 0, ..st }
        } else {
            st
        };
        jacoco_ok(ls.drop_last()) && ((starts_with(t, "<line "@) && s1.open && line_number(t) is Some) ==> {
            &&& count_attr(t, "mb"@) + count_attr(t, "cb"@) <= usize::MAX
            &&& s1.tb + count_attr(t, "mb"@) + count_attr(t, "cb"@) <= usize::MAX
        })
    }
}

proof fn lemma_jacoco_ok_prefix(ls: Seq<Seq<char>>, n: int)
    requires
        0 < n <= ls.len(),
        jacoco_ok(ls),
    ensures
        jacoco_ok(ls.take(n)),
        ({
            let t = trim(ls[n - 1]);
            let st = jc_fold(ls.take(n - 1));
            let s1 = if starts_with(t, "<sourcefile "@) && trx_attr(t, "name"@) is Some {
                JcState { open: true, hits: seq![], tb: 0, cb: 0, ..st }
            } else {
                st
            };
            (starts_with(t, "<line "@) && s1.open && line_number(t) is Some) ==> {
                &&& count_attr(t, "mb"@) + count_attr(t, "cb"@) <= usize::MAX
                &&& s1.tb + count_attr(t, "mb"@) + count_attr(t, "cb"@) <= usize::MAX
            }
        }),
    decreases ls.len() - n,
{
    if n == ls.len() {
        assert(ls.take(n) =~= ls);
    } else {
        lemma_jacoco_ok_prefix(ls, n + 1);
        assert(ls.take(n + 1).drop_last() =~= ls.take(n));
    }
    let p = ls.take(n);
    assert(jacoco_ok(p));
    assert(p.drop_last() =~= ls.take(n - 1));
    assert(p.last() == ls[n - 1]);
}

fn attr_v(t: &Vec<char>, attr: &str) -> (r: Option<Vec<char>>)
    ensures
        match r {
            Some(x) => trx_attr(t@, attr@) == Some(x@),
            None => trx_attr(t@, attr@) is None,
        },
{
    trx_attr_v(t, &chars_of(attr))
}

fn count_attr_v(t: &Vec<char>, attr: &str) -> (n: usize)
    ensures
        n == count_attr(t@, attr@),
{
    match attr_v(t, attr) {
        Some(v) => match parse_usize(&v) {
            Some(n) => n,
            None => 0,
        },
        None => 0,
    }
}

/// Parse a JaCoCo XML report into the coverage of its source files.
pub fn parse_jacoco_files(content: &str) -> (r: Vec<FileCoverage>)
    requires
        jacoco_ok(lines(content@)),
    ensures
        exists|sep: Seq<char>| (sep == "/"@ || sep == "\\"@) && files_cov_view(r@) == jacoco_files(lines(content@), sep)
            && jc_paths_plain(jc_fold(lines(content@)).files, sep),
{
    let sep = separator();
    let ls = crate::text::lines_of(content);
    let ghost lv = ls@.map_values(|l: Vec<char>| l@);
    assert(lv =~= lines(content@));
    let mut files: Vec<FileCoverage> = Vec::new();
    let mut package: Option<Vec<char>> = None;
    let mut source: Option<Vec<char>> = None;
    let mut hits = HitList::new();
    let mut tb: usize = 0;
    let mut cb: usize = 0;
    let mut i: usize = 0;
    while i < ls.len()
        invariant
            i <= ls.len(),
            lv == ls@.map_values(|l: Vec<char>| l@),
            jacoco_ok(lv),
            files_cov_view(files@) == jc_fold(lv.take(i as int)).files.map_values(|f: JcFile| jc_file_view(f, sep@)),
            jc_paths_plain(jc_fold(lv.take(i as int)).files, sep@),
            source is Some == jc_fold(lv.take(i as int)).open,
            source matches Some(n) ==> n@ == jc_fold(lv.take(i as int)).name,
            package is Some == jc_fold(lv.take(i as int)).package is Some,
            package matches Some(p) ==> p@ == crate::adapters::java::replace_all(jc_fold(lv.take(i as int)).package->0, "/"@, sep@),
            cb <= tb,
            hits.pairs@ == jc_fold(lv.take(i as int)).hits,
            tb == jc_fold(lv.take(i as int)).tb,
            cb == jc_fold(lv.take(i as int)).cb,
        decreases ls.len() - i,
    {
        proof {
            lemma_jacoco_ok_prefix(lv, i + 1);
        }
        assert(lv.take(i + 1).drop_last() =~= lv.take(i as int));
        assert(lv.take(i + 1).last() == ls@[i as int]@);
        let t = trim_v(&ls[i]);
        if starts_with_str(&t, "<package ") {
            match attr_v(&t, "name") {
                Some(name) => {
                    proof {
                        reveal_strlit("/");
                    }
                    package = Some(replace_all_v(&name, "/", sep));
                },
                None => {
                    proof {
                        reveal_strlit("<package ");
                        reveal_strlit("</package>");
                        assert(t@.subrange(0, 9)[1] == t@[1]);
                        assert(t@[1] == 'p');
                        if t@ == "</package>"@ {
                            assert(t@[1] == '/');
                        }
                    }
                },
            }
        } else if crate::text::eq(&t, &chars_of("</package>")) {
            package = None;
        }
        if starts_with_str(&t, "<sourcefile ") {
            match attr_v(&t, "name") {
                Some(name) => {
                    source = Some(name);
                    hits.clear();
                    tb = 0;
                    cb = 0;
                },
                None => {},
            }
        }
        if starts_with_str(&t, "<line ") && source.is_some() {
            match attr_v(&t, "nr") {
                Some(nr) => match parse_usize(&nr) {
                    Some(line) => {
                        let ci = match attr_v(&t, "ci") {
                            Some(v) => match parse_u64(&v) {
                                Some(n) => n,
                                None => 0,
                            },
                            None => 0,
                        };
                        hits.set(line, ci);
                        let mb = count_attr_v(&t, "mb");
                        let cbl = count_attr_v(&t, "cb");
                        tb = tb + (mb + cbl);
                        cb = cb + cbl;
                    },
                    None => {},
                },
                None => {},
            }
        }
        if starts_with_str(&t, "</sourcefile>") {
            proof {
                reveal_strlit("</sourcefile>");
                reveal_strlit("<package ");
                reveal_strlit("</package>");
                reveal_strlit("<sourcefile ");
                assert(t@.subrange(0, 13)[1] == t@[1]);
                assert(t@.subrange(0, 13)[2] == t@[2]);
                assert(t@[1] == '/' && t@[2] == 's');
                if starts_with(t@, "<package "@) {
                    assert(t@.subrange(0, 9)[1] == t@[1]);
                }
                if starts_with(t@, "<sourcefile "@) {
                    assert(t@.subrange(0, 12)[1] == t@[1]);
                }
                if t@ == "</package>"@ {
                    assert(t@[2] == 'p');
                }
            }
            match source {
                Some(name) => {
                    let f = match &package {
                        Some(pkg) => {
                            let mut f = hits.to_file(string_of(&name).as_str(), tb, cb);
                            f.path = join_path(string_of(pkg).as_str(), string_of(&name).as_str());
                            f
                        },
                        None => hits.to_file(string_of(&name).as_str(), tb, cb),
                    };
                    let ghost st = jc_fold(lv.take(i + 1));
                    let ghost before = files_cov_view(files@);
                    files.push(f);
                    assert(files_cov_view(files@) =~= before.push(crate::coverage::file_cov_view(f)));
                    assert(st.files == jc_fold(lv.take(i as int)).files.push(st.files.last()));
                    assert(files_cov_view(files@) =~= st.files.map_values(|f: JcFile| jc_file_view(f, sep@)));
                    assert(jc_paths_plain(st.files, sep@)) by {
                        let old_files = jc_fold(lv.take(i as int)).files;
                        assert forall|k: int| 0 <= k < st.files.len() implies jc_path_plain(#[trigger] st.files[k], sep@) by {
                            if k < old_files.len() {
                                assert(st.files[k] == old_files[k]);
                            }
                        }
                    }
                    source = None;
                    hits.clear();
                    tb = 0;
                    cb = 0;
                },
                None => {},
            }
        }
        i += 1;
    }
    assert(lv.take(ls.len() as int) =~= lv);
    assert(files_cov_view(files@) == jacoco_files(lines(content@), sep@));
    assert(jc_paths_plain(jc_fold(lines(content@)).files, sep@));
    files
}

} // verus!
