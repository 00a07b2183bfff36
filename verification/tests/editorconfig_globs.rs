use amp::glob::{create_regex_range, glob_to_regex};
use regex::Regex;

fn glob_lit_matches(glob: &str, expanded: &str) {
    assert_eq!(glob_to_regex(glob).unwrap(), expanded);
}

fn glob_matches(glob: &str, paths: &[&str]) {
    for path in paths {
        assert!(Regex::new(&glob_to_regex(glob).unwrap()).unwrap().is_match(path));
    }
}

fn glob_matches_not(glob: &str, paths: &[&str]) {
    for path in paths {
        assert!(!Regex::new(&glob_to_regex(glob).unwrap()).unwrap().is_match(path));
    }
}

#[test]
fn glob_range() {
    assert_eq!(create_regex_range("0", "3"), Some("(0|1|2|3)".into()));
    assert_eq!(create_regex_range("0", "0"), Some("(0)".into()));
    assert_eq!(create_regex_range("4", "2"), Some("(2|3|4)".into()));
    assert_eq!(create_regex_range("-4", "-2"), Some("(-4|-3|-2)".into()));
    assert_eq!(create_regex_range("-2", "2"), Some("(-2|-1|0|1|2)".into()));
}

#[test]
fn single_star_globs() {
    glob_lit_matches("*", r"[^/]*$");
    glob_matches("*", &["src/main.rs", "README.md"]);

    glob_lit_matches("*.rs", r"[^/]*\.rs$");
    glob_matches_not("*.rs", &["README.md", "src/input/key_map/default.yml"]);

    glob_lit_matches("a*/z", "a[^/]*/z$");
    glob_matches("a*/z", &["a/z", "ab/z", "abcdefg/z"]);
    glob_matches_not("a*/z", &["a/b/z"]);
}

#[test]
fn double_star_globs() {
    glob_lit_matches("**/*.rs", r".*/[^/]*\.rs$");
    glob_matches("**/*.rs", &["src/main.rs"]);
    glob_matches_not("**/*.rs", &["README.md"]);

    glob_lit_matches("src/**/mod.rs", r"src(/|/.*/)mod\.rs$");
    glob_matches("src/**/mod.rs", &["src/commands/mod.rs", "src/models/application/mod.rs"]);
    glob_matches_not("src/**/mod.rs", &["src/commands/buffer.rs", "src/view/style.rs"]);
}

#[test]
fn question_mark_globs() {
    glob_lit_matches("a?c/d", r"a[^/]c/d$");
    glob_matches("a?c/d", &["abc/d"]);
    glob_matches_not("a?c/d", &["a/c/d", "ac/d"]);
}

#[test]
fn braces_number_ranges_globs() {
    glob_lit_matches("a/t{1..3}/b", "a/t(1|2|3)/b$");
    glob_matches("a/t{1..3}/b", &["a/t1/b", "a/t3/b"]);
    glob_matches_not("a/t{1..3}/b", &["a/t/b/", "a/t0/b", "a/t4/b"]);

    glob_lit_matches("a/t{-20..-17}/b", "a/t(-20|-19|-18|-17)/b$");
    glob_matches("a/t{-20..-17}/b", &["a/t-20/b", "a/t-17/b"]);
    glob_matches_not("a/t{-20..-17}/b", &["a/t-21/b", "a/t-16/b"]);

    glob_lit_matches("a/t{-2..1}/b", "a/t(-2|-1|0|1)/b$");
    glob_matches("a/t{-2..1}/b", &["a/t-2/b", "a/t0/b", "a/t1/b"]);
}

#[test]
fn braces_any_globs() {
    glob_lit_matches("*.{rs,md,yml}", r"[^/]*\.((rs)|(md)|(yml))$");
    glob_matches("*.{rs,md,yml}", &["src/main.rs", "README.md", "src/input/key_map/default.yml"]);
    glob_matches_not("*.{rs,md,yml}", &[".gitmodules", "src/main.c"]);

    glob_lit_matches("*{.rs,.md,.yml}", r"[^/]*((\.rs)|(\.md)|(\.yml))$");
    glob_matches("*{.rs,.md,.yml}", &["src/main.rs", "README.md", "src/input/key_map/default.yml"]);
    glob_matches_not("*{.rs,.md,.yml}", &[".gitmodules", "src/main.c"]);

    glob_lit_matches("*.{r\\,s,m\\,d,ym\\,l}", r"[^/]*\.((r,s)|(m,d)|(ym,l))$");
    glob_matches("*.{r\\,s,m\\,d,ym\\,l}", &["src/main.r,s", "README.m,d", "src/input/key_map/default.ym,l"]);
    glob_matches_not("*.{r\\,s,m\\,d,ym\\,l}", &["src/main.rs", "README.md", "src/input/key_map/default.yml"]);

    glob_lit_matches("*.{,rs,md,yml}", r"[^/]*\.($|(rs)|(md)|(yml))$");
    glob_matches("*.{,rs,md,yml}", &["src/main.rs", "README.md", "src/input/key_map/default.yml", "test."]);
    glob_matches_not("*.{,rs,md,yml}", &["test", ".gitmodules"]);

    glob_lit_matches("*.{}", r"[^/]*\.$");
    glob_matches("*.{}", &["test."]);
    glob_matches_not("*.{}", &["src/main.rs", "README.md", ".gitmodules"]);

    glob_lit_matches("src/ma{}in.rs", r"src/main\.rs$");
    glob_matches("src/ma{}in.rs", &["src/main.rs"]);
}

#[test]
fn nested_braces_any_globs() {
    glob_lit_matches("x{a,b,z[123]}", "x((a)|(b)|(z[123]))$");
    glob_matches("x{a,b,z[123]}", &["xa", "xb", "xz1", "xz3"]);
    glob_matches_not("x{a,b,z[123]}", &["xc", "x1", "x3", "xa1", "xb1", "x"]);

    glob_lit_matches("x{a,b{1,2,3}}", "x((a)|(b((1)|(2)|(3))))$");
    glob_matches("x{a,b{1,2,3}}", &["xa", "xb1", "xb2", "xb3"]);
    glob_matches_not("x{a,b{1,2,3}}", &["x", "xb", "xb4", "xba", "xab"]);

    glob_lit_matches("x{a,{1,2,3}}", "x((a)|(((1)|(2)|(3))))$");
    glob_matches("x{a,{1,2,3}}", &["xa", "x1", "x2", "x3"]);
    glob_matches_not("x{a,{1,2,3}}", &["x", "xb", "xa1", "xba", "xab"]);

    glob_lit_matches("x{a,b{1,2,3},z[!123]}", "x((a)|(b((1)|(2)|(3)))|(z[^123]))$");
    glob_matches("x{a,b{1,2,3},z[!123]}", &["xa", "xb1", "xb2", "xb3", "xz4", "xzA"]);
    glob_matches_not("x{a,b{1,2,3},z[!123]}", &["xc", "xb", "xz", "xa1", "xab", "xz1", "xz3"]);

    glob_lit_matches("x{1,{2..4},5}", "x((1)|((2|3|4))|(5))$");
    glob_matches("x{1,{2..4},5}", &["x1", "x2", "x3", "x4", "x5"]);
    glob_matches_not("x{1,{2..4},5}", &["x0", "x6"]);
}

#[test]
fn brackets_globs() {
    glob_lit_matches("[abcdef].rs", r"[abcdef]\.rs$");
    glob_matches("[abcdef].rs", &["a.rs", "c.rs", "f.rs"]);
    glob_matches_not("[abcdef].rs", &["s.rs", "q.rs", "y.rs"]);

    glob_lit_matches("a[c]e.rs", r"a[c]e\.rs$");
    glob_matches("a[c]e.rs", &["ace.rs"]);
    glob_matches_not("a[c]e.rs", &["abe.rs"]);

    glob_lit_matches("a[]e.rs", r"ae\.rs$");
    glob_matches("a[]e.rs", &["ae.rs"]);
    glob_matches_not("a[]e.rs", &["ace.rs"]);

    glob_lit_matches("a[b[c].rs", r"a[b\[c]\.rs$");
    glob_matches("a[b[c].rs", &["ab.rs", "ac.rs", "a[.rs"]);
    glob_matches_not("a[b[c].rs", &["abc.rs", "ab[c.rs"]);
}

#[test]
fn brackets_not_globs() {
    glob_lit_matches("[!abcdef].rs", r"[^abcdef]\.rs$");
    glob_matches("[!abcdef].rs", &["s.rs", "q.rs", "y.rs"]);
    glob_matches_not("[!abcdef].rs", &["a.rs", "c.rs", "f.rs"]);

    glob_lit_matches("a[!c]e.rs", r"a[^c]e\.rs$");
    glob_matches("a[!c]e.rs", &["abe.rs"]);
    glob_matches_not("a[!c]e.rs", &["ace.rs"]);

    glob_lit_matches("a[!]e.rs", r"ae\.rs$");
    glob_matches("a[!]e.rs", &["ae.rs"]);
    glob_matches_not("a[!]e.rs", &["ace.rs"]);
}

#[test]
fn nested_brackets_globs() {
    glob_lit_matches("[ab[cd]ef].rs", r"[ab\[cd\]ef]\.rs$");
    glob_matches("[ab[cd]ef].rs", &["a.rs", "b.rs", "[.rs", "c.rs", "d.rs", "].rs", "e.rs", "f.rs"]);
    glob_matches_not("[ab[cd]ef].rs", &["g.rs", ".rs"]);

    glob_lit_matches("[ab[cd]ef].rs", r"[ab\[cd\]ef]\.rs$");
    glob_matches("[ab[cd]ef].rs", &["a.rs", "b.rs", "[.rs", "c.rs", "d.rs", "].rs", "e.rs", "f.rs"]);
    glob_matches_not("[ab[cd]ef].rs", &["g.rs", ".rs"]);
}
