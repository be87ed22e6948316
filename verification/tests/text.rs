use rws::text::{
    between_exec, decimal_string, first_word_exec, hex, lines_of, parse_i32, pieces_of, replace_exec,
    shell_quote, split_on_exec, split_once_exec, trim_exec, words_of,
};
use std::path::Path;
use rws::paths::{components_of, file_name_of, join_path, parent_of, same_path_exec, starts_with_path};

#[test]
fn lines_and_pieces_follow_std() {
    for s in ["", "a", "a\n", "a\r\nb", "\n\n", "x\ny\r\n\r\nz\n"] {
        assert_eq!(lines_of(s), s.lines().collect::<Vec<_>>(), "{s:?}");
        assert_eq!(pieces_of(s, '\n'), s.split_inclusive('\n').collect::<Vec<_>>(), "{s:?}");
        assert_eq!(split_on_exec(s, '\n'), s.split('\n').collect::<Vec<_>>(), "{s:?}");
        assert_eq!(words_of(s), s.split_whitespace().collect::<Vec<_>>(), "{s:?}");
    }
    assert_eq!(words_of(" a\u{3000}b\tc  "), ["a", "b", "c"]);
}

#[test]
fn trimming_and_splitting_follow_std() {
    for s in ["", "  x  ", "\u{a0}y\u{2029}", "\tz"] {
        assert_eq!(trim_exec(s), s.trim(), "{s:?}");
        assert_eq!(first_word_exec(s).as_deref(), s.split_whitespace().next(), "{s:?}");
    }
    assert_eq!(split_once_exec("k => v => w", " => "), Some(("k".to_string(), "v => w".to_string())));
    assert_eq!(split_once_exec("kv", "=>"), None);
    assert_eq!(replace_exec("a&b&&", "&", "&amp;"), "a&amp;b&amp;&amp;");
    assert_eq!(between_exec("x[1]y[2]", "[", "]").as_deref(), Some("1"));
    assert_eq!(between_exec("x", "[", "]"), None);
}

#[test]
fn numbers_and_quoting() {
    for s in ["0", "-0", "+5", "-2147483648", "2147483647", "2147483648", "-2147483649", "", "-", "1a"] {
        assert_eq!(parse_i32(s), s.parse::<i32>().ok(), "{s}");
    }
    assert_eq!(decimal_string(0), "0");
    assert_eq!(decimal_string(u128::MAX), u128::MAX.to_string());
    assert_eq!(hex(&[0x00, 0x0f, 0xa0, 0xff]), "000fa0ff");
    assert_eq!(shell_quote("it's"), "'it'\\''s'");
    assert_eq!(shell_quote(""), "''");
}

#[test]
fn paths_follow_std_path() {
    for p in ["/", "/a", "/a/", "a/b", "./a", ".", "..", "/a/./b/", "a//b", "", "/a/.."] {
        assert_eq!(
            parent_of(p).as_deref(),
            Path::new(p).parent().map(|x| x.to_str().unwrap()),
            "{p:?}"
        );
        assert_eq!(
            file_name_of(p).as_deref(),
            Path::new(p).file_name().map(|x| x.to_str().unwrap()),
            "{p:?}"
        );
        let std_components: Vec<String> = Path::new(p)
            .components()
            .map(|c| c.as_os_str().to_str().unwrap().to_string())
            .collect();
        assert_eq!(components_of(p), std_components, "{p:?}");
    }
    assert_eq!(join_path("/a", "b"), "/a/b");
    assert_eq!(join_path("/a/", "/b"), "/b");
    assert_eq!(join_path("", "b"), "b");
    assert!(starts_with_path("/a/b/c", "/a//b"));
    assert!(!starts_with_path("/a/bc", "/a/b"));
    assert!(same_path_exec("/a/./b/", "/a/b"));
}
