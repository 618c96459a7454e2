use orchestrator::paths::{
    accept_file, decide_acceptance, judge, kb, path_ranks, rank_from, sanitize_file,
    PrefixVerdict,
};

#[test]
fn test_accept_file() {
    let mut exeprefixes = [
        "/usr/bin",
        "/usr/sbin",
        "/home/user/personal/acceptedfolder",
        "!/home/user/personal",
    ];
    exeprefixes.sort();

    assert!(accept_file("/usr/bin/ls", &exeprefixes));
    assert!(accept_file("/home/user/foobar", &exeprefixes));
    assert!(!accept_file("/home/user/personal/notaccept", &exeprefixes));
    assert!(accept_file(
        "/home/user/personal/acceptedfolder/file",
        &exeprefixes
    ));
    assert!(accept_file("/no/match", &exeprefixes));
    // test with empty exeprefixes
    assert!(accept_file("/usr/bin/ls", &[] as &[&str]));
}

#[test]
fn test_accept_file_with_complex_prefixes() {
    let mut exeprefixes = [
        "/usr/local/bin",
        "!/usr/local",
        "/usr/local/bin/accepted",
        "!/usr/local/bin/rejected",
    ];
    exeprefixes.sort();

    assert!(accept_file("/usr/local/bin/accepted/file", &exeprefixes));
    assert!(!accept_file("/usr/local/other", &exeprefixes));
    assert!(accept_file("/usr/local/bin/other", &exeprefixes));
}

#[test]
fn test_sanitize_file() {
    assert_eq!(sanitize_file("/bin/bash.#prelink#.12345"), Some("/bin/bash"));
    assert_eq!(sanitize_file("/bin/bash"), Some("/bin/bash"));
    assert_eq!(sanitize_file("/bin/bash(deleted)"), None);
}

#[test]
fn test_sanitize_file_with_no_root() {
    assert_eq!(sanitize_file("relative/path"), None);
}

#[test]
fn test_sanitize_file_with_deleted_suffix() {
    assert_eq!(sanitize_file("/usr/bin/bash(deleted)"), None);
}

#[test]
fn test_kb() {
    assert_eq!(kb(0), 0);
    assert_eq!(kb(1023), 1);
    assert_eq!(kb(1024), 1);
    assert_eq!(kb(1025), 2);
    assert_eq!(kb(2047), 2);
    assert_eq!(kb(2048), 2);
    assert_eq!(kb(2049), 3);
}

#[test]
fn kb_of_the_largest_value_does_not_overflow() {
    assert_eq!(kb(u64::MAX), 18_014_398_509_481_984);
    assert_eq!(kb(u64::MAX - 1023), 18_014_398_509_481_983);
}

#[test]
fn sanitizer_examples() {
    assert_eq!(sanitize_file("/bin/bash.#prelink#.N"), Some("/bin/bash"));
    assert_eq!(sanitize_file("/x(deleted)"), None);
    assert_eq!(sanitize_file("rel/x"), None);
    assert_eq!(sanitize_file(""), None);
}

#[test]
fn sanitizer_cuts_at_the_first_infix_and_keeps_unicode() {
    assert_eq!(
        sanitize_file("/opt/\u{e9}t\u{e9}/lib.#prelink#.1.#prelink#.2"),
        Some("/opt/\u{e9}t\u{e9}/lib")
    );
    // the mark counts wherever it stands, also behind the infix
    assert_eq!(sanitize_file("/lib/x.#prelink#.1 (deleted)"), None);
    assert_eq!(sanitize_file("/lib/(deleted)/x"), None);
}

#[test]
fn prefix_matches_whole_components_only() {
    let prefixes = ["/usr/bin"];
    assert!(judge("/usr/bin/ls", prefixes[0]).matched);
    assert!(judge("/usr/bin", prefixes[0]).matched);
    assert!(!judge("/usr/binx/ls", prefixes[0]).matched);
    assert!(!judge("/usr", prefixes[0]).matched);
}

#[test]
fn negative_prefix_is_what_follows_the_mark() {
    let v = judge("/home/user/personal/x", "!/home/user/personal");
    assert_eq!(v, PrefixVerdict { negative: true, matched: true });
    let v = judge("/home/other", "!/home/user/personal");
    assert_eq!(v, PrefixVerdict { negative: true, matched: false });
    let v = judge("/home/other", "/home");
    assert_eq!(v, PrefixVerdict { negative: false, matched: true });
}

#[test]
fn last_matching_prefix_decides() {
    let yes = PrefixVerdict { negative: false, matched: true };
    let no = PrefixVerdict { negative: true, matched: true };
    let miss_pos = PrefixVerdict { negative: false, matched: false };
    let miss_neg = PrefixVerdict { negative: true, matched: false };
    assert!(decide_acceptance(&vec![]));
    assert!(decide_acceptance(&vec![miss_pos, miss_neg]));
    assert!(!decide_acceptance(&vec![yes, no]));
    assert!(decide_acceptance(&vec![no, yes]));
    assert!(!decide_acceptance(&vec![yes, no, miss_pos, miss_neg]));
    assert!(decide_acceptance(&vec![no, yes, miss_neg]));
}

#[test]
fn unsorted_prefixes_let_the_parent_win() {
    // the negative parent behind the positive child shadows it
    let prefixes = ["/home/user/personal/acceptedfolder", "!/home/user/personal"];
    assert!(!accept_file("/home/user/personal/acceptedfolder/file", &prefixes));
}

#[test]
fn a_rank_counts_the_paths_before() {
    assert_eq!(rank_from(&vec![]), 0);
    assert_eq!(rank_from(&vec![false, true, true, false, true]), 3);
}

#[test]
fn paths_rank_component_by_component() {
    let paths: Vec<String> = ["/usr/lib-x/a", "/usr/lib/a", "/usr", "/usr/lib/a", "/usr/lib/a/b"]
        .iter()
        .map(|p| p.to_string())
        .collect();
    // `/usr/lib/a` comes before `/usr/lib-x/a`: `lib` is a whole component
    assert_eq!(path_ranks(&paths), vec![4, 1, 0, 1, 3]);
    assert_eq!(path_ranks(&Vec::new()), Vec::<usize>::new());
}
