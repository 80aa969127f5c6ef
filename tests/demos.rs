use qtvstat::{
    demo_filenames_from_body, demo_filenames_url, demo_urls_from_filenames, fetch_status,
    filename_to_url,
};

#[test]
fn test_filename_to_url() {
    assert_eq!(
        filename_to_url("example.com", "foo.mvd"),
        "http://example.com/dl/demos/foo.mvd"
    );
}

#[test]
fn test_demo_filenames_url() {
    assert_eq!(demo_filenames_url("example.com"), "http://example.com/demo_filenames");
}

#[test]
fn body_keeps_demo_names_in_order() {
    assert_eq!(demo_filenames_from_body("a.mvd b.txt\nc.mvd"), vec!["a.mvd", "c.mvd"]);
}

#[test]
fn body_splits_on_runs_of_white_space() {
    let body = "  x.mvd\t\t\ny.mvd \r\n z.mvd.bak  w.MVD\u{3000}v.mvd\n";
    assert_eq!(demo_filenames_from_body(body), vec!["x.mvd", "y.mvd", "v.mvd"]);
}

#[test]
fn empty_body_has_no_demos() {
    assert!(demo_filenames_from_body("").is_empty());
    assert!(demo_filenames_from_body(" \n\t ").is_empty());
}

#[test]
fn suffix_alone_counts_but_shorter_words_do_not() {
    assert_eq!(demo_filenames_from_body(".mvd mvd vd d .mv"), vec![".mvd"]);
}

#[test]
fn urls_follow_filenames_in_order() {
    let names = vec!["b.mvd".to_string(), "a.mvd".to_string()];
    assert_eq!(
        demo_urls_from_filenames("qtv.example:28000", &names),
        vec![
            "http://qtv.example:28000/dl/demos/b.mvd",
            "http://qtv.example:28000/dl/demos/a.mvd"
        ]
    );
    assert!(demo_urls_from_filenames("h", &Vec::new()).is_empty());
}

#[test]
fn failed_status_names_the_url() {
    assert_eq!(fetch_status("http://h/demo_filenames", true), Ok(()));
    assert_eq!(
        fetch_status("http://h/demo_filenames", false),
        Err("qtvstat::demo_filenames: unable to fetch http://h/demo_filenames".to_string())
    );
}
