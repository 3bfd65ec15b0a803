//! Which links may open, and with which program.

use herdr_reviewr::browser::{open_args, open_outcome, openable_url, openers, pick_opener};

#[test]
fn the_url_guard_admits_http_and_https_case_insensitively() {
    assert_eq!(openable_url("https://ci.example/1"), Ok("https://ci.example/1"));
    assert_eq!(openable_url("HTTP://ci.example"), Ok("HTTP://ci.example"));
    assert_eq!(openable_url("  https://x.dev  "), Ok("https://x.dev"), "trimmed");
}

#[test]
fn the_url_guard_rejects_other_schemes_and_hostile_bytes() {
    for bad in [
        "javascript:alert(1)",
        "file:///etc/passwd",
        "https:evil", // scheme without authority
        "https://",   // nothing after the scheme
        "ftp://host",
        "https://a\u{202e}b",   // bidi override
        "https://a\u{1b}[31mb", // control character
        "",
    ] {
        assert!(openable_url(bad).is_err(), "{bad:?} must not open");
    }
}

#[test]
fn a_refused_link_names_its_reason() {
    assert_eq!(openable_url("ftp://host"), Err("unsupported link scheme"));
    assert_eq!(openable_url("http:// "), Err("unsupported link scheme"));
}

#[test]
fn a_link_that_opened_opens_again_unchanged() {
    for url in ["\u{3000}hTtPs://\u{4e16}\u{754c}.example/a b\n", "http://x", "https://y?q=1&r=2"] {
        let once = openable_url(url).unwrap();
        assert_eq!(openable_url(once), Ok(once));
    }
}

#[test]
fn white_space_inside_a_link_counts_where_it_controls() {
    // A space is no control character, a tab or a line feed is one.
    assert_eq!(openable_url("http://a b"), Ok("http://a b"));
    assert!(openable_url("http://a\tb").is_err());
    assert!(openable_url("http://a\u{85}b").is_err());
    assert!(openable_url("http://a\u{2066}b").is_err());
    assert_eq!(openable_url("\thttp://a\n"), Ok("http://a"));
}

#[test]
fn a_scheme_of_letters_beyond_ascii_is_none() {
    // U+017F folds to `s` in Unicode, not in ASCII.
    assert!(openable_url("http\u{17f}://x").is_err());
    assert!(openable_url("\u{212a}ttp://x").is_err());
}

#[test]
fn the_openers_of_a_platform_are_tried_in_order() {
    let unix = openers(false);
    assert_eq!(unix.len(), 2);
    assert_eq!(unix[0].tool, "open");
    assert!(unix[0].args.is_empty());
    assert_eq!(unix[1].tool, "xdg-open");
    assert!(unix[1].args.is_empty());
    let windows = openers(true);
    assert_eq!(windows.len(), 1);
    assert_eq!(windows[0].tool, "rundll32");
    assert_eq!(windows[0].args, vec!["url.dll,FileProtocolHandler".to_string()]);
}

#[test]
fn an_opener_takes_the_url_as_it_is_behind_its_own_arguments() {
    let url = "https://x.dev/a b?q=1&r='2'";
    assert_eq!(open_args(&openers(false)[1], url), vec![url.to_string()]);
    assert_eq!(
        open_args(&openers(true)[0], url),
        vec!["url.dll,FileProtocolHandler".to_string(), url.to_string()]
    );
}

#[test]
fn the_first_installed_opener_wins() {
    assert_eq!(pick_opener(&vec![true, true]), Ok(0));
    assert_eq!(pick_opener(&vec![false, true, true]), Ok(1));
    let none = Err("no URL opener found (need `open`, `xdg-open`, or `rundll32`)");
    assert_eq!(pick_opener(&vec![false, false]), none);
    assert_eq!(pick_opener(&vec![]), none);
}

#[test]
fn an_opener_that_fails_is_named() {
    assert_eq!(open_outcome("xdg-open", true), Ok(()));
    assert_eq!(
        open_outcome("xdg-open", false),
        Err("xdg-open failed to open the URL".to_string())
    );
}
