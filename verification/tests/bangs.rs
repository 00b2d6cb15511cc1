use ferrisbot::bangs::{
    codeberg_bang, duckduckgo_bang, gh_bang, google_bang, push_spaces_encoded, wikipedia_bang,
};

#[test]
fn github_link_keeps_the_path() {
    assert_eq!(gh_bang("rust-lang/rust"), "https://github.com/rust-lang/rust");
    assert_eq!(gh_bang("a b"), "https://github.com/a b");
}

#[test]
fn codeberg_link_keeps_the_path() {
    assert_eq!(codeberg_bang("forgejo/forgejo"), "https://codeberg.org/forgejo/forgejo");
}

#[test]
fn duckduckgo_encodes_spaces() {
    assert_eq!(
        duckduckgo_bang("rust lang book"),
        "https://duckduckgo.com/search?q=rust%20lang%20book"
    );
}

#[test]
fn google_encodes_spaces() {
    assert_eq!(google_bang("verus  rust"), "https://google.com/search?q=verus%20%20rust");
    assert_eq!(google_bang(""), "https://google.com/search?q=");
}

#[test]
fn wikipedia_encodes_spaces() {
    assert_eq!(
        wikipedia_bang("Rust (programming language)"),
        "https://en.wikipedia.org/wiki/Rust%20(programming%20language)"
    );
}

#[test]
fn encoded_terms_have_no_spaces() {
    let mut out = String::from("q=");
    push_spaces_encoded(&mut out, " a b ");
    assert_eq!(out, "q=%20a%20b%20");
    assert!(!out.contains(' '));
    let mut plain = String::new();
    push_spaces_encoded(&mut plain, "nospace");
    assert_eq!(plain, "nospace");
}
