use perlink::chooser::{expansion_headline, expansion_request, handle_message, start_chooser, ChooserState, Reaction};
use perlink::cli::{parse_args, CliAction};
use perlink::layout::{browser_button_label, window_height};

fn args(words: &[&str]) -> Vec<String> {
    words.iter().map(|w| w.to_string()).collect()
}

#[test]
fn parse_args_commands() {
    assert!(matches!(parse_args(&args(&["perlink"])), CliAction::NoArgument));
    assert!(matches!(parse_args(&args(&["perlink", "reinit"])), CliAction::Reinit));
    assert!(matches!(parse_args(&args(&["perlink", "clear"])), CliAction::Clear));
    assert!(matches!(parse_args(&args(&["perlink", "install"])), CliAction::Install));
    assert!(matches!(parse_args(&args(&["perlink", "uninstall"])), CliAction::Uninstall));
    match parse_args(&args(&["perlink", "add", "Work Firefox", "firefox -P work %s"])) {
        CliAction::Add { name, command } => {
            assert_eq!(name, "Work Firefox");
            assert_eq!(command, "firefox -P work %s");
        }
        _ => panic!("add was not recognised"),
    }
}

#[test]
fn parse_args_links_and_unknown_words() {
    match parse_args(&args(&["perlink", "https://bit.ly/3abc123"])) {
        CliAction::OpenUrl(u) => assert_eq!(u, "https://bit.ly/3abc123"),
        _ => panic!("https link was not recognised"),
    }
    match parse_args(&args(&["perlink", "http://www.example.com"])) {
        CliAction::OpenUrl(u) => assert_eq!(u, "http://www.example.com"),
        _ => panic!("http link was not recognised"),
    }
    match parse_args(&args(&["perlink", "www.example.com"])) {
        CliAction::Unknown(u) => assert_eq!(u, "www.example.com"),
        _ => panic!("a link without scheme is not a command"),
    }
    match parse_args(&args(&["perlink", "Reinit"])) {
        CliAction::Unknown(u) => assert_eq!(u, "Reinit"),
        _ => panic!("command words are case sensitive"),
    }
}

#[test]
fn start_with_and_without_link() {
    let (st, headline, expand) = start_chooser(Some("https://www.example.com/a/very/long/path/that/goes/on"));
    assert_eq!(expand.unwrap(), "https://www.example.com/a/very/long/path/that/goes/on");
    assert_eq!(st.url, "https://www.example.com/a/very/long/path/that/goes/on");
    assert_eq!(st.expanded_url, st.url);
    assert_eq!(headline.unwrap(), "https://www.example.com/a/very/long/path");
    let (st, headline, expand) = start_chooser(None);
    assert!(expand.is_none());
    assert_eq!(st.url, " ");
    assert_eq!(st.expanded_url, " ");
    assert!(headline.is_none());
}

#[test]
fn messages_of_the_window() {
    let mut st = ChooserState { url: "https://a.org".to_string(), expanded_url: "https://b.org".to_string() };
    match handle_message(&mut st, "expandurl") {
        Reaction::Expand(u) => assert_eq!(u, "https://a.org"),
        _ => panic!(),
    }
    match handle_message(&mut st, "all") {
        Reaction::OpenAll(u) => assert_eq!(u, "https://a.org"),
        _ => panic!(),
    }
    match handle_message(&mut st, "svc") {
        Reaction::CopyToClipboard(u) => assert_eq!(u, "https://a.org"),
        _ => panic!(),
    }
    assert!(matches!(handle_message(&mut st, "svw"), Reaction::Nothing));
    match handle_message(&mut st, "firefox --private-window") {
        Reaction::OpenAndQuit { command, url } => {
            assert_eq!(command, "firefox --private-window");
            assert_eq!(url, "https://b.org");
        }
        _ => panic!(),
    }
    assert_eq!(st.url, "https://a.org");
    assert_eq!(st.expanded_url, "https://b.org");
    match handle_message(&mut st, "https://picked.example.org/x") {
        Reaction::ShowUrl(h) => assert_eq!(h, "https://picked.example.org/x"),
        _ => panic!(),
    }
    assert_eq!(st.url, "https://picked.example.org/x");
    assert_eq!(st.expanded_url, "https://picked.example.org/x");
}

#[test]
fn expansion_answers() {
    assert_eq!(expansion_request("https://unshorten.me/s/", "https://bit.ly/x"), "https://unshorten.me/s/https://bit.ly/x");
    assert_eq!(expansion_headline("https://long.example.org/page", Some("https://bit.ly/x")).unwrap(), "https://long.example.org/page");
    assert_eq!(expansion_headline("Error: INVALID URL", Some("https://bit.ly/x")).unwrap(), "https://bit.ly/x");
    assert_eq!(expansion_headline("invalid", None), None);
    let long = "x".repeat(50);
    assert_eq!(expansion_headline(&long, None).unwrap(), "x".repeat(40));
}

#[test]
fn window_heights() {
    assert_eq!(window_height(0), 350);
    assert_eq!(window_height(-5), 350);
    assert_eq!(window_height(3), 350);
    assert_eq!(window_height(7), 410);
    assert_eq!(window_height(9), 410);
    assert_eq!(window_height(20), 590);
    assert_eq!(window_height(31), 770);
    assert_eq!(window_height(34), 800);
    assert_eq!(window_height(1000), 800);
    assert_eq!(window_height(i32::MAX), 800);
    let mut last = window_height(i32::MIN);
    for c in -10..200 {
        let h = window_height(c);
        assert!(last <= h);
        last = h;
    }
}

#[test]
fn browser_labels() {
    assert_eq!(browser_button_label("The firefox beta"), "beta firef");
    assert_eq!(browser_button_label("Chrome"), "Chrome");
    assert_eq!(browser_button_label("   "), "   ");
}
