use perlink::launch::{launch_all, launch_plan, plan_launch, Platform};
use perlink::links::{link_buttons, link_finder_str};
use perlink::order::{order_browsers, sort_browsers};
use perlink::protocol::{program_file_name, program_file_name_or_default, registration_plan, unregistration_keys, unregistration_values};
use perlink::setup::{collect_registry_browsers, default_browsers, default_expansion_service, RegistryBrowser};

fn pairs(v: &[(&str, &str)]) -> Vec<(String, String)> {
    v.iter().map(|(a, b)| (a.to_string(), b.to_string())).collect()
}

#[test]
fn init_try() {
    let linux = default_browsers(Platform::Linux, &vec![]);
    assert_eq!(
        linux,
        pairs(&[
            ("Firefox Private", "firefox --private-window"),
            ("Firefox", "firefox"),
            ("Chrome", "google-chrome"),
            ("Chromium", "chromium"),
            ("Waterfox", "waterfox"),
            ("Vivaldi", "vivaldi-stable"),
            ("Opera", "opera"),
        ])
    );
    let mac = default_browsers(Platform::MacOs, &vec![]);
    assert_eq!(mac.len(), 4);
    assert_eq!(mac[2], ("Chrome".to_string(), "open -a 'Google Chrome' --args".to_string()));
    let win = default_browsers(Platform::Windows, &vec![]);
    assert_eq!(win[3], ("Internet Explorer".to_string(), "iexplore.exe".to_string()));
    let detected = pairs(&[("\"C:\\edge.exe\"", "Edge")]);
    assert_eq!(default_browsers(Platform::Windows, &detected), pairs(&[("Edge", "\"C:\\edge.exe\"")]));
    assert!(default_browsers(Platform::Other, &detected).is_empty());
    assert_eq!(default_expansion_service(), "https://unshorten.me/s/");
}

fn reg(key: &str, display: Option<&str>, command: Option<&str>) -> RegistryBrowser {
    RegistryBrowser {
        key_name: key.to_string(),
        display_name: display.map(|d| d.to_string()),
        command: command.map(|c| c.to_string()),
    }
}

#[test]
fn getbrowsers() {
    let machine = vec![
        reg("FIREFOX.EXE", Some("Mozilla Firefox"), Some("firefox.exe")),
        reg("Broken", Some("Broken"), None),
        reg("Google Chrome", None, Some("chrome.exe")),
        reg("Dup", Some("Dup"), Some("firefox.exe")),
    ];
    let user = vec![
        reg("Opera", Some("Opera"), Some("opera.exe")),
        reg("Chrome again", Some("Chrome"), Some("chrome.exe")),
        reg("Opera2", Some("Opera 2"), Some("opera.exe")),
    ];
    let found = collect_registry_browsers(&machine, &user);
    assert_eq!(
        found,
        pairs(&[
            ("firefox.exe", "Mozilla Firefox"),
            ("chrome.exe", "Google Chrome"),
            ("firefox.exe", "Dup"),
            ("opera.exe", "Opera"),
        ])
    );
    assert!(collect_registry_browsers(&vec![], &vec![]).is_empty());
}

#[test]
fn trybopen() {
    let windows = launch_plan(
        r#""C:\Program Files\Google\Chrome\Application\chrome.exe" --incognito --new-window"#,
        "https://google.com",
        Platform::Windows,
    )
    .unwrap();
    assert_eq!(windows.program, r"C:\Program Files\Google\Chrome\Application\chrome.exe");
    assert_eq!(windows.args, vec!["--incognito", "--new-window", "https://google.com"]);
    assert!(!windows.default_opener);
    let macos = launch_plan(
        r#""/Applications/Google Chrome.app/Contents/MacOS/Google Chrome" --incognito --new-window"#,
        "https://google.com",
        Platform::MacOs,
    )
    .unwrap();
    assert_eq!(macos.program, "/Applications/Google Chrome.app/Contents/MacOS/Google Chrome");
    assert_eq!(macos.args, vec!["--incognito", "--new-window", "https://google.com"]);
    let linux = launch_plan(r#"chromium --incognito --new-window"#, "https://google.com", Platform::Linux).unwrap();
    assert_eq!(linux.program, "chromium");
    assert_eq!(linux.args, vec!["--incognito", "--new-window", "https://google.com"]);
}

#[test]
fn default_openers_and_refusals() {
    let w = launch_plan("", "https://a.org", Platform::Windows).unwrap();
    assert_eq!(w.program, "cmd.exe");
    assert_eq!(w.args, vec!["/c", "start", "", "https://a.org"]);
    assert!(w.default_opener);
    let m = launch_plan("  ", "https://a.org", Platform::MacOs).unwrap();
    assert_eq!(m.program, "open");
    assert_eq!(m.args, vec!["https://a.org"]);
    let l = plan_launch(Some(vec![]), "https://a.org", Platform::Linux).unwrap();
    assert_eq!(l.program, "xdg-open");
    assert!(launch_plan("", "https://a.org", Platform::Other).is_err());
    assert!(launch_plan("firefox \"unclosed", "https://a.org", Platform::Linux).is_err());
    assert!(plan_launch(None, "https://a.org", Platform::Linux).is_err());
    let p = plan_launch(Some(vec!["firefox".to_string()]), "https://a.org", Platform::Other).unwrap();
    assert_eq!(p.program, "firefox");
    assert_eq!(p.args, vec!["https://a.org"]);
}

#[test]
fn opening_in_all_browsers() {
    let stored = pairs(&[("Firefox", "firefox"), ("Nothing", ""), ("Bad", "x 'y")]);
    let plans = launch_all(&stored, "https://a.org", Platform::Linux);
    assert_eq!(plans.len(), 3);
    assert_eq!(plans[0].as_ref().unwrap().program, "firefox");
    assert_eq!(plans[1].as_ref().unwrap().program, "xdg-open");
    assert!(plans[2].is_err());
}

#[test]
fn ordering_browsers() {
    let stored = pairs(&[("b", "1"), ("", "empty"), ("B", "2"), ("a", "3"), ("C", "4"), ("A", "5")]);
    let ordered = order_browsers(&stored);
    assert_eq!(ordered, pairs(&[("a", "3"), ("A", "5"), ("b", "1"), ("B", "2"), ("C", "4")]));
    assert_eq!(order_browsers(&ordered), ordered);
    let sorted = sort_browsers(&pairs(&[("Zed", "z"), ("apple", "a")]));
    assert_eq!(sorted, pairs(&[("apple", "a"), ("Zed", "z")]));
    assert!(order_browsers(&vec![]).is_empty());
}

#[test]
fn finding_links() {
    assert_eq!(
        link_finder_str("see https://example.com/a and http://x.org, not foo@bar.com"),
        vec!["https://example.com/a", "http://x.org"]
    );
    assert!(link_finder_str("no links here").is_empty());
    for link in link_finder_str("a http://x.org b ftp://y.net/q c") {
        assert!(link.contains("://"));
    }
    let long = format!("https://example.com/{}", "p".repeat(60));
    let buttons = link_buttons(&vec!["Title - https://a.org/x".to_string(), String::new(), long.clone()]);
    assert_eq!(buttons.len(), 2);
    assert_eq!(buttons[0], ("https://a.org/x".to_string(), "https://a.org/x".to_string()));
    assert_eq!(buttons[1].0, long.chars().take(40).collect::<String>());
    assert_eq!(buttons[1].1, long);
}

#[test]
fn registering_the_handler() {
    let plan = registration_plan(r"C:\Tools\perlink.exe", "perlink.exe");
    assert_eq!(plan.len(), 15);
    assert_eq!(
        plan[2],
        (
            r"Software\Classes\Perlink.URLHandler\shell\open\command".to_string(),
            String::new(),
            r#""C:\Tools\perlink.exe" "%1""#.to_string()
        )
    );
    assert_eq!(plan[9].0, r"Software\Classes\Applications\perlink.exe\SupportedTypes");
    assert_eq!(plan[14].0, r"Software\Classes\perlink\shell\open\command");
    let keys = unregistration_keys("chooser.exe");
    assert_eq!(
        keys,
        vec![
            r"Software\Classes\Applications\chooser.exe",
            r"Software\Classes\http\shell\open\command",
            r"Software\Classes\https\shell\open\command",
            r"Software\Classes\perlink",
            r"Software\Classes\Perlink.URLHandler",
            r"Software\Perlink",
        ]
    );
    assert_eq!(unregistration_values(), vec![(r"Software\RegisteredApplications".to_string(), "Perlink".to_string())]);
    assert_eq!(plan[4].0, r"Software\Perlink\Capabilities");
    assert_eq!(plan[6].0, r"Software\Perlink\Capabilities\UrlAssociations");
    let written: Vec<(String, String)> = plan.iter().map(|(k, n, _)| (k.clone(), n.clone())).collect();
    let same_program_keys = unregistration_keys("perlink.exe");
    for (key, name) in written {
        let removed = same_program_keys.iter().any(|d| key == *d || key.starts_with(&format!("{}\\", d)))
            || unregistration_values().contains(&(key.clone(), name.clone()));
        assert!(removed, "{} {} stays", key, name);
    }
    assert_eq!(program_file_name_or_default(None), "perlink.exe");
    assert_eq!(program_file_name_or_default(Some("x.exe".to_string())), "x.exe");
}

#[test]
fn program_file_names() {
    assert_eq!(program_file_name("chooser.exe"), "chooser.exe");
    assert_eq!(program_file_name(".."), "perlink.exe");
    assert_eq!(program_file_name("tools/.."), "perlink.exe");
    assert_eq!(program_file_name("tools/perlink-dev"), "perlink-dev");
    assert_eq!(program_file_name("/opt/perlink/bin/perlink"), "perlink");
}

#[test]
fn placeholder_stands_for_the_link() {
    let p = launch_plan("firefox --private-window %s", "https://www.example.com", Platform::Linux).unwrap();
    assert_eq!(p.program, "firefox");
    assert_eq!(p.args, vec!["--private-window", "https://www.example.com"]);
    let p = launch_plan("firefox -P work %s", "https://a.org", Platform::Windows).unwrap();
    assert_eq!(p.args, vec!["-P", "work", "https://a.org"]);
    let p = launch_plan("x %s --then %s", "u", Platform::Linux).unwrap();
    assert_eq!(p.args, vec!["u", "--then", "u"]);
    let p = launch_plan("x a%s", "u", Platform::Linux).unwrap();
    assert_eq!(p.args, vec!["a%s", "u"]);
}
