use paloma_core::capability::app_search::launch_target;
use paloma_core::capability::Action;
use paloma_core::capability::app_search::{
    decode, is_interpreter, keep, query, score, AppEntry, DesktopFields, DesktopInfo,
};
use paloma_core::capability::IconRef;

fn app(name: &str, generic_name: Option<&str>, keywords: &[&str], exec: &[&str]) -> AppEntry {
    AppEntry {
        name: name.to_string(),
        generic_name: generic_name.map(str::to_string),
        keywords: keywords.iter().map(|kw| kw.to_string()).collect(),
        command: exec.iter().map(|arg| arg.to_string()).collect(),
        icon: None,
    }
}

fn firefox() -> AppEntry {
    app("Firefox", Some("Web Browser"), &["web", "browser", "internet"], &["firefox"])
}

fn firewall() -> AppEntry {
    app(
        "Firewall",
        None,
        &["firewall", "network", "security", "iptables", "netfilter"],
        &["/usr/bin/firewall-config"],
    )
}

fn filelight() -> AppEntry {
    app(
        "Filelight",
        Some("Disk Usage Statistics"),
        &["disk", "drive", "space", "storage", "usage"],
        &["filelight"],
    )
}

fn kfind() -> AppEntry {
    app(
        "KFind",
        Some("Find Files/Folders"),
        &["search", "file search", "search tool", "finder"],
        &["kfind"],
    )
}

fn vscode() -> AppEntry {
    app("Visual Studio Code", Some("Text Editor"), &["vscode"], &["/usr/share/code/code"])
}

#[test]
fn decode_filters_empty_keywords() {
    let entry = DesktopFields {
        name: Some("Firefox".to_string()),
        command: Some(vec!["firefox".to_string()]),
        generic_name: None,
        keywords: Some(
            ["web", "browser", "internet", "", " "].iter().map(|s| s.to_string()).collect(),
        ),
        icon: None,
    };

    let app = decode(entry).expect("test desktop entry should decode");

    assert_eq!(app.keywords, ["web", "browser", "internet"]);
}

#[test]
fn unrelated_apps_do_not_match() {
    assert!(score("fire", &firefox()).is_some());
    assert!(score("fire", &firewall()).is_some());
    assert_eq!(score("fire", &filelight()), None);
    assert_eq!(score("fire", &kfind()), None);
}

#[test]
fn every_query_word_must_match() {
    assert!(score("fire web", &firefox()).is_some());
    assert_eq!(score("fire web", &firewall()), None);
}

#[test]
fn names_rank_ahead_of_generic_names_and_keywords() {
    let browser = app("Browser", Some("Firefox helper"), &["fire"], &["browser"]);

    assert!(score("fire", &firefox()) > score("fire", &browser));
}

#[test]
fn acronyms_and_keyword_prefixes_match() {
    assert!(score("vsc", &vscode()).is_some());
}

#[test]
fn interpreters_are_recognised_by_file_name() {
    assert!(is_interpreter("/usr/bin/python3"));
    assert!(is_interpreter("env"));
    assert!(!is_interpreter("/usr/bin/firefox"));
    assert!(!is_interpreter("pythonic"));
}

#[test]
fn query_ranks_best_first_and_skips_non_matches() {
    let entries = vec![firewall(), filelight(), firefox()];
    let items = query(&entries, "  fire  ");
    let titles: Vec<&str> = items.iter().map(|i| i.title.as_str()).collect();
    assert_eq!(titles.len(), 2);
    assert!(titles.contains(&"Firefox"));
    assert!(titles.contains(&"Firewall"));
    assert!(query(&entries, "   ").is_empty());
}

#[test]
fn query_breaks_score_ties_by_name_then_order() {
    let entries = vec![
        app("beta", None, &[], &["x"]),
        app("Alpha", None, &[], &["x"]),
        app("alpha", None, &[], &["x"]),
    ];
    let items = query(&entries, "x");
    let titles: Vec<&str> = items.iter().map(|i| i.title.as_str()).collect();
    assert_eq!(titles, vec!["Alpha", "alpha", "beta"]);
}

#[test]
fn item_opens_the_application() {
    let mut a = firefox();
    a.icon = Some("firefox-icon".to_string());
    let item = a.to_item();
    assert_eq!(item.title, "Firefox");
    assert_eq!(item.subtitle.as_deref(), Some("Web Browser"));
    assert_eq!(item.icon, Some(IconRef::Name("firefox-icon".to_string())));
    assert_eq!(item.actions.len(), 1);
    assert_eq!(item.actions[0].label, "Open");
    assert_eq!(item.actions[0].params, vec!["firefox".to_string()]);
    assert!(item.actions[0].primary);
}

fn info(appid: &str, exec: Option<&str>) -> DesktopInfo {
    DesktopInfo {
        appid: appid.to_string(),
        flatpak: None,
        exec_line: exec.map(str::to_string),
        not_show_in: None,
        only_show_in: None,
        no_display: false,
    }
}

#[test]
fn keep_drops_duplicates_false_commands_and_hidden_entries() {
    let mut seen = Vec::new();
    assert!(keep(&info("a", Some("  run --flag")), None, &mut seen));
    assert_eq!(seen, vec!["a".to_string()]);
    assert!(!keep(&info("a", Some("run")), None, &mut seen));
    assert!(!keep(&info("b", Some("false")), None, &mut seen));
    assert!(!keep(&info("c", None), None, &mut seen));
    let mut hidden = info("d", Some("run"));
    hidden.no_display = true;
    assert!(!keep(&hidden, None, &mut seen));
    let mut gnome_only = info("e", Some("run"));
    gnome_only.only_show_in = Some(vec!["GNOME".to_string()]);
    let kde = vec!["KDE".to_string()];
    assert!(!keep(&gnome_only, Some(&kde), &mut seen));
    let gnome = vec!["gnome".to_string()];
    assert!(keep(&gnome_only, Some(&gnome), &mut seen));
    let mut flat = info("f", Some("run"));
    flat.flatpak = Some("org.app".to_string());
    assert!(keep(&flat, None, &mut seen));
    assert_eq!(seen.last().map(String::as_str), Some("org.app.f"));
}

#[test]
fn launch_splits_program_from_arguments() {
    let action = Action {
        label: "Open".to_string(),
        params: vec!["firefox".to_string(), "--new-window".to_string(), "%u".to_string()],
        primary: true,
    };
    assert_eq!(
        launch_target(action),
        Some(("firefox".to_string(), vec!["--new-window".to_string(), "%u".to_string()]))
    );
    let empty = Action { label: "Open".to_string(), params: vec![], primary: true };
    assert_eq!(launch_target(empty), None);
}

#[test]
fn long_queries_are_scored_while_the_sum_fits() {
    let firefox = app("Firefox", None, &[], &["firefox"]);
    let query_text = "fire ".repeat(60000);
    let s = score(&query_text, &firefox).expect("every atom matches and the sum fits in u32");
    assert!(s >= 60000 * 10000);
}
