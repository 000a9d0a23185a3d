use soroban_debugger::cli::args::{InteractiveArgs, RunArgs};
use soroban_debugger::cli::logging::{json_log, log_filter, Verbosity};
use soroban_debugger::config::{Config, DebugConfig, OutputConfig};
use soroban_debugger::inspector::stack::CallStackInspector;
use soroban_debugger::inspector::storage::StorageInspector;
use soroban_debugger::output::StatusLabel;
use soroban_debugger::text::str_eq;
use soroban_debugger::ui::formatter::{label_message, shown, ColorKind, Formatter};
use std::path::PathBuf;

#[test]
fn call_stack_pushes_and_pops() {
    let mut stack = CallStackInspector::new();
    assert_eq!(stack.pop(), None);
    assert_eq!(stack.peek(), None);
    stack.push("main".to_string());
    stack.push("transfer".to_string());
    assert_eq!(stack.depth(), 2);
    assert_eq!(stack.peek(), Some("transfer"));
    assert_eq!(stack.get_stack(), &["main".to_string(), "transfer".to_string()]);
    assert_eq!(stack.pop(), Some("transfer".to_string()));
    assert_eq!(stack.get_stack(), &["main".to_string()]);
    stack.clear();
    assert_eq!(stack.depth(), 0);
    assert!(CallStackInspector::default().get_stack().is_empty());
}

#[test]
fn call_stack_renders_one_line_per_frame() {
    let mut stack = CallStackInspector::new();
    assert_eq!(stack.display(), vec!["Call Stack: (empty)".to_string()]);
    stack.push("main".to_string());
    assert_eq!(stack.display(), vec!["Call Stack:".to_string(), "→ main".to_string()]);
    stack.push("transfer".to_string());
    stack.push("check".to_string());
    assert_eq!(
        stack.display(),
        vec![
            "Call Stack:".to_string(),
            "└─ main".to_string(),
            "  └─ transfer".to_string(),
            "    → check".to_string(),
        ]
    );
}

#[test]
fn storage_sets_gets_and_renders() {
    let mut storage = StorageInspector::new();
    assert_eq!(storage.get("count"), None);
    assert_eq!(storage.display(), vec!["Storage: (empty)".to_string()]);
    storage.set("count".to_string(), "0".to_string());
    storage.set("owner".to_string(), "alice".to_string());
    storage.set("count".to_string(), "1".to_string());
    assert_eq!(storage.get("count"), Some(&"1".to_string()));
    assert_eq!(storage.get("owner"), Some(&"alice".to_string()));
    assert_eq!(storage.get("Count"), None);
    assert_eq!(storage.keys(), &vec!["count".to_string(), "owner".to_string()]);
    assert_eq!(storage.get_all().len(), 2);
    assert_eq!(storage.get_all().get("count"), Some(&"1".to_string()));
    assert_eq!(storage.get_all().get("owner"), Some(&"alice".to_string()));
    assert!(!storage.get_all().contains_key("Count"));
    assert_eq!(
        storage.display(),
        vec![
            "Storage:".to_string(),
            "  count = 1".to_string(),
            "  owner = alice".to_string(),
        ]
    );
    storage.clear();
    assert!(storage.get_all().is_empty());
    assert!(storage.keys().is_empty());
    assert_eq!(storage.get("count"), None);
    assert_eq!(storage.display(), vec!["Storage: (empty)".to_string()]);
    assert!(StorageInspector::default().get_all().is_empty());
}

#[test]
fn storage_shows_its_keys_in_the_order_in_which_they_were_first_set() {
    let mut storage = StorageInspector::new();
    for key in ["zeta", "alpha", "mid", "alpha", "beta", "zeta"] {
        storage.set(key.to_string(), key.to_uppercase());
    }
    storage.set("mid".to_string(), "".to_string());
    assert_eq!(
        storage.keys(),
        &vec!["zeta".to_string(), "alpha".to_string(), "mid".to_string(), "beta".to_string()]
    );
    assert_eq!(storage.get_all().len(), 4);
    assert_eq!(
        storage.display(),
        vec![
            "Storage:".to_string(),
            "  zeta = ZETA".to_string(),
            "  alpha = ALPHA".to_string(),
            "  mid = ".to_string(),
            "  beta = BETA".to_string(),
        ]
    );
    // The same key in other letters is another key; so is the empty key.
    storage.set("Zeta".to_string(), "1".to_string());
    storage.set("".to_string(), "2".to_string());
    assert_eq!(storage.keys().len(), 6);
    assert_eq!(storage.get(""), Some(&"2".to_string()));
    assert_eq!(storage.get("zeta"), Some(&"ZETA".to_string()));
}

#[test]
fn formatter_formats_values_and_calls() {
    assert_eq!(Formatter::format_value("42"), "42");
    assert_eq!(Formatter::format_storage_entry("count", "1"), "count = 1");
    assert_eq!(Formatter::format_function_call("transfer", Some("1, 2")), "transfer(1, 2)");
    assert_eq!(Formatter::format_function_call("ping", None), "ping()");
}

#[test]
fn formatter_formats_the_budget() {
    assert_eq!(
        Formatter::format_budget(500, 1000, "50.0", 2048, 1 << 20, "0.2"),
        "CPU: 500/1000 (50.0%) | Memory: 2048/1048576 bytes (0.2%)"
    );
    let share = |used: u64, limit: u64| format!("{:.1}", (used as f64 / limit as f64) * 100.0);
    assert_eq!(
        Formatter::format_budget(1, 3, &share(1, 3), 0, 7, &share(0, 7)),
        "CPU: 1/3 (33.3%) | Memory: 0/7 bytes (0.0%)"
    );
}

#[test]
fn formatter_labels_messages_when_colors_are_off() {
    let mut formatter = Formatter::new();
    assert!(formatter.colors());
    formatter.configure_colors(false);
    assert!(!formatter.colors());
    assert_eq!(formatter.info("ready"), "[INFO] ready");
    assert_eq!(formatter.success("done"), "[PASS] done");
    assert_eq!(formatter.warning("careful"), "[WARN] careful");
    assert_eq!(formatter.error("broken"), "[FAIL] broken");
    assert_eq!(formatter.apply_color("", ColorKind::Info), "[INFO] ");
    assert_eq!(StatusLabel::Pass.as_str(), "[PASS]");
    assert_eq!(StatusLabel::Fail.as_str(), "[FAIL]");
}

fn is_colored(text: &str, message: &str, palette_index: &str) -> bool {
    let select = format!("\u{1b}[38;5;{}m", palette_index);
    let starts = [select.as_str(), "\u{1b}[m"];
    let ends = ["\u{1b}[39m", "\u{1b}[m"];
    starts.iter().any(|s| ends.iter().any(|e| text == format!("{}{}{}", s, message, e)))
}

// With colors on a message is colored, or labelled where the terminal
// takes no colors.
fn is_shown(text: &str, message: &str, palette_index: &str, label: &str) -> bool {
    is_colored(text, message, palette_index) || text == format!("{} {}", label, message)
}

#[test]
fn formatter_colors_messages_when_colors_are_on() {
    let formatter = Formatter::default();
    assert!(is_shown(&formatter.info("ready"), "ready", "12", "[INFO]"));
    assert!(is_shown(&formatter.success("done"), "done", "10", "[PASS]"));
    assert!(is_shown(&formatter.warning("careful"), "careful", "11", "[WARN]"));
    assert!(is_shown(&formatter.error("broken"), "broken", "9", "[FAIL]"));
    assert!(is_shown(&formatter.apply_color("", ColorKind::Error), "", "9", "[FAIL]"));
    assert_ne!(formatter.info("ready"), "ready");
    assert!(formatter.info("ready").contains("ready"));
    assert!(!is_shown(&formatter.info("ready"), "ready", "9", "[FAIL]"));
}

#[test]
fn label_message_puts_the_label_in_front() {
    assert_eq!(label_message("ready", ColorKind::Info), "[INFO] ready");
    assert_eq!(label_message("done", ColorKind::Success), "[PASS] done");
    assert_eq!(label_message("careful", ColorKind::Warning), "[WARN] careful");
    assert_eq!(label_message("", ColorKind::Error), "[FAIL] ");
}

#[test]
fn shown_keeps_a_painted_text_as_it_is() {
    let painted = "\u{1b}[38;5;12mready\u{1b}[39m".to_string();
    assert_eq!(shown(painted.clone(), "ready", ColorKind::Info), painted);
    // Whatever was written is kept, also where it is not the message.
    assert_eq!(shown("x".to_string(), "ready", ColorKind::Error), "x");
    assert_eq!(shown(" ".to_string(), "", ColorKind::Warning), " ");
}

#[test]
fn shown_labels_the_message_where_nothing_was_painted() {
    assert_eq!(shown(String::new(), "ready", ColorKind::Info), "[INFO] ready");
    assert_eq!(shown(String::new(), "done", ColorKind::Success), "[PASS] done");
    assert_eq!(shown(String::new(), "careful", ColorKind::Warning), "[WARN] careful");
    assert_eq!(shown(String::new(), "", ColorKind::Error), "[FAIL] ");
}

#[test]
fn log_filter_prefers_the_setting_of_the_environment() {
    assert_eq!(log_filter(Some("trace"), "info"), "trace");
    assert_eq!(log_filter(Some(""), "info"), "");
    assert_eq!(log_filter(None, "info"), "soroban_debugger=info");
    assert_eq!(
        log_filter(None, Verbosity::Verbose.to_log_level()),
        "soroban_debugger=debug"
    );
    assert_eq!(log_filter(None, Verbosity::Quiet.to_log_level()), "soroban_debugger=error");
    assert_eq!(Verbosity::Normal.to_log_level(), "info");
}

#[test]
fn json_log_asks_only_whether_the_setting_is_there() {
    assert!(json_log(Some("1")));
    assert!(json_log(Some("")));
    assert!(json_log(Some("false")));
    assert!(!json_log(None));
}

#[test]
fn formatter_reads_the_no_color_setting() {
    let mut formatter = Formatter::new();
    formatter.configure_colors_from_env(Some("1"));
    assert!(!formatter.colors());
    formatter.configure_colors_from_env(None);
    assert!(formatter.colors());
    formatter.configure_colors_from_env(Some("  x "));
    assert!(!formatter.colors());
    formatter.configure_colors_from_env(Some(""));
    assert!(formatter.colors());
    formatter.configure_colors_from_env(Some(" \t\n"));
    assert!(formatter.colors());
}

#[test]
fn no_color_setting_of_white_space_leaves_colors_on() {
    let mut formatter = Formatter::new();
    // Every character that counts as white space.
    let blank = "\u{9}\u{a}\u{b}\u{c}\u{d} \u{85}\u{a0}\u{1680}\u{2000}\u{2001}\u{2002}\u{2003}\u{2004}\u{2005}\u{2006}\u{2007}\u{2008}\u{2009}\u{200a}\u{2028}\u{2029}\u{202f}\u{205f}\u{3000}";
    formatter.configure_colors_from_env(Some(blank));
    assert!(formatter.colors());
    // Their neighbours do not.
    for other in ["\u{8}", "\u{e}", "\u{1f}", "!", "\u{84}", "\u{86}", "\u{a1}", "\u{180e}", "\u{1fff}", "\u{200b}", "\u{2027}", "\u{202a}", "\u{2060}", "\u{3001}", "\u{feff}"] {
        formatter.configure_colors(true);
        formatter.configure_colors_from_env(Some(other));
        assert!(!formatter.colors(), "{:?}", other);
        formatter.configure_colors(true);
        formatter.configure_colors_from_env(Some(format!(" {} ", other).as_str()));
        assert!(!formatter.colors(), "{:?}", other);
    }
}

fn run_args() -> RunArgs {
    RunArgs {
        contract: PathBuf::from("contract.wasm"),
        function: "increment".to_string(),
        args: None,
        storage: None,
        breakpoint: Vec::new(),
        network_snapshot: None,
        verbose: false,
        format: None,
        show_events: false,
        filter_topic: None,
        repeat: Some(3),
        storage_filter: vec!["count*".to_string()],
    }
}

fn config() -> Config {
    Config {
        debug: DebugConfig {
            breakpoints: vec!["increment".to_string(), "reset".to_string()],
            verbosity: Some(2),
        },
        output: OutputConfig { format: Some("json".to_string()), show_events: Some(true) },
    }
}

#[test]
fn merge_config_fills_in_what_the_command_line_left_open() {
    let mut args = run_args();
    args.merge_config(&config());
    assert_eq!(args.breakpoint, vec!["increment".to_string(), "reset".to_string()]);
    assert!(args.show_events);
    assert_eq!(args.format, Some("json".to_string()));
    assert!(args.verbose);
    assert_eq!(args.function, "increment");
    assert_eq!(args.contract, PathBuf::from("contract.wasm"));
    assert_eq!(args.repeat, Some(3));
    assert_eq!(args.storage_filter, vec!["count*".to_string()]);
}

#[test]
fn merge_config_keeps_what_the_command_line_gave() {
    let mut args = run_args();
    args.breakpoint = vec!["main".to_string()];
    args.format = Some("text".to_string());
    let mut config = config();
    config.output.show_events = Some(false);
    config.debug.verbosity = Some(0);
    args.merge_config(&config);
    assert_eq!(args.breakpoint, vec!["main".to_string()]);
    assert_eq!(args.format, Some("text".to_string()));
    assert!(!args.show_events);
    assert!(!args.verbose);

    let mut args = run_args();
    args.show_events = true;
    args.verbose = true;
    args.merge_config(&Config::default());
    assert!(args.show_events);
    assert!(args.verbose);
    assert!(args.breakpoint.is_empty());
    assert_eq!(args.format, None);
}

#[test]
fn interactive_merge_config_changes_nothing() {
    let mut args = InteractiveArgs {
        contract: PathBuf::from("c.wasm"),
        network_snapshot: None,
        verbose: false,
    };
    args.merge_config(&config());
    assert_eq!(args.contract, PathBuf::from("c.wasm"));
    assert_eq!(args.network_snapshot, None);
    assert!(!args.verbose);
}

#[test]
fn text_helpers() {
    assert!(str_eq("abc", "abc"));
    assert!(!str_eq("abc", "abd"));
    assert!(!str_eq("abc", "ab"));
    assert!(str_eq("", ""));
}
