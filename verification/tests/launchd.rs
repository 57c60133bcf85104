use remtodo::config::AppConfig;
use remtodo::launchd::{
    agent_status, generate_plist, has_fixed_output, log_path, log_tail,
    parse_launchctl_value, path_in_home, plist_path, xml_escape, AgentReply,
};
use remtodo::swift_cli::{find_reminders_helper, HelperSearch};

const LISTED: &str = "{\n\t\"LimitLoadToSessionType\" = \"Aqua\";\n\t\"Label\" = \
\"me.83noit.remtodo.agent\";\n\t\"LastExitStatus\" = 0;\n\t\"PID\" = 12345;\n};\n";

#[test]
fn special_characters_are_escaped() {
    assert_eq!(
        xml_escape("a<b> & \"c\" 'd' é"),
        "a&lt;b&gt; &amp; &quot;c&quot; 'd' é"
    );
    assert_eq!(xml_escape("&lt;"), "&amp;lt;");
    assert_eq!(xml_escape(""), "");
}

#[test]
fn escaping_is_that_of_replacing_in_turn() {
    for s in ["", "&", "<>&\"", "&&amp;<<", "plain"] {
        let expected = s
            .replace('&', "&amp;")
            .replace('<', "&lt;")
            .replace('>', "&gt;")
            .replace('"', "&quot;");
        assert_eq!(xml_escape(s), expected);
    }
}

#[test]
fn values_are_found_by_their_keys() {
    assert_eq!(parse_launchctl_value(LISTED, "PID"), Some("12345".to_string()));
    assert_eq!(
        parse_launchctl_value(LISTED, "LastExitStatus"),
        Some("0".to_string())
    );
    assert_eq!(
        parse_launchctl_value(LISTED, "Label"),
        Some("me.83noit.remtodo.agent".to_string())
    );
    assert_eq!(parse_launchctl_value(LISTED, "Program"), None);
    assert_eq!(parse_launchctl_value("\"PID\"\n\"PID\" = 7;;\r\n", "PID"), Some("7".to_string()));
    assert_eq!(parse_launchctl_value("", "PID"), None);
}

#[test]
fn plist_starts_the_agent_with_its_arguments() {
    let config = AppConfig {
        poll_interval_secs: 90,
        ..AppConfig::default()
    };
    let text = generate_plist(
        &config,
        Some("/c & d.toml"),
        "/usr/bin/remtodo",
        Some("/h/reminders-helper"),
        "/log",
    );
    assert_eq!(
        text,
        r#"<?xml version="1.0" encoding="UTF-8"?>
<!DOCTYPE plist PUBLIC "-//Apple//DTD PLIST 1.0//EN" "http://www.apple.com/DTDs/PropertyList-1.0.dtd">
<plist version="1.0">
<dict>
    <key>Label</key>
    <string>me.83noit.remtodo.agent</string>
    <key>ProgramArguments</key>
    <array>
        <string>/usr/bin/remtodo</string>
        <string>sync</string>
        <string>--config</string>
        <string>/c &amp; d.toml</string>
    </array>
    <key>StartInterval</key>
    <integer>90</integer>
    <key>RunAtLoad</key>
    <true/>
    <key>EnvironmentVariables</key>
    <dict>
        <key>REMINDERS_HELPER</key>
        <string>/h/reminders-helper</string>
    </dict>
    <key>StandardOutPath</key>
    <string>/log</string>
    <key>StandardErrorPath</key>
    <string>/log</string>
</dict>
</plist>
"#
    );
    let short = generate_plist(&config, None, "remtodo", None, "/log");
    assert!(!short.contains("--config"));
    assert!(!short.contains("EnvironmentVariables"));
    assert!(short.contains("    <true/>\n    <key>StandardOutPath</key>"));
}

fn nothing_found() -> HelperSearch {
    HelperSearch {
        env: None,
        sibling: None,
        release: None,
        debug: None,
        which: None,
    }
}

#[test]
fn helper_is_the_first_that_exists() {
    let found = |p: &str| Some((p.to_string(), true));
    let missing = |p: &str| Some((p.to_string(), false));
    assert_eq!(find_reminders_helper(&nothing_found()), None);
    let all = HelperSearch {
        env: missing("/env"),
        sibling: found("/sibling"),
        release: found("/release"),
        debug: found("/debug"),
        which: Some("/which\n".to_string()),
    };
    assert_eq!(find_reminders_helper(&all), Some("/sibling".to_string()));
    let late = HelperSearch {
        sibling: missing("/sibling"),
        release: None,
        ..all
    };
    assert_eq!(find_reminders_helper(&late), Some("/debug".to_string()));
    let last = HelperSearch {
        which: Some(" /which\n".to_string()),
        ..nothing_found()
    };
    assert_eq!(find_reminders_helper(&last), Some("/which".to_string()));
    let blank = HelperSearch {
        which: Some("\n".to_string()),
        ..nothing_found()
    };
    assert_eq!(find_reminders_helper(&blank), None);
}

#[test]
fn status_tells_about_the_agent() {
    assert_eq!(
        agent_status(&AgentReply::Listed(LISTED.to_string())),
        vec!["Status: running (PID 12345)", "LastExitStatus: 0 (ok)"]
    );
    assert_eq!(
        agent_status(&AgentReply::Listed("\"LastExitStatus\" = 1;".to_string())),
        vec![
            "Status: loaded (not currently running)",
            "LastExitStatus: 1 (non-zero — check logs)",
        ]
    );
    assert_eq!(agent_status(&AgentReply::NotLoaded), vec!["Status: not loaded"]);
    assert_eq!(
        agent_status(&AgentReply::Failed("gone".to_string())),
        vec!["Failed to run launchctl: gone"]
    );
}

#[test]
fn log_shows_its_last_lines() {
    let log = "1\n2\n3\n4\n5\n6\n7\n";
    assert_eq!(log_tail(log, 5), vec!["3", "4", "5", "6", "7"]);
    assert_eq!(log_tail("1\n2", 5), vec!["1", "2"]);
    assert!(log_tail("", 5).is_empty());
}

#[test]
fn paths_lie_in_the_home_directory() {
    let home = Some("/Users/me".to_string());
    assert_eq!(path_in_home(&home, "Library/Logs/remtodo.log"), "/Users/me/Library/Logs/remtodo.log");
    assert_eq!(path_in_home(&None, "x"), "./x");
    assert!(plist_path().ends_with("/Library/LaunchAgents/me.83noit.remtodo.agent.plist"));
    assert!(log_path().ends_with("/Library/Logs/remtodo.log"));
}

#[test]
fn output_is_fixed_where_it_is_absolute_or_in_the_home() {
    for (output, fixed) in [("/a", true), ("~/a", true), ("a", false), ("", false)] {
        let config = AppConfig {
            output: output.to_string(),
            ..AppConfig::default()
        };
        assert_eq!(has_fixed_output(&config), fixed, "{output:?}");
    }
}
