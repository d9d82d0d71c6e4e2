//! Which panes run agents, and what the agents are doing.

use remux::agents::{
    AgentPattern, AgentRules, AgentState, AgentsConfig, ProcessNames, Reason,
};
use remux::detection::{first_match, foreground_command, same_group, Detected, DetectionLog};
use remux::jobs::{job_candidates, MAX_CANDIDATES};
use remux::screen::{Cell, Row, Screen};
use std::cell::Cell as StdCell;
use std::time::Duration;

/// Print text on a screen. A line that does not fit goes on in the next row, which is
/// marked; the first line that does not fit scrolls into the history.
fn feed(s: &mut Screen, text: &str) {
    let down = |s: &mut Screen| {
        if s.cursor_y + 1 < s.rows {
            s.cursor_y += 1;
        } else {
            let top = s.grid.remove(0);
            s.scrollback.push(top);
            let cells = (0..s.cols).map(|_| Cell::empty()).collect();
            s.grid.push(Row { cells, wrapped: false });
        }
    };
    for c in text.chars() {
        match c {
            '\r' => s.cursor_x = 0,
            '\n' => down(s),
            other => {
                if s.cursor_x == s.cols {
                    let y = s.cursor_y as usize;
                    s.grid[y].wrapped = true;
                    s.cursor_x = 0;
                    down(s);
                }
                let (x, y) = (s.cursor_x as usize, s.cursor_y as usize);
                s.grid[y].cells[x].c = other;
                s.cursor_x += 1;
            }
        }
    }
}

fn rules(patterns: Vec<AgentPattern>, working_ms: u64) -> AgentRules {
    AgentRules::from_config(&AgentsConfig {
        commands: vec!["pilot".to_string(), "codex".to_string()],
        working_ms,
        scan_rows: 12,
        pattern: patterns,
    })
}

fn pattern(name: &str, command: Option<&str>, regex: &str) -> AgentPattern {
    AgentPattern {
        name: name.to_string(),
        command: command.map(|c| c.to_string()),
        regex: regex.to_string(),
    }
}

/// Agents as users have them, with the questions that they ask.
fn shipped() -> AgentRules {
    let commands = ["pilot", "codex", "opencode", "omp"];
    let patterns = vec![
        pattern(
            "pilot-proceed",
            Some("pilot"),
            r"Do you want to (proceed|continue|allow this connection|allow Pilot to fetch this content|use this API key)\?",
        ),
        pattern("pilot-select", Some("pilot"), r"Enter to select.*Esc to cancel"),
        pattern("codex-run", Some("codex"), r"Would you like to run the following command\?"),
        pattern("codex-edit", Some("codex"), r"Would you like to make the following edits\?"),
        pattern("codex-grant", Some("codex"), r"Would you like to grant these permissions\?"),
        pattern("codex-terminal", Some("codex"), r"Would you like to send input to terminal"),
        pattern("codex-decline", Some("codex"), r"No, and tell Codex what to do differently"),
        pattern("opencode-permission", Some("opencode"), r"Permission required"),
        pattern("opencode-allow", Some("opencode"), r"Allow once\s+Allow always\s+Reject"),
        pattern("omp-allow", Some("omp"), r"Allow tool: "),
    ];
    AgentRules::from_config(&AgentsConfig {
        commands: commands.iter().map(|c| c.to_string()).collect(),
        working_ms: 500,
        scan_rows: 12,
        pattern: patterns,
    })
}

const PILOT_QUESTIONS: [&str; 5] = [
    "Do you want to proceed?",
    "Do you want to continue?",
    "Do you want to allow this connection?",
    "Do you want to allow Pilot to fetch this content?",
    "Do you want to use this API key?",
];

#[test]
fn only_configured_commands_are_agents() {
    let r = shipped();
    assert_eq!(r.match_command("pilot", None), Some("pilot"));
    assert_eq!(r.match_command("codex", None), Some("codex"));
    assert_eq!(r.match_command("zsh", None), None);
    assert_eq!(r.match_command("vim", None), None);
    assert_eq!(r.match_command("shell", None), None);
}

#[test]
fn a_process_named_after_its_version_is_still_matched_by_argv0() {
    let r = shipped();
    assert_eq!(r.match_command("2.1.251", Some("pilot")), Some("pilot"));
}

#[test]
fn an_argv0_that_is_a_path_matches_on_its_basename() {
    let r = shipped();
    assert_eq!(
        r.match_command("node", Some("/Users/rakan/.local/bin/pilot")),
        Some("pilot")
    );
    assert_eq!(r.match_command("node", Some("/usr/local/bin/")), None);
    assert_eq!(r.match_command("node", Some("")), None);
}

#[test]
fn each_candidate_matches_without_help_from_the_other() {
    let r = shipped();
    assert_eq!(r.match_command("pilot", None), Some("pilot"));
    assert_eq!(r.match_command("pilot", Some("/bin/zsh")), Some("pilot"));
    assert_eq!(r.match_command("bun", Some("codex")), Some("codex"));
}

#[test]
fn the_process_name_outranks_argv0() {
    let r = AgentRules::from_config(&AgentsConfig {
        commands: vec!["pilot".to_string(), "codex".to_string()],
        working_ms: 500,
        scan_rows: 12,
        pattern: Vec::new(),
    });
    assert_eq!(r.match_command("pilot", Some("codex")), Some("pilot"));
}

#[test]
fn a_pane_matching_on_neither_name_is_not_an_agent() {
    let r = shipped();
    assert_eq!(r.match_command("2.1.251", Some("/usr/bin/vim")), None);
    assert_eq!(r.match_command("zsh", Some("-zsh")), None);
}

#[test]
fn a_login_shells_leading_dash_is_not_stripped() {
    let r = AgentRules::from_config(&AgentsConfig {
        commands: vec!["zsh".to_string()],
        working_ms: 500,
        scan_rows: 12,
        pattern: Vec::new(),
    });
    assert_eq!(r.match_command("bash", Some("-zsh")), None);
    assert_eq!(r.match_command("bash", Some("/bin/zsh")), Some("zsh"));
}

#[test]
fn a_pane_matched_by_argv0_is_still_scoped_to_its_configured_patterns() {
    let r = rules(vec![pattern("approval", Some("pilot"), r"proceed\?")], 500);
    let command = r
        .match_command("2.1.251", Some("/opt/pilot"))
        .expect("argv[0] names a configured command");
    assert_eq!(command, "pilot");
    assert_eq!(
        r.classify(command, &["proceed?".to_string()], Duration::from_secs(60).as_nanos())
            .state,
        AgentState::NeedsInput
    );
}


const OMP_BLOCKED: [&str; 11] = [
    "╭─ Allow tool: bash ──────╮",
    "│                                                                                                                                          │",
    "│ Command: touch /tmp/omp_probe_z                                                                                                          │",
    "│                                                                                                                                          │",
    "│   Approve                                                                                                                               │",
    "│    Deny                                                                                                                                  │",
    "│                                                                                                                                          │",
    "│ up/down navigate  enter select  esc cancel                                                                                               │",
    "│                                                                                                                                          │",
    "╰──────╯",
    " ⠴ 47s · 󰪣 qwen3.8:27b ·  ~/Work/Personal/Remux ·  master *6 ·  11.9%/262K 󰁨",
];

const OMP_ANSWERED: [&str; 10] = [
    " Tip: Say `orchestrate` in your message to drive a multi-phase task with parallel subagents — watch",
    "      it glow as you type",
    "──────",
    " Update Available",
    " New version 18.2.9 is available. Run: omp update",
    "──────",
    " Run this exact shell command and nothing else, do not explain: touch /tmp/omp_probe_z",
    "╭──────╮",
    "│ $ touch /tmp/omp_probe_z                                                                                                                 │",
    "├─── Output ──────┤",
];

const OPENCODE_BLOCKED: [&str; 11] = [
    "  ┃",
    "  ┃  △ Permission required                                                                              Connect from 75+ providers to",
    "  ┃    ← Access external directory /tmp                                                                 use other models, including",
    "  ┃                                                                                                     Pilot, GPT, Gemini etc",
    "  ┃  Patterns",
    "  ┃                                                                                                     Connect provider        /connect",
    "  ┃  - /tmp/*",
    "  ┃",
    "  ┃                                                                                                 ~/Work/Personal/Remux:master",
    "  ┃   Allow once   Allow always   Reject           ctrl+f fullscreen  ⇆ select  enter confirm",
    "  ┃                                                                                                 • OpenCode 1.18.32",
];

const OPENCODE_ANSWERED: [&str; 10] = [
    "  ┃",
    "  ┃  (no output)                                                                                    LSP",
    "  ┃                                                                                                 LSPs are disabled",
    "     Done.",
    "     ▣  Build · Big Pickle · 9.4s",
    "                                                                                                      ⬖ Getting started                ✕",
    "                                                                                                        OpenCode includes free models",
    "                                                                                                        so you can start immediately.",
    "                                                                                                        Connect from 75+ providers to",
    "                                                                                                        use other models, including",
];

const CODEX_APPROVALS: [&str; 5] = [
    "Would you like to run the following command?",
    "Would you like to make the following edits?",
    "Would you like to grant these permissions?",
    "Would you like to send input to terminal",
    "No, and tell Codex what to do differently",
];

#[test]
fn the_shipped_patterns_recognise_omps_real_approval_box() {
    let r = shipped();
    let screen: Vec<String> = OMP_BLOCKED.iter().map(|s| s.to_string()).collect();
    let v = r.classify("omp", &screen, Duration::from_secs(30).as_nanos());
    assert_eq!(v.state, AgentState::NeedsInput, "{v:?}");
    assert_eq!(v.reason, Reason::Pattern("omp-allow".to_string()));
}

#[test]
fn the_answered_omp_box_is_not_a_blocked_signal() {
    let r = shipped();
    let screen: Vec<String> = OMP_ANSWERED.iter().map(|s| s.to_string()).collect();
    assert_eq!(
        r.classify("omp", &screen, Duration::from_secs(30).as_nanos()).state,
        AgentState::Idle
    );
}

#[test]
fn the_shipped_patterns_recognise_opencodes_real_permission_prompt() {
    let r = shipped();
    let screen: Vec<String> = OPENCODE_BLOCKED.iter().map(|s| s.to_string()).collect();
    assert_eq!(
        r.classify("opencode", &screen, Duration::from_secs(30).as_nanos())
            .state,
        AgentState::NeedsInput
    );
    for (line, want) in [
        (OPENCODE_BLOCKED[1], "opencode-permission"),
        (OPENCODE_BLOCKED[9], "opencode-allow"),
    ] {
        let v = r.classify("opencode", &[line.to_string()], Duration::from_secs(30).as_nanos());
        assert_eq!(v.state, AgentState::NeedsInput, "{line:?}");
        assert_eq!(v.reason, Reason::Pattern(want.to_string()), "{line:?}");
    }
    let collapsed = "  \u{2503}  Allow once Allow always Reject  enter confirm";
    assert_eq!(
        r.classify(
            "opencode",
            &[collapsed.to_string()],
            Duration::from_secs(30).as_nanos()
        )
        .state,
        AgentState::NeedsInput,
        "the options row must match however the agent spaced it"
    );
}

#[test]
fn the_answered_opencode_permission_is_not_a_blocked_signal() {
    let r = shipped();
    let screen: Vec<String> = OPENCODE_ANSWERED.iter().map(|s| s.to_string()).collect();
    assert_eq!(
        r.classify("opencode", &screen, Duration::from_secs(30).as_nanos())
            .state,
        AgentState::Idle
    );
}

#[test]
fn the_shipped_codex_patterns_are_binary_strings_never_a_watched_prompt() {
    let r = shipped();
    for line in CODEX_APPROVALS {
        let v = r.classify("codex", &[line.to_string()], Duration::from_secs(30).as_nanos());
        assert_eq!(v.state, AgentState::NeedsInput, "{line:?} -> {v:?}");
    }
}

#[test]
fn a_yes_no_prompt_no_longer_pins_a_codex_pane_red() {
    let r = shipped();
    for line in ["Continue? [y/N]", "overwrite? [yes/no]"] {
        assert_eq!(
            r.classify("codex", &[line.to_string()], Duration::from_secs(30).as_nanos())
                .state,
            AgentState::Idle,
            "{line:?}"
        );
    }
}

#[test]
fn one_agents_prompt_does_not_decide_another_agents_pane() {
    let r = shipped();
    let omp: Vec<String> = OMP_BLOCKED.iter().map(|s| s.to_string()).collect();
    let oc: Vec<String> = OPENCODE_BLOCKED.iter().map(|s| s.to_string()).collect();
    for command in ["opencode", "pilot", "codex"] {
        assert_eq!(
            r.classify(command, &omp, Duration::from_secs(30).as_nanos()).state,
            AgentState::Idle,
            "omp's box decided a {command} pane"
        );
    }
    for command in ["omp", "pilot", "codex"] {
        assert_eq!(
            r.classify(command, &oc, Duration::from_secs(30).as_nanos()).state,
            AgentState::Idle,
            "opencode's prompt decided a {command} pane"
        );
    }
}

#[test]
fn recent_output_reads_as_working() {
    let r = rules(Vec::new(), 500);
    let v = r.classify(
        "pilot",
        &["thinking...".to_string()],
        Duration::from_millis(100).as_nanos(),
    );
    assert_eq!(v.state, AgentState::Working);
}

#[test]
fn silence_past_the_window_decays_working_to_idle() {
    let r = rules(Vec::new(), 500);
    let v = r.classify("pilot", &["done".to_string()], Duration::from_millis(900).as_nanos());
    assert_eq!(v.state, AgentState::Idle);
}

#[test]
fn needs_input_survives_silence_far_beyond_the_working_window() {
    let r = rules(
        vec![pattern(
            "approval",
            Some("pilot"),
            r"Do you want to proceed",
        )],
        500,
    );
    let screen = vec![
        "  Edit file.rs".to_string(),
        "Do you want to proceed?".to_string(),
        "> 1. Yes".to_string(),
    ];
    for silent_ms in [0, 600, 5_000, 3_600_000] {
        let v = r.classify("pilot", &screen, Duration::from_millis(silent_ms).as_nanos());
        assert_eq!(
            v.state,
            AgentState::NeedsInput,
            "silence of {silent_ms}ms must not clear NeedsInput"
        );
    }
}

#[test]
fn needs_input_outranks_working() {
    let r = rules(
        vec![pattern(
            "approval",
            Some("pilot"),
            r"Do you want to proceed",
        )],
        500,
    );
    let v = r.classify(
        "pilot",
        &[
            "Do you want to proceed?".to_string(),
            "* thinking".to_string(),
        ],
        Duration::from_millis(1).as_nanos(),
    );
    assert_eq!(v.state, AgentState::NeedsInput);
}

#[test]
fn resumed_output_clears_needs_input_because_the_prompt_is_gone() {
    let r = rules(
        vec![pattern(
            "approval",
            Some("pilot"),
            r"Do you want to proceed",
        )],
        500,
    );
    let after = vec!["Editing file.rs".to_string()];
    assert_eq!(
        r.classify("pilot", &after, Duration::from_millis(10).as_nanos())
            .state,
        AgentState::Working
    );
}

#[test]
fn a_pattern_is_scoped_to_its_command() {
    let r = rules(vec![pattern("approval", Some("pilot"), r"proceed\?")], 500);
    let screen = vec!["proceed?".to_string()];
    assert_eq!(
        r.classify("pilot", &screen, Duration::from_secs(60).as_nanos()).state,
        AgentState::NeedsInput
    );
    assert_eq!(
        r.classify("codex", &screen, Duration::from_secs(60).as_nanos()).state,
        AgentState::Idle,
        "another agent's pattern must not decide this one"
    );
}

#[test]
fn a_pattern_without_a_command_applies_to_every_agent() {
    let r = rules(vec![pattern("any", None, r"waiting for you")], 500);
    for cmd in ["pilot", "codex"] {
        assert_eq!(
            r.classify(
                cmd,
                &["waiting for you".to_string()],
                Duration::from_secs(60).as_nanos()
            )
            .state,
            AgentState::NeedsInput
        );
    }
}

#[test]
fn an_invalid_regex_is_skipped_and_the_others_still_work() {
    let r = rules(
        vec![
            pattern("broken", None, r"("),
            pattern("good", None, r"blocked here"),
        ],
        500,
    );
    assert_eq!(r.patterns.len(), 1, "the broken one was dropped, not fatal");
    assert_eq!(
        r.classify(
            "pilot",
            &["blocked here".to_string()],
            Duration::from_secs(60).as_nanos()
        )
        .state,
        AgentState::NeedsInput
    );
}

#[test]
fn the_verdict_names_the_rule_that_fired() {
    let r = rules(vec![pattern("pilot-proceed", None, r"proceed")], 500);
    let v = r.classify("pilot", &["proceed?".to_string()], Duration::from_secs(9).as_nanos());
    assert!(
        v.why.contains("pilot-proceed"),
        "the explain path must name the pattern, got {:?}",
        v.why
    );
    let v = r.classify("pilot", &["nothing".to_string()], Duration::from_secs(9).as_nanos());
    assert!(
        v.why.contains("no pattern matched"),
        "and must say when none did, got {:?}",
        v.why
    );
}

#[test]
fn the_shipped_patterns_recognise_pilots_real_permission_prompts() {
    let r = shipped();
    for question in PILOT_QUESTIONS {
        let screen = vec![question.to_string(), "❯ 1. Yes".to_string()];
        assert_eq!(
            r.classify("pilot", &screen, Duration::from_secs(30).as_nanos()).state,
            AgentState::NeedsInput,
            "the panel has to work with zero configuration: {question:?}"
        );
    }
}

const PILOT_QUESTION_MENU: [&str; 8] = [
    "Which color do you like?",
    "",
    "\u{276f} 1. Blue",
    "  2. Red",
    "  3. Yellow",
    "  4. Type something.",
    "  5. Chat about this",
    "Enter to select \u{b7} \u{2191}/\u{2193} to navigate \u{b7} Esc to cancel",
];

const PILOT_ANSWERED: [&str; 2] = [
    "\u{23fa} User answered Pilot's questions:",
    "  \u{23bf}  \u{b7} Which color do you like? \u{2192} Blue",
];

#[test]
fn the_question_menu_is_a_shipped_blocked_signal() {
    let r = shipped();
    let screen: Vec<String> = PILOT_QUESTION_MENU.iter().map(|s| s.to_string()).collect();
    let v = r.classify("pilot", &screen, Duration::from_secs(30).as_nanos());
    assert_eq!(v.state, AgentState::NeedsInput, "{v:?}");
    assert_eq!(v.reason, Reason::Pattern("pilot-select".to_string()));
}

#[test]
fn the_answered_question_menu_is_not_a_blocked_signal() {
    let r = shipped();
    let screen: Vec<String> = PILOT_ANSWERED.iter().map(|s| s.to_string()).collect();
    assert_eq!(
        r.classify("pilot", &screen, Duration::from_secs(30).as_nanos()).state,
        AgentState::Idle
    );
}

#[test]
fn half_the_selector_footer_does_not_match() {
    let r = shipped();
    for half in ["press Enter to select a file", "Esc to cancel"] {
        assert_eq!(
            r.classify("pilot", &[half.to_string()], Duration::from_secs(30).as_nanos())
                .state,
            AgentState::Idle,
            "{half:?}"
        );
    }
}

#[test]
fn a_bare_menu_row_is_not_a_shipped_blocked_signal() {
    let r = shipped();
    let screen = vec!["❯ 2. Yes, and don't ask again".to_string()];
    assert_eq!(
        r.classify("pilot", &screen, Duration::from_secs(30).as_nanos()).state,
        AgentState::Idle
    );
}

#[test]
fn a_user_can_add_a_menu_pattern_back() {
    let r = rules(vec![pattern("choice", Some("pilot"), r"❯\s*\d+\.")], 500);
    let screen = vec!["❯ 2. Yes, and don't ask again".to_string()];
    assert_eq!(
        r.classify("pilot", &screen, Duration::from_secs(30).as_nanos()).state,
        AgentState::NeedsInput
    );
}

#[test]
fn ordinary_agent_output_is_not_mistaken_for_a_prompt() {
    let r = shipped();
    let screen = vec![
        "● Read(src/main.rs)".to_string(),
        "  Read 120 lines".to_string(),
        "· Thinking… (12s)".to_string(),
    ];
    assert_eq!(
        r.classify("pilot", &screen, Duration::from_secs(30).as_nanos()).state,
        AgentState::Idle,
        "a false NeedsInput is worse than a missed one: it cries wolf"
    );
}

#[test]
fn the_scan_window_is_the_bottom_of_the_live_screen() {
    let r = AgentRules::from_config(&AgentsConfig {
        commands: vec!["pilot".to_string()],
        working_ms: 500,
        scan_rows: 2,
        pattern: Vec::new(),
    });
    let mut screen = Screen::new(20, 4, 100);
    feed(&mut screen, "top row\r\nsecond\r\nthird\r\nlast");
    let bottom = r.visible_bottom(&screen);
    assert_eq!(bottom.len(), 2, "only the configured number of rows");
    assert_eq!(bottom, vec!["third".to_string(), "last".to_string()]);
}

#[test]
fn output_at_the_top_of_a_mostly_empty_screen_is_still_scanned() {
    let r = AgentRules::from_config(&AgentsConfig {
        commands: vec!["pilot".to_string()],
        working_ms: 500,
        scan_rows: 4,
        pattern: vec![pattern("approval", None, r"Do you want to proceed")],
    });
    let mut screen = Screen::new(40, 30, 100);
    feed(&mut screen, "agent ready\r\nDo you want to proceed?\r\n> 1. Yes");
    let bottom = r.visible_bottom(&screen);
    assert!(
        bottom.iter().any(|l| l.contains("Do you want to proceed")),
        "the prompt must be in the scanned window, got {bottom:?}"
    );
    assert_eq!(
        r.classify("pilot", &bottom, Duration::from_secs(60).as_nanos()).state,
        AgentState::NeedsInput
    );
}

#[test]
fn a_prompt_that_wraps_on_a_space_keeps_the_space() {
    let r = AgentRules::from_config(&AgentsConfig {
        commands: vec!["pilot".to_string()],
        working_ms: 500,
        scan_rows: 12,
        pattern: vec![pattern("approval", None, r"Do you want to proceed")],
    });
    let mut screen = Screen::new(15, 10, 100);
    feed(&mut screen, "Do you want to proceed?");
    let bottom = r.visible_bottom(&screen);
    assert!(
        bottom.iter().any(|l| l.contains("Do you want to proceed")),
        "the wrap point's space is content, not padding; got {bottom:?}"
    );
    assert_eq!(
        r.classify("pilot", &bottom, Duration::from_secs(60).as_nanos()).state,
        AgentState::NeedsInput
    );
}

#[test]
fn every_shipped_question_matches_at_every_pane_width() {
    let r = shipped();
    let mut lines: Vec<(&str, &str)> =
        PILOT_QUESTIONS.iter().map(|q| ("pilot", *q)).collect();
    lines.push(("omp", OMP_BLOCKED[0]));
    lines.push(("opencode", OPENCODE_BLOCKED[1]));
    lines.push(("opencode", OPENCODE_BLOCKED[9]));
    for line in CODEX_APPROVALS {
        lines.push(("codex", line));
    }
    for (command, question) in lines {
        for cols in 8..=60u16 {
            let mut screen = Screen::new(cols, 40, 100);
            feed(&mut screen, question);
            assert_eq!(
                r.classify(command, &r.visible_bottom(&screen), Duration::from_secs(60).as_nanos())
                    .state,
                AgentState::NeedsInput,
                "{question:?} read as not-blocked at {cols} columns: {:?}",
                r.visible_bottom(&screen)
            );
        }
    }
}

#[test]
fn a_prompt_wrapped_across_two_rows_is_matched_as_one_line() {
    let r = AgentRules::from_config(&AgentsConfig {
        commands: vec!["pilot".to_string()],
        working_ms: 500,
        scan_rows: 12,
        pattern: vec![pattern("approval", None, r"Do you want to proceed")],
    });
    let mut screen = Screen::new(18, 10, 100);
    feed(&mut screen, "Do you want to proceed?");
    assert!(
        r.visible_bottom(&screen)
            .iter()
            .any(|l| l.contains("Do you want to proceed")),
        "soft-wrapped rows must rejoin, got {:?}",
        r.visible_bottom(&screen)
    );
    assert_eq!(
        r.classify(
            "pilot",
            &r.visible_bottom(&screen),
            Duration::from_secs(60).as_nanos()
        )
        .state,
        AgentState::NeedsInput
    );
}

#[test]
fn a_hard_newline_is_not_joined_to_the_next_line() {
    let r = AgentRules::from_config(&AgentsConfig {
        commands: vec!["pilot".to_string()],
        working_ms: 500,
        scan_rows: 12,
        pattern: vec![pattern("joined", None, r"firstsecond")],
    });
    let mut screen = Screen::new(40, 10, 100);
    feed(&mut screen, "first\r\nsecond");
    assert_eq!(
        r.classify(
            "pilot",
            &r.visible_bottom(&screen),
            Duration::from_secs(60).as_nanos()
        )
        .state,
        AgentState::Idle
    );
}

#[test]
fn an_unwrapped_line_still_loses_its_padding() {
    let r = shipped();
    let mut screen = Screen::new(40, 4, 100);
    feed(&mut screen, "hi");
    assert_eq!(r.visible_bottom(&screen), vec!["hi".to_string()]);
}

#[test]
fn a_blank_screen_scans_to_nothing() {
    let r = shipped();
    let screen = Screen::new(20, 10, 100);
    assert!(r.visible_bottom(&screen).is_empty());
}

#[test]
fn a_scan_window_larger_than_the_screen_is_the_whole_screen() {
    let r = shipped();
    let mut screen = Screen::new(20, 3, 100);
    feed(&mut screen, "a\r\nb\r\nc");
    assert_eq!(r.visible_bottom(&screen).len(), 3);
}

/// A process tree, as what lists the children of a process.
fn tree<'a>(edges: &'a [(i32, &'a [i32])]) -> impl Fn(i32) -> Vec<i32> + 'a {
    move |pid| {
        edges
            .iter()
            .find(|(p, _)| *p == pid)
            .map(|(_, kids)| kids.to_vec())
            .unwrap_or_default()
    }
}

fn names(name: &str, argv0: Option<&str>) -> ProcessNames {
    ProcessNames {
        name: name.to_string(),
        argv0: argv0.map(|a| a.to_string()),
    }
}

/// The first of some processes that is an agent; the first of them started the others.
fn first_of(
    r: &AgentRules,
    candidates: Vec<(i32, ProcessNames)>,
) -> Option<(i32, ProcessNames, &str)> {
    let leader = candidates[0].0;
    let rest: Vec<i32> = candidates[1..].iter().map(|(pid, _)| *pid).collect();
    let walk =
        job_candidates(leader, move |pid| if pid == leader { rest.clone() } else { Vec::new() });
    first_match(r, walk, move |pid| {
        let (_, n) = candidates.iter().find(|(p, _)| *p == pid).unwrap();
        names(&n.name, n.argv0.as_deref())
    })
}

#[test]
fn the_leader_is_the_first_candidate_and_the_rest_are_breadth_first() {
    let kids = tree(&[(1, &[2, 3]), (2, &[4]), (3, &[5])]);
    let got: Vec<i32> = job_candidates(1, kids).collect();
    assert_eq!(got, vec![1, 2, 3, 4, 5]);
}

#[test]
fn the_walk_stops_at_the_depth_bound() {
    let kids = tree(&[(1, &[2]), (2, &[3]), (3, &[4]), (4, &[5])]);
    let got: Vec<i32> = job_candidates(1, kids).collect();
    assert_eq!(got, vec![1, 2, 3, 4], "depth 4 is past the bound");
}

#[test]
fn the_walk_stops_at_the_candidate_bound() {
    let wide: Vec<i32> = (100..200).collect();
    let kids = |pid: i32| if pid == 1 { wide.clone() } else { Vec::new() };
    let got: Vec<i32> = job_candidates(1, kids).collect();
    assert_eq!(got.len(), MAX_CANDIDATES);
    assert_eq!(got[0], 1, "the leader is still first");
}

#[test]
fn a_childless_leader_ends_the_walk() {
    let got: Vec<i32> = job_candidates(1, |_| Vec::new()).collect();
    assert_eq!(got, vec![1]);
}

/// One way for the walk to run out.
type Route = (&'static str, Box<dyn Fn(i32) -> Vec<i32>>);

#[test]
fn a_childless_leader_costs_one_lookup() {
    let asked = StdCell::new(0);
    let mut walk = job_candidates(1, |pid| {
        assert_eq!(pid, 1);
        asked.set(asked.get() + 1);
        Vec::new()
    });
    assert_eq!((walk.next(), asked.get()), (Some(1), 0), "the leader costs none");
    for _ in 0..3 {
        assert_eq!((walk.next(), asked.get()), (None, 1));
    }
}

#[test]
fn a_generation_is_asked_for_when_it_is_exhausted() {
    let asked = StdCell::new(0);
    let kids = tree(&[(1, &[2, 3]), (2, &[4])]);
    let mut walk = job_candidates(1, |pid| {
        asked.set(asked.get() + 1);
        kids(pid)
    });
    let mut seen = Vec::new();
    while let Some(pid) = walk.next() {
        seen.push((pid, asked.get()));
    }
    assert_eq!(seen, vec![(1, 0), (2, 1), (3, 1), (4, 3)]);
}

#[test]
fn a_wide_job_is_cut_off_behind_the_bound() {
    let kids = |pid: i32| match pid {
        1 => (100..120).collect::<Vec<i32>>(),
        p if p < 200 => vec![p + 100, p + 200],
        _ => Vec::new(),
    };
    let mut all = vec![1];
    all.extend(100..120);
    all.extend((100..120).flat_map(kids));
    let walked = job_candidates(1, kids).collect();
    assert_eq!(walked, all[..MAX_CANDIDATES]);
}

#[test]
fn the_walk_is_fused_on_every_route_out() {
    let routes: [Route; 3] = [
        ("childless", Box::new(|_| Vec::new())),
        ("deep", Box::new(|pid| vec![pid + 1])),
        (
            "wide",
            Box::new(|pid| {
                if pid == 1 {
                    (100..300).collect()
                } else {
                    Vec::new()
                }
            }),
        ),
    ];
    for (name, children) in routes {
        let mut walk = job_candidates(1, children);
        while walk.next().is_some() {}
        for poll in 0..3 {
            assert_eq!(walk.next(), None, "{name}: poll {poll} past the end");
        }
    }
}

#[test]
fn a_wrapper_is_recognised_by_the_job_it_started() {
    let r = shipped();
    let candidates = vec![
        (10, names("MainThread", Some("node"))),
        (11, names("codex", Some("/opt/codex/bin/codex"))),
    ];
    let (pid, _, command) =
        first_of(&r, candidates).expect("the child is a configured agent");
    assert_eq!(pid, 11);
    assert_eq!(command, "codex");
}

#[test]
fn a_configured_leader_outranks_a_configured_descendant() {
    let r = shipped();
    let candidates = vec![(10, names("pilot", None)), (11, names("codex", None))];
    let (pid, _, command) = first_of(&r, candidates).expect("the leader is an agent");
    assert_eq!((pid, command), (10, "pilot"));
}

#[test]
fn a_job_of_unconfigured_processes_is_not_an_agent() {
    let r = shipped();
    let candidates = vec![
        (10, names("python3", Some("python3"))),
        (11, names("notanagent", Some("notanagent"))),
    ];
    assert!(first_of(&r, candidates).is_none());
}

#[test]
fn no_candidate_past_the_hit_is_ever_read() {
    let r = shipped();
    let reads = StdCell::new(0);
    let walk = job_candidates(10, |pid| if pid == 10 { vec![11, 12] } else { Vec::new() });
    let found = first_match(&r, walk, |pid| {
        reads.set(reads.get() + 1);
        names(if pid == 10 { "pilot" } else { "codex" }, None)
    });
    assert!(found.is_some());
    assert_eq!(reads.get(), 1, "the walk stopped at the first hit");
}

// -- the foreground job --------------------------------------------------

#[test]
fn a_leader_that_misses_is_looked_through() {
    let r = shipped();
    let kids = tree(&[(10, &[11, 12]), (11, &[13])]);
    let d = foreground_command(
        10,
        &names("MainThread", Some("node")),
        kids,
        |pid| names(if pid == 13 { "codex" } else { "git" }, None),
        &r,
    );
    match d {
        Detected::Descendant { pid, names, command } => {
            assert_eq!(pid, 13);
            assert_eq!(names.name, "codex");
            assert_eq!(command, "codex");
        }
        other => panic!("{other:?}"),
    }
}

#[test]
fn a_leader_that_is_an_agent_costs_no_walk() {
    let r = shipped();
    let d = foreground_command(
        10,
        &names("2.1.251", Some("/opt/pilot")),
        |_| panic!("no children are listed"),
        |_| panic!("no names are read"),
        &r,
    );
    assert!(matches!(d, Detected::Leader(c) if c == "pilot"));
}

#[test]
fn a_job_without_agents_is_nothing() {
    let r = shipped();
    let d = foreground_command(10, &names("zsh", None), |_| Vec::new(), |_| names("x", None), &r);
    assert!(matches!(d, Detected::Nothing));
}

#[test]
fn a_parked_child_is_not_in_the_job() {
    let children = vec![11, 12, 13];
    let groups = vec![Some(10), Some(12), None];
    assert_eq!(same_group(&children, &groups, 10), vec![11]);
}

#[test]
fn an_answer_is_logged_once() {
    let mut log = DetectionLog::new();
    let n = names("node", None);
    let d = Detected::Descendant { pid: 2, names: names("codex", None), command: "codex".into() };
    assert!(log.log_detection(1, &n, &d));
    assert!(!log.log_detection(1, &n, &d));
    assert!(log.log_detection(3, &n, &d), "another leader is another answer");
    assert!(log.log_detection(1, &n, &Detected::Nothing));
    assert!(!log.log_detection(1, &n, &Detected::Nothing));
}

#[test]
fn the_ordinary_answer_is_not_logged() {
    let mut log = DetectionLog::new();
    let d = Detected::Leader("pilot".to_string());
    assert!(!log.log_detection(1, &names("pilot", None), &d));
    assert!(log.log_detection(1, &names("2.1.251", Some("pilot")), &d));
}

#[test]
fn a_full_log_starts_over() {
    let mut log = DetectionLog::new();
    for pid in 0..256 {
        assert!(log.log_detection(pid, &names("zsh", None), &Detected::Nothing));
    }
    assert!(log.log_detection(0, &names("zsh", None), &Detected::Nothing));
    assert_eq!(log.seen.len(), 1);
}

// -- verdicts --------------------------------------------------------------

#[test]
fn a_verdict_explains_itself() {
    let r = rules(vec![pattern("ask \"me\"", None, "now")], 500);
    let v = r.classify("pilot", &["now".to_string()], 0);
    assert_eq!(v.why, "matched pattern \"ask \\\"me\\\"\"");
    let v = r.classify("pilot", &[], 500_000_000);
    assert_eq!((v.state, v.why.as_str()), (AgentState::Working, "output 500ms ago"));
    assert_eq!(v.reason, Reason::RecentOutput);
    let v = r.classify("pilot", &[], 500_000_001);
    assert_eq!(v.why, "no pattern matched; silent for 500ms");
    assert_eq!(v.reason, Reason::Silent);
}

#[test]
fn a_verdict_follows_from_the_hits() {
    let r = rules(
        vec![pattern("a", Some("codex"), "x"), pattern("b", None, "y"), pattern("c", None, "z")],
        500,
    );
    let v = r.judge("pilot", &vec![true, false, true], 0);
    assert_eq!(v.reason, Reason::Pattern("c".to_string()));
    let v = r.judge("codex", &vec![true, true, true], 0);
    assert_eq!(v.reason, Reason::Pattern("a".to_string()));
}

#[test]
fn an_unchanged_pane_has_the_same_reason() {
    let r = rules(Vec::new(), 500);
    let a = r.classify("pilot", &[], 600_000_000);
    let b = r.classify("pilot", &[], 700_000_000);
    assert_ne!(a.why, b.why);
    assert_eq!(a.reason, b.reason);
}

#[test]
fn without_commands_there_are_no_agents() {
    let r = AgentRules::from_config(&AgentsConfig {
        commands: Vec::new(),
        working_ms: 500,
        scan_rows: 12,
        pattern: Vec::new(),
    });
    assert!(r.is_empty());
    assert!(!shipped().is_empty());
}
