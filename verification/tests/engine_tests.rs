use llamachat::engine::{multiline_step, push_system, push_user, repl_line, ReplAction};
use llamachat::transcript::{Role, Transcript};

fn seeded() -> Transcript {
    let mut t = Transcript::new();
    t.push(Role::System, String::from("be brief"));
    t.push(Role::User, String::from("hi"));
    t.push(Role::Assistant, String::from("hello"));
    t
}

#[test]
fn help_leaves_transcript_alone() {
    let mut t = seeded();
    assert!(matches!(repl_line(&mut t, "#help"), ReplAction::PrintHelp));
    assert_eq!(t.len(), 3);
}

#[test]
fn exit_and_quit_end_the_loop() {
    let mut t = seeded();
    assert!(matches!(repl_line(&mut t, "#exit"), ReplAction::Exit));
    assert!(matches!(repl_line(&mut t, "#quit"), ReplAction::Exit));
    assert_eq!(t.len(), 3);
}

#[test]
fn clear_is_delegated() {
    let mut t = seeded();
    assert!(matches!(repl_line(&mut t, "#clear"), ReplAction::ClearScreen));
}

#[test]
fn commands_are_matched_on_the_trimmed_line() {
    let mut t = seeded();
    assert!(matches!(repl_line(&mut t, "  #help  \t"), ReplAction::PrintHelp));
}

#[test]
fn status_prints_each_entry_as_role_and_content() {
    let mut t = seeded();
    match repl_line(&mut t, "#status") {
        ReplAction::PrintStatus(lines) => {
            assert_eq!(lines, vec!["system: be brief", "user: hi", "assistant: hello"]);
        }
        _ => panic!("expected a status action"),
    }
    assert_eq!(t.len(), 3);
}

#[test]
fn reset_discards_the_transcript() {
    let mut t = seeded();
    assert!(matches!(repl_line(&mut t, "#reset"), ReplAction::ResetDone));
    assert_eq!(t.len(), 0);
}

#[test]
fn reset_then_status_prints_nothing() {
    let mut t = seeded();
    repl_line(&mut t, "#reset");
    match repl_line(&mut t, "#status") {
        ReplAction::PrintStatus(lines) => assert!(lines.is_empty()),
        _ => panic!("expected a status action"),
    }
}

#[test]
fn system_resets_and_awaits_the_new_prompt() {
    let mut t = seeded();
    assert!(matches!(repl_line(&mut t, "#system"), ReplAction::AwaitSystem));
    assert_eq!(t.len(), 0);
    push_system(&mut t, "  you are terse \n");
    assert_eq!(t.len(), 1);
    let m = t.get(0);
    assert!(matches!(m.role, Role::System));
    assert_eq!(m.content, "you are terse");
}

#[test]
fn repeat_without_history_warns_and_runs_no_request() {
    let mut t = Transcript::new();
    t.push(Role::System, String::from("sys"));
    assert!(matches!(repl_line(&mut t, "#repeat"), ReplAction::NoHistory));
    assert_eq!(t.len(), 0);
}

#[test]
fn repeat_on_empty_transcript_warns() {
    let mut t = Transcript::new();
    assert!(matches!(repl_line(&mut t, "#repeat"), ReplAction::NoHistory));
}

#[test]
fn repeat_drops_the_last_reply_and_reruns() {
    let mut t = seeded();
    assert!(matches!(repl_line(&mut t, "#repeat"), ReplAction::RunTurn));
    assert_eq!(t.len(), 2);
    let m = t.get(1);
    assert!(matches!(m.role, Role::User));
    assert_eq!(m.content, "hi");
}

#[test]
fn plain_input_becomes_a_user_message_and_a_turn() {
    let mut t = Transcript::new();
    assert!(matches!(repl_line(&mut t, "why is the sky blue?"), ReplAction::RunTurn));
    assert_eq!(t.len(), 1);
    let m = t.get(0);
    assert!(matches!(m.role, Role::User));
    assert_eq!(m.content, "why is the sky blue?");
}

#[test]
fn triple_quote_input_submits_one_joined_user_message() {
    let mut t = Transcript::new();
    let mut acc = match repl_line(&mut t, "\"\"\"hello") {
        ReplAction::BeginMultiline(initial) => initial,
        _ => panic!("expected a multi-line opening"),
    };
    assert_eq!(t.len(), 0);
    assert!(multiline_step(&mut acc, "world\"\"\""));
    assert_eq!(acc, "hello\nworld");
    push_user(&mut t, acc);
    assert_eq!(t.len(), 1);
    let m = t.get(0);
    assert!(matches!(m.role, Role::User));
    assert_eq!(m.content, "hello\nworld");
}

#[test]
fn multiline_keeps_middle_lines_whole() {
    let mut t = Transcript::new();
    let mut acc = match repl_line(&mut t, "\"\"\"") {
        ReplAction::BeginMultiline(initial) => initial,
        _ => panic!("expected a multi-line opening"),
    };
    assert_eq!(acc, "");
    assert!(!multiline_step(&mut acc, "first line"));
    assert!(!multiline_step(&mut acc, "  indented"));
    assert!(multiline_step(&mut acc, "last\"\"\""));
    assert_eq!(acc, "\nfirst line\n  indented\nlast");
}

#[test]
fn multiline_closes_only_on_a_line_ending_with_the_delimiter() {
    let mut acc = String::from("a");
    assert!(!multiline_step(&mut acc, "has \"\"\" inside"));
    assert_eq!(acc, "a\nhas \"\"\" inside");
    assert!(multiline_step(&mut acc, "done\"\"\"  "));
    assert_eq!(acc, "a\nhas \"\"\" inside\ndone");
}

#[test]
fn transcript_push_pop_reset() {
    let mut t = Transcript::new();
    assert_eq!(t.len(), 0);
    t.push(Role::User, String::from("a"));
    t.push(Role::Assistant, String::from("b"));
    assert_eq!(t.len(), 2);
    assert!(t.pop());
    assert_eq!(t.len(), 1);
    assert_eq!(t.get(0).content, "a");
    t.reset();
    assert_eq!(t.len(), 0);
    assert!(!t.pop());
}
