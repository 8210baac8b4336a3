//! The orchestrator's state machine, the fix extraction, and the
//! request texts.

use quack::extract::{process_chunk, Delta};
use quack::orchestrator::{extract_fix, KeyAction, KeyPress, LoopState, Orchestrator};
use quack::request::{build_user_content, system_prompt};

#[test]
fn streaming_scenario_reaches_done_with_final_buffer() {
    let mut orch = Orchestrator::new("bash: foo: command not found".to_string(), false, true);
    assert_eq!(orch.state, LoopState::Idle);
    orch.on_request_issued();
    assert_eq!(orch.state, LoopState::Streaming);

    let mut buffer: Vec<u8> = Vec::new();
    let frames: &[&[u8]] = &[
        b"data: {\"choices\":[{\"delta\":{\"content\":\"Fix: use bar\"}}]}\n\n",
        b"data: [DONE]\n\n",
    ];
    for frame in frames {
        for delta in process_chunk(&mut buffer, frame) {
            match delta {
                Delta::Text(s) => orch.on_delta(&s),
                Delta::EndOfStream => orch.on_delta(""),
            }
        }
    }
    orch.on_stream_closed();
    assert_eq!(orch.response, "Fix: use bar");
    assert_eq!(orch.state, LoopState::Done);
}

#[test]
fn quit_works_while_streaming_and_channel_open() {
    let mut orch = Orchestrator::new("err".to_string(), false, true);
    orch.on_request_issued();
    orch.on_delta("partial ");
    assert_eq!(orch.state, LoopState::Streaming);
    let action = orch.on_key(KeyPress::Quit);
    assert_eq!(action, KeyAction::Quit);
    orch.on_stream_closed();
    assert_eq!(orch.state, LoopState::Done);
}

#[test]
fn empty_sentinel_deltas_change_nothing() {
    let mut orch = Orchestrator::new("err".to_string(), false, true);
    orch.on_request_issued();
    orch.on_delta("abc");
    orch.on_delta("");
    assert_eq!(orch.response, "abc");
    assert_eq!(orch.state, LoopState::Streaming);
}

#[test]
fn late_deltas_after_done_are_tolerated() {
    let mut orch = Orchestrator::new("err".to_string(), false, true);
    orch.on_request_issued();
    orch.on_delta("abc");
    orch.on_stream_closed();
    assert_eq!(orch.state, LoopState::Done);
    orch.on_delta(" def");
    assert_eq!(orch.response, "abc def");
    assert_eq!(orch.state, LoopState::Streaming);
}

#[test]
fn reissue_replaces_the_buffer() {
    let mut orch = Orchestrator::new("err".to_string(), false, true);
    orch.on_request_issued();
    orch.on_delta("old text");
    orch.on_request_issued();
    assert_eq!(orch.response, "");
    assert_eq!(orch.state, LoopState::Streaming);
}

#[test]
fn keys_map_to_actions() {
    let orch = Orchestrator::new("err".to_string(), false, true);
    assert_eq!(orch.on_key(KeyPress::CopyFix), KeyAction::Copy);
    assert_eq!(orch.on_key(KeyPress::Rerun), KeyAction::Respawn);
    assert_eq!(orch.on_key(KeyPress::Other), KeyAction::Ignore);
    let no_credential = Orchestrator::new("err".to_string(), false, false);
    assert_eq!(no_credential.on_key(KeyPress::Rerun), KeyAction::Ignore);
    assert_eq!(no_credential.on_key(KeyPress::Quit), KeyAction::Quit);
}

#[test]
fn app_view_mirrors_the_machine() {
    let mut orch = Orchestrator::new("the error".to_string(), true, true);
    let idle = orch.app_view();
    assert!(!idle.is_streaming);
    assert_eq!(idle.error_log, "the error");
    orch.on_request_issued();
    orch.on_delta("text");
    let live = orch.app_view();
    assert!(live.is_streaming);
    assert_eq!(live.duck_response, "text");
    assert!(live.has_git_context);
}

#[test]
fn copy_result_notes_land_in_the_error_panel() {
    let mut orch = Orchestrator::new("boom".to_string(), false, true);
    orch.note_copy_result(None);
    assert_eq!(orch.error_log, "boom\n\n[Copied fix to clipboard]");
    let mut orch = Orchestrator::new("boom".to_string(), false, true);
    orch.note_copy_result(Some("clipboard init error: nope"));
    assert_eq!(orch.error_log, "boom\n\n[Copy failed: clipboard init error: nope]");
}

#[test]
fn extract_fix_prefers_solution_fenced_block() {
    let response =
        "### **The Glitch**\nbad flags\n### **The Solution**\n```\nsudo pacman -Syu\n```\ndone";
    assert_eq!(extract_fix(response), "sudo pacman -Syu");
}

#[test]
fn extract_fix_falls_back_to_solution_section() {
    let response = "### **The Solution**\nrun make instead";
    assert_eq!(extract_fix(response), "The Solution**\nrun make instead");
}

#[test]
fn extract_fix_falls_back_to_first_fence_then_whole() {
    let response = "intro\n```\nls -la\n```\nrest";
    assert_eq!(extract_fix(response), "ls -la");
    assert_eq!(extract_fix("  nothing fenced  "), "nothing fenced");
}

#[test]
fn user_content_appends_labeled_diff() {
    assert_eq!(build_user_content("err", None), "err");
    assert_eq!(build_user_content("err", Some("")), "err");
    assert_eq!(
        build_user_content("err", Some("diff --git a b")),
        "err\n\nRECENT CODE CHANGES:\ndiff --git a b"
    );
}

#[test]
fn system_prompt_names_the_os_twice() {
    let p = system_prompt("OS: TestOS");
    assert!(p.starts_with(
        "Expert System Debugger and Senior Arch Linux Engineer running on OS: TestOS.\n\n"
    ));
    assert!(p.contains("to the detected OS (OS: TestOS)"));
    assert!(p.ends_with("in the exact order above."));
}
