use orbital::buildmanager::{BuildManager, BuildSettings, MAX_LOG_ITEMS, RETAINED_LOG_ITEMS};
use orbital::hub::{BuildResult, BuildStatus, BuildTarget, HubLogItem, HubMsg, HubMsgTo, LocMessage, Outbox};
use orbital::textbuffer::{TextBufferMessageLevel, TextBuffers};
use orbital::uid::{HubUid, UidAlloc};

fn target(builder: &str, package: &str) -> BuildTarget {
    BuildTarget {
        builder: builder.to_string(),
        workspace: "ws".to_string(),
        package: package.to_string(),
        config: "release".to_string(),
    }
}

fn settings(exec_when_done: bool) -> BuildSettings {
    BuildSettings { builds: vec![target("b1", "a"), target("b2", "b")], exec_when_done }
}

fn uid(id: u64) -> HubUid {
    HubUid { id }
}

fn exe(path: &str) -> BuildResult {
    BuildResult::Executable { path: path.to_string() }
}

fn loc(path: &str, head: usize, body: &str) -> LocMessage {
    LocMessage {
        path: path.to_string(),
        line: 1,
        column: 1,
        body: body.to_string(),
        range: Some((head, head + 1)),
        rendered: None,
        explanation: None,
    }
}

fn started(exec_when_done: bool) -> (BuildManager, TextBuffers, Outbox) {
    let mut bm = BuildManager::new();
    let mut store = TextBuffers::new();
    let mut out = Outbox::new();
    bm.restart_build(&settings(exec_when_done), &mut store, &mut out);
    (bm, store, out)
}

fn run_uids(out: &Outbox, from: usize) -> Vec<(String, u64, String)> {
    let mut r = Vec::new();
    for m in &out.sends[from..] {
        if let HubMsg::ProgramRun { uid, path, args } = &m.msg {
            assert!(args.is_empty());
            let HubMsgTo::Builder(b) = &m.to;
            r.push((b.clone(), uid.id, path.clone()));
        }
    }
    r
}

#[test]
fn uid_alloc_counts_up() {
    let mut a = UidAlloc::new();
    assert_eq!(a.alloc_uid(), uid(0));
    assert_eq!(a.alloc_uid(), uid(1));
    assert_eq!(a.next, 2);
}

#[test]
fn restart_sends_one_build_per_target() {
    let (bm, _store, out) = started(false);
    assert_eq!(out.sends.len(), 2);
    match &out.sends[0].msg {
        HubMsg::Build { uid: u, workspace, package, config } => {
            assert_eq!(*u, uid(0));
            assert_eq!(workspace, "ws");
            assert_eq!(package, "a");
            assert_eq!(config, "release");
        }
        _ => panic!("expected a build request"),
    }
    assert!(matches!(&out.sends[0].to, HubMsgTo::Builder(b) if b == "b1"));
    assert!(matches!(&out.sends[1].msg, HubMsg::Build { uid: u, .. } if *u == uid(1)));
    assert!(matches!(&out.sends[1].to, HubMsgTo::Builder(b) if b == "b2"));
    assert_eq!(bm.active_builds.len(), 2);
    assert_eq!(bm.active_builds[0].build_uid, Some(uid(0)));
    assert_eq!(bm.active_builds[1].build_uid, Some(uid(1)));
    assert!(bm.is_any_cargo_running());
    assert!(!bm.is_any_artifact_running());
}

#[test]
fn restart_kills_outstanding_builds_and_runs() {
    let (mut bm, mut store, mut out) = started(false);
    let s = settings(false);
    bm.handle_hub_msg(&s, &mut store, &HubMsg::CargoEnd { uid: uid(0), build_result: exe("a.exe") }, &mut out);
    bm.run_all_artifacts(&mut out);
    let before = out.sends.len();
    bm.add_log_message("x".to_string(), &mut out);
    bm.restart_build(&s, &mut store, &mut out);
    let sent = &out.sends[before..];
    assert_eq!(sent.len(), 4);
    assert!(matches!(&sent[0].msg, HubMsg::ProgramKill { uid: u } if *u == uid(2)));
    assert!(matches!(&sent[1].msg, HubMsg::BuildKill { uid: u } if *u == uid(1)));
    assert!(matches!(&sent[2].msg, HubMsg::Build { uid: u, .. } if *u == uid(3)));
    assert!(matches!(&sent[3].msg, HubMsg::Build { uid: u, .. } if *u == uid(4)));
    assert!(bm.log_items.is_empty());
    assert!(bm.artifacts.is_empty());
}

#[test]
fn stale_uid_is_ignored_after_restart() {
    let (mut bm, mut store, mut out) = started(true);
    let s = settings(true);
    bm.restart_build(&s, &mut store, &mut out);
    let sends = out.sends.len();
    let signals = out.signals.len();
    for m in [
        HubMsg::CargoBegin { uid: uid(0) },
        HubMsg::LogItem { uid: uid(1), item: HubLogItem::Message("old".to_string()) },
        HubMsg::CargoArtifact { uid: uid(0), package_id: "p".to_string(), fresh: true },
        HubMsg::BuildFailure { uid: uid(1) },
        HubMsg::CargoEnd { uid: uid(0), build_result: exe("a") },
        HubMsg::ProgramEnd { uid: uid(1) },
    ] {
        bm.handle_hub_msg(&s, &mut store, &m, &mut out);
    }
    assert_eq!(out.sends.len(), sends);
    assert_eq!(out.signals.len(), signals);
    assert_eq!(bm.active_builds[0].build_uid, Some(uid(2)));
    assert_eq!(bm.active_builds[1].build_uid, Some(uid(3)));
    assert!(bm.active_builds.iter().all(|ab| ab.build_result.is_none()));
    assert!(bm.log_items.is_empty());
    assert!(bm.artifacts.is_empty());
    assert!(!bm.is_running_uid(&uid(0)));
    assert!(bm.is_running_uid(&uid(3)));
}

#[test]
fn run_when_done_fires_after_last_cargo_end() {
    let (mut bm, mut store, mut out) = started(false);
    let s = settings(false);
    bm.artifact_run(&mut out);
    assert!(bm.exec_when_done);
    assert_eq!(out.sends.len(), 2);
    bm.handle_hub_msg(&s, &mut store, &HubMsg::CargoEnd { uid: uid(1), build_result: exe("b.exe") }, &mut out);
    assert_eq!(out.sends.len(), 2);
    bm.handle_hub_msg(&s, &mut store, &HubMsg::CargoEnd { uid: uid(0), build_result: exe("a.exe") }, &mut out);
    assert_eq!(run_uids(&out, 2).len(), 2);
    assert!(!bm.exec_when_done);
    assert_eq!(out.signals, vec![BuildStatus::CargoEnd, BuildStatus::CargoEnd]);
}

#[test]
fn artifact_run_without_outstanding_builds_runs_now() {
    let (mut bm, mut store, mut out) = started(false);
    let s = settings(false);
    bm.handle_hub_msg(&s, &mut store, &HubMsg::CargoEnd { uid: uid(0), build_result: exe("a.exe") }, &mut out);
    bm.handle_hub_msg(&s, &mut store, &HubMsg::CargoEnd { uid: uid(1), build_result: BuildResult::NoOutput }, &mut out);
    assert_eq!(out.sends.len(), 2);
    bm.artifact_run(&mut out);
    assert_eq!(run_uids(&out, 2), vec![("b1".to_string(), 2, "a.exe".to_string())]);
    assert!(!bm.exec_when_done);
    assert_eq!(bm.active_builds[0].run_uid, Some(uid(2)));
    assert_eq!(bm.active_builds[1].run_uid, None);
    assert!(bm.is_any_artifact_running());
}

#[test]
fn rerun_kills_the_previous_run() {
    let (mut bm, mut store, mut out) = started(false);
    let s = settings(false);
    bm.handle_hub_msg(&s, &mut store, &HubMsg::CargoEnd { uid: uid(0), build_result: exe("a.exe") }, &mut out);
    bm.handle_hub_msg(&s, &mut store, &HubMsg::CargoEnd { uid: uid(1), build_result: exe("b.exe") }, &mut out);
    bm.run_all_artifacts(&mut out);
    let before = out.sends.len();
    bm.run_all_artifacts(&mut out);
    let sent = &out.sends[before..];
    assert_eq!(sent.len(), 4);
    assert!(matches!(&sent[0].msg, HubMsg::ProgramKill { uid: u } if *u == uid(2)));
    assert!(matches!(&sent[1].msg, HubMsg::ProgramRun { uid: u, .. } if *u == uid(4)));
    assert!(matches!(&sent[2].msg, HubMsg::ProgramKill { uid: u } if *u == uid(3)));
    assert!(matches!(&sent[3].msg, HubMsg::ProgramRun { uid: u, .. } if *u == uid(5)));
}

#[test]
fn end_to_end_two_targets_run_when_done() {
    let s = settings(true);
    let mut bm = BuildManager::new();
    let mut store = TextBuffers::new();
    let mut out = Outbox::new();
    bm.restart_build(&s, &mut store, &mut out);
    let a = bm.active_builds[0].build_uid.unwrap();
    let b = bm.active_builds[1].build_uid.unwrap();
    bm.handle_hub_msg(&s, &mut store, &HubMsg::CargoEnd { uid: a, build_result: exe("a.exe") }, &mut out);
    assert!(run_uids(&out, 0).is_empty());
    bm.handle_hub_msg(&s, &mut store, &HubMsg::CargoEnd { uid: b, build_result: exe("b.exe") }, &mut out);
    let runs = run_uids(&out, 0);
    assert_eq!(runs.len(), 2);
    assert_eq!(runs[0].0, "b1");
    assert_eq!(runs[0].2, "a.exe");
    assert_eq!(runs[1].0, "b2");
    assert_eq!(runs[1].2, "b.exe");
    assert_ne!(runs[0].1, a.id);
    assert_ne!(runs[1].1, b.id);
    assert_ne!(runs[0].1, runs[1].1);
    assert_eq!(bm.active_builds[0].run_uid, Some(uid(runs[0].1)));
    assert_eq!(bm.active_builds[1].run_uid, Some(uid(runs[1].1)));
}

#[test]
fn build_failure_clears_build_without_result() {
    let (mut bm, mut store, mut out) = started(false);
    let s = settings(false);
    bm.handle_hub_msg(&s, &mut store, &HubMsg::BuildFailure { uid: uid(0) }, &mut out);
    assert_eq!(bm.active_builds[0].build_uid, None);
    assert!(bm.active_builds[0].build_result.is_none());
    assert_eq!(bm.active_builds[1].build_uid, Some(uid(1)));
    assert!(out.signals.is_empty());
}

#[test]
fn program_end_clears_run() {
    let (mut bm, mut store, mut out) = started(false);
    let s = settings(false);
    bm.handle_hub_msg(&s, &mut store, &HubMsg::CargoEnd { uid: uid(0), build_result: exe("a.exe") }, &mut out);
    bm.handle_hub_msg(&s, &mut store, &HubMsg::CargoEnd { uid: uid(1), build_result: exe("b.exe") }, &mut out);
    bm.artifact_run(&mut out);
    bm.handle_hub_msg(&s, &mut store, &HubMsg::ProgramEnd { uid: uid(3) }, &mut out);
    assert_eq!(bm.active_builds[0].run_uid, Some(uid(2)));
    assert_eq!(bm.active_builds[1].run_uid, None);
    assert_eq!(out.signals.last(), Some(&BuildStatus::ProgramEnd));
}

#[test]
fn begin_and_artifact_notify() {
    let (mut bm, mut store, mut out) = started(false);
    let s = settings(false);
    bm.handle_hub_msg(&s, &mut store, &HubMsg::CargoBegin { uid: uid(0) }, &mut out);
    bm.handle_hub_msg(&s, &mut store, &HubMsg::CargoArtifact { uid: uid(1), package_id: "pkg 0.1".to_string(), fresh: false }, &mut out);
    assert_eq!(out.signals, vec![BuildStatus::NewLogItem, BuildStatus::NewArtifact]);
    assert_eq!(bm.artifacts, vec!["pkg 0.1".to_string()]);
    assert_eq!(bm.active_builds[1].build_uid, Some(uid(1)));
}

#[test]
fn list_builders_response_restarts() {
    let (mut bm, mut store, mut out) = started(false);
    let s = settings(true);
    bm.handle_hub_msg(&s, &mut store, &HubMsg::ListBuildersResponse { builders: vec!["b1".to_string()] }, &mut out);
    assert_eq!(out.sends.len(), 6);
    assert!(bm.exec_when_done);
    assert_eq!(bm.active_builds[0].build_uid, Some(uid(2)));
}

#[test]
fn log_item_with_location_adds_marker() {
    let (mut bm, mut store, mut out) = started(false);
    let s = settings(false);
    let item = HubLogItem::LocWarning(loc("src/main.rs", 12, "unused"));
    bm.handle_hub_msg(&s, &mut store, &HubMsg::LogItem { uid: uid(0), item }, &mut out);
    assert_eq!(bm.log_items.len(), 1);
    assert!(matches!(&bm.log_items[0], HubLogItem::LocWarning(m) if m.body == "unused"));
    assert_eq!(store.buffers.len(), 1);
    assert_eq!(store.buffers[0].path, "src/main.rs");
    let m = &store.buffers[0].messages[0];
    assert_eq!((m.head, m.tail), (12, 13));
    assert_eq!(m.level, TextBufferMessageLevel::Warning);
    assert_eq!(m.body, "unused");
    assert_eq!(out.signals, vec![BuildStatus::NewLogItem]);
}

#[test]
fn log_item_levels() {
    let (mut bm, mut store, mut out) = started(false);
    let s = settings(false);
    let items = vec![
        HubLogItem::LocPanic(loc("f.rs", 1, "p")),
        HubLogItem::LocError(loc("f.rs", 2, "e")),
        HubLogItem::LocMessage(loc("f.rs", 3, "m")),
    ];
    for item in items {
        bm.handle_hub_msg(&s, &mut store, &HubMsg::LogItem { uid: uid(1), item }, &mut out);
    }
    let levels: Vec<TextBufferMessageLevel> = store.buffers[0].messages.iter().map(|m| m.level).collect();
    assert_eq!(levels, vec![TextBufferMessageLevel::Log, TextBufferMessageLevel::Error, TextBufferMessageLevel::Log]);
}

#[test]
fn diagnostics_are_ordered_by_start() {
    let (mut bm, mut store, mut out) = started(false);
    let s = settings(false);
    for head in [50usize, 10, 30] {
        let item = HubLogItem::LocError(loc("lib.rs", head, "x"));
        bm.handle_hub_msg(&s, &mut store, &HubMsg::LogItem { uid: uid(0), item }, &mut out);
    }
    let heads: Vec<usize> = store.buffers[0].messages.iter().map(|m| m.head).collect();
    assert_eq!(heads, vec![10, 30, 50]);
}

#[test]
fn equal_starts_keep_arrival_order() {
    let bm = BuildManager::new();
    let mut store = TextBuffers::new();
    for body in ["first", "second", "third"] {
        bm.process_loc_message_for_textbuffers(&loc("a.rs", 5, body), TextBufferMessageLevel::Error, &mut store);
    }
    bm.process_loc_message_for_textbuffers(&loc("a.rs", 1, "early"), TextBufferMessageLevel::Error, &mut store);
    let bodies: Vec<&str> = store.buffers[0].messages.iter().map(|m| m.body.as_str()).collect();
    assert_eq!(bodies, vec!["early", "first", "second", "third"]);
}

#[test]
fn diagnostic_without_range_only_creates_buffer() {
    let bm = BuildManager::new();
    let mut store = TextBuffers::new();
    let mut m = loc("b.rs", 3, "x");
    m.range = None;
    bm.process_loc_message_for_textbuffers(&m, TextBufferMessageLevel::Log, &mut store);
    assert_eq!(store.buffers.len(), 1);
    assert!(store.buffers[0].messages.is_empty());
}

#[test]
fn diagnostics_per_buffer_are_capped() {
    let bm = BuildManager::new();
    let mut store = TextBuffers::new();
    for i in 0..100_001usize {
        bm.process_loc_message_for_textbuffers(&loc("big.rs", i, "x"), TextBufferMessageLevel::Log, &mut store);
    }
    assert_eq!(store.buffers[0].messages.len(), 100_000);
    bm.process_loc_message_for_textbuffers(&loc("other.rs", 0, "x"), TextBufferMessageLevel::Log, &mut store);
    assert_eq!(store.buffers[1].messages.len(), 1);
}

#[test]
fn untracked_log_item_is_ignored() {
    let (mut bm, mut store, mut out) = started(false);
    let s = settings(false);
    let item = HubLogItem::LocError(loc("z.rs", 1, "x"));
    bm.handle_hub_msg(&s, &mut store, &HubMsg::LogItem { uid: uid(99), item }, &mut out);
    assert!(bm.log_items.is_empty());
    assert!(store.buffers.is_empty());
    assert!(out.signals.is_empty());
}

#[test]
fn log_truncates_in_tail_mode() {
    let mut bm = BuildManager::new();
    let mut out = Outbox::new();
    for i in 0..700_001usize {
        bm.add_log_message(format!("line {}", i), &mut out);
    }
    assert_eq!(bm.log_items.len(), 500_001);
    assert!(matches!(&bm.log_items[500_000], HubLogItem::Message(s) if s == "------------ Log truncated here -----------"));
    assert!(matches!(&bm.log_items[499_999], HubLogItem::Message(s) if s == "line 499999"));
    assert_eq!(MAX_LOG_ITEMS, 700_000);
    assert_eq!(RETAINED_LOG_ITEMS, 500_000);
}

#[test]
fn log_skips_once_without_tail_mode() {
    let mut bm = BuildManager::new();
    bm.tail_log_items = false;
    let mut out = Outbox::new();
    for i in 0..700_001usize {
        bm.add_log_message(format!("line {}", i), &mut out);
    }
    assert_eq!(bm.log_items.len(), 700_001);
    assert!(matches!(&bm.log_items[700_000], HubLogItem::Message(s) if s == "------------ Log skipping, press tail to resume -----------"));
    let signals = out.signals.len();
    for i in 0..1000usize {
        bm.add_log_message(format!("more {}", i), &mut out);
    }
    assert_eq!(bm.log_items.len(), 700_001);
    assert_eq!(out.signals.len(), signals + 1000);
}

#[test]
fn status_ids() {
    assert_eq!(BuildManager::status_new_log_item(), BuildStatus::NewLogItem);
    assert_eq!(BuildManager::status_new_artifact(), BuildStatus::NewArtifact);
    assert_eq!(BuildManager::status_cargo_end(), BuildStatus::CargoEnd);
    assert_eq!(BuildManager::status_program_end(), BuildStatus::ProgramEnd);
}

#[test]
fn clear_textbuffer_messages_keeps_buffers() {
    let bm = BuildManager::new();
    let mut store = TextBuffers::new();
    bm.process_loc_message_for_textbuffers(&loc("a.rs", 1, "x"), TextBufferMessageLevel::Log, &mut store);
    bm.clear_textbuffer_messages(&mut store);
    assert_eq!(store.buffers.len(), 1);
    assert!(store.buffers[0].messages.is_empty());
}

#[test]
fn overlong_log_gets_no_second_skipping_notice() {
    let mut bm = BuildManager::new();
    bm.tail_log_items = false;
    let mut out = Outbox::new();
    for i in 0..700_000usize {
        bm.log_items.push(HubLogItem::Message(format!("line {}", i)));
    }
    bm.log_items.push(HubLogItem::Message("------------ Log skipping, press tail to resume -----------".to_string()));
    bm.log_items.push(HubLogItem::Message("late".to_string()));
    assert!(!bm.handle_log_item_limit(&mut out));
    bm.add_log_message("more".to_string(), &mut out);
    assert_eq!(bm.log_items.len(), 700_002);
    assert!(out.signals.iter().all(|s| *s == BuildStatus::NewLogItem));
    assert_eq!(out.signals.len(), 1);
}

#[test]
fn run_and_build_identifiers_stay_distinct() {
    let (mut bm, mut store, mut out) = started(false);
    let s = settings(false);
    bm.handle_hub_msg(&s, &mut store, &HubMsg::CargoEnd { uid: uid(0), build_result: exe("a.exe") }, &mut out);
    bm.run_all_artifacts(&mut out);
    bm.run_all_artifacts(&mut out);
    let mut seen = Vec::new();
    for ab in &bm.active_builds {
        for u in [ab.build_uid, ab.run_uid].into_iter().flatten() {
            assert!(!seen.contains(&u));
            seen.push(u);
        }
    }
    assert_eq!(seen, vec![uid(3), uid(1)]);
}
