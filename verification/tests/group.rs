use llama_test_matrix::group::{GroupEvent, GroupPhase, GroupRun, StepKind};

fn kinds(run: &mut GroupRun, events: Vec<GroupEvent>) -> Vec<(StepKind, usize, usize, String)> {
    events
        .into_iter()
        .map(|e| {
            let s = run.step(e);
            (s.kind, s.attempt, s.case, s.text)
        })
        .collect()
}

#[test]
fn a_healthy_group_runs_every_case_then_finishes() {
    let mut run = GroupRun::new(2, 18080);
    let steps = kinds(
        &mut run,
        vec![
            GroupEvent::Begin,
            GroupEvent::PortChecked { busy: false },
            GroupEvent::ServerStarted { error: None },
            GroupEvent::ServerReady { error: None },
            GroupEvent::WarmedUp,
            GroupEvent::ServerChecked { exited: false },
            GroupEvent::CaseRecorded { crashed: false },
            GroupEvent::Slept,
            GroupEvent::ServerChecked { exited: false },
            GroupEvent::CaseRecorded { crashed: false },
            GroupEvent::Slept,
        ],
    );
    let only: Vec<(StepKind, usize)> = steps.iter().map(|s| (s.0, s.2)).collect();
    assert_eq!(
        only,
        vec![
            (StepKind::CheckPort, 0),
            (StepKind::StartServer, 0),
            (StepKind::WaitReady, 0),
            (StepKind::Warmup, 0),
            (StepKind::AnnounceCase, 0),
            (StepKind::RunCase, 0),
            (StepKind::SleepBetweenCases, 0),
            (StepKind::AnnounceCase, 1),
            (StepKind::RunCase, 1),
            (StepKind::SleepBetweenCases, 1),
            (StepKind::FinishGroup, 2),
        ]
    );
    assert_eq!(run.phase, GroupPhase::Finished);
    assert!(steps.iter().all(|s| s.1 == 1));
}

#[test]
fn a_busy_port_or_a_failed_start_gives_up_on_the_group() {
    let mut run = GroupRun::new(3, 18080);
    let steps = kinds(&mut run, vec![GroupEvent::Begin, GroupEvent::PortChecked { busy: true }]);
    assert_eq!(steps[1].0, StepKind::FailGroup);
    assert_eq!(steps[1].3, "端口 18080 已被占用，拒绝复用旧服务");

    let mut run = GroupRun::new(3, 18080);
    let steps = kinds(
        &mut run,
        vec![
            GroupEvent::Begin,
            GroupEvent::PortChecked { busy: false },
            GroupEvent::ServerStarted { error: Some("no such file".to_string()) },
        ],
    );
    assert_eq!(steps[2].0, StepKind::FailGroup);
    assert_eq!(steps[2].3, "启动 llama-server 失败: no such file");

    let mut run = GroupRun::new(3, 18080);
    let steps = kinds(
        &mut run,
        vec![
            GroupEvent::Begin,
            GroupEvent::PortChecked { busy: false },
            GroupEvent::ServerStarted { error: None },
            GroupEvent::ServerReady { error: Some("timeout".to_string()) },
        ],
    );
    assert_eq!(steps[3].0, StepKind::FailGroup);
    assert_eq!(steps[3].3, "等待服务启动失败: timeout");
}

#[test]
fn crashes_restart_the_server_with_a_new_attempt() {
    let mut run = GroupRun::new(3, 1);
    let steps = kinds(
        &mut run,
        vec![
            GroupEvent::Begin,
            GroupEvent::PortChecked { busy: false },
            GroupEvent::ServerStarted { error: None },
            GroupEvent::ServerReady { error: None },
            GroupEvent::WarmedUp,
            // case 0 crashes the server; the restart works
            GroupEvent::ServerChecked { exited: false },
            GroupEvent::CaseRecorded { crashed: true },
            GroupEvent::ServerStarted { error: None },
            GroupEvent::ServerReady { error: Some("slow".to_string()) },
            GroupEvent::Slept,
            // the server is dead before case 1; the restart fails
            GroupEvent::ServerChecked { exited: true },
            GroupEvent::ServerStarted { error: Some("boom".to_string()) },
            GroupEvent::FailureRecorded,
            // before case 2 it is dead again; it starts but is not ready
            GroupEvent::ServerChecked { exited: true },
            GroupEvent::ServerStarted { error: None },
            GroupEvent::ServerReady { error: Some("x".to_string()) },
            GroupEvent::FailureRecorded,
        ],
    );
    let got: Vec<(StepKind, usize, usize)> = steps.iter().map(|s| (s.0, s.1, s.2)).collect();
    assert_eq!(
        got[5..].to_vec(),
        vec![
            (StepKind::RunCase, 1, 0),
            (StepKind::RestartAfterCrash, 2, 0),
            (StepKind::WaitReady, 2, 0),
            (StepKind::SleepBetweenCases, 2, 0),
            (StepKind::AnnounceCase, 2, 1),
            (StepKind::RestartBeforeCase, 3, 1),
            (StepKind::RecordRestartFailure, 3, 1),
            (StepKind::AnnounceCase, 3, 2),
            (StepKind::RestartBeforeCase, 4, 2),
            (StepKind::WaitReady, 4, 2),
            (StepKind::RecordRestartFailure, 4, 2),
            (StepKind::FinishGroup, 4, 3),
        ]
    );
    assert_eq!(steps[11].3, "boom");
    assert_eq!(steps[15].3, "服务重启后未就绪");
}

#[test]
fn a_failed_restart_after_a_crash_is_logged() {
    let mut run = GroupRun::new(1, 1);
    let steps = kinds(
        &mut run,
        vec![
            GroupEvent::Begin,
            GroupEvent::PortChecked { busy: false },
            GroupEvent::ServerStarted { error: None },
            GroupEvent::ServerReady { error: None },
            GroupEvent::WarmedUp,
            GroupEvent::ServerChecked { exited: false },
            GroupEvent::CaseRecorded { crashed: true },
            GroupEvent::ServerStarted { error: Some("oom".to_string()) },
            GroupEvent::FailureRecorded,
        ],
    );
    assert_eq!(steps[7].0, StepKind::LogRestartFailure);
    assert_eq!(steps[7].3, "restart_failed_after_crash: oom\n");
    assert_eq!(steps[8].0, StepKind::FinishGroup);
}

#[test]
fn events_out_of_turn_change_nothing() {
    let mut run = GroupRun::new(1, 1);
    let before = run;
    let s = run.step(GroupEvent::Slept);
    assert_eq!(s.kind, StepKind::Ignore);
    assert_eq!(run, before);
}

#[test]
fn an_empty_group_finishes_after_the_warmup() {
    let mut run = GroupRun::new(0, 1);
    let steps = kinds(
        &mut run,
        vec![
            GroupEvent::Begin,
            GroupEvent::PortChecked { busy: false },
            GroupEvent::ServerStarted { error: None },
            GroupEvent::ServerReady { error: None },
            GroupEvent::WarmedUp,
        ],
    );
    assert_eq!(steps[4].0, StepKind::FinishGroup);
}
