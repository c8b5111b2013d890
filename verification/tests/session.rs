use redscript_dap::control::{BreakpointKey, DebugControl, StepMode};
use redscript_dap::event::{DebugEvent, EventCause};
use redscript_dap::frame::StackFramePtr;
use redscript_dap::hooks::{pre_call, FrameLinks};
use redscript_dap::mapping::{FunctionId, SourceFileInfo};
use redscript_dap::protocol::{
    Command, Error, Outcome, ResponseBody, ScopePresentationHint, SetBreakpointsArguments, Source,
    SourceBreakpoint, StoppedEventReason,
};
use redscript_dap::session::{
    port_file_name, DebugSession, FrameInfo, FrameQuery, Received, Reply, Step, Turn,
    VariablesQuery,
};
use redscript_dap::state::Scope;
use redscript_dap::value::{Instance, Property, Snapshot, Value};
use redscript_dap::variables::ScopeContents;

fn id(n: u64) -> FunctionId {
    FunctionId { parent: 1, name: n }
}

fn control() -> DebugControl {
    let mut control = DebugControl::new();
    for (index, path) in ["a.reds", "b.reds"].into_iter().enumerate() {
        let source = SourceFileInfo {
            index: index as u32,
            path: path.to_owned(),
        };
        for line in [10, 20] {
            let n = index as u64 * 100 + line;
            control.functions_mut().add(id(n), &source, None, line as u32);
        }
    }
    control
}

fn event(cause: EventCause, frame: usize) -> DebugEvent {
    let key = BreakpointKey::new(id(10), 12);
    DebugEvent::new(key, cause, StackFramePtr::PreCall(frame)).0
}

fn stopped(parents: &[usize]) -> DebugSession {
    let mut session = DebugSession::new();
    session.handle_event(event(EventCause::Breakpoint, 0x30), &parents.to_vec());
    session
}

fn ask(session: &mut DebugSession, control: &mut DebugControl, req: Command) -> Result<Step, Error> {
    assert!(session.accepts(&req));
    session.handle_req(control, &req)
}

fn reply(step: Result<Step, Error>) -> Reply {
    match step {
        Ok(Step::Reply(reply)) => reply,
        other => panic!("{other:?}"),
    }
}

fn error(step: Result<Step, Error>) -> Option<Error> {
    step.err()
}

fn breakpoints(path: Option<&str>, lines: Option<&[i64]>) -> Command {
    Command::SetBreakpoints(SetBreakpointsArguments {
        source: Source {
            name: Some("shown".to_owned()),
            path: path.map(|p| p.to_owned()),
        },
        breakpoints: lines.map(|l| l.iter().map(|&line| SourceBreakpoint { line }).collect()),
    })
}

fn hit(control: &DebugControl, func: u64, line: u16) -> bool {
    let key = BreakpointKey::new(id(func), line);
    let frame = FrameLinks {
        addr: 0x900,
        parent: None,
    };
    pre_call(control, frame, None, &key) == Some(EventCause::Breakpoint)
}

fn confirmed(step: Result<Step, Error>) -> Vec<i64> {
    match reply(step).body {
        Some(ResponseBody::SetBreakpoints { breakpoints }) => breakpoints
            .into_iter()
            .map(|bp| {
                assert!(bp.verified);
                assert_eq!(bp.source.and_then(|s| s.name).as_deref(), Some("shown"));
                bp.line.unwrap()
            })
            .collect(),
        other => panic!("{other:?}"),
    }
}

#[test]
fn requests_without_an_answer() {
    for req in [
        Command::Attach,
        Command::Pause,
        Command::Source,
        Command::Evaluate,
    ] {
        let r = reply(ask(&mut stopped(&[]), &mut control(), req));
        assert!(r.resume.is_none());
        assert!(r.body.is_none());
        assert!(!r.initialized);
        assert_eq!(r.outcome, Outcome::Continue);
    }
}

#[test]
fn initialization() {
    let mut session = DebugSession::new();
    let mut control = control();
    let r = reply(ask(&mut session, &mut control, Command::Initialize));
    assert!(matches!(
        r.body,
        Some(ResponseBody::Initialize {
            supports_configuration_done_request: Some(true)
        })
    ));
    assert!(r.initialized);
    let r = reply(ask(&mut session, &mut control, Command::ConfigurationDone));
    assert!(matches!(r.body, Some(ResponseBody::ConfigurationDone)));
    assert!(!r.initialized);
    let r = reply(ask(&mut session, &mut control, Command::Launch));
    assert!(matches!(r.body, Some(ResponseBody::Launch)));
    assert_eq!(r.outcome, Outcome::Continue);
}

#[test]
fn threads() {
    let r = reply(ask(&mut DebugSession::new(), &mut control(), Command::Threads));
    match r.body {
        Some(ResponseBody::Threads { threads }) => {
            assert_eq!(threads.len(), 1);
            assert_eq!(threads[0].id, 0);
            assert_eq!(threads[0].name, "Main");
        }
        other => panic!("{other:?}"),
    }
}

#[test]
fn going_on() {
    let mut control = control();
    let r = reply(ask(&mut stopped(&[0x20]), &mut control, Command::Continue));
    assert_eq!(r.resume.map(|ev| ev.frame()), Some(StackFramePtr::PreCall(0x30)));
    assert!(matches!(
        r.body,
        Some(ResponseBody::Continue {
            all_threads_continued: Some(true)
        })
    ));
    assert_eq!(control.get_step_mode(), StepMode::NoStep);
}

#[test]
fn stepping() {
    let mut controls = control();
    let r = reply(ask(&mut stopped(&[0x20]), &mut controls, Command::Next));
    assert!(r.resume.is_some());
    assert!(matches!(r.body, Some(ResponseBody::Next)));
    assert_eq!(controls.get_step_mode(), StepMode::StepOver);

    let mut controls = control();
    let r = reply(ask(&mut stopped(&[0x20]), &mut controls, Command::StepIn));
    assert!(r.resume.is_some());
    assert!(matches!(r.body, Some(ResponseBody::StepIn)));
    assert_eq!(controls.get_step_mode(), StepMode::StepIn);

    let mut controls = control();
    let r = reply(ask(&mut stopped(&[0x20]), &mut controls, Command::StepOut));
    assert!(r.resume.is_some());
    assert!(matches!(r.body, Some(ResponseBody::StepOut)));
    assert_eq!(controls.get_step_mode(), StepMode::StepOut);
}

#[test]
fn stepping_out_of_the_outermost_frame() {
    let mut control = control();
    let r = reply(ask(&mut stopped(&[]), &mut control, Command::StepOut));
    assert!(r.resume.is_some());
    assert!(matches!(r.body, Some(ResponseBody::StepOut)));
    assert_eq!(control.get_step_mode(), StepMode::NoStep);
}

#[test]
fn resumed_game_is_woken() {
    let key = BreakpointKey::new(id(10), 12);
    let frame = StackFramePtr::PreCall(0x30);
    let (ev, parker) = DebugEvent::new(key, EventCause::Step, frame);
    let mut session = DebugSession::new();
    session.handle_event(ev, &vec![]);
    let r = reply(ask(&mut session, &mut control(), Command::Continue));
    r.resume.unwrap().unpark();
    parker.park();
}

#[test]
fn going_on_without_a_stop() {
    for req in [
        Command::Continue,
        Command::Next,
        Command::StepIn,
        Command::StepOut,
    ] {
        let mut control = control();
        let r = ask(&mut DebugSession::new(), &mut control, req);
        assert_eq!(error(r), Some(Error::UnexpectedRequest));
        assert_eq!(control.get_step_mode(), StepMode::NoStep);
    }
}

#[test]
fn going_on_twice() {
    let mut session = stopped(&[0x20]);
    let mut control = control();
    assert!(ask(&mut session, &mut control, Command::Next).is_ok());
    let r = ask(&mut session, &mut control, Command::Continue);
    assert_eq!(error(r), Some(Error::UnexpectedRequest));
    assert_eq!(control.get_step_mode(), StepMode::StepOver);
}

#[test]
fn disconnecting() {
    let mut session = stopped(&[]);
    let mut control = control();
    let r = reply(ask(&mut session, &mut control, Command::Disconnect));
    assert!(r.resume.is_some());
    assert!(matches!(r.body, Some(ResponseBody::Disconnect)));
    assert_eq!(r.outcome, Outcome::Shutdown);
    let r = reply(ask(&mut session, &mut control, Command::Disconnect));
    assert!(r.resume.is_none());
    assert_eq!(r.outcome, Outcome::Shutdown);
}

#[test]
fn other_requests_keep_the_stop() {
    let mut session = stopped(&[0x20]);
    let mut control = control();
    assert!(ask(&mut session, &mut control, Command::Threads).is_ok());
    assert!(ask(&mut session, &mut control, Command::Scopes { frame_id: 0 }).is_ok());
    assert!(ask(&mut session, &mut control, breakpoints(Some("a.reds"), None)).is_ok());
    let r = reply(ask(&mut session, &mut control, Command::Continue));
    assert!(r.resume.is_some());
}

#[test]
fn unknown_requests() {
    let r = ask(&mut stopped(&[]), &mut control(), Command::Other);
    assert_eq!(error(r), Some(Error::UnhandledCommand));
}

#[test]
fn messages() {
    let mut session = DebugSession::new();
    let mut control = control();
    let r = session.handle_message(&mut control, None);
    assert_eq!(error(r), Some(Error::MissingCommand));
    let r = session.handle_message(&mut control, Some(&Command::Launch));
    assert!(matches!(reply(r).body, Some(ResponseBody::Launch)));
}

#[test]
fn errors_in_words() {
    assert_eq!(Error::UnhandledCommand.message(), "unhandled command");
    assert_eq!(Error::MissingCommand.message(), "missing command");
    assert_eq!(Error::UnexpectedRequest.message(), "unexpected request");
    assert_eq!(Error::UnkownStackFrame.message(), "unkown stack frame");
    assert_eq!(Error::UnknownScope.message(), "unkown scope");
}

#[test]
fn scopes_of_a_frame() {
    let mut session = stopped(&[0x20]);
    let mut control = control();
    let r = reply(ask(&mut session, &mut control, Command::Scopes { frame_id: 1 }));
    match r.body {
        Some(ResponseBody::Scopes { scopes }) => {
            assert_eq!(scopes.len(), 2);
            assert_eq!(scopes[0].name, "Arguments");
            assert_eq!(
                scopes[0].presentation_hint,
                Some(ScopePresentationHint::Arguments)
            );
            assert_eq!(scopes[0].variables_reference, 1);
            assert_eq!(scopes[1].name, "Locals");
            assert_eq!(
                scopes[1].presentation_hint,
                Some(ScopePresentationHint::Locals)
            );
            assert_eq!(scopes[1].variables_reference, 2);
        }
        other => panic!("{other:?}"),
    }
    let frame = StackFramePtr::PostCall(0x20);
    for (reference, scope) in [(1, Scope::Params(frame)), (2, Scope::Locals(frame))] {
        match ask(&mut session, &mut control, variables(reference)) {
            Ok(Step::ReadScope(query)) => assert_eq!(query.scope, scope),
            other => panic!("{other:?}"),
        }
    }
}

#[test]
fn scopes_of_no_frame() {
    for frame_id in [2, -1, i64::MAX, i64::MIN] {
        let r = ask(
            &mut stopped(&[0x20]),
            &mut control(),
            Command::Scopes { frame_id },
        );
        assert_eq!(error(r), Some(Error::UnkownStackFrame));
    }
    let r = ask(
        &mut DebugSession::new(),
        &mut control(),
        Command::Scopes { frame_id: 0 },
    );
    assert_eq!(error(r), Some(Error::UnkownStackFrame));
}

fn variables(variables_reference: i64) -> Command {
    Command::Variables {
        variables_reference,
        start: None,
        count: None,
    }
}

#[test]
fn variables_of_no_scope() {
    let mut session = stopped(&[0x20]);
    let mut control = control();
    assert!(ask(&mut session, &mut control, Command::Scopes { frame_id: 0 }).is_ok());
    for reference in [0, 3, -1, i64::MIN] {
        let r = ask(&mut session, &mut control, variables(reference));
        assert_eq!(error(r), Some(Error::UnknownScope));
    }
}

#[test]
fn next_stop_voids_scopes() {
    let mut session = stopped(&[0x20]);
    let mut control = control();
    assert!(ask(&mut session, &mut control, Command::Scopes { frame_id: 0 }).is_ok());
    assert!(ask(&mut session, &mut control, variables(1)).is_ok());
    session.handle_event(event(EventCause::Step, 0x40), &vec![]);
    let r = ask(&mut session, &mut control, variables(1));
    assert_eq!(error(r), Some(Error::UnknownScope));
}

#[test]
fn stops_are_reported() {
    let mut session = DebugSession::new();
    let r = session.handle_event(event(EventCause::Breakpoint, 0x30), &vec![]);
    assert_eq!(r.reason, StoppedEventReason::Breakpoint);
    assert_eq!(r.thread_id, Some(0));
    assert_eq!(r.all_threads_stopped, Some(false));
    let r = session.handle_event(event(EventCause::Step, 0x30), &vec![]);
    assert_eq!(r.reason, StoppedEventReason::Step);
}

#[test]
fn breakpoints_are_set() {
    let mut session = DebugSession::new();
    let mut control = control();
    let req = breakpoints(Some("A.reds"), Some(&[12, 5, 25, 12]));
    assert_eq!(confirmed(ask(&mut session, &mut control, req)), vec![12, 25, 12]);
    assert!(hit(&control, 10, 12));
    assert!(hit(&control, 20, 25));
    assert!(!hit(&control, 10, 25));
    assert!(!hit(&control, 10, 5));
}

#[test]
fn breakpoints_are_replaced_by_file() {
    let mut session = DebugSession::new();
    let mut control = control();
    let req = breakpoints(Some("a.reds"), Some(&[12, 25]));
    assert_eq!(confirmed(ask(&mut session, &mut control, req)), vec![12, 25]);
    let req = breakpoints(Some("b.reds"), Some(&[15]));
    assert_eq!(confirmed(ask(&mut session, &mut control, req)), vec![15]);
    let req = breakpoints(Some("a.reds"), Some(&[13]));
    assert_eq!(confirmed(ask(&mut session, &mut control, req)), vec![13]);
    assert!(!hit(&control, 10, 12));
    assert!(!hit(&control, 20, 25));
    assert!(hit(&control, 10, 13));
    assert!(hit(&control, 110, 15));
    let req = breakpoints(Some("b.reds"), None);
    assert!(confirmed(ask(&mut session, &mut control, req)).is_empty());
    assert!(!hit(&control, 110, 15));
    assert!(hit(&control, 10, 13));
}

#[test]
fn breakpoints_in_no_file() {
    let mut session = DebugSession::new();
    let mut control = control();
    let req = breakpoints(Some("a.reds"), Some(&[12]));
    assert_eq!(confirmed(ask(&mut session, &mut control, req)), vec![12]);
    let req = breakpoints(None, Some(&[12]));
    assert!(confirmed(ask(&mut session, &mut control, req)).is_empty());
    let req = breakpoints(Some("c.reds"), Some(&[12]));
    assert!(confirmed(ask(&mut session, &mut control, req)).is_empty());
    assert!(hit(&control, 10, 12));
}

#[test]
fn lines_are_cut() {
    let mut session = DebugSession::new();
    let mut control = control();
    let req = breakpoints(Some("a.reds"), Some(&[65536 + 12, -1, 65536]));
    assert_eq!(
        confirmed(ask(&mut session, &mut control, req)),
        vec![65548, -1]
    );
    assert!(hit(&control, 10, 12));
    assert!(hit(&control, 20, 65535));
}

fn info(name: &str, class: Option<&str>, function: FunctionId) -> FrameInfo {
    FrameInfo {
        static_line: None,
        virtual_line: None,
        function,
        name: name.to_owned(),
        class: class.map(|c| c.to_owned()),
    }
}

fn frames(session: &mut DebugSession, start: Option<i64>, levels: Option<i64>) -> FrameQuery {
    let req = Command::StackTrace {
        start_frame: start,
        levels,
    };
    match ask(session, &mut control(), req) {
        Ok(Step::ReadFrames(query)) => query,
        other => panic!("{other:?}"),
    }
}

#[test]
fn frames_that_are_asked_for() {
    let mut session = stopped(&[0x20, 0x10]);
    let query = frames(&mut session, None, None);
    assert_eq!(query.start, 0);
    assert_eq!(query.total, 3);
    assert_eq!(
        query.frames,
        vec![
            StackFramePtr::PreCall(0x30),
            StackFramePtr::PostCall(0x20),
            StackFramePtr::PostCall(0x10),
        ]
    );
    let query = frames(&mut session, Some(1), Some(1));
    assert_eq!(query.start, 1);
    assert_eq!(query.total, 3);
    assert_eq!(query.frames, vec![StackFramePtr::PostCall(0x20)]);
}

#[test]
fn frames_that_cannot_be_had() {
    let session = stopped(&[0x20, 0x10]);
    for (start_frame, levels) in [(Some(4), None), (Some(-1), None), (Some(3), Some(-3))] {
        assert!(!session.accepts(&Command::StackTrace {
            start_frame,
            levels
        }));
    }
}

#[test]
fn stack_trace() {
    let control = control();
    let query = FrameQuery {
        start: 1,
        frames: vec![StackFramePtr::PostCall(1); 4],
        total: 9,
    };
    let infos = vec![
        FrameInfo {
            static_line: Some(14),
            virtual_line: Some(15),
            ..info("OnUpdate;Float", Some("Player"), id(10))
        },
        FrameInfo {
            virtual_line: Some(27),
            ..info("Main", None, id(120))
        },
        info("Lost;", None, id(20)),
        FrameInfo {
            static_line: Some(3),
            ..info("Native", Some("Game"), id(999))
        },
    ];
    let r = DebugSession::stack_trace(&control, &query, &infos);
    assert!(r.resume.is_none());
    assert_eq!(r.outcome, Outcome::Continue);
    let Some(ResponseBody::StackTrace {
        stack_frames,
        total_frames,
    }) = r.body
    else {
        panic!("no stack trace");
    };
    assert_eq!(total_frames, Some(9));
    let shown: Vec<_> = stack_frames
        .iter()
        .map(|f| {
            let source = f.source.as_ref();
            (
                f.id,
                f.name.as_str(),
                source.and_then(|s| s.name.as_deref()),
                source.and_then(|s| s.path.as_deref()),
                f.line,
            )
        })
        .collect();
    assert_eq!(
        shown,
        vec![
            (1, "Player::OnUpdate", Some("a.reds"), Some("a.reds"), 14),
            (2, "Main", Some("b.reds"), Some("b.reds"), 27),
            (3, "Lost", None, None, 0),
            (4, "Game::Native", None, None, 0),
        ]
    );
}

#[test]
fn files_of_frames_go_by_their_names() {
    let mut control = DebugControl::new();
    let source = SourceFileInfo {
        index: 0,
        path: "C:\\Game\\R6\\Main.reds".to_owned(),
    };
    control.functions_mut().add(id(1), &source, None, 1);
    let query = FrameQuery {
        start: 0,
        frames: vec![StackFramePtr::PreCall(1)],
        total: 1,
    };
    let infos = vec![FrameInfo {
        static_line: Some(2),
        ..info("F", None, id(1))
    }];
    let Some(ResponseBody::StackTrace { stack_frames, .. }) =
        DebugSession::stack_trace(&control, &query, &infos).body
    else {
        panic!("no stack trace");
    };
    let source = stack_frames[0].source.as_ref().unwrap();
    assert_eq!(source.name.as_deref(), Some("main.reds"));
    assert_eq!(source.path.as_deref(), Some("c:\\game\\r6\\main.reds"));
}

fn numbers(n: usize) -> ScopeContents {
    let instance = Instance {
        id: 0x80,
        fields: 0x88,
        class: 4,
    };
    ScopeContents {
        this: Some(instance),
        is_static: false,
        properties: (0..n)
            .map(|i| Property {
                name: format!("v{i}"),
                in_value_holder: true,
                value: Value::Other(format!("{i}")),
            })
            .collect(),
    }
}

fn names(
    session: &mut DebugSession,
    contents: &ScopeContents,
    start: Option<i64>,
    count: Option<i64>,
) -> Option<Vec<String>> {
    let query = VariablesQuery {
        scope: Scope::Locals(StackFramePtr::PreCall(0x30)),
        start,
        count,
    };
    if !session.accepts_variables(&query, contents) {
        return None;
    }
    let r = session
        .variables(&query, contents, &Snapshot::new())
        .unwrap();
    assert!(r.resume.is_none());
    assert_eq!(r.outcome, Outcome::Continue);
    match r.body {
        Some(ResponseBody::Variables { variables }) => {
            Some(variables.into_iter().map(|v| v.name).collect())
        }
        other => panic!("{other:?}"),
    }
}

#[test]
fn pages_of_locals() {
    let mut session = stopped(&[]);
    let contents = numbers(3);
    let all = names(&mut session, &contents, None, None).unwrap();
    assert_eq!(all, vec!["this", "v0", "v1", "v2"]);
    let part = names(&mut session, &contents, Some(1), Some(2)).unwrap();
    assert_eq!(part, vec!["v0", "v1"]);
    let part = names(&mut session, &contents, Some(3), Some(9)).unwrap();
    assert_eq!(part, vec!["v2"]);
    let part = names(&mut session, &contents, Some(4), None).unwrap();
    assert!(part.is_empty());
    assert_eq!(names(&mut session, &contents, Some(5), None), None);
    assert_eq!(names(&mut session, &contents, Some(-1), None), None);
}

#[test]
fn scopes_are_opened_for_variables_beyond_the_page() {
    let mut session = stopped(&[]);
    let contents = numbers(3);
    let part = names(&mut session, &contents, Some(1), Some(1)).unwrap();
    assert_eq!(part, vec!["v0"]);
    match ask(&mut session, &mut control(), variables(1)) {
        Ok(Step::ReadScope(query)) => assert_eq!(query.scope, Scope::Object(0x88, 4)),
        other => panic!("{other:?}"),
    }
}

#[test]
fn variables_need_their_objects() {
    let mut session = stopped(&[]);
    let instance = Instance {
        id: 0x80,
        fields: 0x88,
        class: 4,
    };
    let contents = ScopeContents {
        this: None,
        is_static: true,
        properties: vec![Property {
            name: "x".to_owned(),
            in_value_holder: true,
            value: Value::Ref(Some(instance)),
        }],
    };
    let query = VariablesQuery {
        scope: Scope::Params(StackFramePtr::PreCall(0x30)),
        start: None,
        count: None,
    };
    assert!(session.accepts_variables(&query, &contents));
    let r = session.variables(&query, &contents, &Snapshot::new());
    assert_eq!(r.err(), Some(0x80));
    let r = ask(&mut session, &mut control(), variables(1));
    assert_eq!(error(r), Some(Error::UnknownScope));

    let mut objects = Snapshot::new();
    objects.insert(0x80, vec![]);
    assert!(session.variables(&query, &contents, &objects).is_ok());
    assert!(ask(&mut session, &mut control(), variables(1)).is_ok());
}

#[test]
fn waiting_for_stops() {
    assert_eq!(DebugSession::next_turn(Received::Event, false), Turn::Again);
    assert_eq!(DebugSession::next_turn(Received::Empty, false), Turn::Again);
    assert_eq!(DebugSession::next_turn(Received::Event, true), Turn::Join);
    assert_eq!(DebugSession::next_turn(Received::Empty, true), Turn::Join);
    for finished in [false, true] {
        let turn = DebugSession::next_turn(Received::Disconnected, finished);
        assert_eq!(turn, Turn::Leave);
    }
}

#[test]
fn closing_resets_the_controls() {
    let mut session = stopped(&[0x20]);
    let mut control = control();
    let req = breakpoints(Some("a.reds"), Some(&[12]));
    assert!(ask(&mut session, &mut control, req).is_ok());
    control.set_step_mode(StepMode::StepIn);
    control.set_last_break_frame(0x30);

    let current = session.close(&mut control);
    assert_eq!(
        current.map(|ev| ev.frame()),
        Some(StackFramePtr::PreCall(0x30))
    );
    assert_eq!(control.get_step_mode(), StepMode::NoStep);
    assert_eq!(control.get_last_break_frame(), None);
    assert!(!hit(&control, 10, 12));
    assert_eq!(control.functions().get_by_loc("a.reds", 12), Some(id(10)));
    assert!(session.close(&mut control).is_none());
}

#[test]
fn name_of_the_port_file() {
    assert_eq!(port_file_name(0), "dap.0.debug");
    assert_eq!(port_file_name(49152), "dap.49152.debug");
    assert_eq!(port_file_name(65535), "dap.65535.debug");
}
