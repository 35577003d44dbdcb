use std::cell::RefCell;
use std::rc::Rc;

use rhodium::errors::{RhodError, RhodErrorLevel, RhodResult};
use rhodium::executor::execute;
use rhodium::headers::RhodHeaderMap;
use rhodium::protocols::HttpProtocol;
use rhodium::request::{RhodRequest, RhodUri, RhodVersion};
use rhodium::response::RhodResponse;
use rhodium::stack::{
    DynamicRhodHandler, RhodHandler, RhodHandlerInStack, RhodService, RhodStack,
};
use rhodium::{CommunicationChannel, RhodConnInfo};

type CallLog = Rc<RefCell<Vec<String>>>;

struct Comm {
    flag_set: bool,
    note: String,
}

impl CommunicationChannel for Comm {
    fn new() -> Comm {
        Comm {
            flag_set: false,
            note: String::new(),
        }
    }
}

/// A stage driven by a little script: what to do forward and backward, under
/// a name that it writes into the shared call log.
struct Stage {
    name: &'static str,
    log: CallLog,
    fail_request: bool,
    fail_response: bool,
    set_flag: bool,
}

impl Stage {
    fn new(name: &'static str, log: &CallLog) -> Stage {
        Stage {
            name,
            log: Rc::clone(log),
            fail_request: false,
            fail_response: false,
            set_flag: false,
        }
    }

    fn note(&self, what: &str) {
        self.log.borrow_mut().push(format!("{}.{}", self.name, what));
    }
}

impl RhodHandler<Comm> for Stage {
    fn handle_request(
        &self,
        _conn: &RhodConnInfo,
        req: &mut RhodRequest,
        comm: &mut Comm,
    ) -> RhodResult<()> {
        self.note("handle_request");
        if self.set_flag {
            comm.flag_set = true;
        }
        comm.note.push_str(self.name);
        req.insert_header(self.name, "seen");
        if self.fail_request {
            Err(RhodError::from_str("request failed", RhodErrorLevel::Error))
        } else {
            Ok(())
        }
    }

    fn catch_request(
        &self,
        _conn: &RhodConnInfo,
        _req: &RhodRequest,
        _err: &RhodError,
        _comm: &Comm,
    ) {
        self.note("catch_request");
    }

    fn handle_response(
        &self,
        _conn: &RhodConnInfo,
        mut res: RhodResponse,
        _comm: &mut Comm,
    ) -> (RhodResponse, RhodResult<()>) {
        self.note("handle_response");
        let mut body = res.body().clone();
        body.extend_from_slice(self.name.as_bytes());
        res.set_body(body);
        if self.fail_response {
            (
                res,
                Err(RhodError::from_str("response failed", RhodErrorLevel::Warning)),
            )
        } else {
            (res, Ok(()))
        }
    }

    fn catch_response(
        &self,
        _conn: &RhodConnInfo,
        _res: &RhodResponse,
        _err: &RhodError,
        _comm: &Comm,
    ) {
        self.note("catch_response");
    }
}

/// A resolver that always picks its one inner stage and counts how often it
/// was asked.
struct Resolver {
    inner: Stage,
    calls: Rc<RefCell<usize>>,
}

impl DynamicRhodHandler<Comm, Stage> for Resolver {
    fn get_handler<'a>(
        &'a self,
        _conn: &RhodConnInfo,
        _req: &RhodRequest,
        _comm: &mut Comm,
    ) -> &'a Stage {
        *self.calls.borrow_mut() += 1;
        &self.inner
    }
}

/// The terminal service: fails with the scripted error when the flag was set
/// by a stage, otherwise answers with an empty body and echoes the
/// communication note it observed.
struct Service {
    log: CallLog,
}

impl RhodService<Comm> for Service {
    fn serve(
        &self,
        _conn: &RhodConnInfo,
        _req: RhodRequest,
        comm: &mut Comm,
    ) -> RhodResult<RhodResponse> {
        self.log.borrow_mut().push("service.serve".to_string());
        if comm.flag_set {
            Err(RhodError::from_str("some error", RhodErrorLevel::Warning))
        } else {
            let mut res = RhodResponse::new(200, RhodHeaderMap::new(), Vec::new());
            res.insert_header("X-Note", comm.note.as_str());
            Ok(res)
        }
    }
}

fn conn() -> RhodConnInfo {
    RhodConnInfo::new("127.0.0.1:3000".to_string(), HttpProtocol::HTTP)
}

fn request() -> RhodRequest {
    RhodRequest::new(
        "GET".to_owned(),
        RhodUri::new(None, "/".to_owned(), None),
        RhodVersion::Http11,
        RhodHeaderMap::new(),
        Vec::new(),
    )
}

fn log_of(log: &CallLog) -> Vec<String> {
    log.borrow().clone()
}

#[test]
fn scenario_empty_stack_returns_service_result() {
    let log: CallLog = Rc::new(RefCell::new(Vec::new()));
    let stack: RhodStack<Stage, Resolver, Service> =
        RhodStack::new(vec![], Service { log: Rc::clone(&log) });
    let (result, _) = execute(&stack, &conn(), request());
    let res = result.unwrap();
    assert_eq!(res.status_as_int(), 200);
    assert_eq!(res.body().clone(), Vec::<u8>::new());
    assert_eq!(log_of(&log), vec!["service.serve".to_string()]);
}

#[test]
fn scenario_flag_stage_then_service_error() {
    let log: CallLog = Rc::new(RefCell::new(Vec::new()));
    let mut flagger = Stage::new("s1", &log);
    flagger.set_flag = true;
    let stack = RhodStack::new(
        vec![RhodHandlerInStack::<Stage, Resolver>::RhodHandler(flagger)],
        Service { log: Rc::clone(&log) },
    );
    let (result, _) = execute(&stack, &conn(), request());
    let err = result.unwrap_err();
    assert_eq!(err.msg(), "some error");
    assert_eq!(err.level(), RhodErrorLevel::Warning);
    assert_eq!(
        log_of(&log),
        vec!["s1.handle_request".to_string(), "service.serve".to_string()]
    );
}

#[test]
fn scenario_two_stages_full_round_trip() {
    let log: CallLog = Rc::new(RefCell::new(Vec::new()));
    let stack = RhodStack::new(
        vec![
            RhodHandlerInStack::<Stage, Resolver>::RhodHandler(Stage::new("h1", &log)),
            RhodHandlerInStack::<Stage, Resolver>::RhodHandler(Stage::new("h2", &log)),
        ],
        Service { log: Rc::clone(&log) },
    );
    let (result, _) = execute(&stack, &conn(), request());
    let res = result.unwrap();
    // the backward pass ran h2 first, then h1: h1's mark comes last
    assert_eq!(res.body().clone(), "h2h1".as_bytes().to_vec());
    // the service saw both stages' forward-pass marks, in declared order
    assert_eq!(res.headers().get("X-Note").unwrap(), "h1h2");
    assert_eq!(
        log_of(&log),
        vec![
            "h1.handle_request".to_string(),
            "h2.handle_request".to_string(),
            "service.serve".to_string(),
            "h2.handle_response".to_string(),
            "h1.handle_response".to_string(),
        ]
    );
}

#[test]
fn scenario_forward_failure_skips_service_and_earlier_stages() {
    let log: CallLog = Rc::new(RefCell::new(Vec::new()));
    let mut h2 = Stage::new("h2", &log);
    h2.fail_request = true;
    let stack = RhodStack::new(
        vec![
            RhodHandlerInStack::<Stage, Resolver>::RhodHandler(Stage::new("h1", &log)),
            RhodHandlerInStack::<Stage, Resolver>::RhodHandler(h2),
        ],
        Service { log: Rc::clone(&log) },
    );
    let (result, _) = execute(&stack, &conn(), request());
    let err = result.unwrap_err();
    assert_eq!(err.msg(), "request failed");
    // h1 already succeeded, so it gets no recovery call; the service never
    // runs; no response-phase operation runs at all
    assert_eq!(
        log_of(&log),
        vec!["h1.handle_request".to_string(), "h2.handle_request".to_string()]
    );
}

#[test]
fn forward_failure_notifies_later_stages_only() {
    let log: CallLog = Rc::new(RefCell::new(Vec::new()));
    let mut h2 = Stage::new("h2", &log);
    h2.fail_request = true;
    let stack = RhodStack::new(
        vec![
            RhodHandlerInStack::<Stage, Resolver>::RhodHandler(Stage::new("h1", &log)),
            RhodHandlerInStack::<Stage, Resolver>::RhodHandler(h2),
            RhodHandlerInStack::<Stage, Resolver>::RhodHandler(Stage::new("h3", &log)),
        ],
        Service { log: Rc::clone(&log) },
    );
    let (result, _) = execute(&stack, &conn(), request());
    assert!(result.is_err());
    assert_eq!(
        log_of(&log),
        vec![
            "h1.handle_request".to_string(),
            "h2.handle_request".to_string(),
            "h3.catch_request".to_string(),
        ]
    );
}

#[test]
fn backward_failure_returns_error_alone_and_notifies_earlier_stages() {
    let log: CallLog = Rc::new(RefCell::new(Vec::new()));
    let mut h2 = Stage::new("h2", &log);
    h2.fail_response = true;
    let stack = RhodStack::new(
        vec![
            RhodHandlerInStack::<Stage, Resolver>::RhodHandler(Stage::new("h1", &log)),
            RhodHandlerInStack::<Stage, Resolver>::RhodHandler(h2),
            RhodHandlerInStack::<Stage, Resolver>::RhodHandler(Stage::new("h3", &log)),
        ],
        Service { log: Rc::clone(&log) },
    );
    let (result, _) = execute(&stack, &conn(), request());
    let err = result.unwrap_err();
    assert_eq!(err.msg(), "response failed");
    assert_eq!(err.level(), RhodErrorLevel::Warning);
    assert_eq!(
        log_of(&log),
        vec![
            "h1.handle_request".to_string(),
            "h2.handle_request".to_string(),
            "h3.handle_request".to_string(),
            "service.serve".to_string(),
            "h3.handle_response".to_string(),
            "h2.handle_response".to_string(),
            "h1.catch_response".to_string(),
        ]
    );
}

#[test]
fn resolver_runs_once_per_request_and_identity_is_reused() {
    let log: CallLog = Rc::new(RefCell::new(Vec::new()));
    let calls = Rc::new(RefCell::new(0usize));
    let resolver = Resolver {
        inner: Stage::new("dyn", &log),
        calls: Rc::clone(&calls),
    };
    let stack = RhodStack::new(
        vec![RhodHandlerInStack::<Stage, Resolver>::DynamicRhodHandler(resolver)],
        Service { log: Rc::clone(&log) },
    );
    let (result, _) = execute(&stack, &conn(), request());
    assert!(result.is_ok());
    // resolved once, though the stage ran in both passes
    assert_eq!(*calls.borrow(), 1);
    assert_eq!(
        log_of(&log),
        vec![
            "dyn.handle_request".to_string(),
            "service.serve".to_string(),
            "dyn.handle_response".to_string(),
        ]
    );
    // a second request resolves again, once
    let (result, _) = execute(&stack, &conn(), request());
    assert!(result.is_ok());
    assert_eq!(*calls.borrow(), 2);
}

#[test]
fn communication_is_shared_within_a_request_and_fresh_across_requests() {
    let log: CallLog = Rc::new(RefCell::new(Vec::new()));
    let stack = RhodStack::new(
        vec![RhodHandlerInStack::<Stage, Resolver>::RhodHandler(Stage::new("s1", &log))],
        Service { log: Rc::clone(&log) },
    );
    // the note the stage wrote is visible to the service of the same request
    let (result, _) = execute(&stack, &conn(), request());
    let res = result.unwrap();
    assert_eq!(res.headers().get("X-Note").unwrap(), "s1");
    // a second request starts from a fresh communication value: were the bag
    // reused, the note would accumulate to "s1s1"
    let (result, _) = execute(&stack, &conn(), request());
    let res = result.unwrap();
    assert_eq!(res.headers().get("X-Note").unwrap(), "s1");
}

#[test]
fn mixed_stack_resolves_each_dynamic_position_once() {
    let log: CallLog = Rc::new(RefCell::new(Vec::new()));
    let calls_a = Rc::new(RefCell::new(0usize));
    let calls_b = Rc::new(RefCell::new(0usize));
    let stack = RhodStack::new(
        vec![
            RhodHandlerInStack::<Stage, Resolver>::DynamicRhodHandler(Resolver {
                inner: Stage::new("da", &log),
                calls: Rc::clone(&calls_a),
            }),
            RhodHandlerInStack::<Stage, Resolver>::RhodHandler(Stage::new("fx", &log)),
            RhodHandlerInStack::<Stage, Resolver>::DynamicRhodHandler(Resolver {
                inner: Stage::new("db", &log),
                calls: Rc::clone(&calls_b),
            }),
        ],
        Service { log: Rc::clone(&log) },
    );
    let (result, _) = execute(&stack, &conn(), request());
    let res = result.unwrap();
    assert_eq!(*calls_a.borrow(), 1);
    assert_eq!(*calls_b.borrow(), 1);
    // backward order is the exact reverse of forward order
    assert_eq!(res.body().clone(), "dbfxda".as_bytes().to_vec());
    assert_eq!(
        log_of(&log),
        vec![
            "da.handle_request".to_string(),
            "fx.handle_request".to_string(),
            "db.handle_request".to_string(),
            "service.serve".to_string(),
            "db.handle_response".to_string(),
            "fx.handle_response".to_string(),
            "da.handle_response".to_string(),
        ]
    );
}

#[test]
fn resolution_still_happens_after_a_forward_error() {
    let log: CallLog = Rc::new(RefCell::new(Vec::new()));
    let calls = Rc::new(RefCell::new(0usize));
    let mut failing = Stage::new("f1", &log);
    failing.fail_request = true;
    let stack = RhodStack::new(
        vec![
            RhodHandlerInStack::<Stage, Resolver>::RhodHandler(failing),
            RhodHandlerInStack::<Stage, Resolver>::DynamicRhodHandler(Resolver {
                inner: Stage::new("dyn", &log),
                calls: Rc::clone(&calls),
            }),
        ],
        Service { log: Rc::clone(&log) },
    );
    let (result, _) = execute(&stack, &conn(), request());
    assert!(result.is_err());
    // the later position was still resolved, and its stage got the recovery
    // notification rather than normal processing
    assert_eq!(*calls.borrow(), 1);
    assert_eq!(
        log_of(&log),
        vec!["f1.handle_request".to_string(), "dyn.catch_request".to_string()]
    );
}
