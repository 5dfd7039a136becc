use janus_actor::{
    Actor, ActorError, ActorId, ActorPath, ActorSelection, ActorState, ActorSystem, ActorSystemConfig, AnyActorRef,
    Delivery, Handler, Message, MessageHandler, SendError, SupervisionEvent, SupervisionStrategy, SystemMessage,
};

#[derive(Debug)]
enum Msg {
    Greet(String),
    Text(String),
    Incr,
    Fail,
}

struct Greet {
    name: String,
}

impl Message for Greet {
    type Result = String;
}

struct Greeter {
    prefix: String,
    count: usize,
    seen: Vec<String>,
    starts: usize,
    stops: usize,
}

impl Greeter {
    fn new(prefix: &str) -> Self {
        Greeter { prefix: prefix.to_string(), count: 0, seen: Vec::new(), starts: 0, stops: 0 }
    }
}

impl Actor for Greeter {
    fn started(&mut self) {
        self.starts += 1;
    }

    fn stopping(&mut self) {}

    fn stopped(&mut self) {
        self.stops += 1;
    }
}

impl Handler<Greet> for Greeter {
    fn handle(&mut self, msg: Greet) -> String {
        self.count += 1;
        self.seen.push(msg.name.clone());
        format!("{}, {}! (count: {})", self.prefix, msg.name, self.count)
    }
}

/// Runs the mailbox loop of `id` until it has nothing to hand out; returns the
/// system messages it was given in its supervising role.
fn run(sys: &mut ActorSystem<Msg>, id: ActorId, actor: &mut Greeter, now: u64) -> Vec<SystemMessage> {
    let mut notes = Vec::new();
    while let Some(d) = sys.take_next(id, now) {
        match d {
            Delivery::Message(Msg::Greet(name)) => {
                let r = actor.handle(Greet { name });
                assert!(sys.complete(id, Ok(Msg::Text(r))));
            }
            Delivery::Message(Msg::Fail) => {
                assert!(sys.complete(id, Err(ActorError::Handler("fail".to_string()))));
            }
            Delivery::Message(_) => {
                assert!(sys.complete(id, Ok(Msg::Text(String::new()))));
            }
            Delivery::Task(Msg::Incr) => {
                actor.count += 1;
                assert!(sys.complete(id, Ok(Msg::Text(String::new()))));
            }
            Delivery::Task(_) => {
                assert!(sys.complete(id, Ok(Msg::Text(String::new()))));
            }
            Delivery::Restart => {
                *actor = Greeter::new(&actor.prefix.clone());
                actor.started();
                assert!(sys.started(id));
            }
            Delivery::Stopped => {
                actor.stopping();
                actor.stopped();
            }
            Delivery::System(m) => notes.push(m),
        }
    }
    notes
}

fn text(reply: Option<Result<Msg, SendError>>) -> String {
    match reply {
        Some(Ok(Msg::Text(s))) => s,
        other => panic!("unexpected reply {:?}", other),
    }
}

fn new_system() -> ActorSystem<Msg> {
    ActorSystem::new("janus", ActorSystemConfig::default())
}

#[test]
fn greeter_counts_replies() {
    let mut sys = new_system();
    let greeter = sys.create_actor("greeter").unwrap();
    let id = greeter.id();
    let mut actor = Greeter::new("Hello");
    actor.started();
    assert!(sys.started(id));
    let t1 = greeter.send(&mut sys, Msg::Greet("World".to_string()), 0).unwrap();
    let t2 = greeter.send(&mut sys, Msg::Greet("World".to_string()), 0).unwrap();
    assert!(sys.poll_reply(t1).is_none());
    run(&mut sys, id, &mut actor, 0);
    assert_eq!(text(sys.poll_reply(t1)), "Hello, World! (count: 1)");
    assert_eq!(text(sys.poll_reply(t2)), "Hello, World! (count: 2)");
    assert!(matches!(sys.poll_reply(t1), Some(Err(SendError::Canceled))));
}

#[test]
fn child_spawned_in_started_is_registered() {
    let mut sys = new_system();
    let parent = sys.create_actor("parent").unwrap();
    let child = sys.spawn(parent.id(), "child").unwrap();
    assert_eq!(child.path().as_str(), "/janus/parent/child");
    let path = ActorPath::root("janus").child("parent").child("child");
    assert_eq!(sys.actor_by_path(&path), Some(child.id()));
    assert_eq!(sys.parent_of(child.id()), Some(parent.id()));
    assert_eq!(sys.child_count(parent.id()), 1);
    assert_eq!(sys.actor_by_path(&ActorPath::root("janus")), None);
    assert_eq!(sys.state_of(child.id()), Some(ActorState::Initializing));
}

#[test]
fn respawn_under_same_name_overwrites_entry() {
    let mut sys = new_system();
    let a = sys.create_actor("a").unwrap();
    let b = sys.create_actor("a").unwrap();
    assert_ne!(a.id(), b.id());
    assert_eq!(sys.actor_by_path(&ActorPath::root("janus").child("a")), Some(b.id()));
    assert_eq!(sys.child_count(ActorId(0)), 1);
}

#[test]
fn scheduled_task_fires_once_after_delay() {
    let mut sys = new_system();
    let r = sys.create_actor("ticker").unwrap();
    let id = r.id();
    let mut actor = Greeter::new("Hello");
    assert!(sys.started(id));
    assert!(sys.schedule(id, 1000, Msg::Incr, 0));
    sys.tick(999);
    run(&mut sys, id, &mut actor, 999);
    assert_eq!(actor.count, 0);
    sys.tick(1000);
    run(&mut sys, id, &mut actor, 1000);
    assert_eq!(actor.count, 1);
    sys.tick(5000);
    run(&mut sys, id, &mut actor, 5000);
    assert_eq!(actor.count, 1);
}

#[test]
fn restart_resets_state_and_keeps_identity() {
    let mut sys = new_system();
    assert!(sys.set_strategy(ActorId(0), SupervisionStrategy::Restart { max_retries: Some(1), reset_window: Some(60_000) }));
    let r = sys.create_actor("greeter").unwrap();
    let id = r.id();
    let mut actor = Greeter::new("Hello");
    actor.started();
    assert!(sys.started(id));
    r.do_send(&mut sys, Msg::Greet("World".to_string()), 0).unwrap();
    run(&mut sys, id, &mut actor, 0);
    assert_eq!(actor.count, 1);
    r.do_send(&mut sys, Msg::Fail, 10).unwrap();
    run(&mut sys, id, &mut actor, 10);
    assert_eq!(actor.count, 0);
    assert_eq!(actor.starts, 1);
    assert_eq!(sys.state_of(id), Some(ActorState::Running));
    assert_eq!(sys.failure_count(id), Some(1));
    let again = sys.address(id).unwrap();
    assert_eq!(again.id(), id);
    assert_eq!(again.path().as_str(), "/janus/greeter");
    assert_eq!(sys.actor_by_path(&ActorPath::root("janus").child("greeter")), Some(id));
}

#[test]
fn restart_budget_allows_two_then_stops() {
    let mut sys = new_system();
    assert!(sys.set_strategy(ActorId(0), SupervisionStrategy::Restart { max_retries: Some(2), reset_window: Some(1000) }));
    let r = sys.create_actor("flaky").unwrap();
    let id = r.id();
    let mut actor = Greeter::new("Hello");
    assert!(sys.started(id));
    let mut restarts = 0;
    for (k, now) in [100u64, 200, 300].iter().enumerate() {
        r.do_send(&mut sys, Msg::Fail, *now).unwrap();
        let before = actor.starts;
        run(&mut sys, id, &mut actor, *now);
        if actor.starts > before || (k < 2 && sys.state_of(id) == Some(ActorState::Running)) {
            restarts += 1;
        }
    }
    assert_eq!(restarts, 2);
    assert_eq!(sys.failure_count(id), Some(3));
    assert_eq!(sys.state_of(id), Some(ActorState::Stopped));
    assert_eq!(actor.stops, 1);
    assert_eq!(r.do_send(&mut sys, Msg::Incr, 400), Err(SendError::Closed));
}

#[test]
fn escalate_notifies_grandparent_only() {
    let mut sys = new_system();
    let parent = sys.create_actor("parent").unwrap();
    let child = sys.spawn(parent.id(), "child").unwrap();
    assert!(sys.started(parent.id()));
    assert!(sys.started(child.id()));
    assert!(sys.set_strategy(parent.id(), SupervisionStrategy::Escalate));
    let mut actor = Greeter::new("Hello");
    child.do_send(&mut sys, Msg::Fail, 0).unwrap();
    run(&mut sys, child.id(), &mut actor, 0);
    assert_eq!(sys.state_of(child.id()), Some(ActorState::Running));
    assert_eq!(sys.pending(child.id()), 0);
    assert_eq!(sys.pending(parent.id()), 0);
    assert_eq!(sys.pending(ActorId(0)), 1);
    match sys.take_next(ActorId(0), 0) {
        Some(Delivery::System(SystemMessage::Supervision(SupervisionEvent::ChildFailure { child_id, .. }))) => {
            assert_eq!(child_id, child.id());
        }
        other => panic!("expected a child failure, got {:?}", other),
    }
}

#[test]
fn fifo_per_sender_across_interleaving() {
    let mut sys = new_system();
    let r = sys.create_actor("recorder").unwrap();
    let id = r.id();
    assert!(sys.started(id));
    let mut actor = Greeter::new("Hi");
    r.do_send(&mut sys, Msg::Greet("m1".to_string()), 0).unwrap();
    sys.do_send(id, Msg::Greet("other".to_string()), 0).unwrap();
    r.do_send(&mut sys, Msg::Greet("m2".to_string()), 0).unwrap();
    run(&mut sys, id, &mut actor, 0);
    assert_eq!(actor.seen, vec!["m1".to_string(), "other".to_string(), "m2".to_string()]);
}

#[test]
fn one_handler_at_a_time() {
    let mut sys = new_system();
    let r = sys.create_actor("solo").unwrap();
    let id = r.id();
    assert!(sys.started(id));
    r.do_send(&mut sys, Msg::Greet("a".to_string()), 0).unwrap();
    r.do_send(&mut sys, Msg::Greet("b".to_string()), 0).unwrap();
    assert!(matches!(sys.take_next(id, 0), Some(Delivery::Message(Msg::Greet(_)))));
    assert!(sys.take_next(id, 0).is_none());
    assert!(sys.take_next(id, 0).is_none());
    assert!(sys.complete(id, Ok(Msg::Text(String::new()))));
    assert!(!sys.complete(id, Ok(Msg::Text(String::new()))));
    assert!(matches!(sys.take_next(id, 0), Some(Delivery::Message(Msg::Greet(_)))));
}

#[test]
fn ask_canceled_when_stopped_first() {
    let mut sys = new_system();
    let r = sys.create_actor("doomed").unwrap();
    let id = r.id();
    assert!(sys.started(id));
    let ticket = r.send(&mut sys, Msg::Greet("x".to_string()), 0).unwrap();
    sys.stop(id);
    assert!(matches!(sys.poll_reply(ticket), Some(Err(SendError::Canceled))));
    assert_eq!(sys.state_of(id), Some(ActorState::Stopping));
    assert!(matches!(sys.take_next(id, 0), Some(Delivery::Stopped)));
    assert_eq!(sys.state_of(id), Some(ActorState::Stopped));
    assert!(sys.take_next(id, 0).is_none());
    assert_eq!(r.do_send(&mut sys, Msg::Incr, 0), Err(SendError::Closed));
    assert!(matches!(r.send(&mut sys, Msg::Incr, 0), Err(SendError::Closed)));
}

#[test]
fn ask_canceled_when_handler_fails() {
    let mut sys = new_system();
    assert!(sys.set_strategy(ActorId(0), SupervisionStrategy::Resume));
    let r = sys.create_actor("resumer").unwrap();
    let id = r.id();
    assert!(sys.started(id));
    let mut actor = Greeter::new("Hello");
    let ticket = r.send(&mut sys, Msg::Fail, 0).unwrap();
    let after = r.send(&mut sys, Msg::Greet("World".to_string()), 0).unwrap();
    run(&mut sys, id, &mut actor, 0);
    assert!(matches!(sys.poll_reply(ticket), Some(Err(SendError::Canceled))));
    assert_eq!(text(sys.poll_reply(after)), "Hello, World! (count: 1)");
    assert_eq!(sys.state_of(id), Some(ActorState::Running));
}

#[test]
fn stop_tells_children_and_parent() {
    let mut sys = new_system();
    let parent = sys.create_actor("parent").unwrap();
    let child = sys.spawn(parent.id(), "child").unwrap();
    assert!(sys.started(parent.id()));
    assert!(sys.started(child.id()));
    assert_eq!(sys.child_count(ActorId(0)), 1);
    sys.stop(parent.id());
    assert_eq!(sys.state_of(parent.id()), Some(ActorState::Stopping));
    assert_eq!(sys.pending(child.id()), 1);
    let mut actor = Greeter::new("Hello");
    run(&mut sys, child.id(), &mut actor, 0);
    assert_eq!(sys.state_of(child.id()), Some(ActorState::Stopped));
    assert_eq!(actor.stops, 1);
    let notes = run(&mut sys, ActorId(0), &mut Greeter::new("root"), 0);
    assert_eq!(notes.len(), 1);
    assert!(matches!(notes[0], SystemMessage::ChildTerminated(gone) if gone == parent.id()));
    assert_eq!(sys.child_count(ActorId(0)), 0);
}

#[test]
fn stop_request_through_any_ref() {
    let mut sys = new_system();
    let r = sys.create_actor("target").unwrap();
    assert!(sys.started(r.id()));
    AnyActorRef::stop(&r, &mut sys).unwrap();
    let mut actor = Greeter::new("Hello");
    run(&mut sys, r.id(), &mut actor, 0);
    assert_eq!(sys.state_of(r.id()), Some(ActorState::Stopped));
    assert_eq!(AnyActorRef::stop(&r, &mut sys), Err(SendError::Closed));
    assert_eq!(MessageHandler::do_send(&r, &mut sys, Msg::Incr, 0), Err(SendError::Closed));
}

#[test]
fn shutdown_closes_every_mailbox() {
    let mut sys = new_system();
    let a = sys.create_actor("a").unwrap();
    let b = sys.create_actor("b").unwrap();
    let c = sys.spawn(a.id(), "c").unwrap();
    assert!(sys.started(a.id()));
    assert!(sys.schedule(a.id(), 10, Msg::Incr, 0));
    let ticket = b.send(&mut sys, Msg::Greet("late".to_string()), 0).unwrap();
    sys.shutdown();
    assert!(matches!(sys.poll_reply(ticket), Some(Err(SendError::Canceled))));
    for path in [ActorPath::root("janus").child("a"), ActorPath::root("janus").child("a").child("c")] {
        let id = sys.actor_by_path(&path).unwrap();
        assert_eq!(sys.state_of(id), Some(ActorState::Stopped));
    }
    assert!(sys.is_shut_down());
    for r in [&a, &b, &c] {
        assert_eq!(r.do_send(&mut sys, Msg::Incr, 0), Err(SendError::Closed));
        assert_eq!(sys.state_of(r.id()), Some(ActorState::Stopped));
    }
    assert!(matches!(sys.create_actor("late"), Err(SendError::Closed)));
    assert!(!sys.schedule(a.id(), 10, Msg::Incr, 0));
}

#[test]
fn selection_resolves_at_use() {
    let mut sys = new_system();
    let sel = ActorSelection::new(ActorPath::root("janus").child("late"));
    assert_eq!(sel.tell(&mut sys, Msg::Incr, 0), Err(SendError::NoHandler));
    assert!(matches!(sel.ask(&mut sys, Msg::Incr, 0), Err(SendError::NoHandler)));
    assert!(sel.resolve(&sys).is_none());
    let r = sys.create_actor("late").unwrap();
    assert!(sys.started(r.id()));
    assert_eq!(sel.tell(&mut sys, Msg::Greet("sel".to_string()), 0), Ok(()));
    let ticket = sel.ask(&mut sys, Msg::Greet("sel".to_string()), 0).unwrap();
    assert_eq!(sel.resolve(&sys).unwrap().id(), r.id());
    let mut actor = Greeter::new("Hey");
    run(&mut sys, r.id(), &mut actor, 0);
    assert_eq!(text(sys.poll_reply(ticket)), "Hey, sel! (count: 2)");
}

#[test]
fn unknown_targets_are_refused() {
    let mut sys = new_system();
    assert_eq!(sys.do_send(ActorId(99), Msg::Incr, 0), Err(SendError::Closed));
    assert!(matches!(sys.send(ActorId(99), Msg::Incr, 0), Err(SendError::Closed)));
    assert!(matches!(sys.spawn(ActorId(99), "x"), Err(SendError::Closed)));
    assert!(matches!(sys.poll_reply(1234), Some(Err(SendError::Canceled))));
    assert!(sys.take_next(ActorId(99), 0).is_none());
    assert_eq!(sys.state_of(ActorId(99)), None);
}

#[test]
fn root_failure_stops_root() {
    let mut sys = new_system();
    let root = sys.root();
    assert_eq!(root.path().as_str(), "/janus");
    assert_eq!(sys.name(), "janus");
    sys.do_send(root.id(), Msg::Fail, 0).unwrap();
    let mut actor = Greeter::new("root");
    run(&mut sys, root.id(), &mut actor, 0);
    assert_eq!(sys.state_of(root.id()), Some(ActorState::Stopped));
}

#[test]
fn context_acts_in_its_actors_name() {
    let mut sys = new_system();
    let parent = sys.create_actor("parent").unwrap();
    let ctx = janus_actor::BasicContext::new(parent.id());
    assert_eq!(ctx.actor_id(), parent.id());
    let child = ctx.spawn(&mut sys, "child").unwrap();
    assert_eq!(sys.parent_of(child.id()), Some(parent.id()));
    assert_eq!(ctx.address(&sys).unwrap().path().as_str(), "/janus/parent");
    assert!(sys.started(parent.id()));
    assert!(ctx.schedule(&mut sys, 5, Msg::Incr, 0));
    sys.tick(5);
    assert_eq!(sys.pending(parent.id()), 1);
    ctx.stop(&mut sys);
    assert_eq!(sys.state_of(parent.id()), Some(ActorState::Stopping));
    assert_eq!(sys.pending(parent.id()), 0);
    assert_eq!(sys.pending(child.id()), 1);
}

#[test]
fn registry_keys_by_segments() {
    let mut sys = new_system();
    let a = sys.create_actor("a").unwrap();
    let slash = sys.create_actor("a/b").unwrap();
    let nested = sys.spawn(a.id(), "b").unwrap();
    assert_eq!(slash.path().as_str(), nested.path().as_str());
    assert_eq!(sys.actor_by_path(&ActorPath::root("janus").child("a/b")), Some(slash.id()));
    assert_eq!(sys.actor_by_path(&ActorPath::root("janus").child("a").child("b")), Some(nested.id()));
    assert!(slash.path() != nested.path());
}

#[test]
fn fresh_system_registry_is_empty() {
    let sys = new_system();
    assert_eq!(sys.actor_by_path(&ActorPath::root("janus")), None);
    assert_eq!(sys.state_of(ActorId(0)), Some(ActorState::Running));
    assert_eq!(sys.pending(ActorId(0)), 0);
}
