use std::cell::RefCell;
use std::collections::VecDeque;
use std::rc::Rc;

use scoped_gc::header::GcBox;
use scoped_gc::{
    GcContext, GcDropToken, GcObject, GcObjectThin, GcRoot, GcRootThin, GcState, GcTarget,
    GcTraceToken,
};

type Log = Rc<RefCell<Vec<String>>>;

/// A payload that records its destruction and can refer to other payloads of
/// its kind, weakly and strongly.
struct Node {
    name: &'static str,
    log: Log,
    weak: RefCell<Vec<GcObject<Node>>>,
    strong: RefCell<Vec<GcRoot<Node>>>,
}

impl Node {
    fn new(name: &'static str, log: &Log) -> Node {
        Node {
            name,
            log: log.clone(),
            weak: RefCell::new(Vec::new()),
            strong: RefCell::new(Vec::new()),
        }
    }
}

impl Drop for Node {
    fn drop(&mut self) {
        self.log.borrow_mut().push(format!("drop {}", self.name));
    }
}

impl GcTarget for Node {
    fn trace(&self, token: &mut GcTraceToken) {
        self.weak.borrow().trace(token);
    }

    fn finalize(&self, token: &mut GcDropToken) {
        self.strong.borrow().finalize(token);
        self.weak.borrow().finalize(token);
    }
}

fn new_log() -> Log {
    Rc::new(RefCell::new(Vec::new()))
}

fn entries(log: &Log) -> Vec<String> {
    log.borrow().clone()
}

struct Foo {
    log: Log,
    r: RefCell<Option<GcObject<Foo>>>,
}

impl Drop for Foo {
    fn drop(&mut self) {
        println!("Drop for Foo");
        self.log.borrow_mut().push(String::from("Drop for Foo"));
    }
}

impl GcTarget for Foo {
    fn trace(&self, token: &mut GcTraceToken) {
        self.r.borrow().trace(token);
    }

    fn finalize(&self, token: &mut GcDropToken) {
        self.r.borrow().finalize(token);
    }
}

#[test]
fn test() {
    let _ = env_logger::try_init();
    let log = new_log();

    let mut context = GcContext::new();
    let x = context.allocate(Foo { log: log.clone(), r: RefCell::new(None) });
    let w = x.downgrade(&mut context);
    *x.deref(&context).r.borrow_mut() = Some(w);
    context.gc();
    assert!(entries(&log).is_empty());
    let w = x.deref(&context).r.borrow_mut().take();
    w.unwrap().drop(&mut context);
    assert!(entries(&log).is_empty());
    x.drop(&mut context);
    assert_eq!(entries(&log), vec![String::from("Drop for Foo")]);
    assert_eq!(context.drop(), 0);
}

#[test]
fn self_cycle_weak_held() {
    let log = new_log();
    let mut context = GcContext::new();
    let a = context.allocate(Node::new("a", &log));
    let id = a.as_ptr();
    let w = a.downgrade(&mut context);
    a.deref(&context).weak.borrow_mut().push(w);
    a.drop(&mut context);
    // Counting alone cannot reclaim the cycle.
    assert!(entries(&log).is_empty());
    assert_eq!(context.state(id), GcState::Active);
    assert_eq!(context.root_count(id), 0);
    assert_eq!(context.weak_count(id), 1);
    context.gc();
    assert_eq!(entries(&log), vec![String::from("drop a")]);
    assert_eq!(context.state(id), GcState::Dropped);
    assert_eq!(context.weak_count(id), 0);
    context.gc();
    assert_eq!(entries(&log), vec![String::from("drop a")]);
    assert_eq!(context.drop(), 0);
}

#[test]
fn two_cycle() {
    let log = new_log();
    let mut context = GcContext::new();
    let a = context.allocate(Node::new("a", &log));
    let b = context.allocate(Node::new("b", &log));
    let to_b = b.downgrade(&mut context);
    let to_a = a.downgrade(&mut context);
    a.deref(&context).weak.borrow_mut().push(to_b);
    b.deref(&context).weak.borrow_mut().push(to_a);
    a.drop(&mut context);
    b.drop(&mut context);
    assert!(entries(&log).is_empty());
    context.gc();
    let mut seen = entries(&log);
    seen.sort();
    assert_eq!(seen, vec![String::from("drop a"), String::from("drop b")]);
    assert_eq!(context.drop(), 0);
}

#[test]
fn rooted_cycle_survives() {
    let log = new_log();
    let mut context = GcContext::new();
    let a = context.allocate(Node::new("a", &log));
    let b = context.allocate(Node::new("b", &log));
    let (ida, idb) = (a.as_ptr(), b.as_ptr());
    let to_b = b.downgrade(&mut context);
    let to_a = a.downgrade(&mut context);
    a.deref(&context).weak.borrow_mut().push(to_b);
    b.deref(&context).weak.borrow_mut().push(to_a);
    b.drop(&mut context);
    context.gc();
    context.gc();
    context.gc();
    assert!(entries(&log).is_empty());
    assert_eq!(context.state(ida), GcState::Active);
    assert_eq!(context.state(idb), GcState::Active);
    assert_eq!(a.deref(&context).name, "a");
    a.drop(&mut context);
    assert!(entries(&log).is_empty());
    context.gc();
    let mut seen = entries(&log);
    seen.sort();
    assert_eq!(seen, vec![String::from("drop a"), String::from("drop b")]);
    assert_eq!(context.state(ida), GcState::Dropped);
    assert_eq!(context.state(idb), GcState::Dropped);
}

#[test]
fn acyclic_chain_reclaimed_eagerly() {
    let log = new_log();
    let mut context = GcContext::new();
    let c = context.allocate(Node::new("c", &log));
    let b = context.allocate(Node::new("b", &log));
    b.deref(&context).strong.borrow_mut().push(c);
    let a = context.allocate(Node::new("a", &log));
    a.deref(&context).strong.borrow_mut().push(b);
    assert!(entries(&log).is_empty());
    a.drop(&mut context);
    assert_eq!(
        entries(&log),
        vec![String::from("drop a"), String::from("drop b"), String::from("drop c")]
    );
    assert_eq!(context.drop(), 0);
}

#[test]
fn upgrade_boundary() {
    let log = new_log();
    let mut context = GcContext::new();
    let a = context.allocate(Node::new("a", &log));
    let id = a.as_ptr();
    let w = a.downgrade(&mut context);
    a.drop(&mut context);
    // Only a weak handle is left: the payload stays until a sweep.
    assert!(entries(&log).is_empty());
    let again = w.upgrade(&mut context);
    assert!(again.is_some());
    assert_eq!(context.root_count(id), 1);
    again.unwrap().drop(&mut context);
    let kept = w.clone(&mut context);
    w.drop(&mut context);
    assert!(entries(&log).is_empty());
    context.gc();
    assert_eq!(entries(&log), vec![String::from("drop a")]);
    // The handle that was kept finds its target gone, now and later.
    assert!(kept.upgrade(&mut context).is_none());
    assert!(kept.upgrade(&mut context).is_none());
    assert_eq!(context.state(id), GcState::Dropped);
    assert_eq!(context.weak_count(id), 1);
    kept.drop(&mut context);
    assert_eq!(context.weak_count(id), 0);
    assert_eq!(entries(&log), vec![String::from("drop a")]);
}

#[test]
fn last_handle_destroys_at_once() {
    let log = new_log();
    let mut context = GcContext::new();
    let a = context.allocate(Node::new("a", &log));
    let id = a.as_ptr();
    let w = a.downgrade(&mut context);
    a.drop(&mut context);
    assert!(entries(&log).is_empty());
    w.drop(&mut context);
    assert_eq!(entries(&log), vec![String::from("drop a")]);
    assert_eq!(context.state(id), GcState::Dropped);
}

fn garbage_cycle(context: &mut GcContext<Node>, name: &'static str, log: &Log) -> usize {
    let a = context.allocate(Node::new(name, log));
    let id = a.as_ptr();
    let w = a.downgrade(context);
    a.deref(context).weak.borrow_mut().push(w);
    a.drop(context);
    id
}

#[test]
fn auto_gc() {
    let log = new_log();
    let mut context = GcContext::new();
    context.set_auto_gc(3);
    garbage_cycle(&mut context, "1", &log);
    garbage_cycle(&mut context, "2", &log);
    assert!(entries(&log).is_empty());
    // The third allocation sweeps before it links its own object.
    let third = garbage_cycle(&mut context, "3", &log);
    let mut seen = entries(&log);
    seen.sort();
    assert_eq!(seen, vec![String::from("drop 1"), String::from("drop 2")]);
    assert_eq!(context.state(third), GcState::Active);
    garbage_cycle(&mut context, "4", &log);
    garbage_cycle(&mut context, "5", &log);
    assert_eq!(entries(&log).len(), 2);
    assert_eq!(context.drop(), 0);
    assert_eq!(entries(&log).len(), 5);
}

#[test]
fn auto_gc_without_references() {
    let log = new_log();
    let mut context = GcContext::new();
    context.set_auto_gc(3);
    for name in ["1", "2", "3", "4", "5"] {
        let a = context.allocate(Node::new(name, &log));
        a.drop(&mut context);
    }
    assert_eq!(entries(&log).len(), 5);
    assert_eq!(context.len(), 7);
    assert_eq!(context.drop(), 0);
}

#[test]
fn auto_gc_cadence() {
    let log = new_log();
    let mut context = GcContext::new();
    context.set_auto_gc(2);
    garbage_cycle(&mut context, "1", &log);
    assert_eq!(entries(&log).len(), 0);
    garbage_cycle(&mut context, "2", &log);
    assert_eq!(entries(&log), vec![String::from("drop 1")]);
    garbage_cycle(&mut context, "3", &log);
    assert_eq!(entries(&log).len(), 1);
    // Setting the threshold restarts the count.
    context.set_auto_gc(2);
    garbage_cycle(&mut context, "4", &log);
    assert_eq!(entries(&log).len(), 1);
    garbage_cycle(&mut context, "5", &log);
    assert_eq!(entries(&log).len(), 4);
    // Threshold 1 sweeps at every allocation, 0 at none.
    context.set_auto_gc(1);
    garbage_cycle(&mut context, "6", &log);
    assert_eq!(entries(&log).len(), 5);
    context.set_auto_gc(0);
    garbage_cycle(&mut context, "7", &log);
    garbage_cycle(&mut context, "8", &log);
    assert_eq!(entries(&log).len(), 5);
}

#[test]
fn count_laws() {
    let log = new_log();
    let mut context = GcContext::new();
    let a = context.allocate(Node::new("a", &log));
    let id = a.as_ptr();
    assert_eq!(id, 2);
    assert_eq!((context.root_count(id), context.weak_count(id)), (1, 0));
    let a2 = a.clone(&mut context);
    assert_eq!((context.root_count(id), context.weak_count(id)), (2, 0));
    let w = a.downgrade(&mut context);
    assert_eq!((context.root_count(id), context.weak_count(id)), (2, 1));
    let w2 = w.clone(&mut context);
    assert_eq!((context.root_count(id), context.weak_count(id)), (2, 2));
    let a3 = w.upgrade(&mut context).unwrap();
    assert_eq!((context.root_count(id), context.weak_count(id)), (3, 2));
    a3.drop(&mut context);
    a2.drop(&mut context);
    w2.drop(&mut context);
    assert_eq!((context.root_count(id), context.weak_count(id)), (1, 1));
    context.gc();
    assert_eq!((context.root_count(id), context.weak_count(id)), (1, 1));
    w.drop(&mut context);
    a.drop(&mut context);
    assert_eq!((context.root_count(id), context.weak_count(id)), (0, 0));
    assert_eq!(entries(&log), vec![String::from("drop a")]);
}

#[test]
fn sentinels_and_states() {
    let log = new_log();
    let mut context: GcContext<Node> = GcContext::new();
    assert_eq!(context.len(), 2);
    assert_eq!(context.state(0), GcState::Active);
    assert_eq!(context.root_count(0), 1);
    assert_eq!(context.root_count(1), 1);
    assert_eq!(context.weak_count(1), 0);
    context.gc();
    assert_eq!(context.len(), 2);
    let a = context.allocate(Node::new("a", &log));
    let b = context.allocate(Node::new("b", &log));
    assert_eq!((a.as_ptr(), b.as_ptr()), (2, 3));
    b.drop(&mut context);
    context.gc();
    for id in 0..context.len() {
        let state = context.state(id);
        assert!(state == GcState::Active || state == GcState::Dropped);
    }
    assert_eq!(context.state(2), GcState::Active);
    assert_eq!(context.state(3), GcState::Dropped);
    assert_eq!(context.root_count(0), 1);
    a.drop(&mut context);
}

#[test]
fn sweep_twice_is_sweep_once() {
    let log = new_log();
    let mut context = GcContext::new();
    let a = context.allocate(Node::new("a", &log));
    let b = context.allocate(Node::new("b", &log));
    let to_b = b.downgrade(&mut context);
    a.deref(&context).weak.borrow_mut().push(to_b);
    b.drop(&mut context);
    garbage_cycle(&mut context, "c", &log);
    context.gc();
    let once: Vec<(GcState, usize, usize)> = (0..context.len())
        .map(|id| (context.state(id), context.root_count(id), context.weak_count(id)))
        .collect();
    let logged = entries(&log);
    context.gc();
    let twice: Vec<(GcState, usize, usize)> = (0..context.len())
        .map(|id| (context.state(id), context.root_count(id), context.weak_count(id)))
        .collect();
    assert_eq!(once, twice);
    assert_eq!(entries(&log), logged);
    assert_eq!(logged, vec![String::from("drop c")]);
    a.drop(&mut context);
}

#[test]
fn reachable_through_several_edges() {
    let log = new_log();
    let mut context = GcContext::new();
    let a = context.allocate(Node::new("a", &log));
    let b = context.allocate(Node::new("b", &log));
    let c = context.allocate(Node::new("c", &log));
    let d = context.allocate(Node::new("d", &log));
    let to_b = b.downgrade(&mut context);
    let to_c = c.downgrade(&mut context);
    let to_d = d.downgrade(&mut context);
    let to_c_again = c.downgrade(&mut context);
    a.deref(&context).weak.borrow_mut().push(to_b);
    b.deref(&context).weak.borrow_mut().push(to_c);
    // d refers to c, but nothing refers to d.
    d.deref(&context).weak.borrow_mut().push(to_c_again);
    let ids = (b.as_ptr(), c.as_ptr(), d.as_ptr());
    b.drop(&mut context);
    c.drop(&mut context);
    d.drop(&mut context);
    context.gc();
    assert_eq!(entries(&log), vec![String::from("drop d")]);
    assert_eq!(context.state(ids.0), GcState::Active);
    assert_eq!(context.state(ids.1), GcState::Active);
    assert_eq!(context.state(ids.2), GcState::Dropped);
    // The handle to d that is still held finds it gone.
    assert!(to_d.upgrade(&mut context).is_none());
    to_d.drop(&mut context);
    // c has lost the weak handle that d stored and kept the one that b stores.
    assert_eq!(context.weak_count(ids.1), 1);
    a.drop(&mut context);
    context.gc();
    assert_eq!(entries(&log).len(), 4);
}

#[test]
fn survivor_without_handles_waits_for_next_sweep() {
    let log = new_log();
    let mut context = GcContext::new();
    let kept = context.allocate(Node::new("kept", &log));
    let id = kept.as_ptr();
    let owner = context.allocate(Node::new("owner", &log));
    owner.deref(&context).strong.borrow_mut().push(kept);
    let w = owner.downgrade(&mut context);
    owner.deref(&context).weak.borrow_mut().push(w);
    owner.drop(&mut context);
    context.gc();
    // The owner was garbage; what it kept alive had a strong handle when
    // the sweep began and goes with the next one.
    assert_eq!(entries(&log), vec![String::from("drop owner")]);
    assert_eq!(context.state(id), GcState::Active);
    assert_eq!(context.root_count(id), 0);
    context.gc();
    assert_eq!(entries(&log), vec![String::from("drop owner"), String::from("drop kept")]);
}

#[test]
fn strong_cycle_leaks() {
    let log = new_log();
    let mut context = GcContext::new();
    let a = context.allocate(Node::new("a", &log));
    let again = a.clone(&mut context);
    a.deref(&context).strong.borrow_mut().push(again);
    a.drop(&mut context);
    context.gc();
    assert!(entries(&log).is_empty());
    assert_eq!(context.drop(), 1);
}

#[test]
fn casts_keep_the_address() {
    let log = new_log();
    let mut context = GcContext::new();
    let a = context.allocate(Node::new("a", &log));
    let id = a.as_ptr();
    let w = a.downgrade(&mut context);
    let thin: GcRootThin = a.cast_thin();
    assert_eq!(thin.as_ptr(), id);
    assert_eq!(thin.deref(&context).name, "a");
    let fat = thin.cast_fat();
    assert_eq!(fat.as_ptr(), id);
    let fat = fat.cast_dyn();
    assert_eq!(fat.as_ptr(), id);
    let thin_weak: GcObjectThin = w.cast_thin();
    assert_eq!(thin_weak.as_ptr(), id);
    let thin_root = thin_weak.upgrade(&mut context).unwrap();
    assert_eq!(thin_root.as_ptr(), id);
    let thin_weak_again = thin_root.downgrade(&mut context);
    let thin_root_again = thin_root.clone(&mut context);
    assert_eq!(context.root_count(id), 3);
    assert_eq!(context.weak_count(id), 2);
    let fat_weak = thin_weak.cast_fat();
    assert_eq!(fat_weak.as_ptr(), id);
    let fat_weak = fat_weak.cast_dyn();
    assert_eq!(fat_weak.as_ptr(), id);
    // None of the casts touched a counter.
    assert_eq!(context.root_count(id), 3);
    assert_eq!(context.weak_count(id), 2);
    fat_weak.drop(&mut context);
    thin_weak_again.clone(&mut context).drop(&mut context);
    thin_weak_again.drop(&mut context);
    thin_root.drop(&mut context);
    thin_root_again.drop(&mut context);
    assert!(entries(&log).is_empty());
    fat.drop(&mut context);
    assert_eq!(entries(&log), vec![String::from("drop a")]);
}

#[test]
fn replace_swaps_the_payload() {
    let mut context: GcContext<(u32, Option<GcObjectThin>)> = GcContext::new();
    let a = context.allocate((1, None));
    let b = context.allocate((2, None));
    let to_b = b.downgrade(&mut context).cast_thin();
    let old = a.replace(&mut context, (10, Some(to_b)));
    assert_eq!(old.0, 1);
    assert!(old.1.is_none());
    assert_eq!(a.deref(&context).0, 10);
    let idb = b.as_ptr();
    b.drop(&mut context);
    context.gc();
    // b is kept by the weak handle that a's payload stores.
    assert_eq!(context.state(idb), GcState::Active);
    let old = a.replace(&mut context, (11, None));
    old.1.unwrap().drop(&mut context);
    assert_eq!(context.state(idb), GcState::Dropped);
    a.drop(&mut context);
    assert_eq!(context.drop(), 0);
}

#[test]
fn containers_report_their_items() {
    let mut context: GcContext<Vec<Option<GcObjectThin>>> = GcContext::new();
    let hub = context.allocate(Vec::new());
    let x = context.allocate(Vec::new());
    let y = context.allocate(Vec::new());
    let z = context.allocate(Vec::new());
    let to_x = x.downgrade(&mut context).cast_thin();
    let to_y = y.downgrade(&mut context).cast_thin();
    let ids = (x.as_ptr(), y.as_ptr(), z.as_ptr());
    let old = hub.replace(&mut context, vec![Some(to_x), None, Some(to_y)]);
    assert!(old.is_empty());
    let to_z = z.downgrade(&mut context);
    x.drop(&mut context);
    y.drop(&mut context);
    z.drop(&mut context);
    context.gc();
    assert_eq!(context.state(ids.0), GcState::Active);
    assert_eq!(context.state(ids.1), GcState::Active);
    assert_eq!(context.state(ids.2), GcState::Dropped);
    assert!(to_z.upgrade(&mut context).is_none());
    to_z.drop(&mut context);
    // Dropping the hub releases what it stores, and with it x and y.
    hub.drop(&mut context);
    assert_eq!(context.state(ids.0), GcState::Dropped);
    assert_eq!(context.state(ids.1), GcState::Dropped);
    assert_eq!(context.weak_count(ids.0), 0);
    assert_eq!(context.drop(), 0);
}

#[test]
fn strong_handles_in_containers_are_released() {
    let mut context: GcContext<(Vec<GcRootThin>, Box<Option<GcObjectThin>>)> = GcContext::new();
    let leaf = context.allocate((Vec::new(), Box::new(None)));
    let leaf_id = leaf.as_ptr();
    let other = leaf.clone(&mut context).cast_thin();
    let top = context.allocate((vec![leaf.cast_thin(), other], Box::new(None)));
    assert_eq!(context.root_count(leaf_id), 2);
    top.drop(&mut context);
    assert_eq!(context.root_count(leaf_id), 0);
    assert_eq!(context.state(leaf_id), GcState::Dropped);
}

#[test]
fn tuples_and_queues_report_their_fields() {
    type Payload = (u8, VecDeque<GcObjectThin>, Option<GcRootThin>, String, Box<Vec<GcObjectThin>>);
    let mut context: GcContext<Payload> = GcContext::new();
    let a = context.allocate((0, VecDeque::new(), None, String::new(), Box::new(Vec::new())));
    let b = context.allocate((1, VecDeque::new(), None, String::new(), Box::new(Vec::new())));
    let c = context.allocate((2, VecDeque::new(), None, String::new(), Box::new(Vec::new())));
    let d = context.allocate((3, VecDeque::new(), None, String::new(), Box::new(Vec::new())));
    let ids = (a.as_ptr(), b.as_ptr(), c.as_ptr(), d.as_ptr());
    let mut queue = VecDeque::new();
    queue.push_back(b.downgrade(&mut context).cast_thin());
    let boxed = Box::new(vec![c.downgrade(&mut context).cast_thin()]);
    let strong = Some(d.cast_thin());
    let old = a.replace(&mut context, (9, queue, strong, String::from("hub"), boxed));
    assert_eq!(old.0, 0);
    b.drop(&mut context);
    c.drop(&mut context);
    context.gc();
    // b and c are reached through the queue and the boxed vector, d is kept
    // by the strong handle.
    assert_eq!(context.state(ids.1), GcState::Active);
    assert_eq!(context.state(ids.2), GcState::Active);
    assert_eq!(context.state(ids.3), GcState::Active);
    assert_eq!(a.deref(&context).3, "hub");
    a.drop(&mut context);
    assert_eq!(context.state(ids.0), GcState::Dropped);
    assert_eq!(context.state(ids.1), GcState::Dropped);
    assert_eq!(context.state(ids.2), GcState::Dropped);
    assert_eq!(context.state(ids.3), GcState::Dropped);
    assert_eq!(context.drop(), 0);
}

#[test]
fn fresh_header() {
    let fresh = GcBox::new(5u8);
    assert_eq!(fresh.info.state, GcState::Active);
    assert_eq!((fresh.info.root, fresh.info.count), (0, 0));
    assert!(fresh.info.next.is_none() && fresh.info.prev.is_none());
    assert_eq!(fresh.value, Some(5));
    assert!(fresh.info.is_live());
    let mut gone = fresh.info;
    gone.state = GcState::Dropped;
    assert!(!gone.is_live());
    gone.state = GcState::Unmarked;
    assert!(!gone.is_live());
    gone.state = GcState::Marked;
    assert!(gone.is_live());
}

#[test]
fn addresses_are_not_used_twice() {
    let log = new_log();
    let mut context = GcContext::new();
    let a = context.allocate(Node::new("a", &log));
    assert_eq!(a.as_ptr(), 2);
    a.drop(&mut context);
    assert_eq!(entries(&log), vec![String::from("drop a")]);
    let b = context.allocate(Node::new("b", &log));
    assert_eq!(b.as_ptr(), 3);
    assert_eq!(context.len(), 4);
    assert_eq!(context.state(2), GcState::Dropped);
    assert_eq!((context.root_count(2), context.weak_count(2)), (0, 0));
    b.drop(&mut context);
    assert_eq!(context.drop(), 0);
}
