use heap_graph::dumper::{dump_graph, HeapGraphDumper};
use heap_graph::dot::DotOutput;
use heap_graph::graph::{GraphOutput, NodeAttr, NodeAttrs, NodeId};
use heap_graph::handles::{ObjectReference, VMWorkerThread};
use heap_graph::sanity::{check_heap, Error, SanityChecker};
use heap_graph::vm::{
    ConservativeScanning, RootsWorkFactory, Scanning, Slot, SlotVisitor, VMBinding,
    ValidityPredicate,
};
use std::cell::RefCell;
use std::rc::Rc;

const A: usize = 0xa0;
const B: usize = 0xb0;
const C: usize = 0xc0;
const D: usize = 0xd0;
const E: usize = 0xe0;
const X: usize = 0xf0;

/// A location `at` that refers to the object at `to`; `to == 0` is a
/// cleared slot.
#[derive(Clone, Copy, Debug, PartialEq, Eq)]
struct Field {
    at: usize,
    to: usize,
}

impl Slot for Field {
    fn load(&self) -> Option<ObjectReference> {
        if self.to == 0 {
            None
        } else {
            Some(ObjectReference::from_raw_address(self.to))
        }
    }
}

fn field(at: usize, to: usize) -> Field {
    Field { at, to }
}

const NO_ROOTS: u8 = 0;
const PAIR: u8 = 1;
const CYCLES: u8 = 2;
const ONE_BAD_ROOT: u8 = 3;
const BAD_NODE: u8 = 4;
const TRUSTED: u8 = 5;
const SHARED: u8 = 6;
const ATTRS: u8 = 7;
const BAD_FIELD: u8 = 8;

fn root_slots(heap: u8) -> Vec<Field> {
    match heap {
        PAIR => vec![field(1, A)],
        CYCLES => vec![field(1, A), field(2, C)],
        ONE_BAD_ROOT => vec![field(1, A), field(2, X), field(3, B)],
        BAD_NODE => vec![field(1, A), field(2, D)],
        TRUSTED => vec![field(1, 0), field(2, A)],
        ATTRS => vec![field(1, A)],
        BAD_FIELD => vec![field(1, A)],
        _ => Vec::new(),
    }
}

fn pinned_roots(heap: u8) -> Vec<usize> {
    match heap {
        TRUSTED => vec![B],
        SHARED => vec![A, A, B],
        _ => Vec::new(),
    }
}

fn transitively_pinned_roots(heap: u8) -> Vec<usize> {
    match heap {
        TRUSTED => vec![C],
        _ => Vec::new(),
    }
}

fn fields_of(heap: u8, addr: usize) -> Vec<Field> {
    match (heap, addr) {
        (PAIR, A) => vec![field(A + 8, B)],
        (CYCLES, A) => vec![field(A + 8, B)],
        (CYCLES, B) => vec![field(B + 8, A)],
        (CYCLES, C) => vec![field(C + 8, C)],
        (ONE_BAD_ROOT, A) => vec![field(A + 8, C)],
        (BAD_NODE, A) => vec![field(A + 8, B)],
        (BAD_NODE, B) => vec![field(B + 8, E), field(B + 16, C)],
        (BAD_NODE, D) => vec![field(D + 8, C)],
        (SHARED, A) => vec![field(A + 8, C)],
        (SHARED, B) => vec![field(B + 8, C), field(B + 16, A)],
        (BAD_FIELD, A) => vec![field(A + 8, B), field(A + 16, 0), field(A + 24, C)],
        _ => Vec::new(),
    }
}

struct Heap<const G: u8>;

impl<const G: u8> VMBinding for Heap<G> {
    type VMSlot = Field;
}

impl<const G: u8> Scanning for Heap<G> {
    fn scan_vm_specific_roots<F: RootsWorkFactory<Field>>(_tls: VMWorkerThread, factory: &mut F) {
        let slots = root_slots(G);
        if !slots.is_empty() {
            factory.create_process_roots_work(slots);
        }
        let pinned: Vec<ObjectReference> =
            pinned_roots(G).into_iter().map(ObjectReference::from_raw_address).collect();
        if !pinned.is_empty() {
            factory.create_process_pinning_roots_work(pinned);
        }
        let tpinned: Vec<ObjectReference> = transitively_pinned_roots(G)
            .into_iter()
            .map(ObjectReference::from_raw_address)
            .collect();
        if !tpinned.is_empty() {
            factory.create_process_tpinning_roots_work(tpinned);
        }
    }
}

impl<const G: u8> ConservativeScanning for Heap<G> {
    fn conservatively_scan_object<EV: SlotVisitor<Field>>(
        _tls: VMWorkerThread,
        obj: ObjectReference,
        ev: &mut EV,
    ) {
        for slot in fields_of(G, obj.to_raw_address()) {
            ev.visit_slot(slot);
        }
    }
}

impl<const G: u8> NodeAttrs for Heap<G> {
    fn node_attrs(obj: ObjectReference) -> Vec<NodeAttr> {
        if G == ATTRS && obj.to_raw_address() == A {
            vec![
                NodeAttr::String("type".to_string(), "Foo".to_string()),
                NodeAttr::Number("size".to_string(), 24),
                NodeAttr::Flag("pinned".to_string()),
            ]
        } else {
            Vec::new()
        }
    }
}

/// Turns down the listed nodes and slots, and keeps a record of every node
/// and slot that it was asked about.
struct Judge {
    bad_nodes: Vec<(usize, &'static str)>,
    bad_slots: Vec<(usize, &'static str)>,
    asked_nodes: Rc<RefCell<Vec<usize>>>,
    asked_slots: Rc<RefCell<Vec<usize>>>,
}

impl Judge {
    fn lenient() -> Judge {
        Judge::strict(Vec::new(), Vec::new())
    }

    fn strict(bad_nodes: Vec<(usize, &'static str)>, bad_slots: Vec<(usize, &'static str)>) -> Judge {
        Judge {
            bad_nodes,
            bad_slots,
            asked_nodes: Rc::new(RefCell::new(Vec::new())),
            asked_slots: Rc::new(RefCell::new(Vec::new())),
        }
    }
}

impl<const G: u8> ValidityPredicate<Heap<G>> for Judge {
    fn is_valid_node(&self, node: ObjectReference) -> Result<(), String> {
        self.asked_nodes.borrow_mut().push(node.to_raw_address());
        for (addr, reason) in self.bad_nodes.iter() {
            if *addr == node.to_raw_address() {
                return Err(reason.to_string());
            }
        }
        Ok(())
    }

    fn is_valid_slot(&self, slot: Field) -> Result<(), String> {
        self.asked_slots.borrow_mut().push(slot.at);
        for (at, reason) in self.bad_slots.iter() {
            if *at == slot.at {
                return Err(reason.to_string());
            }
        }
        Ok(())
    }
}

fn obj(addr: usize) -> ObjectReference {
    ObjectReference::from_raw_address(addr)
}

fn tls() -> VMWorkerThread {
    VMWorkerThread(1)
}

/// Runs a sanity check and gives the errors and the nodes that the
/// predicate was asked about, in order.
fn run_check<const G: u8>(judge: Judge) -> (Vec<Error<Field>>, Vec<usize>, SanityChecker<Judge, Heap<G>>) {
    let asked = judge.asked_nodes.clone();
    let mut checker: SanityChecker<Judge, Heap<G>> = SanityChecker::new(judge, tls());
    checker.check_roots();
    let errors = checker.take_errors();
    let asked = asked.borrow().clone();
    (errors, asked, checker)
}

#[test]
fn check_without_roots_finds_nothing() {
    let (errors, asked, checker) = run_check::<NO_ROOTS>(Judge::lenient());
    assert!(errors.is_empty());
    assert!(asked.is_empty());
    assert!(!checker.has_visited(obj(A)));
    assert!(check_heap::<Judge, Heap<NO_ROOTS>>(Judge::lenient(), tls()).is_ok());
}

#[test]
fn dump_without_roots_is_header_and_footer() {
    let text = dump_graph::<Judge, Heap<NO_ROOTS>>(Judge::lenient(), tls());
    assert_eq!(text, "digraph heap {\n}\n");
}

#[test]
fn check_visits_each_object_of_a_cyclic_heap_once() {
    let (errors, asked, checker) = run_check::<CYCLES>(Judge::lenient());
    assert!(errors.is_empty());
    assert_eq!(asked, vec![A, C, B]);
    assert!(checker.has_visited(obj(A)));
    assert!(checker.has_visited(obj(B)));
    assert!(checker.has_visited(obj(C)));
    assert!(!checker.has_visited(obj(D)));
}

#[test]
fn dump_visits_each_object_of_a_cyclic_heap_once() {
    let judge = Judge::lenient();
    let asked = judge.asked_nodes.clone();
    let text = dump_graph::<Judge, Heap<CYCLES>>(judge, tls());
    assert_eq!(*asked.borrow(), vec![A, C, B]);
    let expected = [
        "digraph heap {\n",
        "  roots -> \"0xa0\";\n",
        "  \"0xa0\" [];\n",
        "  \"0xa0\" -> \"0xb0\";\n",
        "  roots -> \"0xc0\";\n",
        "  \"0xc0\" [];\n",
        "  \"0xc0\" -> \"0xc0\";\n",
        "  \"0xb0\" [];\n",
        "  \"0xb0\" -> \"0xa0\";\n",
        "}\n",
    ]
    .concat();
    assert_eq!(text, expected);
}

#[test]
fn one_bad_root_slot_is_recorded_and_the_others_are_walked() {
    let (errors, asked, checker) =
        run_check::<ONE_BAD_ROOT>(Judge::strict(Vec::new(), vec![(2, "points into freed memory")]));
    assert_eq!(errors.len(), 1);
    match &errors[0] {
        Error::BadEdge(slot, reason) => {
            assert_eq!(*slot, field(2, X));
            assert_eq!(reason, "points into freed memory");
        }
        Error::BadNode(_, _) => panic!("a bad node was recorded for a bad slot"),
    }
    assert_eq!(asked, vec![A, B, C]);
    assert!(!checker.has_visited(obj(X)));
    assert!(checker.has_visited(obj(C)));
}

#[test]
fn check_heap_reports_every_recorded_error() {
    let verdict = check_heap::<Judge, Heap<ONE_BAD_ROOT>>(
        Judge::strict(vec![(C, "unrecognized type")], vec![(2, "points into freed memory")]),
        tls(),
    );
    let errors = verdict.unwrap_err();
    assert_eq!(errors.len(), 2);
    assert!(matches!(&errors[0], Error::BadEdge(slot, reason)
        if *slot == field(2, X) && reason == "points into freed memory"));
    assert!(matches!(&errors[1], Error::BadNode(node, reason)
        if *node == obj(C) && reason == "unrecognized type"));
}

#[test]
fn check_heap_is_ok_on_a_sound_heap() {
    assert!(check_heap::<Judge, Heap<CYCLES>>(Judge::lenient(), tls()).is_ok());
}

#[test]
fn a_bad_node_is_recorded_and_never_scanned() {
    let judge = Judge::strict(vec![(B, "corrupt header")], vec![(B + 8, "unmapped")]);
    let asked_slots = judge.asked_slots.clone();
    let (errors, asked, checker) = run_check::<BAD_NODE>(judge);
    assert_eq!(errors.len(), 1);
    match &errors[0] {
        Error::BadNode(node, reason) => {
            assert_eq!(*node, obj(B));
            assert_eq!(reason, "corrupt header");
        }
        Error::BadEdge(_, _) => panic!("a slot of a bad node was looked at"),
    }
    // B's own slots were never put to the predicate; C is reached through D.
    assert_eq!(asked, vec![A, D, B, C]);
    assert_eq!(*asked_slots.borrow(), vec![1, 2, A + 8, D + 8]);
    assert!(checker.has_visited(obj(C)));
    assert!(!checker.has_visited(obj(E)));
}

#[test]
fn a_bad_node_is_drawn_with_its_fault() {
    let judge = Judge::strict(vec![(B, "corrupt header")], Vec::new());
    let text = dump_graph::<Judge, Heap<BAD_NODE>>(judge, tls());
    let expected = [
        "digraph heap {\n",
        "  roots -> \"0xa0\";\n",
        "  \"0xa0\" [];\n",
        "  \"0xa0\" -> \"0xb0\";\n",
        "  roots -> \"0xd0\";\n",
        "  \"0xd0\" [];\n",
        "  \"0xd0\" -> \"0xc0\";\n",
        "  \"0xb0\" [error=\"corrupt header\" ];\n",
        "  \"0xc0\" [];\n",
        "}\n",
    ]
    .concat();
    assert_eq!(text, expected);
}

#[test]
fn trusted_roots_are_queued_unchecked_and_cleared_slots_dropped() {
    let judge = Judge::lenient();
    let asked_slots = judge.asked_slots.clone();
    let (errors, asked, _checker) = run_check::<TRUSTED>(judge);
    assert!(errors.is_empty());
    assert_eq!(asked, vec![A, B, C]);
    // only the two root slots were put to the predicate
    assert_eq!(*asked_slots.borrow(), vec![1, 2]);
}

#[test]
fn a_cleared_or_bad_field_stops_nothing() {
    let judge = Judge::strict(Vec::new(), vec![(A + 8, "unmapped")]);
    let (errors, asked, checker) = run_check::<BAD_FIELD>(judge);
    assert_eq!(errors.len(), 1);
    assert!(matches!(&errors[0], Error::BadEdge(slot, reason)
        if *slot == field(A + 8, B) && reason == "unmapped"));
    assert_eq!(asked, vec![A, C]);
    assert!(!checker.has_visited(obj(B)));
}

#[test]
fn a_bad_field_is_drawn_and_recorded_but_not_followed() {
    let judge = Judge::strict(Vec::new(), vec![(A + 8, "unmapped")]);
    let mut dumper: HeapGraphDumper<Judge, Heap<BAD_FIELD>, DotOutput> =
        HeapGraphDumper::new(judge, tls(), DotOutput::new());
    assert!(dumper.visit_roots().is_ok());
    let errors = dumper.take_errors();
    assert_eq!(errors.len(), 1);
    assert!(matches!(&errors[0], Error::BadEdge(slot, reason)
        if *slot == field(A + 8, B) && reason == "unmapped"));
    assert!(dumper.take_errors().is_empty());
    assert!(!dumper.has_visited(obj(B)));
    let text = dumper.into_output().close();
    let expected = [
        "digraph heap {\n",
        "  roots -> \"0xa0\";\n",
        "  \"0xa0\" [];\n",
        "  \"0xa0\" -> \"0xb0\";\n",
        "  \"0xa0\" -> \"0xc0\";\n",
        "  \"0xc0\" [];\n",
        "}\n",
    ]
    .concat();
    assert_eq!(text, expected);
}

#[test]
fn a_bad_root_slot_is_recorded_and_not_drawn() {
    let judge = Judge::strict(Vec::new(), vec![(2, "points into freed memory")]);
    let asked = judge.asked_nodes.clone();
    let mut dumper: HeapGraphDumper<Judge, Heap<ONE_BAD_ROOT>, DotOutput> =
        HeapGraphDumper::new(judge, tls(), DotOutput::new());
    assert!(dumper.visit_roots().is_ok());
    assert_eq!(*asked.borrow(), vec![A, B, C]);
    let errors = dumper.take_errors();
    assert_eq!(errors.len(), 1);
    assert!(matches!(&errors[0], Error::BadEdge(slot, reason)
        if *slot == field(2, X) && reason == "points into freed memory"));
    let text = dumper.into_output().close();
    let expected = [
        "digraph heap {\n",
        "  roots -> \"0xa0\";\n",
        "  \"0xa0\" [];\n",
        "  \"0xa0\" -> \"0xc0\";\n",
        "  roots -> \"0xb0\";\n",
        "  \"0xb0\" [];\n",
        "  \"0xc0\" [];\n",
        "}\n",
    ]
    .concat();
    assert_eq!(text, expected);
}

#[test]
fn a_dump_records_what_a_check_records() {
    let bad_nodes = vec![(B, "corrupt header")];
    let bad_slots = vec![(D + 8, "unmapped")];
    let checked = check_heap::<Judge, Heap<BAD_NODE>>(
        Judge::strict(bad_nodes.clone(), bad_slots.clone()),
        tls(),
    )
    .unwrap_err();
    let mut dumper: HeapGraphDumper<Judge, Heap<BAD_NODE>, DotOutput> =
        HeapGraphDumper::new(Judge::strict(bad_nodes, bad_slots), tls(), DotOutput::new());
    assert!(dumper.visit_roots().is_ok());
    let drawn = dumper.take_errors();
    assert_eq!(checked.len(), 2);
    assert_eq!(drawn.len(), 2);
    assert!(matches!(&checked[0], Error::BadEdge(slot, _) if *slot == field(D + 8, C)));
    assert!(matches!(&drawn[0], Error::BadEdge(slot, _) if *slot == field(D + 8, C)));
    assert!(matches!(&checked[1], Error::BadNode(node, _) if *node == obj(B)));
    assert!(matches!(&drawn[1], Error::BadNode(node, _) if *node == obj(B)));
}

#[test]
fn two_object_graph_is_drawn_without_repetition() {
    let text = dump_graph::<Judge, Heap<PAIR>>(Judge::lenient(), tls());
    let expected = [
        "digraph heap {\n",
        "  roots -> \"0xa0\";\n",
        "  \"0xa0\" [];\n",
        "  \"0xa0\" -> \"0xb0\";\n",
        "  \"0xb0\" [];\n",
        "}\n",
    ]
    .concat();
    assert_eq!(text, expected);
    let lines: Vec<&str> = text.lines().collect();
    for (i, line) in lines.iter().enumerate() {
        assert!(!lines[..i].contains(line), "line {:?} occurs twice", line);
    }
}

#[test]
fn a_root_met_twice_gets_one_root_edge_and_a_shared_child_one_node() {
    let text = dump_graph::<Judge, Heap<SHARED>>(Judge::lenient(), tls());
    let expected = [
        "digraph heap {\n",
        "  roots -> \"0xa0\";\n",
        "  \"0xa0\" [];\n",
        "  \"0xa0\" -> \"0xc0\";\n",
        "  roots -> \"0xb0\";\n",
        "  \"0xb0\" [];\n",
        "  \"0xb0\" -> \"0xc0\";\n",
        "  \"0xb0\" -> \"0xa0\";\n",
        "  \"0xc0\" [];\n",
        "}\n",
    ]
    .concat();
    assert_eq!(text, expected);
}

#[test]
fn node_attributes_are_drawn_in_order() {
    let text = dump_graph::<Judge, Heap<ATTRS>>(Judge::lenient(), tls());
    let expected = [
        "digraph heap {\n",
        "  roots -> \"0xa0\";\n",
        "  \"0xa0\" [type=\"Foo\" size=24 pinned=yes ];\n",
        "}\n",
    ]
    .concat();
    assert_eq!(text, expected);
}

#[test]
fn dumper_gives_its_sink_back() {
    let mut dumper: HeapGraphDumper<Judge, Heap<PAIR>, DotOutput> =
        HeapGraphDumper::new(Judge::lenient(), tls(), DotOutput::new());
    assert!(dumper.visit_roots().is_ok());
    assert!(dumper.has_visited(obj(A)));
    assert!(dumper.has_visited(obj(B)));
    assert!(!dumper.has_visited(obj(C)));
    assert_eq!(dumper.to_node_id(obj(B)).0, "\"0xb0\"");
    let text = dumper.into_output().close();
    assert!(text.starts_with("digraph heap {\n"));
    assert!(text.ends_with("}\n"));
}

/// A sink that takes `budget` items and then fails.
struct Flaky {
    lines: Rc<RefCell<Vec<String>>>,
    budget: usize,
}

impl Flaky {
    fn take(&mut self, line: String) -> Result<(), std::io::Error> {
        if self.budget == 0 {
            return Err(std::io::Error::new(std::io::ErrorKind::Other, "disk full"));
        }
        self.budget -= 1;
        self.lines.borrow_mut().push(line);
        Ok(())
    }
}

impl GraphOutput for Flaky {
    fn add_slot(&mut self, src: &NodeId, dst: &NodeId) -> Result<(), std::io::Error> {
        self.take(format!("{} -> {}", src.0, dst.0))
    }

    fn add_node(&mut self, node_id: &NodeId, _attrs: &Vec<NodeAttr>) -> Result<(), std::io::Error> {
        self.take(format!("{}", node_id.0))
    }
}

#[test]
fn a_failing_sink_ends_the_dump_with_its_error() {
    let lines = Rc::new(RefCell::new(Vec::new()));
    let sink = Flaky { lines: lines.clone(), budget: 3 };
    let mut dumper: HeapGraphDumper<Judge, Heap<CYCLES>, Flaky> =
        HeapGraphDumper::new(Judge::lenient(), tls(), sink);
    let done = dumper.visit_roots();
    let error = done.unwrap_err();
    assert_eq!(error.to_string(), "disk full");
    assert_eq!(
        *lines.borrow(),
        vec![
            "roots -> \"0xa0\"".to_string(),
            "\"0xa0\"".to_string(),
            "\"0xa0\" -> \"0xb0\"".to_string(),
        ]
    );
}

#[test]
fn a_sink_that_never_fails_sees_every_item() {
    let lines = Rc::new(RefCell::new(Vec::new()));
    let sink = Flaky { lines: lines.clone(), budget: 100 };
    let mut dumper: HeapGraphDumper<Judge, Heap<PAIR>, Flaky> =
        HeapGraphDumper::new(Judge::lenient(), tls(), sink);
    assert!(dumper.visit_roots().is_ok());
    assert_eq!(
        *lines.borrow(),
        vec![
            "roots -> \"0xa0\"".to_string(),
            "\"0xa0\"".to_string(),
            "\"0xa0\" -> \"0xb0\"".to_string(),
            "\"0xb0\"".to_string(),
        ]
    );
}

#[test]
fn check_node_takes_up_one_node_and_drain_work_the_rest() {
    let judge = Judge::lenient();
    let asked = judge.asked_nodes.clone();
    let mut checker: SanityChecker<Judge, Heap<CYCLES>> = SanityChecker::new(judge, tls());
    checker.check_node(obj(A));
    assert_eq!(*asked.borrow(), vec![A]);
    assert!(checker.has_visited(obj(A)));
    assert!(!checker.has_visited(obj(B)));
    // taking up the same node again does nothing
    checker.check_node(obj(A));
    assert_eq!(*asked.borrow(), vec![A]);
    checker.drain_work();
    assert_eq!(*asked.borrow(), vec![A, B]);
    assert!(checker.has_visited(obj(B)));
    assert!(!checker.has_visited(obj(C)));
    assert!(checker.take_errors().is_empty());
}

#[test]
fn errors_hand_out_their_reason() {
    let edge: Error<Field> = Error::BadEdge(field(1, A), "unmapped".to_string());
    let node: Error<Field> = Error::BadNode(obj(B), "corrupt header".to_string());
    assert_eq!(edge.reason(), "unmapped");
    assert_eq!(node.reason(), "corrupt header");
    let copy = node.clone();
    assert_eq!(copy.reason(), "corrupt header");
    assert_eq!(format!("{:?}", edge), "BadEdge(Field { at: 1, to: 160 }, \"unmapped\")");
}

#[test]
fn a_second_run_finds_nothing_new() {
    let judge = Judge::lenient();
    let asked = judge.asked_nodes.clone();
    let mut checker: SanityChecker<Judge, Heap<PAIR>> = SanityChecker::new(judge, tls());
    checker.check_roots();
    checker.check_roots();
    assert_eq!(*asked.borrow(), vec![A, B]);
}

#[test]
fn the_cursor_is_idle_before_and_after_a_run() {
    let mut dumper: HeapGraphDumper<Judge, Heap<BAD_NODE>, DotOutput> = HeapGraphDumper::new(
        Judge::strict(vec![(B, "corrupt header")], Vec::new()),
        tls(),
        DotOutput::new(),
    );
    assert_eq!(dumper.current_source().0, "unknown");
    assert!(dumper.visit_roots().is_ok());
    assert_eq!(dumper.current_source().0, "unknown");
}

#[test]
fn a_sound_slot_is_drawn_from_the_cursor_and_its_target_queued() {
    let judge = Judge::lenient();
    let asked = judge.asked_nodes.clone();
    let mut dumper: HeapGraphDumper<Judge, Heap<PAIR>, DotOutput> =
        HeapGraphDumper::new(judge, tls(), DotOutput::new());
    dumper.visit_slot(field(1, C));
    assert_eq!(dumper.current_source().0, "unknown");
    assert!(!dumper.has_visited(obj(C)));
    assert!(dumper.take_failure().is_none());
    // the run takes the roots first and then what the slot queued
    assert!(dumper.visit_roots().is_ok());
    assert_eq!(*asked.borrow(), vec![A, C, B]);
    let expected = [
        "digraph heap {\n",
        "  unknown -> \"0xc0\";\n",
        "  roots -> \"0xa0\";\n",
        "  \"0xa0\" [];\n",
        "  \"0xa0\" -> \"0xb0\";\n",
        "  \"0xc0\" [];\n",
        "  \"0xb0\" [];\n",
        "}\n",
    ]
    .concat();
    assert_eq!(dumper.into_output().close(), expected);
}

#[test]
fn a_bad_or_cleared_slot_queues_nothing() {
    let judge = Judge::strict(Vec::new(), vec![(7, "unmapped")]);
    let asked = judge.asked_nodes.clone();
    let mut dumper: HeapGraphDumper<Judge, Heap<NO_ROOTS>, DotOutput> =
        HeapGraphDumper::new(judge, tls(), DotOutput::new());
    dumper.visit_slot(field(7, C));
    dumper.visit_slot(field(8, 0));
    assert!(dumper.visit_roots().is_ok());
    assert!(asked.borrow().is_empty());
    let errors = dumper.take_errors();
    assert_eq!(errors.len(), 1);
    assert!(matches!(&errors[0], Error::BadEdge(slot, reason)
        if *slot == field(7, C) && reason == "unmapped"));
    assert_eq!(
        dumper.into_output().close(),
        "digraph heap {\n  unknown -> \"0xc0\";\n}\n"
    );
}

#[test]
fn a_run_with_nothing_to_draw_makes_no_call_on_the_sink() {
    let lines = Rc::new(RefCell::new(Vec::new()));
    let sink = Flaky { lines: lines.clone(), budget: 0 };
    let mut dumper: HeapGraphDumper<Judge, Heap<NO_ROOTS>, Flaky> =
        HeapGraphDumper::new(Judge::lenient(), tls(), sink);
    assert!(dumper.visit_roots().is_ok());
    assert!(lines.borrow().is_empty());
}

#[test]
fn after_a_failure_the_dumper_is_in_order() {
    let lines = Rc::new(RefCell::new(Vec::new()));
    let sink = Flaky { lines: lines.clone(), budget: 2 };
    let judge = Judge::strict(Vec::new(), vec![(1, "unmapped")]);
    let mut dumper: HeapGraphDumper<Judge, Heap<ONE_BAD_ROOT>, Flaky> =
        HeapGraphDumper::new(judge, tls(), sink);
    // roots: slot 1 (bad), slot 2 -> X, slot 3 -> B; the sink fails on the
    // third item, the root edge of B
    assert!(dumper.visit_roots().is_err());
    assert_eq!(dumper.current_source().0, "unknown");
    assert!(dumper.take_failure().is_none());
    assert!(dumper.has_visited(obj(X)));
    assert!(!dumper.has_visited(obj(B)));
    let errors = dumper.take_errors();
    assert_eq!(errors.len(), 1);
    assert!(matches!(&errors[0], Error::BadEdge(slot, _) if *slot == field(1, A)));
    assert_eq!(
        *lines.borrow(),
        vec!["roots -> \"0xf0\"".to_string(), "\"0xf0\"".to_string()]
    );
}

#[test]
fn a_failure_outside_a_run_is_handed_out_once() {
    let lines = Rc::new(RefCell::new(Vec::new()));
    let sink = Flaky { lines: lines.clone(), budget: 0 };
    let mut dumper: HeapGraphDumper<Judge, Heap<NO_ROOTS>, Flaky> =
        HeapGraphDumper::new(Judge::lenient(), tls(), sink);
    // a cleared slot makes no call on the sink
    dumper.visit_slot(field(1, 0));
    assert!(dumper.take_failure().is_none());
    dumper.visit_slot(field(2, A));
    // once the sink has failed nothing more is drawn or queued
    dumper.visit_slot(field(3, B));
    let failure = dumper.take_failure();
    assert_eq!(failure.unwrap().to_string(), "disk full");
    assert!(dumper.take_failure().is_none());
    assert!(lines.borrow().is_empty());
}
