use heap_graph::dumper::RootSet;
use heap_graph::handles::ObjectReference;
use heap_graph::sanity::{Error, WorkFactory};
use heap_graph::vm::{RootsWorkFactory, Slot, VMBinding, ValidityPredicate};

#[derive(Clone, Copy, Debug, PartialEq, Eq)]
struct Cell(usize);

impl Slot for Cell {
    fn load(&self) -> Option<ObjectReference> {
        if self.0 == 0 {
            None
        } else {
            Some(ObjectReference::from_raw_address(self.0))
        }
    }
}

struct Plain;

impl VMBinding for Plain {
    type VMSlot = Cell;
}

/// Turns down every slot that refers to an odd address.
struct EvenOnly;

impl ValidityPredicate<Plain> for EvenOnly {
    fn is_valid_node(&self, _node: ObjectReference) -> Result<(), String> {
        Ok(())
    }

    fn is_valid_slot(&self, slot: Cell) -> Result<(), String> {
        if slot.0 % 2 == 1 {
            Err(format!("odd address {}", slot.0))
        } else {
            Ok(())
        }
    }
}

fn obj(addr: usize) -> ObjectReference {
    ObjectReference::from_raw_address(addr)
}

fn drain(factory: &mut WorkFactory<EvenOnly, Plain>) -> Vec<usize> {
    let mut out = Vec::new();
    while let Some(node) = factory.pop_node() {
        out.push(node.to_raw_address());
    }
    out
}

#[test]
fn new_collector_is_empty() {
    let mut factory: WorkFactory<EvenOnly, Plain> = WorkFactory::new(EvenOnly);
    assert!(factory.pop_node().is_none());
    assert!(factory.take_errors().is_empty());
}

#[test]
fn sound_slot_queues_its_target() {
    let mut factory: WorkFactory<EvenOnly, Plain> = WorkFactory::new(EvenOnly);
    factory.push_slot(Cell(8));
    assert_eq!(drain(&mut factory), vec![8]);
    assert!(factory.take_errors().is_empty());
}

#[test]
fn bad_slot_is_recorded_and_not_queued() {
    let mut factory: WorkFactory<EvenOnly, Plain> = WorkFactory::new(EvenOnly);
    factory.push_slot(Cell(7));
    assert!(factory.pop_node().is_none());
    let errors = factory.take_errors();
    assert_eq!(errors.len(), 1);
    assert!(matches!(&errors[0], Error::BadEdge(slot, reason)
        if *slot == Cell(7) && reason == "odd address 7"));
    assert!(factory.take_errors().is_empty());
}

#[test]
fn cleared_slot_is_dropped_silently() {
    let mut factory: WorkFactory<EvenOnly, Plain> = WorkFactory::new(EvenOnly);
    factory.push_slot(Cell(0));
    assert!(factory.pop_node().is_none());
    assert!(factory.take_errors().is_empty());
}

#[test]
fn trusted_nodes_bypass_the_predicate() {
    let mut factory: WorkFactory<EvenOnly, Plain> = WorkFactory::new(EvenOnly);
    factory.push_nodes(vec![obj(3), obj(5)]);
    assert_eq!(drain(&mut factory), vec![3, 5]);
    assert!(factory.take_errors().is_empty());
}

#[test]
fn queue_hands_nodes_out_oldest_first() {
    let mut factory: WorkFactory<EvenOnly, Plain> = WorkFactory::new(EvenOnly);
    factory.push_slot(Cell(2));
    factory.push_nodes(vec![obj(9), obj(4)]);
    factory.push_slot(Cell(6));
    assert_eq!(factory.pop_node(), Some(obj(2)));
    factory.push_slot(Cell(10));
    assert_eq!(drain(&mut factory), vec![9, 4, 6, 10]);
    assert!(factory.pop_node().is_none());
}

#[test]
fn pushed_error_is_kept_in_order() {
    let mut factory: WorkFactory<EvenOnly, Plain> = WorkFactory::new(EvenOnly);
    factory.push_error(Error::BadNode(obj(16), "corrupt header".to_string()));
    factory.push_slot(Cell(1));
    let errors = factory.take_errors();
    assert_eq!(errors.len(), 2);
    assert!(matches!(&errors[0], Error::BadNode(node, reason)
        if *node == obj(16) && reason == "corrupt header"));
    assert!(matches!(&errors[1], Error::BadEdge(slot, _) if *slot == Cell(1)));
}

#[test]
fn root_deliveries_reach_the_collector() {
    let mut factory: WorkFactory<EvenOnly, Plain> = WorkFactory::new(EvenOnly);
    factory.create_process_roots_work(vec![Cell(2), Cell(3), Cell(0), Cell(4)]);
    factory.create_process_pinning_roots_work(vec![obj(5)]);
    factory.create_process_tpinning_roots_work(vec![obj(7)]);
    assert_eq!(drain(&mut factory), vec![2, 4, 5, 7]);
    let errors = factory.take_errors();
    assert_eq!(errors.len(), 1);
    assert!(matches!(&errors[0], Error::BadEdge(slot, _) if *slot == Cell(3)));
}

fn drain_roots(roots: &mut RootSet<EvenOnly, Plain>) -> Vec<usize> {
    let mut out = Vec::new();
    while let Some(node) = roots.pop_node() {
        out.push(node.to_raw_address());
    }
    out
}

#[test]
fn new_root_set_is_empty() {
    let mut roots: RootSet<EvenOnly, Plain> = RootSet::new(EvenOnly);
    assert!(roots.pop_node().is_none());
    assert!(roots.take_errors().is_empty());
}

#[test]
fn root_set_checks_and_loads_slots_and_drops_cleared_ones() {
    let mut roots: RootSet<EvenOnly, Plain> = RootSet::new(EvenOnly);
    roots.push_slot(Cell(8));
    roots.push_slot(Cell(0));
    roots.push_slot(Cell(3));
    roots.push_slot(Cell(6));
    assert_eq!(drain_roots(&mut roots), vec![8, 6]);
    let errors = roots.take_errors();
    assert_eq!(errors.len(), 1);
    assert!(matches!(&errors[0], Error::BadEdge(slot, reason)
        if *slot == Cell(3) && reason == "odd address 3"));
}

#[test]
fn root_set_records_pushed_errors() {
    let mut roots: RootSet<EvenOnly, Plain> = RootSet::new(EvenOnly);
    roots.push_error(Error::BadNode(obj(4), "corrupt header".to_string()));
    let errors = roots.take_errors();
    assert_eq!(errors.len(), 1);
    assert!(matches!(&errors[0], Error::BadNode(node, reason)
        if *node == obj(4) && reason == "corrupt header"));
    assert!(roots.predicate().is_valid_slot(Cell(2)).is_ok());
    assert!(roots.predicate().is_valid_slot(Cell(1)).is_err());
}

#[test]
fn root_set_keeps_the_order_of_its_nodes() {
    let mut roots: RootSet<EvenOnly, Plain> = RootSet::new(EvenOnly);
    roots.push_node(obj(1));
    roots.push_nodes(vec![obj(2), obj(3)]);
    roots.push_node(obj(1));
    assert_eq!(roots.pop_node(), Some(obj(1)));
    assert_eq!(drain_roots(&mut roots), vec![2, 3, 1]);
}

#[test]
fn root_deliveries_reach_the_root_set() {
    let mut roots: RootSet<EvenOnly, Plain> = RootSet::new(EvenOnly);
    roots.create_process_roots_work(vec![Cell(2), Cell(0), Cell(5), Cell(4)]);
    roots.create_process_pinning_roots_work(vec![obj(7)]);
    roots.create_process_tpinning_roots_work(vec![obj(9)]);
    assert_eq!(drain_roots(&mut roots), vec![2, 4, 7, 9]);
    let errors = roots.take_errors();
    assert_eq!(errors.len(), 1);
    assert!(matches!(&errors[0], Error::BadEdge(slot, _) if *slot == Cell(5)));
}

#[test]
fn collector_hands_out_its_predicate_and_single_nodes() {
    let mut factory: WorkFactory<EvenOnly, Plain> = WorkFactory::new(EvenOnly);
    assert!(factory.predicate().is_valid_slot(Cell(3)).is_err());
    factory.push_node(obj(11));
    factory.push_node(obj(12));
    assert_eq!(drain(&mut factory), vec![11, 12]);
}
