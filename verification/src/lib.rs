// Walks the object graph of a managed heap from its roots: once to check
// every node and edge against a validity predicate, once to draw the graph.

// handles of heap objects and of runtime threads
pub mod handles;
// the work queue
pub mod queue;
// what the embedding runtime supplies, and what it is shown
pub mod vm;
// the walk, as mathematics
pub mod walk;
// the work collector and the sanity check
pub mod sanity;
// numbers as text
pub mod text;
// graphs, their sinks, and the DOT language
pub mod graph;
// the sink that writes DOT into memory
pub mod dot;
// the drawing walk, as mathematics
pub mod chart;
// the root queue and the graph dumper
pub mod dumper;
// what a walk reaches
pub mod reach;
// what holds of every check and every dump
pub mod laws;
