//! A two-player chess rule engine.
//!
//! Given a board configuration and a proposed move, the engine determines
//! which destination squares a piece may legally reach and whether applying
//! a move would leave the moving side's own king in check.  The engine is
//! purely positional: it owns the data model (squares, pieces, rosters,
//! position snapshots), pseudo-legal move generation per piece kind,
//! attack-map computation, and the check-safety filter that promotes a
//! pseudo-legal move to a legal one.  Rendering, input mapping and the
//! surrounding interaction loop are external collaborators and live outside
//! this crate.

pub mod board;
