//! Errors of the simulator.
use vstd::prelude::*;

use diesel::result::Error as DatabaseError;
use std::num::ParseIntError;
use std::str::ParseBoolError;

use crate::basis::Basis;
use crate::event::{Event, EventName};

verus! {

/// The error of a query to the database where nodes, links and detectors are kept.
#[verifier::external_type_specification]
#[verifier::external_body]
pub struct ExDatabaseError(DatabaseError);

/// The error of `str::parse` into an integer.
#[verifier::external_type_specification]
#[verifier::external_body]
pub struct ExParseIntError(ParseIntError);

/// The error of `str::parse` into a `bool`.
#[verifier::external_type_specification]
#[verifier::external_body]
pub struct ExParseBoolError(ParseBoolError);

/// Errors while building or reading the network graph.
#[derive(Debug)]
pub enum GraphError {
    Node(NodeError),
    Link(LinkError),
    NoCommonEpr(i32, i32),
}

/// Errors about links.
#[derive(Debug)]
pub enum LinkError {
    NonExistingNodes(i32, i32),
    MissingNode(i32),
    DuplicateLink,
    CapacityExceeded,
    NotExistingLink(i32, i32),
    NotFound(i32),
    Database(DatabaseError),
}

/// Errors about nodes.
#[derive(Debug)]
pub enum NodeError {
    AlreadyExists(String),
    Database(DatabaseError),
    NodeInUse(),
    NotValidKind(String),
    DetectorError(DetectorError),
    NodeNotFound(i32),
    NotAuthorized(i32),
}

/// Errors in what the operator typed.
#[derive(Debug)]
pub enum CliError {
    NotValidInput(String),
    NotValidCommand(String),
    InvalidInteger(ParseIntError),
    InvalidBoolean(ParseBoolError),
}

/// Errors of the simulation machinery.
#[derive(Debug)]
pub enum SimError {
    NotValidInput(String),
    MissingArgument(String),
    /// The event loop has gone away; the event that could not be sent comes back.
    ChannelSendError { source: Event },
}

/// Errors about entangled pairs.
#[derive(Debug)]
pub enum PairError {
    Database(DatabaseError),
    Measurement(MeasurementError),
    Node(NodeError),
    Sim(SimError),
    PairNotFound(i32),
    NotMeasured(),
}

/// Errors about key-distribution processes.
#[derive(Debug)]
pub enum ProcessError {
    Database(DatabaseError),
    NotFound(i32),
}

/// Errors about detectors.
#[derive(Debug)]
pub enum DetectorError {
    Database(DatabaseError),
    CoolingDown(i32),
    NotFound(i32),
}

/// Errors about stored measurements.
#[derive(Debug)]
pub enum MeasurementError {
    Database(DatabaseError),
}

/// The CHSH statistic of a run, kept exactly: for each of the four basis groups the
/// sum of the products of the two mapped values and the number of pairs.
#[derive(Debug, Clone, Copy, PartialEq, Eq, Structural)]
pub struct ChshStatistic {
    pub sum_a0b0: i128,
    pub count_a0b0: i128,
    pub sum_a0b1: i128,
    pub count_a0b1: i128,
    pub sum_a1b0: i128,
    pub count_a1b0: i128,
    pub sum_a1b1: i128,
    pub count_a1b1: i128,
}

/// Errors of the sifting phase.
#[derive(Debug)]
pub enum SiftingError {
    MalloryDetected(ChshStatistic, i32),
    NotKnownCombination(Basis, Basis),
    BadLength,
}

/// Every error of the library.
#[derive(Debug)]
pub enum Error {
    Link(LinkError),
    Node(NodeError),
    Cli(CliError),
    Graph(GraphError),
    Sim(SimError),
    Pair(PairError),
    Process(ProcessError),
    Detector(DetectorError),
    Measurement(MeasurementError),
    Sifting(SiftingError),
    FunctionNotFound(EventName),
    NonExistantFunction(EventName),
    WrongArgs(),
}

} // verus!
