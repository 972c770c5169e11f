//! Nodes, detectors, links and processes of the simulated network.
use vstd::prelude::*;

use crate::error::{CliError, DetectorError, LinkError, NodeError};
use crate::text::{is_white_space, same_text, trim_end, trim_start, trim_text, trimmed};

verus! {

/// Client nodes hold detectors; EPR nodes emit entangled pairs; a Mallory node eavesdrops.
#[derive(Debug, Clone, Copy, PartialEq, Eq, Hash, Structural)]
pub enum NodeKind {
    ClientNode,
    EprNode,
    Mallory,
}

/// The kind that a node-type text names once trimmed: "0", "1" or "2".
pub open spec fn kind_of_text(s: Seq<char>) -> Option<NodeKind> {
    let t = trimmed(s);
    if t == "0"@ {
        Some(NodeKind::ClientNode)
    } else if t == "1"@ {
        Some(NodeKind::EprNode)
    } else if t == "2"@ {
        Some(NodeKind::Mallory)
    } else {
        None
    }
}

/// The code under which a kind is stored and shown.
pub open spec fn kind_code(k: NodeKind) -> Seq<char> {
    match k {
        NodeKind::ClientNode => "0"@,
        NodeKind::EprNode => "1"@,
        NodeKind::Mallory => "2"@,
    }
}

/// Reading the code of a kind gives the kind back.
pub proof fn law_kind_code_round_trip(k: NodeKind)
    ensures
        kind_of_text(kind_code(k)) == Some(k),
{
    reveal_strlit("0");
    reveal_strlit("1");
    reveal_strlit("2");
    let c = kind_code(k);
    assert(c.len() == 1);
    assert(!is_white_space(c[0]));
    assert(trim_start(c) == c);
    assert(trim_end(c) == c);
    assert(c != "0"@ ==> k != NodeKind::ClientNode);
    assert(c != "1"@ ==> k != NodeKind::EprNode);
}

impl NodeKind {
    /// Parses a node type: "0" a client, "1" an EPR node, "2" a Mallory node, around
    /// white space.
    pub fn parse_kind(s: &str) -> (r: Result<NodeKind, CliError>)
        ensures
            match kind_of_text(s@) {
                Some(k) => r matches Ok(kk) && kk == k,
                None => r matches Err(CliError::NotValidInput(t)) && t@ == s@,
            },
    {
        let t = trim_text(s);
        if same_text(t, "0") {
            Ok(NodeKind::ClientNode)
        } else if same_text(t, "1") {
            Ok(NodeKind::EprNode)
        } else if same_text(t, "2") {
            Ok(NodeKind::Mallory)
        } else {
            Err(CliError::NotValidInput(s.to_owned()))
        }
    }

    /// The code under which the kind is stored and shown: "0", "1" or "2".
    pub fn code(&self) -> (r: &'static str)
        ensures
            r@ == kind_code(*self),
    {
        match self {
            NodeKind::ClientNode => "0",
            NodeKind::EprNode => "1",
            NodeKind::Mallory => "2",
        }
    }
}

impl std::str::FromStr for NodeKind {
    type Err = CliError;

    fn from_str(s: &str) -> (r: Result<NodeKind, CliError>)
        ensures
            match kind_of_text(s@) {
                Some(k) => r matches Ok(kk) && kk == k,
                None => r matches Err(CliError::NotValidInput(t)) && t@ == s@,
            },
    {
        NodeKind::parse_kind(s)
    }
}

/// A network node, either a client or an EPR source.
///
/// `locked_by` names the process that currently holds the node: one key distribution at
/// a time.
#[derive(Debug, Clone)]
pub struct Node {
    pub id: i32,
    pub name: String,
    pub locked_by: Option<i32>,
    pub node_type: String,
    pub detector_id: i32,
}

/// The node can be taken by the process: it is free or already held by it.
pub open spec fn available(n: Node, process_id: i32) -> bool {
    n.locked_by is None || n.locked_by == Some(process_id)
}

/// The node held by the process.
pub open spec fn held_by(n: Node, process_id: i32) -> Node {
    Node { locked_by: Some(process_id), ..n }
}

/// The node once the process tried to take it.
pub open spec fn after_acquire(n: Node, process_id: i32) -> Node {
    if available(n, process_id) {
        held_by(n, process_id)
    } else {
        n
    }
}

/// The node once the process tried to let it go: the holder (or anyone, for a free node)
/// leaves it free; another process changes nothing.
pub open spec fn after_release(n: Node, process_id: i32) -> Node {
    if available(n, process_id) {
        Node { locked_by: None, ..n }
    } else {
        n
    }
}

/// One process at a time: once a process holds a node, another process can neither take
/// it nor let it go, while the holder can take it again and, by letting it go, leaves it
/// free for any process.
pub proof fn law_node_held_by_one_process(n: Node, holder: i32, other: i32)
    requires
        holder != other,
        available(n, holder),
    ensures
        after_acquire(n, holder).locked_by == Some(holder),
        !available(after_acquire(n, holder), other),
        after_acquire(after_acquire(n, holder), other) == after_acquire(n, holder),
        after_release(after_acquire(n, holder), other) == after_acquire(n, holder),
        after_acquire(after_acquire(n, holder), holder) == after_acquire(n, holder),
        after_release(after_acquire(n, holder), holder).locked_by is None,
        available(after_release(after_acquire(n, holder), holder), other),
{
}

impl Node {
    /// A copy of the node.
    pub fn duplicate(&self) -> (r: Node)
        ensures
            r == *self,
    {
        Node {
            id: self.id,
            name: self.name.clone(),
            locked_by: self.locked_by,
            node_type: self.node_type.clone(),
            detector_id: self.detector_id,
        }
    }

    /// Tries to lock the node for a process: it succeeds when the node is free or already
    /// held by the same process.
    pub fn try_acquire(&mut self, process_id: i32) -> (r: bool)
        ensures
            r == available(*old(self), process_id),
            *final(self) == after_acquire(*old(self), process_id),
            r == (old(self).locked_by is None || old(self).locked_by == Some(process_id)),
            final(self).locked_by == if r { Some(process_id) } else { old(self).locked_by },
            final(self).id == old(self).id,
            final(self).name == old(self).name,
            final(self).node_type == old(self).node_type,
            final(self).detector_id == old(self).detector_id,
    {
        match self.locked_by {
            None => {
                self.locked_by = Some(process_id);
                true
            },
            Some(owner) => owner == process_id,
        }
    }

    /// Releases the lock held by a process; a node held by another process is refused.
    pub fn release(&mut self, process_id: i32) -> (r: Result<(), NodeError>)
        ensures
            r is Ok == available(*old(self), process_id),
            *final(self) == after_release(*old(self), process_id),
            final(self).id == old(self).id,
            final(self).name == old(self).name,
            final(self).node_type == old(self).node_type,
            final(self).detector_id == old(self).detector_id,
            match old(self).locked_by {
                None => r is Ok && final(self).locked_by is None,
                Some(owner) => if owner == process_id {
                    r is Ok && final(self).locked_by is None
                } else {
                    r matches Err(NodeError::NotAuthorized(p)) && p == process_id
                        && final(self).locked_by == old(self).locked_by
                },
            },
    {
        match self.locked_by {
            None => Ok(()),
            Some(owner) => {
                if owner != process_id {
                    return Err(NodeError::NotAuthorized(process_id));
                }
                self.locked_by = None;
                Ok(())
            },
        }
    }

    pub fn get_id(&self) -> (r: i32)
        ensures
            r == self.id,
    {
        self.id
    }

    /// The process holding the node, if any.
    pub fn is_locked(&self) -> (r: Option<i32>)
        ensures
            r == self.locked_by,
    {
        self.locked_by
    }

    /// Whether the process may use the node: it is free or already held by that process.
    pub fn is_available_for(&self, process_id: i32) -> (r: bool)
        ensures
            r == (self.locked_by is None || self.locked_by == Some(process_id)),
    {
        match self.locked_by {
            None => true,
            Some(owner) => owner == process_id,
        }
    }
}

/// A detector of a client node.
#[derive(Debug, Clone, Copy, PartialEq, Eq, Structural)]
pub struct Detector {
    pub id: i32,
    pub resolution_ps: i64,
    pub cooldown_ps: i64,
    pub dark_count_rate: i32,
    pub last_detection_time: i64,
}

impl Detector {
    /// Whether the detector is still recovering from its last detection.
    pub fn is_cooling(&self, current_time: i64) -> (r: bool)
        ensures
            r == (current_time < self.last_detection_time + self.cooldown_ps),
    {
        (current_time as i128) < (self.last_detection_time as i128) + (self.cooldown_ps as i128)
    }

    /// Records a detection (of a qubit or a dark count) at `current_time`.
    pub fn set_detection_time(&mut self, current_time: i64) -> (r: Result<(), DetectorError>)
        ensures
            r is Ok,
            *final(self) == (Detector { last_detection_time: current_time, ..*old(self) }),
    {
        self.last_detection_time = current_time;
        Ok(())
    }
}

/// A fibre link between two nodes.
///
/// Attenuation and error rate are kept as the bit patterns of their `f32` values; the
/// propagation delay in microseconds is computed when the link is made.
#[derive(Debug, Clone, Copy, PartialEq, Eq, Structural)]
pub struct Link {
    pub id: i32,
    pub length: i64,
    pub attenuation_bits: u32,
    pub error_rate_bits: u32,
    pub src_id: i32,
    pub dst_id: i32,
    pub next_available_time: i64,
    pub is_secure: bool,
    pub delay_us: i64,
}

impl Link {
    /// The time a photon takes along the link, in microseconds.
    pub fn propagation_delay_us(&self) -> (r: i64)
        ensures
            r == self.delay_us,
    {
        self.delay_us
    }

    /// Whether a link between the nodes `src_id` and `dst_id` may be made, given whether
    /// each of them is known: a link needs both its ends.
    pub fn check_ends(src_id: i32, dst_id: i32, src_exists: bool, dst_exists: bool) -> (r: Result<(), LinkError>)
        ensures
            src_exists && dst_exists ==> r is Ok,
            !(src_exists && dst_exists) ==> (r matches Err(LinkError::NonExistingNodes(a, b)) && a == src_id
                && b == dst_id),
    {
        if !src_exists || !dst_exists {
            return Err(LinkError::NonExistingNodes(src_id, dst_id));
        }
        Ok(())
    }
}

/// A key distribution process between two clients.
#[derive(Debug, Clone)]
pub struct Process {
    pub id: i32,
    pub started_at: i64,
    pub accepted_pairs: i32,
    pub key: Option<String>,
}

impl Process {
    /// A process starting at `current_time`, with nothing accepted and no key yet.
    pub fn new(current_time: i64) -> (r: Process)
        ensures
            r.id == 0,
            r.started_at == current_time,
            r.accepted_pairs == 0,
            r.key is None,
    {
        Process { id: 0, started_at: current_time, accepted_pairs: 0, key: None }
    }

    /// Whether at least `expected_pairs` pairs were accepted.
    pub fn is_complete(&self, expected_pairs: i32) -> (r: bool)
        ensures
            r == (self.accepted_pairs >= expected_pairs),
    {
        self.accepted_pairs >= expected_pairs
    }
}

} // verus!
