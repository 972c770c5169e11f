//! The classical phase of a process: the accepted pairs are split by basis, the pairs in
//! mismatched bases go through the CHSH test, and the pairs in matching bases give the key.
use vstd::prelude::*;

use crate::basis::Basis;
use crate::chsh::{chsh_result, perform_chsh};
use crate::error::{Error, PairError, ProcessError, SiftingError};
use crate::event::EventPayload;
use crate::event_loop::EventLoopHandler;
use crate::pair::{accepted_bits, dst_bits, spec_accepted, src_bits, AcceptedPair, NewEntangledPair};
use crate::settings::KEY_LENGTH;
use crate::sifting::{all_bits, bits_to_bytes, cascade, packed_bytes, power_of_two, spec_cascade};
use crate::state::{pair_bits, pair_slot, SimulationState, StateView};

verus! {

/// `s` lists the accepted pairs of the process held in `pairs`, each once, in some order.
pub open spec fn enumerates(s: Seq<NewEntangledPair>, pairs: Map<i64, NewEntangledPair>, process_id: i32) -> bool {
    &&& s.no_duplicates()
    &&& forall|p: NewEntangledPair|
        #![trigger s.contains(p)]
        s.contains(p) <==> (pairs.contains_key(pair_slot(p.process_id, p.qubit_nr)) && pairs[pair_slot(
            p.process_id,
            p.qubit_nr,
        )] == p && p.process_id == process_id && p.accepted)
}

/// The accepted forms of the pairs, in order, when both clients measured every one of them.
pub open spec fn all_accepted(s: Seq<NewEntangledPair>) -> Option<Seq<AcceptedPair>>
    decreases s.len(),
{
    if s.len() == 0 {
        Some(Seq::empty())
    } else {
        match (all_accepted(s.drop_last()), spec_accepted(s.last())) {
            (Some(a), Some(x)) => Some(a.push(x)),
            _ => None,
        }
    }
}

/// The pair serves the CHSH test: the bases differ and neither is the 90 degree basis.
pub open spec fn for_chsh(a: AcceptedPair) -> bool {
    a.src_measurement.basis != a.dst_measurement.basis && a.src_measurement.basis != Basis::Deg90
        && a.dst_measurement.basis != Basis::Deg90
}

/// The pairs, in order, that serve the CHSH test.
pub open spec fn diff_basis_pairs(acc: Seq<AcceptedPair>) -> Seq<AcceptedPair>
    decreases acc.len(),
{
    if acc.len() == 0 {
        Seq::empty()
    } else {
        let d = diff_basis_pairs(acc.drop_last());
        if for_chsh(acc.last()) {
            d.push(acc.last())
        } else {
            d
        }
    }
}

/// The first `limit` pairs, in order, measured in the same basis on both sides.
pub open spec fn key_pairs(acc: Seq<AcceptedPair>, limit: int) -> Seq<AcceptedPair>
    decreases acc.len(),
{
    if acc.len() == 0 {
        Seq::empty()
    } else {
        let k = key_pairs(acc.drop_last(), limit);
        let a = acc.last();
        if a.src_measurement.basis == a.dst_measurement.basis && k.len() < limit {
            k.push(a)
        } else {
            k
        }
    }
}

/// The lower-case hexadecimal digit of a value below 16.
pub open spec fn hex_digit(n: int) -> char {
    if n < 10 {
        (n + 48) as char
    } else {
        (n + 87) as char
    }
}

/// The lower-case hexadecimal text of the bytes: two digits per byte, high digit first.
pub open spec fn hex_chars(bytes: Seq<u8>) -> Seq<char>
    decreases bytes.len(),
{
    if bytes.len() == 0 {
        Seq::empty()
    } else {
        hex_chars(bytes.drop_last()) + seq![hex_digit(bytes.last() as int / 16), hex_digit(bytes.last() as int % 16)]
    }
}

/// `hex::encode`: the crate writes each byte as two lower-case hexadecimal digits, the
/// high four bits first, in the order of the bytes.
#[verifier::external_body]
fn hex_encode(bytes: &Vec<u8>) -> (r: String)
    ensures
        r@ == hex_chars(bytes@),
{
    hex::encode(bytes)
}

proof fn lemma_unmeasured_extends(s: Seq<NewEntangledPair>, j: int)
    requires
        0 <= j <= s.len(),
        all_accepted(s.take(j)) is None,
    ensures
        all_accepted(s) is None,
    decreases s.len() - j,
{
    if j < s.len() {
        assert(s.take(j + 1).drop_last() =~= s.take(j));
        lemma_unmeasured_extends(s, j + 1);
    } else {
        assert(s.take(j) =~= s);
    }
}

/// The split of the accepted pairs of a process, as the classical phase makes it: the
/// pairs for the CHSH test, and the first `limit` pairs in matching bases.
struct Split {
    diff: Vec<AcceptedPair>,
    same: Vec<AcceptedPair>,
}

/// Goes through the listed pairs in order: refuses a pair that is not measured on both
/// sides, and splits the others by basis.
fn split_by_basis(
    acc_pairs: &Vec<NewEntangledPair>,
    limit: usize,
    state: &SimulationState,
    process_id: i32,
) -> (r: Result<Split, Error>)
    requires
        state.wf(),
        enumerates(acc_pairs@, state@.pairs, process_id),
    ensures
        match all_accepted(acc_pairs@) {
            None => r matches Err(Error::Pair(PairError::NotMeasured())),
            Some(acc) => r matches Ok(sp) && sp.diff@ == diff_basis_pairs(acc) && sp.same@ == key_pairs(
                acc,
                limit as int,
            ) && accepted_bits(sp.same@),
        },
{
    let ghost s = acc_pairs@;
    let mut diff: Vec<AcceptedPair> = Vec::new();
    let mut same: Vec<AcceptedPair> = Vec::new();
    let mut i: usize = 0;
    proof {
        assert(s.take(0) =~= Seq::<NewEntangledPair>::empty());
        state.lemma_wf_facts();
    }
    while i < acc_pairs.len()
        invariant
            i <= s.len(),
            s == acc_pairs@,
            state.wf(),
            enumerates(s, state@.pairs, process_id),
            forall|k: i64| #[trigger] state@.pairs.contains_key(k) ==> pair_bits(state@.pairs[k]),
            all_accepted(s.take(i as int)) is Some,
            diff@ == diff_basis_pairs(all_accepted(s.take(i as int)).unwrap()),
            same@ == key_pairs(all_accepted(s.take(i as int)).unwrap(), limit as int),
            accepted_bits(same@),
        decreases s.len() - i,
    {
        let pair = acc_pairs[i];
        proof {
            assert(s.take(i + 1).drop_last() =~= s.take(i as int));
            assert(s.take(i + 1).last() == pair);
        }
        let accepted = match pair.map_accepted() {
            Ok(a) => a,
            Err(e) => {
                proof {
                    lemma_unmeasured_extends(s, i + 1);
                }
                return Err(Error::Pair(e));
            },
        };
        let ghost acc_i = all_accepted(s.take(i as int)).unwrap();
        proof {
            assert(all_accepted(s.take(i + 1)) == Some(acc_i.push(accepted)));
            assert(acc_i.push(accepted).drop_last() =~= acc_i);
            assert(s.contains(pair));
            assert(pair_bits(pair));
            assert(0 <= accepted.src_measurement.value <= 1);
            assert(0 <= accepted.dst_measurement.value <= 1);
        }
        if accepted.src_measurement.basis == accepted.dst_measurement.basis {
            if same.len() < limit {
                let ghost before = same@;
                same.push(accepted);
                proof {
                    assert forall|k: int| 0 <= k < same@.len() implies 0 <= #[trigger] same@[k].src_measurement.value <= 1
                        && 0 <= same@[k].dst_measurement.value <= 1 by {
                        if k < before.len() {
                            assert(same@[k] == before[k]);
                        }
                    }
                }
            }
        } else if !(accepted.src_measurement.basis == Basis::Deg90
            || accepted.dst_measurement.basis == Basis::Deg90) {
            diff.push(accepted);
        }
        i = i + 1;
    }
    proof {
        assert(s.take(i as int) =~= s);
    }
    Ok(Split { diff, same })
}

/// The CHSH verdict on the pairs, as a handler reports it.
pub open spec fn chsh_outcome(diff: Seq<AcceptedPair>, process_id: i32) -> Result<(), Error> {
    match chsh_result(diff, process_id) {
        Ok(()) => Ok(()),
        Err(e) => Err(Error::Sifting(e)),
    }
}

fn run_chsh(diff: Vec<AcceptedPair>, process_id: i32) -> (r: Result<(), Error>)
    ensures
        r == chsh_outcome(diff@, process_id),
{
    match perform_chsh(diff, process_id) {
        Ok(()) => Ok(()),
        Err(e) => Err(Error::Sifting(e)),
    }
}

/// What the same-basis evaluation of a process answers; the state stays as it is.
pub open spec fn same_basis_outcome(payload: EventPayload, s0: StateView, r: Result<(), Error>) -> bool {
    match payload {
        EventPayload::SameBasis(a) => exists|s: Seq<NewEntangledPair>|
            #[trigger] enumerates(s, s0.pairs, a.process_id) && match all_accepted(s) {
                None => r matches Err(Error::Pair(PairError::NotMeasured())),
                Some(acc) => r == chsh_outcome(diff_basis_pairs(acc), a.process_id),
            },
        _ => r matches Err(Error::WrongArgs()),
    }
}

/// Runs the CHSH test on the accepted pairs of a process measured in mismatched bases.
pub fn same_basis(
    payload: EventPayload,
    _current_time: i64,
    state: &mut SimulationState,
    _handle: &EventLoopHandler,
) -> (r: Result<(), Error>)
    requires
        old(state).wf(),
    ensures
        *final(state) == *old(state),
        same_basis_outcome(payload, old(state)@, r),
{
    let args = match payload {
        EventPayload::SameBasis(a) => a,
        _ => {
            return Err(Error::WrongArgs());
        },
    };
    let acc_pairs = state.get_accepted_measurements(args.process_id);
    proof {
        assert(enumerates(acc_pairs@, state@.pairs, args.process_id));
    }
    let split = match split_by_basis(&acc_pairs, 0, state, args.process_id) {
        Ok(sp) => sp,
        Err(e) => {
            return Err(e);
        },
    };
    run_chsh(split.diff, args.process_id)
}

/// What the post-processing of a process does: only the key of the process changes.
pub open spec fn post_process_outcome(payload: EventPayload, s0: StateView, s1: StateView, r: Result<(), Error>) -> bool {
    match payload {
        EventPayload::PostProcess(a) => {
            let pid = a.process_id;
            if !s0.processes.contains_key(pid) {
                r matches Err(Error::Process(ProcessError::NotFound(x))) && x == pid && s1 == s0
            } else if s0.processes[pid].key is Some {
                r is Ok && s1 == s0
            } else {
                exists|s: Seq<NewEntangledPair>|
                    #[trigger] enumerates(s, s0.pairs, pid) && match all_accepted(s) {
                        None => r matches Err(Error::Pair(PairError::NotMeasured())) && s1 == s0,
                        Some(acc) => {
                            let keyp = key_pairs(acc, KEY_LENGTH as int);
                            match chsh_outcome(diff_basis_pairs(acc), pid) {
                                Err(e) => r == Err::<(), Error>(e) && s1 == s0,
                                Ok(()) => match spec_cascade(src_bits(keyp), dst_bits(keyp)) {
                                    None => r matches Err(Error::Sifting(SiftingError::BadLength)) && s1 == s0,
                                    Some(bits) => {
                                        &&& r is Ok
                                        &&& s1 == StateView {
                                            processes: s0.processes.insert(
                                                pid,
                                                crate::node::Process { key: s1.processes[pid].key, ..s0.processes[pid] },
                                            ),
                                            ..s0
                                        }
                                        &&& s1.processes[pid].key matches Some(k) && k@ == hex_chars(packed_bytes(bits))
                                    },
                                },
                            }
                        },
                    }
            }
        },
        _ => r matches Err(Error::WrongArgs()) && s1 == s0,
    }
}

/// The classical post-processing of a process whose pairs are all accepted: the CHSH test
/// on the pairs in mismatched bases, then cascade correction of the first `KEY_LENGTH`
/// pairs in matching bases; the corrected bits, packed into bytes, are stored as the key
/// of the process in hexadecimal. A process that already has a key is left alone.
pub fn post_process_key(
    payload: EventPayload,
    _current_time: i64,
    state: &mut SimulationState,
    _handle: &EventLoopHandler,
) -> (r: Result<(), Error>)
    requires
        old(state).wf(),
    ensures
        final(state).wf(),
        post_process_outcome(payload, old(state)@, final(state)@, r),
{
    let args = match payload {
        EventPayload::PostProcess(a) => a,
        _ => {
            return Err(Error::WrongArgs());
        },
    };
    match state.get_process(args.process_id) {
        None => {
            return Err(Error::Process(ProcessError::NotFound(args.process_id)));
        },
        Some(p) => {
            if p.key.is_some() {
                return Ok(());
            }
        },
    }
    let acc_pairs = state.get_accepted_measurements(args.process_id);
    proof {
        assert(enumerates(acc_pairs@, state@.pairs, args.process_id));
    }
    let split = match split_by_basis(&acc_pairs, KEY_LENGTH, state, args.process_id) {
        Ok(sp) => sp,
        Err(e) => {
            return Err(e);
        },
    };
    let ghost keyp = split.same@;
    match run_chsh(split.diff, args.process_id) {
        Ok(()) => {},
        Err(e) => {
            return Err(e);
        },
    }
    let (src_qubits, dst_qubits) = AcceptedPair::get_qubits_vec(split.same);
    proof {
        assert forall|i: int| 0 <= i < src_qubits@.len() implies #[trigger] src_qubits@[i] <= 1 by {
            assert(0 <= keyp[i].src_measurement.value <= 1);
        }
        assert forall|i: int| 0 <= i < dst_qubits@.len() implies #[trigger] dst_qubits@[i] <= 1 by {
            assert(0 <= keyp[i].dst_measurement.value <= 1);
        }
    }
    let corrected = match cascade(src_qubits, dst_qubits) {
        Ok(c) => c,
        Err(e) => {
            return Err(Error::Sifting(e));
        },
    };
    proof {
        if src_bits(keyp).len() == 1 {
            assert(src_bits(keyp)[0] <= 1);
        }
        assert(all_bits(corrected@));
    }
    let bytes = bits_to_bytes(&corrected);
    let key = hex_encode(&bytes);
    let mut process = match state.take_process(args.process_id) {
        Some(p) => p,
        None => {
            return Err(Error::Process(ProcessError::NotFound(args.process_id)));
        },
    };
    process.key = Some(key);
    state.put_process(args.process_id, process);
    proof {
        assert(state@.processes =~= old(state)@.processes.insert(args.process_id, process));
    }
    Ok(())
}

/// The key of a process is computed once: after a post-processing that succeeded, another
/// one for the same process succeeds and changes nothing.
pub proof fn law_key_computed_once(
    payload: EventPayload,
    s0: StateView,
    s1: StateView,
    r1: Result<(), Error>,
    s2: StateView,
    r2: Result<(), Error>,
)
    requires
        post_process_outcome(payload, s0, s1, r1),
        r1 is Ok,
        post_process_outcome(payload, s1, s2, r2),
    ensures
        r2 is Ok,
        s2 == s1,
{
}

/// The pairs, in order, measured in the same basis on both sides.
pub open spec fn same_basis_pairs(acc: Seq<AcceptedPair>) -> Seq<AcceptedPair> {
    acc.filter(|a: AcceptedPair| a.src_measurement.basis == a.dst_measurement.basis)
}

/// The key is made of the first same-basis pairs: `key_pairs(acc, limit)` is the list of
/// pairs measured in the same basis on both sides, cut after `limit` of them.
pub proof fn law_key_is_the_first_same_basis_pairs(acc: Seq<AcceptedPair>, limit: int)
    requires
        limit >= 0,
    ensures
        key_pairs(acc, limit) == same_basis_pairs(acc).take(
            if same_basis_pairs(acc).len() < limit { same_basis_pairs(acc).len() as int } else { limit },
        ),
        key_pairs(acc, limit).len() == if same_basis_pairs(acc).len() < limit {
            same_basis_pairs(acc).len() as int
        } else {
            limit
        },
    decreases acc.len(),
{
    reveal(Seq::filter);
    let sp = same_basis_pairs(acc);
    if acc.len() == 0 {
        assert(sp =~= Seq::<AcceptedPair>::empty());
        assert(key_pairs(acc, limit) =~= sp.take(0));
    } else {
        let init = acc.drop_last();
        let a = acc.last();
        law_key_is_the_first_same_basis_pairs(init, limit);
        let si = same_basis_pairs(init);
        let k = key_pairs(init, limit);
        if a.src_measurement.basis == a.dst_measurement.basis {
            assert(sp == si.push(a));
            if k.len() < limit {
                assert(k =~= si);
                assert(key_pairs(acc, limit) =~= sp.take(sp.len() as int));
            } else {
                assert(key_pairs(acc, limit) =~= sp.take(limit));
            }
        } else {
            assert(sp == si);
        }
    }
}

proof fn lemma_hex_chars_len(bytes: Seq<u8>)
    ensures
        hex_chars(bytes).len() == 2 * bytes.len(),
    decreases bytes.len(),
{
    if bytes.len() > 0 {
        lemma_hex_chars_len(bytes.drop_last());
    }
}

/// A process with at least `KEY_LENGTH` pairs measured in the same basis, every pair
/// accepted and measured, no key yet and a passing CHSH test gets a key: the first
/// `KEY_LENGTH` same-basis pairs are corrected and stored as `KEY_LENGTH / 4` hexadecimal
/// digits; the bad-length error never comes in that case.
pub proof fn law_enough_matching_pairs_give_a_full_key(
    payload: EventPayload,
    s0: StateView,
    s1: StateView,
    r: Result<(), Error>,
)
    requires
        post_process_outcome(payload, s0, s1, r),
        payload matches EventPayload::PostProcess(a) && s0.processes.contains_key(a.process_id)
            && s0.processes[a.process_id].key is None && forall|s: Seq<NewEntangledPair>|
            #[trigger] enumerates(s, s0.pairs, a.process_id) ==> (all_accepted(s) matches Some(acc)
                && same_basis_pairs(acc).len() >= KEY_LENGTH && chsh_outcome(diff_basis_pairs(acc), a.process_id)
                is Ok),
    ensures
        r is Ok,
        payload matches EventPayload::PostProcess(a) && (s1.processes[a.process_id].key matches Some(k)
            && k@.len() == KEY_LENGTH / 4),
{
    let a = payload->PostProcess_0;
    let pid = a.process_id;
    let s = choose|s: Seq<NewEntangledPair>|
        #[trigger] enumerates(s, s0.pairs, pid) && match all_accepted(s) {
            None => r matches Err(Error::Pair(PairError::NotMeasured())) && s1 == s0,
            Some(acc) => {
                let keyp = key_pairs(acc, KEY_LENGTH as int);
                match chsh_outcome(diff_basis_pairs(acc), pid) {
                    Err(e) => r == Err::<(), Error>(e) && s1 == s0,
                    Ok(()) => match spec_cascade(src_bits(keyp), dst_bits(keyp)) {
                        None => r matches Err(Error::Sifting(SiftingError::BadLength)) && s1 == s0,
                        Some(bits) => {
                            &&& r is Ok
                            &&& s1 == StateView {
                                processes: s0.processes.insert(
                                    pid,
                                    crate::node::Process { key: s1.processes[pid].key, ..s0.processes[pid] },
                                ),
                                ..s0
                            }
                            &&& s1.processes[pid].key matches Some(k) && k@ == hex_chars(packed_bytes(bits))
                        },
                    },
                }
            },
        };
    let acc = all_accepted(s).unwrap();
    let keyp = key_pairs(acc, KEY_LENGTH as int);
    law_key_is_the_first_same_basis_pairs(acc, KEY_LENGTH as int);
    assert(keyp.len() == KEY_LENGTH);
    assert(src_bits(keyp).len() == KEY_LENGTH);
    assert(dst_bits(keyp).len() == KEY_LENGTH);
    assert(power_of_two(1024)) by {
        reveal_with_fuel(power_of_two, 12);
    }
    let bits = dst_bits(keyp);
    assert(spec_cascade(src_bits(keyp), dst_bits(keyp)) == Some(bits));
    assert(packed_bytes(bits).len() == 128);
    lemma_hex_chars_len(packed_bytes(bits));
}

} // verus!
