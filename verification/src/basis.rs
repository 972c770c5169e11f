//! Measurement bases and the side of a pair that a client sits on.
use vstd::prelude::*;
use vstd::std_specs::convert::FromSpecImpl;

verus! {

/// Which end of an entangled pair a node receives.
#[derive(Debug, Clone, Copy, PartialEq, Eq, Structural)]
pub enum Side {
    Source,
    Destination,
}

impl Side {
    pub open spec fn other(self) -> Side {
        match self {
            Side::Source => Side::Destination,
            Side::Destination => Side::Source,
        }
    }

    /// The other end of the pair.
    pub fn opposite(self) -> (r: Side)
        ensures
            r == self.other(),
    {
        match self {
            Side::Source => Side::Destination,
            Side::Destination => Side::Source,
        }
    }
}

/// Polarisation bases used by the clients.
#[derive(Debug, Clone, Copy, PartialEq, Eq, Structural)]
pub enum Basis {
    Deg0,
    DegNeg22_5,
    Deg22_5,
    Deg45,
    Deg90,
}

/// The angle of a basis in tenths of a degree.
pub open spec fn angle_tenths(b: Basis) -> int {
    match b {
        Basis::Deg0 => 0,
        Basis::DegNeg22_5 => -225,
        Basis::Deg22_5 => 225,
        Basis::Deg45 => 450,
        Basis::Deg90 => 900,
    }
}

/// The integer code under which a basis is stored.
pub open spec fn basis_code(b: Basis) -> int {
    match b {
        Basis::Deg0 => 1,
        Basis::DegNeg22_5 => 2,
        Basis::Deg22_5 => 3,
        Basis::Deg45 => 4,
        Basis::Deg90 => 5,
    }
}

/// The basis stored under a code, if any.
pub open spec fn basis_of_code(v: int) -> Option<Basis> {
    if v == 1 {
        Some(Basis::Deg0)
    } else if v == 2 {
        Some(Basis::DegNeg22_5)
    } else if v == 3 {
        Some(Basis::Deg22_5)
    } else if v == 4 {
        Some(Basis::Deg45)
    } else if v == 5 {
        Some(Basis::Deg90)
    } else {
        None
    }
}

/// The smallest angle between two bases, in tenths of a degree, folded into [0, 1800].
pub open spec fn spec_basis_difference(a: Basis, b: Basis) -> int {
    let d = if angle_tenths(a) > angle_tenths(b) {
        angle_tenths(a) - angle_tenths(b)
    } else {
        angle_tenths(b) - angle_tenths(a)
    };
    if d > 1800 {
        3600 - d
    } else {
        d
    }
}

/// The bases a source-side client chooses from, in order.
pub open spec fn source_bases() -> Seq<Basis> {
    seq![Basis::Deg0, Basis::Deg45, Basis::Deg90]
}

/// The bases a destination-side client chooses from, in order.
pub open spec fn destination_bases() -> Seq<Basis> {
    seq![Basis::DegNeg22_5, Basis::Deg22_5, Basis::Deg45]
}

pub open spec fn bases_of(side: Side) -> Seq<Basis> {
    match side {
        Side::Source => source_bases(),
        Side::Destination => destination_bases(),
    }
}

/// A draw from the thread-local generator of `rand`.
///
/// Calls `rand::random_range(low..high)`; the crate documents that the value lies in
/// the half-open range. Which value comes out is left to chance, so nothing more is stated.
#[verifier::external_body]
pub(crate) fn random_below(low: usize, high: usize) -> (r: usize)
    requires
        low < high,
    ensures
        low <= r < high,
{
    rand::random_range(low..high)
}

/// `k` is a value that the draw `random_below(low, high)` can give.
pub closed spec fn drawn_below(low: usize, high: usize, k: usize) -> bool {
    call_ensures(random_below, (low, high), k)
}

/// A value that `random_below(low, high)` gives lies in the range it was asked for.
pub proof fn lemma_drawn_below_range(low: usize, high: usize, k: usize)
    requires
        drawn_below(low, high, k),
    ensures
        low <= k < high,
{
}

/// A call of `random_below` gives one of its possible values.
pub(crate) proof fn lemma_drawn(low: usize, high: usize, k: usize)
    requires
        call_ensures(random_below, (low, high), k),
    ensures
        drawn_below(low, high, k),
{
}

/// `r` is the basis of the side at the index that a draw from 0..3 gave.
pub open spec fn basis_drawn(side: Side, r: Basis) -> bool {
    exists|k: usize| #[trigger] drawn_below(0, 3, k) && r == bases_of(side)[k as int]
}

/// A fair coin from the thread-local generator of `rand` (`rand::random::<bool>()`).
/// Its value is left to chance: nothing is stated of it.
#[verifier::external_body]
pub(crate) fn random_flag() -> (r: bool) {
    rand::random::<bool>()
}

/// Formats the message of a rejected basis code (`format!` of std): the fixed text
/// followed by the code in decimal, as `Display` writes an integer.
#[verifier::external_body]
pub(crate) fn unknown_basis_message(v: i32) -> (s: String)
    ensures
        s@ == unknown_basis_text(v as int),
{
    format!("Unknown Basis value: {}", v)
}

/// The character of a decimal digit.
pub open spec fn digit_char(d: nat) -> char {
    ('0' as int + d) as char
}

/// The decimal digits of `n`, most significant first, with no leading zero.
pub open spec fn decimal_digits(n: nat) -> Seq<char>
    decreases n,
{
    if n < 10 {
        seq![digit_char(n)]
    } else {
        decimal_digits(n / 10).push(digit_char(n % 10))
    }
}

/// An integer in decimal, with a minus sign when it is negative.
pub open spec fn decimal(v: int) -> Seq<char> {
    if v < 0 {
        seq!['-'] + decimal_digits((-v) as nat)
    } else {
        decimal_digits(v as nat)
    }
}

/// The message of a rejected basis code.
pub open spec fn unknown_basis_text(v: int) -> Seq<char> {
    "Unknown Basis value: "@ + decimal(v)
}

impl Basis {
    /// The angle of the basis in tenths of a degree.
    pub fn angle_tenths_deg(&self) -> (r: i32)
        ensures
            r == angle_tenths(*self),
    {
        match self {
            Basis::Deg0 => 0,
            Basis::DegNeg22_5 => -225,
            Basis::Deg22_5 => 225,
            Basis::Deg45 => 450,
            Basis::Deg90 => 900,
        }
    }

    /// The bases available to the source side.
    pub fn src_bases() -> (r: [Basis; 3])
        ensures
            r@ == source_bases(),
    {
        [Basis::Deg0, Basis::Deg45, Basis::Deg90]
    }

    /// The bases available to the destination side.
    pub fn dst_bases() -> (r: [Basis; 3])
        ensures
            r@ == destination_bases(),
    {
        [Basis::DegNeg22_5, Basis::Deg22_5, Basis::Deg45]
    }

    /// Picks a basis at random among those of the given side.
    pub fn get_random_basis(side: Side) -> (r: Basis)
        ensures
            bases_of(side).contains(r),
            basis_drawn(side, r),
    {
        let random_number = random_below(0, 3);
        let chosen = Self::pick_basis(side, random_number);
        proof {
            assert(drawn_below(0, 3, random_number));
        }
        chosen
    }

    /// The basis at position `index` of the side's list.
    pub fn pick_basis(side: Side, index: usize) -> (r: Basis)
        requires
            index < 3,
        ensures
            r == bases_of(side)[index as int],
    {
        let table = match side {
            Side::Source => Basis::src_bases(),
            Side::Destination => Basis::dst_bases(),
        };
        table[index]
    }

    /// Decodes a stored basis code.
    pub fn try_from(value: i32) -> (r: Result<Basis, String>)
        ensures
            match basis_of_code(value as int) {
                Some(b) => r == Ok::<Basis, String>(b),
                None => r matches Err(msg) && msg@ == unknown_basis_text(value as int),
            },
    {
        match value {
            1 => Ok(Basis::Deg0),
            2 => Ok(Basis::DegNeg22_5),
            3 => Ok(Basis::Deg22_5),
            4 => Ok(Basis::Deg45),
            5 => Ok(Basis::Deg90),
            v => Err(unknown_basis_message(v)),
        }
    }

    /// The code under which the basis is stored.
    pub fn code(self) -> (r: i32)
        ensures
            r == basis_code(self),
    {
        match self {
            Basis::Deg0 => 1,
            Basis::DegNeg22_5 => 2,
            Basis::Deg22_5 => 3,
            Basis::Deg45 => 4,
            Basis::Deg90 => 5,
        }
    }
}

impl From<Basis> for i32 {
    fn from(b: Basis) -> (r: i32) {
        b.code()
    }
}

impl FromSpecImpl<Basis> for i32 {
    open spec fn obeys_from_spec() -> bool {
        true
    }

    open spec fn from_spec(b: Basis) -> i32 {
        basis_code(b) as i32
    }
}

/// The smallest angle between two bases, in tenths of a degree.
pub fn basis_difference_tenths(basis_a: Basis, basis_b: Basis) -> (r: i32)
    ensures
        r == spec_basis_difference(basis_a, basis_b),
        0 <= r <= 1800,
{
    let a = basis_a.angle_tenths_deg();
    let b = basis_b.angle_tenths_deg();
    let difference: i32 = if a > b {
        a - b
    } else {
        b - a
    };
    if difference > 1800 {
        return 3600 - difference;
    }
    difference
}

/// Decoding a code gives back the basis that was encoded.
pub proof fn law_basis_code_round_trip(b: Basis)
    ensures
        basis_of_code(basis_code(b)) == Some(b),
{
}

/// The angle between two bases does not depend on their order, is zero between a basis
/// and itself, and never exceeds half a circle.
pub proof fn law_basis_difference_symmetric(a: Basis, b: Basis)
    ensures
        spec_basis_difference(a, b) == spec_basis_difference(b, a),
        spec_basis_difference(a, a) == 0,
        0 <= spec_basis_difference(a, b) <= 1800,
{
}

/// Distinct bases lie at distinct angles, and the angles are steps of 22.5 degrees.
pub proof fn law_distinct_bases_have_an_angle(a: Basis, b: Basis)
    ensures
        spec_basis_difference(a, b) == 0 <==> a == b,
        spec_basis_difference(a, b) % 225 == 0,
{
}

/// The geometry of the CHSH test: of the source bases 0 and 45 degrees and the destination
/// bases 22.5 and -22.5 degrees, every pairing is 22.5 degrees apart except 45 against
/// -22.5, which is 67.5 degrees apart.
pub proof fn law_chsh_bases_geometry(a: Basis, b: Basis)
    requires
        a == Basis::Deg0 || a == Basis::Deg45,
        b == Basis::Deg22_5 || b == Basis::DegNeg22_5,
    ensures
        spec_basis_difference(a, b) == if a == Basis::Deg45 && b == Basis::DegNeg22_5 {
            675int
        } else {
            225int
        },
{
}

/// The basis drawn for a side follows the draw: each value `k` that the draw from 0..3 can
/// give selects the side's basis at position `k`, and each of the side's three bases sits
/// at one of those positions, so any of them can be chosen.
pub proof fn law_random_basis_follows_the_draw(side: Side, k: usize, b: Basis)
    ensures
        drawn_below(0, 3, k) ==> k < 3 && basis_drawn(side, bases_of(side)[k as int]),
        bases_of(side).contains(b) ==> exists|j: int| 0 <= j < 3 && bases_of(side)[j] == b,
        bases_of(side).len() == 3,
        bases_of(side)[0] != bases_of(side)[1] && bases_of(side)[1] != bases_of(side)[2]
            && bases_of(side)[0] != bases_of(side)[2],
{
}

} // verus!
