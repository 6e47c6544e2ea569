use classgroup::gmp::mpz::Mpz;
use vdf::{VDFParams, VDF};
use vstd::prelude::*;

use crate::util::text::push_decimal;
use crate::util::text::spec_decimal;

verus! {

/// The size in bits of the class group discriminant of the VDF.
pub const VDF_BITS: u16 = 1024;

/// The bytes of one half (`a` or `b`) of a serialized class group element:
/// `(VDF_BITS + 16) / 16`.
pub const SERIALIZED_HALF_BYTES: usize = 65;

/// The bytes of one serialized class group element.
pub const SERIALIZED_FORM_BYTES: usize = 130;

/// The number of squarings a block's VDF asks for.
pub const VDF_DIFFICULTY: u64 = 5295676;

/// Why a VDF could not be solved.
#[derive(Debug, Clone, Copy, PartialEq, Eq)]
pub enum VdfError {
    /// The difficulty is no valid iteration count (odd or below 66).
    InvalidIterations,
}

#[verifier::external_type_specification]
#[verifier::external_body]
pub struct ExInvalidIterations(vdf::InvalidIterations);

/// Whether a difficulty is an iteration count the Pietrzak VDF accepts.
pub open spec fn spec_valid_difficulty(difficulty: u64) -> bool {
    difficulty % 2 == 0 && difficulty >= 66
}

/// The Pietrzak VDF solution of `challenge` at `difficulty`.
pub uninterp spec fn spec_vdf_solution(challenge: Seq<u8>, difficulty: u64) -> Seq<u8>;

/// Whether the Pietrzak VDF accepts `solution` for `challenge` at `difficulty`.
pub uninterp spec fn spec_vdf_accepts(challenge: Seq<u8>, difficulty: u64, solution: Seq<u8>) -> bool;

/// The magnitude of the class group discriminant that the VDF derives from
/// a challenge (the discriminant is its negation), as big-endian bytes.
pub uninterp spec fn spec_vdf_discriminant(challenge: Seq<u8>) -> Seq<u8>;

/// The unsigned big-endian value of bytes.
pub open spec fn spec_be(s: Seq<u8>) -> nat
    decreases s.len(),
{
    if s.len() == 0 {
        0
    } else {
        (spec_be(s.drop_last()) * 256 + s.last()) as nat
    }
}

/// A one followed by `SERIALIZED_HALF_BYTES` zero bytes: the modulus of two's
/// complement at the width of a serialized half.
pub open spec fn spec_twos_modulus_bytes() -> Seq<u8> {
    seq![1u8] + Seq::new(SERIALIZED_HALF_BYTES as nat, |i: int| 0u8)
}

/// The two's complement big-endian value of bytes of the serialized width.
pub open spec fn spec_twos(s: Seq<u8>) -> int {
    if s.len() > 0 && s[0] >= 128 {
        spec_be(s) - spec_be(spec_twos_modulus_bytes())
    } else {
        spec_be(s) as int
    }
}

/// Whether the halves `a` and `b` of a serialized element make a form of
/// the discriminant of magnitude `n`: `a` is positive and `4a` divides
/// `b² + n`, so that `c = (b² + n) / 4a` is a whole number.
pub open spec fn spec_form_ok(a: Seq<u8>, b: Seq<u8>, n: int) -> bool {
    &&& spec_twos(a) > 0
    &&& (spec_twos(b) * spec_twos(b) + n) % (4 * spec_twos(a)) == 0
}

/// The `k`-th serialized element of a solution.
pub open spec fn spec_element(solution: Seq<u8>, k: int) -> Seq<u8> {
    solution.subrange(k * SERIALIZED_FORM_BYTES, k * SERIALIZED_FORM_BYTES + SERIALIZED_FORM_BYTES)
}

/// Whether a VDF solution is one the class group code can read: when its
/// length is a whole number (at least one) of serialized elements, each of
/// them (the result, then the proof) is a form of the challenge's
/// discriminant. Solutions of another length are refused by the VDF before
/// any element is read.
pub open spec fn spec_vdf_solution_well_formed(challenge: Seq<u8>, solution: Seq<u8>) -> bool {
    solution.len() >= SERIALIZED_FORM_BYTES && solution.len() % (SERIALIZED_FORM_BYTES as nat) == 0 ==> forall|k: int|
        0 <= k < solution.len() / (SERIALIZED_FORM_BYTES as nat) ==> spec_form_ok(
            #[trigger] spec_element(solution, k).subrange(0, SERIALIZED_HALF_BYTES as int),
            spec_element(solution, k).subrange(SERIALIZED_HALF_BYTES as int, SERIALIZED_FORM_BYTES as int),
            spec_be(spec_vdf_discriminant(challenge)) as int,
        )
}

/// Whether a solution verifies: it is well formed and the VDF accepts it.
pub open spec fn spec_vdf_verifies(challenge: Seq<u8>, difficulty: u64, solution: Seq<u8>) -> bool {
    spec_vdf_solution_well_formed(challenge, solution) && spec_vdf_accepts(challenge, difficulty, solution)
}

/// Calls `PietrzakVDF::solve` with a 1024-bit discriminant. Claimed, from
/// the source (`Iterations::new`) and the trait's documentation: it fails
/// exactly for odd counts and counts below 66; its output is deterministic,
/// is the solution that `verify` accepts, and consists of serialized forms
/// of the challenge's discriminant (the class group code writes reduced
/// forms, whose `c` is a whole number).
#[verifier::external_body]
pub(crate) fn pietrzak_solve(challenge: &[u8], difficulty: u64) -> (res: Result<Vec<u8>, vdf::InvalidIterations>)
    ensures
        res is Ok <==> spec_valid_difficulty(difficulty),
        res matches Ok(s) ==> s@ == spec_vdf_solution(challenge@, difficulty)
            && spec_vdf_accepts(challenge@, difficulty, s@)
            && spec_vdf_solution_well_formed(challenge@, s@),
{
    vdf::PietrzakVDFParams(VDF_BITS).new().solve(challenge, difficulty)
}

/// Calls `PietrzakVDF::verify` with a 1024-bit discriminant. The verdict is
/// named by its arguments; claimed, from the source, that no solution is
/// accepted at an invalid difficulty. The solution must be well formed:
/// `check_proof_of_time_pietrzak` reads each serialized element with
/// `GmpClassGroup::from_bytes`, which divides by `4a` (and panics when `a`
/// is zero), and the class group operations that follow assume forms of
/// the discriminant; on such forms they do not fail.
#[verifier::external_body]
pub(crate) fn pietrzak_verify(challenge: &[u8], difficulty: u64, solution: &[u8]) -> (res: bool)
    requires
        spec_vdf_solution_well_formed(challenge@, solution@),
    ensures
        res == spec_vdf_accepts(challenge@, difficulty, solution@),
        res ==> spec_valid_difficulty(difficulty),
{
    vdf::PietrzakVDFParams(VDF_BITS).new().verify(challenge, difficulty, solution).is_ok()
}

/// Calls `vdf::create_discriminant` with the VDF's size and gives the
/// magnitude of the discriminant (`Vec<u8>::from(&Mpz)` drops the sign). The
/// discriminant is a function of the challenge alone.
#[verifier::external_body]
fn vdf_discriminant(challenge: &[u8]) -> (res: Vec<u8>)
    ensures
        res@ == spec_vdf_discriminant(challenge@),
{
    Vec::<u8>::from(&vdf::create_discriminant::<Mpz>(challenge, VDF_BITS))
}

/// Calls GMP's multiplication on two unsigned big-endian numbers.
#[verifier::external_body]
fn big_mul(x: &[u8], y: &[u8]) -> (res: Vec<u8>)
    ensures
        spec_be(res@) == spec_be(x@) * spec_be(y@),
{
    Vec::<u8>::from(&(Mpz::from(x) * Mpz::from(y)))
}

/// Calls GMP's addition on two unsigned big-endian numbers.
#[verifier::external_body]
fn big_add(x: &[u8], y: &[u8]) -> (res: Vec<u8>)
    ensures
        spec_be(res@) == spec_be(x@) + spec_be(y@),
{
    Vec::<u8>::from(&(Mpz::from(x) + Mpz::from(y)))
}

/// Calls GMP's subtraction on two unsigned big-endian numbers; the bytes
/// of the result are those of its magnitude (`Vec<u8>::from(&Mpz)` drops
/// the sign).
#[verifier::external_body]
fn big_gap(x: &[u8], y: &[u8]) -> (res: Vec<u8>)
    ensures
        spec_be(res@) == if spec_be(x@) >= spec_be(y@) {
            spec_be(x@) - spec_be(y@)
        } else {
            spec_be(y@) - spec_be(x@)
        },
{
    Vec::<u8>::from(&(Mpz::from(x) - Mpz::from(y)))
}

/// Calls GMP's `mod_floor` on two unsigned big-endian numbers; the divisor
/// must not be zero (`mod_floor` panics on it).
#[verifier::external_body]
fn big_rem(x: &[u8], y: &[u8]) -> (res: Vec<u8>)
    requires
        spec_be(y@) > 0,
    ensures
        spec_be(res@) == spec_be(x@) % spec_be(y@),
{
    Vec::<u8>::from(&Mpz::from(x).mod_floor(&Mpz::from(y)))
}

proof fn lemma_be_zero(s: Seq<u8>)
    ensures
        spec_be(s) == 0 <==> forall|i: int| 0 <= i < s.len() ==> s[i] == 0,
    decreases s.len(),
{
    if s.len() > 0 {
        lemma_be_zero(s.drop_last());
        if spec_be(s) == 0 {
            assert forall|i: int| 0 <= i < s.len() implies s[i] == 0 by {
                if i < s.len() - 1 {
                    assert(s.drop_last()[i] == s[i]);
                }
            }
        }
        if forall|i: int| 0 <= i < s.len() ==> s[i] == 0 {
            assert forall|i: int| 0 <= i < s.drop_last().len() implies s.drop_last()[i] == 0 by {
                assert(s.drop_last()[i] == s[i]);
            }
            assert(s[s.len() - 1] == 0);
        }
    }
}

proof fn lemma_be_below_modulus(s: Seq<u8>)
    ensures
        spec_be(s) < spec_be(seq![1u8] + Seq::new(s.len(), |i: int| 0u8)),
    decreases s.len(),
{
    let p = seq![1u8] + Seq::new(s.len(), |i: int| 0u8);
    if s.len() == 0 {
        assert(p.drop_last() =~= Seq::<u8>::empty());
    } else {
        lemma_be_below_modulus(s.drop_last());
        let q = seq![1u8] + Seq::new(s.drop_last().len(), |i: int| 0u8);
        assert(p.drop_last() =~= q);
        assert(p.last() == 0u8);
    }
}

/// Whether all bytes are zero, that is, the number is zero.
fn is_zero_number(v: &[u8]) -> (res: bool)
    ensures
        res == (spec_be(v@) == 0),
{
    proof {
        lemma_be_zero(v@);
    }
    let mut i: usize = 0;
    while i < v.len()
        invariant
            i <= v@.len(),
            forall|j: int| 0 <= j < i ==> v@[j] == 0,
        decreases v@.len() - i,
    {
        if v[i] != 0 {
            proof {
                lemma_be_zero(v@);
            }
            assert(v@[i as int] != 0);
            return false;
        }
        i = i + 1;
    }
    true
}

/// Copies of the bytes from `start` up to `end`.
fn copy_range(s: &[u8], start: usize, end: usize) -> (res: Vec<u8>)
    requires
        start <= end <= s@.len(),
    ensures
        res@ == s@.subrange(start as int, end as int),
{
    let mut res: Vec<u8> = Vec::new();
    let mut i: usize = start;
    while i < end
        invariant
            start <= i <= end <= s@.len(),
            res@ == s@.subrange(start as int, i as int),
        decreases end - i,
    {
        res.push(s[i]);
        i = i + 1;
        assert(res@ =~= s@.subrange(start as int, i as int));
    }
    res
}

/// The two's complement modulus at the serialized width, as bytes.
fn twos_modulus_bytes() -> (res: Vec<u8>)
    ensures
        res@ == spec_twos_modulus_bytes(),
{
    let mut res: Vec<u8> = vec![1u8];
    let mut i: usize = 0;
    while i < SERIALIZED_HALF_BYTES
        invariant
            i <= SERIALIZED_HALF_BYTES,
            res@ == seq![1u8] + Seq::new(i as nat, |j: int| 0u8),
        decreases SERIALIZED_HALF_BYTES - i,
    {
        res.push(0u8);
        i = i + 1;
        assert(res@ =~= seq![1u8] + Seq::new(i as nat, |j: int| 0u8));
    }
    res
}

/// Whether the halves `a` and `b` make a form of the discriminant whose
/// magnitude is given as bytes.
fn form_ok(a: &[u8], b: &[u8], n: &[u8]) -> (res: bool)
    requires
        a@.len() == SERIALIZED_HALF_BYTES,
        b@.len() == SERIALIZED_HALF_BYTES,
    ensures
        res == spec_form_ok(a@, b@, spec_be(n@) as int),
{
    proof {
        lemma_be_below_modulus(a@);
        lemma_be_below_modulus(b@);
    }
    let m = twos_modulus_bytes();
    if a[0] >= 128 || is_zero_number(a) {
        return false;
    }
    assert(spec_twos(a@) == spec_be(a@) as int);
    let b_abs = if b[0] >= 128 {
        big_gap(m.as_slice(), b)
    } else {
        copy_range(b, 0, b.len())
    };
    assert(b@.subrange(0, b@.len() as int) =~= b@);
    let ghost t = spec_twos(b@);
    assert(spec_be(b_abs@) == if t >= 0 { t } else { -t });
    let b_sq = big_mul(b_abs.as_slice(), b_abs.as_slice());
    assert(spec_be(b_sq@) == t * t) by (nonlinear_arith)
        requires
            spec_be(b_sq@) == spec_be(b_abs@) * spec_be(b_abs@),
            spec_be(b_abs@) == if t >= 0 { t } else { -t },
    ;
    let num = big_add(b_sq.as_slice(), n);
    let four: Vec<u8> = vec![4u8];
    assert(spec_be(four@) == 4) by {
        assert(four@.drop_last() =~= Seq::<u8>::empty());
        assert(spec_be(Seq::<u8>::empty()) == 0);
        assert(four@.last() == 4u8);
    }
    assert(spec_be(a@) > 0);
    let four_a = big_mul(a, four.as_slice());
    assert(spec_be(four_a@) > 0) by (nonlinear_arith)
        requires
            spec_be(four_a@) == spec_be(a@) * 4,
            spec_be(a@) > 0,
    ;
    let rem = big_rem(num.as_slice(), four_a.as_slice());
    is_zero_number(rem.as_slice())
}

/// Whether a VDF solution is well formed for the challenge.
pub fn solution_well_formed(challenge: &[u8], solution: &[u8]) -> (res: bool)
    ensures
        res == spec_vdf_solution_well_formed(challenge@, solution@),
{
    let len = solution.len();
    if len < SERIALIZED_FORM_BYTES || len % SERIALIZED_FORM_BYTES != 0 {
        return true;
    }
    let n = vdf_discriminant(challenge);
    let count = len / SERIALIZED_FORM_BYTES;
    let mut k: usize = 0;
    while k < count
        invariant
            len == solution@.len(),
            count == len / SERIALIZED_FORM_BYTES,
            len % SERIALIZED_FORM_BYTES == 0,
            k <= count,
            n@ == spec_vdf_discriminant(challenge@),
            forall|j: int|
                0 <= j < k ==> spec_form_ok(
                    #[trigger] spec_element(solution@, j).subrange(0, SERIALIZED_HALF_BYTES as int),
                    spec_element(solution@, j).subrange(SERIALIZED_HALF_BYTES as int, SERIALIZED_FORM_BYTES as int),
                    spec_be(n@) as int,
                ),
        decreases count - k,
    {
        assert(k * SERIALIZED_FORM_BYTES + SERIALIZED_FORM_BYTES <= len) by (nonlinear_arith)
            requires
                k < count,
                count == len / SERIALIZED_FORM_BYTES,
                len % SERIALIZED_FORM_BYTES == 0,
                SERIALIZED_FORM_BYTES > 0,
        ;
        let start = k * SERIALIZED_FORM_BYTES;
        let a = copy_range(solution, start, start + SERIALIZED_HALF_BYTES);
        let b = copy_range(solution, start + SERIALIZED_HALF_BYTES, start + SERIALIZED_FORM_BYTES);
        let ghost e = spec_element(solution@, k as int);
        assert(a@ =~= e.subrange(0, SERIALIZED_HALF_BYTES as int));
        assert(b@ =~= e.subrange(SERIALIZED_HALF_BYTES as int, SERIALIZED_FORM_BYTES as int));
        if !form_ok(a.as_slice(), b.as_slice(), n.as_slice()) {
            return false;
        }
        k = k + 1;
    }
    true
}

/// Whether `solution` solves the VDF of `challenge` at the node's
/// difficulty: a solution that is not well formed is refused before the
/// VDF reads it.
pub fn verify_solution(challenge: &[u8], solution: &[u8]) -> (res: bool)
    ensures
        res == spec_vdf_verifies(challenge@, VDF_DIFFICULTY, solution@),
{
    if !solution_well_formed(challenge, solution) {
        return false;
    }
    pietrzak_verify(challenge, VDF_DIFFICULTY, solution)
}

/// Solves the VDF of `challenge` at the node's difficulty. The difficulty is
/// valid, so this always succeeds, and the solution verifies.
pub fn solve(challenge: &[u8]) -> (res: Result<Vec<u8>, VdfError>)
    ensures
        res is Ok,
        res matches Ok(s) ==> s@ == spec_vdf_solution(challenge@, VDF_DIFFICULTY)
            && spec_vdf_verifies(challenge@, VDF_DIFFICULTY, s@),
{
    match pietrzak_solve(challenge, VDF_DIFFICULTY) {
        Ok(s) => Ok(s),
        Err(_) => Err(VdfError::InvalidIterations),
    }
}

/// The decimal forms of the bytes, one after another.
pub open spec fn spec_solution_text(solution: Seq<u8>) -> Seq<char>
    decreases solution.len(),
{
    if solution.len() == 0 {
        Seq::empty()
    } else {
        spec_solution_text(solution.drop_last()) + spec_decimal(solution.last() as nat)
    }
}

/// Writes a solution as the decimal forms of its bytes, one after another.
pub fn solution_to_string(solution: &[u8]) -> (res: String)
    ensures
        res@ == spec_solution_text(solution@),
{
    let mut s = String::new();
    let mut i: usize = 0;
    while i < solution.len()
        invariant
            i <= solution@.len(),
            s@ == spec_solution_text(solution@.take(i as int)),
        decreases solution@.len() - i,
    {
        push_decimal(&mut s, solution[i] as u64);
        proof {
            assert(solution@.take(i + 1).drop_last() =~= solution@.take(i as int));
        }
        i = i + 1;
    }
    assert(solution@.take(i as int) =~= solution@);
    s
}

} // verus!
