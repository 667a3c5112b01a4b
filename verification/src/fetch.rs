//! The artifact fetcher's logic: content verification, the bounded retry
//! discipline, and the atomic-publish file plan.
//!
//! The binary performs the actual HTTP transfer and file writes; this module
//! decides what holds of them: when a downloaded body verifies against its
//! expected digest, how many attempts a fetch makes, and which file
//! operations publish a download without ever exposing a corrupt final path.

use vstd::prelude::*;
use crate::strutil::str_eq;

verus! {

// ------------------------------------------------------------------
// Content verification.
// ------------------------------------------------------------------

/// The SHA-256 digest of a byte sequence; a function of the bytes alone.
pub uninterp spec fn sha256_of(data: Seq<u8>) -> Seq<u8>;

/// Relies on sha2's `Sha256`: the digest is a function of the input bytes
/// alone and is 32 bytes long.
#[verifier::external_body]
fn sha256_digest(data: &[u8]) -> (r: Vec<u8>)
    ensures
        r@ == sha256_of(data@),
        r@.len() == 32,
{
    <sha2::Sha256 as sha2::Digest>::digest(data).to_vec()
}

/// The lowercase hexadecimal digit for a value below 16.
pub open spec fn spec_hex_digit(n: int) -> Seq<char> {
    if n == 0 {
        "0"@
    } else if n == 1 {
        "1"@
    } else if n == 2 {
        "2"@
    } else if n == 3 {
        "3"@
    } else if n == 4 {
        "4"@
    } else if n == 5 {
        "5"@
    } else if n == 6 {
        "6"@
    } else if n == 7 {
        "7"@
    } else if n == 8 {
        "8"@
    } else if n == 9 {
        "9"@
    } else if n == 10 {
        "a"@
    } else if n == 11 {
        "b"@
    } else if n == 12 {
        "c"@
    } else if n == 13 {
        "d"@
    } else if n == 14 {
        "e"@
    } else {
        "f"@
    }
}

/// Lowercase hexadecimal encoding, two digits per byte.
pub open spec fn spec_hex(bs: Seq<u8>) -> Seq<char>
    decreases bs.len(),
{
    if bs.len() == 0 {
        Seq::<char>::empty()
    } else {
        spec_hex_digit(bs[0] as int / 16) + spec_hex_digit(bs[0] as int % 16) + spec_hex(
            bs.skip(1),
        )
    }
}

fn hex_digit_str(n: u8) -> (r: &'static str)
    requires
        n < 16,
    ensures
        r@ == spec_hex_digit(n as int),
{
    match n {
        0 => "0",
        1 => "1",
        2 => "2",
        3 => "3",
        4 => "4",
        5 => "5",
        6 => "6",
        7 => "7",
        8 => "8",
        9 => "9",
        10 => "a",
        11 => "b",
        12 => "c",
        13 => "d",
        14 => "e",
        _ => "f",
    }
}

/// Lowercase hexadecimal encoding of a byte string.
pub fn hex_of(data: &Vec<u8>) -> (r: String)
    ensures
        r@ == spec_hex(data@),
{
    let ghost bv = data@;
    let mut s = String::new();
    proof {
        assert(bv.skip(0) =~= bv);
        assert(s@ =~= Seq::<char>::empty());
    }
    let mut i: usize = 0;
    while i < data.len()
        invariant
            i <= bv.len(),
            bv == data@,
            spec_hex(bv) == s@ + spec_hex(bv.skip(i as int)),
        decreases bv.len() - i,
    {
        proof {
            assert(bv.skip(i as int)[0] == bv[i as int]);
            assert(bv.skip(i as int).skip(1) =~= bv.skip(i as int + 1));
        }
        let b = data[i];
        s.append(hex_digit_str(b / 16));
        s.append(hex_digit_str(b % 16));
        proof {
            assert(spec_hex(bv) =~= s@ + spec_hex(bv.skip(i as int + 1)));
        }
        i += 1;
    }
    proof {
        assert(bv.skip(bv.len() as int) =~= Seq::<u8>::empty());
        assert(s@ =~= spec_hex(bv));
    }
    s
}

/// Whether a downloaded body verifies against an expected hex digest.
pub fn hash_matches(data: &[u8], expected: &str) -> (r: bool)
    ensures
        r == (spec_hex(sha256_of(data@)) == expected@),
{
    let digest = sha256_digest(data);
    let hex = hex_of(&digest);
    str_eq(hex.as_str(), expected)
}

/// Whether a body passes verification: a missing expected digest disables
/// verification, as the manifest allows.
pub fn verify_body(data: &[u8], expected: Option<&str>) -> (r: bool)
    ensures
        match expected {
            Some(h) => r == (spec_hex(sha256_of(data@)) == h@),
            None => r == true,
        },
{
    match expected {
        Some(h) => hash_matches(data, h),
        None => true,
    }
}

// ------------------------------------------------------------------
// The retry discipline.
// ------------------------------------------------------------------

/// What one fetch attempt came to.
#[derive(Clone, Copy, Debug, PartialEq, Eq, Structural)]
pub enum AttemptOutcome {
    /// Transfer succeeded and, when requested, verification passed.
    Success,
    /// The transport failed.
    TransportError,
    /// The server answered with a non-success status.
    BadStatus,
    /// The body did not verify against the expected digest.
    HashMismatch,
}

/// How many attempts a fetch with the given per-attempt outcomes and retry
/// budget performs: it stops at the first success or when the budget is
/// exhausted.
pub open spec fn spec_attempts(outcomes: Seq<AttemptOutcome>, retries: nat) -> nat
    decreases retries,
{
    if retries == 0 || outcomes.len() == 0 {
        0
    } else if outcomes[0] == AttemptOutcome::Success {
        1
    } else {
        1 + spec_attempts(outcomes.skip(1), (retries - 1) as nat)
    }
}

/// Whether such a fetch ends in success.
pub open spec fn spec_fetch_ok(outcomes: Seq<AttemptOutcome>, retries: nat) -> bool
    decreases retries,
{
    if retries == 0 || outcomes.len() == 0 {
        false
    } else if outcomes[0] == AttemptOutcome::Success {
        true
    } else {
        spec_fetch_ok(outcomes.skip(1), (retries - 1) as nat)
    }
}

/// A fetch whose attempts all fail performs exactly its retry budget of
/// attempts — no more, no fewer — and is reported failed.
pub proof fn lemma_retry_bound(outcomes: Seq<AttemptOutcome>, retries: nat)
    requires
        outcomes.len() >= retries,
        forall|i: int| 0 <= i < outcomes.len() ==> outcomes[i] != AttemptOutcome::Success,
    ensures
        spec_attempts(outcomes, retries) == retries,
        !spec_fetch_ok(outcomes, retries),
    decreases retries,
{
    if retries > 0 {
        assert(outcomes[0] != AttemptOutcome::Success);
        assert forall|i: int| 0 <= i < outcomes.skip(1).len() implies outcomes.skip(1)[i]
            != AttemptOutcome::Success by {
            assert(outcomes.skip(1)[i] == outcomes[i + 1]);
        }
        lemma_retry_bound(outcomes.skip(1), (retries - 1) as nat);
    }
}

/// Replay a fetch against a given sequence of per-attempt outcomes: how
/// many attempts run, and whether the fetch succeeds.
pub fn run_fetch_attempts(outcomes: &Vec<AttemptOutcome>, retries: usize) -> (r: (usize, bool))
    ensures
        r.0 as nat == spec_attempts(outcomes@, retries as nat),
        r.1 == spec_fetch_ok(outcomes@, retries as nat),
        r.0 <= retries,
{
    proof {
        assert(outcomes@.skip(0) =~= outcomes@);
    }
    run_fetch_from(outcomes, retries, 0)
}

fn run_fetch_from(outcomes: &Vec<AttemptOutcome>, rem: usize, i: usize) -> (r: (usize, bool))
    requires
        i <= outcomes@.len(),
    ensures
        r.0 as nat == spec_attempts(outcomes@.skip(i as int), rem as nat),
        r.1 == spec_fetch_ok(outcomes@.skip(i as int), rem as nat),
        r.0 <= rem,
    decreases rem,
{
    if rem == 0 || i == outcomes.len() {
        (0, false)
    } else {
        proof {
            assert(outcomes@.skip(i as int)[0] == outcomes@[i as int]);
            assert(outcomes@.skip(i as int).skip(1) =~= outcomes@.skip(i as int + 1));
        }
        if matches!(outcomes[i], AttemptOutcome::Success) {
            (1, true)
        } else {
            let (a, ok) = run_fetch_from(outcomes, rem - 1, i + 1);
            (a + 1, ok)
        }
    }
}

/// Classify one attempt from what the transport reported.
pub fn classify_attempt(transport_ok: bool, status_ok: bool, body_ok: bool) -> (r: AttemptOutcome)
    ensures
        !transport_ok ==> r == AttemptOutcome::TransportError,
        transport_ok && !status_ok ==> r == AttemptOutcome::BadStatus,
        transport_ok && status_ok && !body_ok ==> r == AttemptOutcome::HashMismatch,
        transport_ok && status_ok && body_ok ==> r == AttemptOutcome::Success,
{
    if !transport_ok {
        AttemptOutcome::TransportError
    } else if !status_ok {
        AttemptOutcome::BadStatus
    } else if !body_ok {
        AttemptOutcome::HashMismatch
    } else {
        AttemptOutcome::Success
    }
}

// ------------------------------------------------------------------
// Atomic publish.
// ------------------------------------------------------------------

/// A filesystem step of the publish discipline, over an abstract disk
/// mapping paths to contents.
pub enum DiskOp {
    WriteFile(Seq<char>, Seq<u8>),
    Rename(Seq<char>, Seq<char>),
    Remove(Seq<char>),
}

pub open spec fn apply_op(d: Map<Seq<char>, Seq<u8>>, op: DiskOp) -> Map<Seq<char>, Seq<u8>> {
    match op {
        DiskOp::WriteFile(p, data) => d.insert(p, data),
        DiskOp::Rename(from, to) => {
            if d.contains_key(from) {
                d.remove(from).insert(to, d[from])
            } else {
                d
            }
        },
        DiskOp::Remove(p) => d.remove(p),
    }
}

pub open spec fn apply_ops(d: Map<Seq<char>, Seq<u8>>, ops: Seq<DiskOp>) -> Map<
    Seq<char>,
    Seq<u8>,
>
    decreases ops.len(),
{
    if ops.len() == 0 {
        d
    } else {
        apply_ops(apply_op(d, ops[0]), ops.skip(1))
    }
}

/// The file operations of one verified fetch: write the temporary sibling,
/// then promote it only if verification passed, else discard it.
pub open spec fn fetch_ops(
    final_path: Seq<char>,
    part_path: Seq<char>,
    data: Seq<u8>,
    ok: bool,
) -> Seq<DiskOp> {
    if ok {
        seq![DiskOp::WriteFile(part_path, data), DiskOp::Rename(part_path, final_path)]
    } else {
        seq![DiskOp::WriteFile(part_path, data), DiskOp::Remove(part_path)]
    }
}

/// Atomic publish: when verification fails, the final path is untouched —
/// it exists afterwards exactly if it existed before, with the same
/// contents; when verification passes, the final path holds the download.
/// Either way no temporary data survives at the part path.
pub proof fn lemma_atomic_publish(
    d: Map<Seq<char>, Seq<u8>>,
    final_path: Seq<char>,
    part_path: Seq<char>,
    data: Seq<u8>,
    ok: bool,
)
    requires
        part_path != final_path,
    ensures
        !ok ==> apply_ops(d, fetch_ops(final_path, part_path, data, ok)).contains_key(final_path)
            == d.contains_key(final_path),
        !ok && d.contains_key(final_path) ==> apply_ops(
            d,
            fetch_ops(final_path, part_path, data, ok),
        )[final_path] == d[final_path],
        ok ==> apply_ops(d, fetch_ops(final_path, part_path, data, ok)).contains_key(final_path)
            && apply_ops(d, fetch_ops(final_path, part_path, data, ok))[final_path] == data,
        !apply_ops(d, fetch_ops(final_path, part_path, data, ok)).contains_key(part_path),
{
    let ops = fetch_ops(final_path, part_path, data, ok);
    let d1 = apply_op(d, ops[0]);
    let rest = ops.skip(1);
    assert(apply_ops(d, ops) == apply_ops(d1, rest));
    assert(rest[0] == ops[1]);
    let d2 = apply_op(d1, rest[0]);
    assert(rest.skip(1) =~= Seq::<DiskOp>::empty());
    assert(apply_ops(d1, rest) == apply_ops(d2, rest.skip(1)));
    assert(apply_ops(d2, rest.skip(1)) == d2);
}

/// The executable publish plan handed to the binary.
#[derive(Clone, Copy, Debug, PartialEq, Eq, Structural)]
pub enum FileOp {
    /// Write the downloaded body to the temporary sibling path.
    WriteTemp,
    /// Rename the temporary sibling over the final path.
    PromoteTemp,
    /// Delete the temporary sibling.
    DiscardTemp,
    /// Write the downloaded body directly to the destination path.
    WriteDirect,
}

pub open spec fn op_denote(
    op: FileOp,
    final_path: Seq<char>,
    part_path: Seq<char>,
    data: Seq<u8>,
) -> DiskOp {
    match op {
        FileOp::WriteTemp => DiskOp::WriteFile(part_path, data),
        FileOp::PromoteTemp => DiskOp::Rename(part_path, final_path),
        FileOp::DiscardTemp => DiskOp::Remove(part_path),
        FileOp::WriteDirect => DiskOp::WriteFile(final_path, data),
    }
}

/// The file operations to run after a download: the temporary-then-rename
/// step when verification is requested, a direct write when the caller's
/// destination is already the final path.
pub fn publish_plan(verified_ok: bool, use_temp: bool) -> (r: Vec<FileOp>)
    ensures
        use_temp && verified_ok ==> r@ =~= seq![FileOp::WriteTemp, FileOp::PromoteTemp],
        use_temp && !verified_ok ==> r@ =~= seq![FileOp::WriteTemp, FileOp::DiscardTemp],
        !use_temp && verified_ok ==> r@ =~= seq![FileOp::WriteDirect],
        !use_temp && !verified_ok ==> r@ =~= Seq::<FileOp>::empty(),
{
    let mut v: Vec<FileOp> = Vec::new();
    if use_temp {
        v.push(FileOp::WriteTemp);
        if verified_ok {
            v.push(FileOp::PromoteTemp);
        } else {
            v.push(FileOp::DiscardTemp);
        }
    } else {
        if verified_ok {
            v.push(FileOp::WriteDirect);
        }
    }
    v
}

/// The temporary-then-rename plan denotes exactly the publish discipline
/// whose safety [`lemma_atomic_publish`] states.
pub proof fn lemma_plan_denotes(
    verified_ok: bool,
    final_path: Seq<char>,
    part_path: Seq<char>,
    data: Seq<u8>,
)
    ensures
        (if verified_ok {
            seq![FileOp::WriteTemp, FileOp::PromoteTemp]
        } else {
            seq![FileOp::WriteTemp, FileOp::DiscardTemp]
        }).map_values(|op: FileOp| op_denote(op, final_path, part_path, data)) =~= fetch_ops(
            final_path,
            part_path,
            data,
            verified_ok,
        ),
{
}

/// The destination path with a suffix appended; used for the `.part`
/// temporary sibling.
pub fn append_to_path(path: &str, suffix: &str) -> (r: String)
    ensures
        r@ == path@ + suffix@,
{
    path.to_owned().concat(suffix)
}

/// A path and its `.part` sibling never coincide.
pub proof fn lemma_part_path_distinct(p: Seq<char>)
    ensures
        p + ".part"@ != p,
{
    reveal_strlit(".part");
    assert((p + ".part"@).len() == p.len() + 5);
}

} // verus!
