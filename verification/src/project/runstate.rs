use crate::project::{Fnv, Profile, fnv_fold, fnv_text, FNV_OFFSET};
use crate::text::{append, hex_fixed, hex_text};
use vstd::prelude::*;

verus! {

pub const MARKER_FILE: &'static str = "verifying.json";

/// How long after its recorded start a run's process may have started and still be that run.
pub const START_TOLERANCE_SECONDS: u64 = 2;

/// What a run of the finish gate leaves while it is under way.
#[derive(Clone, Debug)]
pub struct Marker {
    pub run_id: String,
    pub pid: u32,
    pub started_unix: u64,
    pub verifier_version: String,
    pub project_identity: String,
    pub profile_identity: String,
    pub profile: Option<Profile>,
}

/// What became of the run a marker names.
#[derive(Clone, Copy, Debug, PartialEq, Eq, Structural)]
pub enum Classification {
    Verifying,
    Interrupted,
    Completed,
}

/// Where the marker of a run under way is kept.
pub fn marker_path(root: &str) -> (p: String)
    ensures
        p@ == crate::project::join_path(crate::project::join_path(root@, ".blabla"@), "verifying.json"@),
{
    let records = crate::project::join_path_text(root, ".blabla");
    crate::project::join_path_text(records.as_str(), "verifying.json")
}

/// The `n` bytes of `v`, least significant first.
pub open spec fn le_bytes(v: nat, n: nat) -> Seq<u8>
    decreases n,
{
    if n == 0 {
        Seq::empty()
    } else {
        seq![(v % 256) as u8] + le_bytes(v / 256, (n - 1) as nat)
    }
}

pub(crate) fn push_le_bytes(out: &mut Vec<u8>, v: u128, n: usize)
    ensures
        final(out)@ == old(out)@ + le_bytes(v as nat, n as nat),
    decreases n,
{
    if n > 0 {
        out.push((v % 256) as u8);
        push_le_bytes(out, v / 256, n - 1);
        assert(old(out)@.push((v % 256) as u8) + le_bytes((v / 256) as nat, (n - 1) as nat) =~= old(out)@ + le_bytes(v as nat, n as nat));
    } else {
        assert(old(out)@ + Seq::<u8>::empty() =~= old(out)@);
    }
}

/// The little-endian bytes of a `u64`.
pub(crate) fn u64_bytes(v: u64) -> (b: Vec<u8>)
    ensures
        b@ == le_bytes(v as nat, 8),
{
    let mut b: Vec<u8> = Vec::new();
    push_le_bytes(&mut b, v as u128, 8);
    assert(Seq::<u8>::empty() + le_bytes(v as nat, 8) =~= le_bytes(v as nat, 8));
    b
}

/// The little-endian bytes of a `usize`, as many as it has.
fn usize_bytes(v: usize) -> (b: Vec<u8>)
    ensures
        b@ == le_bytes(v as nat, (usize::BITS / 8) as nat),
{
    let mut b: Vec<u8> = Vec::new();
    let n: usize = if usize::BITS == 64 {
        8
    } else {
        4
    };
    assert(usize::BITS == 64 || usize::BITS == 32);
    push_le_bytes(&mut b, v as u128, n);
    assert(Seq::<u8>::empty() + le_bytes(v as nat, n as nat) =~= le_bytes(v as nat, n as nat));
    b
}

/// The command's elements folded into an FNV-1a state.
pub open spec fn command_fold(h: u64, command: Seq<Seq<char>>) -> u64
    decreases command.len(),
{
    if command.len() == 0 {
        h
    } else {
        fnv_text(command_fold(h, command.drop_last()), command.last())
    }
}

/// The identity of a verification profile: a digest over its command and settings.
pub open spec fn profile_identity_spec(profile: Option<crate::project::ProfileView>) -> Seq<char> {
    let w = (usize::BITS / 8) as nat;
    match profile {
        Some(p) => {
            let h = command_fold(FNV_OFFSET, p.command);
            let h = fnv_fold(h, le_bytes(p.seed as nat, 8));
            let h = fnv_fold(h, le_bytes(p.cases as nat, w));
            let h = fnv_fold(h, le_bytes(p.steps as nat, w));
            let h = fnv_fold(h, le_bytes(p.timeout_ms as nat, 8));
            let h = fnv_fold(h, le_bytes(p.shrink_budget as nat, w));
            hex_fixed(h as nat, 16)
        },
        None => hex_fixed(fnv_text(FNV_OFFSET, "no-profile"@) as nat, 16),
    }
}

/// The identity of the verification profile a run uses.
pub fn profile_identity(profile: Option<&Profile>) -> (id: String)
    ensures
        id@ == profile_identity_spec(
            match profile {
                Some(p) => Some(p@),
                None => None,
            },
        ),
{
    let mut hasher = Fnv::new();
    match profile {
        Some(profile) => {
            let mut i: usize = 0;
            let ghost command = crate::project::strings_view(profile.command@);
            assert(command.take(0) =~= Seq::<Seq<char>>::empty());
            while i < profile.command.len()
                invariant
                    i <= profile.command.len(),
                    command == crate::project::strings_view(profile.command@),
                    hasher@ == command_fold(FNV_OFFSET, command.take(i as int)),
                decreases profile.command.len() - i,
            {
                assert(command.take(i + 1).drop_last() =~= command.take(i as int));
                hasher.write_str(profile.command[i].as_str());
                i += 1;
            }
            assert(command.take(command.len() as int) =~= command);
            hasher.write(u64_bytes(profile.seed).as_slice());
            hasher.write(usize_bytes(profile.cases).as_slice());
            hasher.write(usize_bytes(profile.steps).as_slice());
            hasher.write(u64_bytes(profile.timeout_ms).as_slice());
            hasher.write(usize_bytes(profile.shrink_budget).as_slice());
        },
        None => {
            hasher.write_str("no-profile");
        },
    }
    hasher.finish()
}

/// What became of the run a marker names: completed when the record names the run, else
/// interrupted unless the contracts and profile are the ones it ran with and its process,
/// started when `started` says, began within the tolerance of the marker's start.
pub open spec fn classify_spec(
    marker: Marker,
    project_identity: Seq<char>,
    profile_identity: Seq<char>,
    record_run_id: Option<Seq<char>>,
    started: Option<u64>,
) -> Classification {
    if record_run_id == Some(marker.run_id@) {
        Classification::Completed
    } else if marker.project_identity@ != project_identity || marker.profile_identity@ != profile_identity {
        Classification::Interrupted
    } else {
        match started {
            Some(s) => if s <= marker.started_unix + START_TOLERANCE_SECONDS {
                Classification::Verifying
            } else {
                Classification::Interrupted
            },
            None => Classification::Interrupted,
        }
    }
}

/// Classifies the run a marker names; `started` is when the marker's process started, if it
/// is still alive.
pub fn classify(
    marker: &Marker,
    project_identity: &str,
    profile_identity: &str,
    record_run_id: Option<&str>,
    started: Option<u64>,
) -> (c: Classification)
    ensures
        c == classify_spec(
            *marker,
            project_identity@,
            profile_identity@,
            match record_run_id {
                Some(r) => Some(r@),
                None => None,
            },
            started,
        ),
{
    match record_run_id {
        Some(r) => {
            if crate::text::str_eq(r, marker.run_id.as_str()) {
                return Classification::Completed;
            }
        },
        None => {},
    }
    if !crate::text::str_eq(marker.project_identity.as_str(), project_identity) || !crate::text::str_eq(
        marker.profile_identity.as_str(),
        profile_identity,
    ) {
        return Classification::Interrupted;
    }
    match started {
        Some(s) => {
            if (s as u128) <= (marker.started_unix as u128) + (START_TOLERANCE_SECONDS as u128) {
                Classification::Verifying
            } else {
                Classification::Interrupted
            }
        },
        None => Classification::Interrupted,
    }
}

#[verifier::external_type_specification]
#[verifier::external_body]
pub struct ExRandomError(getrandom::Error);

/// Fills `dest` with random bytes from the system's source (`getrandom::fill`). Its length is
/// kept; nothing is promised of the bytes, on success or on failure.
#[verifier::external_body]
fn fill_random(dest: &mut Vec<u8>) -> (r: Result<(), getrandom::Error>)
    ensures
        final(dest)@.len() == old(dest)@.len(),
{
    getrandom::fill(dest.as_mut_slice())
}

#[verifier::external_type_specification]
#[verifier::external_body]
pub struct ExSystemTime(std::time::SystemTime);

#[verifier::external_type_specification]
#[verifier::external_body]
pub struct ExSystemTimeError(std::time::SystemTimeError);

/// The system clock's current time (`SystemTime::now`). Nothing is promised of it.
#[verifier::external_body]
fn system_now() -> std::time::SystemTime {
    std::time::SystemTime::now()
}

/// How long after the Unix epoch `t` is (`SystemTime::duration_since` with `UNIX_EPOCH`), or
/// the error when `t` is earlier. Nothing is promised of either.
#[verifier::external_body]
fn since_epoch(t: &std::time::SystemTime) -> std::result::Result<std::time::Duration, std::time::SystemTimeError> {
    t.duration_since(std::time::UNIX_EPOCH)
}

/// The whole nanoseconds of `d` (`Duration::as_nanos`). Nothing is promised of the value.
#[verifier::external_body]
fn duration_nanos(d: &std::time::Duration) -> u128 {
    d.as_nanos()
}

/// The nanoseconds since the Unix epoch by the system clock, or zero when the clock stands
/// before the epoch.
fn clock_nanos() -> u128 {
    let now = system_now();
    match since_epoch(&now) {
        Ok(elapsed) => duration_nanos(&elapsed),
        Err(_) => 0,
    }
}

/// The lowercase hexadecimal rendering of `bytes`, two digits each.
pub open spec fn hex_bytes(bytes: Seq<u8>) -> Seq<char>
    decreases bytes.len(),
{
    if bytes.len() == 0 {
        Seq::empty()
    } else {
        hex_bytes(bytes.drop_last()) + hex_fixed(bytes.last() as nat, 2)
    }
}

/// The sixteen bytes a run id is made of when no randomness can be had: the clock's
/// nanoseconds, least significant byte first.
pub fn clock_bytes(nanos: u128) -> (b: Vec<u8>)
    ensures
        b@ == le_bytes(nanos as nat, 16),
        b@.len() == 16,
{
    let mut b: Vec<u8> = Vec::new();
    push_le_bytes(&mut b, nanos, 16);
    assert(Seq::<u8>::empty() + le_bytes(nanos as nat, 16) =~= le_bytes(nanos as nat, 16));
    proof {
        lemma_le_bytes_len(nanos as nat, 16);
    }
    b
}

/// The run id that sixteen drawn bytes make: each byte as two lowercase hexadecimal digits.
pub fn run_id_of(bytes: &Vec<u8>) -> (id: String)
    requires
        bytes@.len() == 16,
    ensures
        id@ == hex_bytes(bytes@),
{
    let mut id = String::new();
    let mut i: usize = 0;
    assert(bytes@.take(0) =~= Seq::<u8>::empty());
    while i < bytes.len()
        invariant
            i <= bytes.len(),
            bytes@.len() == 16,
            id@ == hex_bytes(bytes@.take(i as int)),
        decreases bytes.len() - i,
    {
        assert(bytes@.take(i + 1).drop_last() =~= bytes@.take(i as int));
        append(&mut id, hex_text(bytes[i] as u64, 2).as_str());
        i += 1;
    }
    assert(bytes@.take(16) =~= bytes@);
    id
}

/// A fresh run id: sixteen random bytes (the clock's nanoseconds when no randomness can be
/// had), in hexadecimal. Which bytes are drawn is chance; `run_id_of` and `clock_bytes` say
/// what is made of them.
pub fn new_run_id() -> (id: String)
    ensures
        exists|bytes: Seq<u8>| bytes.len() == 16 && id@ == hex_bytes(bytes),
        id@.len() == 32,
{
    let mut bytes: Vec<u8> = vec![0u8; 16];
    let id = match fill_random(&mut bytes) {
        Ok(()) => run_id_of(&bytes),
        Err(_) => {
            let fallback = clock_bytes(clock_nanos());
            run_id_of(&fallback)
        },
    };
    proof {
        let drawn = choose|b: Seq<u8>| b.len() == 16 && id@ == hex_bytes(b);
        lemma_hex_bytes_len(drawn);
    }
    id
}

proof fn lemma_hex_fixed_len(n: nat, width: nat)
    ensures
        hex_fixed(n, width).len() == width,
    decreases width,
{
    if width > 0 {
        lemma_hex_fixed_len(n / 16, (width - 1) as nat);
    }
}

proof fn lemma_hex_bytes_len(bytes: Seq<u8>)
    ensures
        hex_bytes(bytes).len() == 2 * bytes.len(),
    decreases bytes.len(),
{
    if bytes.len() > 0 {
        lemma_hex_bytes_len(bytes.drop_last());
        lemma_hex_fixed_len(bytes.last() as nat, 2);
    }
}

proof fn lemma_le_bytes_len(v: nat, n: nat)
    ensures
        le_bytes(v, n).len() == n,
    decreases n,
{
    if n > 0 {
        lemma_le_bytes_len(v / 256, (n - 1) as nat);
    }
}

} // verus!
