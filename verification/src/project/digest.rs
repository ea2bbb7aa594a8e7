use super::runstate::{le_bytes, push_le_bytes, u64_bytes};
use super::{FNV_OFFSET, Fnv, fnv_fold, fnv_step, fnv_text};
use crate::text::{hex_fixed, str_eq};
use crate::tree::{Tree, lookup};
use vstd::prelude::*;

verus! {

/// Files up to this size are fingerprinted by their content; larger ones by their size and
/// modification time.
pub const CONTENT_HASH_LIMIT: u64 = 4194304;

/// What a walk of the project learned of one file: its size when its metadata could be read,
/// its content (or why it could not be read) when it is small enough to hash, and its
/// modification time in nanoseconds since the epoch when that is known.
pub struct FileFacts {
    pub len: Option<u64>,
    pub content: Result<Vec<u8>, String>,
    pub modified_nanos: Option<u128>,
}

/// A file or an unreadable directory, as the walk meets them.
pub enum Visit {
    UnreadableDirectory(String),
    File(String, FileFacts),
}

/// Whether a file of `len` bytes is fingerprinted by its content.
pub fn reads_content(len: u64) -> (b: bool)
    ensures
        b == (len <= CONTENT_HASH_LIMIT),
{
    len <= CONTENT_HASH_LIMIT
}

/// A file folded into an FNV-1a state: its name, then its size and its content (or why it
/// could not be read), or its size and modification time when it is large, or a note that
/// its metadata could not be read.
pub open spec fn file_fold(h: u64, name: Seq<char>, facts: FileFacts) -> u64 {
    let named = fnv_text(h, name);
    match facts.len {
        None => fnv_text(named, "unreadable-metadata"@),
        Some(len) => {
            let sized = fnv_fold(named, le_bytes(len as nat, 8));
            if len <= CONTENT_HASH_LIMIT {
                match facts.content {
                    Ok(bytes) => fnv_fold(sized, bytes@),
                    Err(kind) => fnv_text(sized, "unreadable-file:"@ + kind@),
                }
            } else {
                match facts.modified_nanos {
                    Some(n) => fnv_fold(sized, le_bytes(n as nat, 16)),
                    None => sized,
                }
            }
        },
    }
}

/// Folds a file into `hasher`.
pub fn hash_file(name: &str, facts: &FileFacts, hasher: &mut Fnv)
    ensures
        final(hasher)@ == file_fold(old(hasher)@, name@, *facts),
{
    hasher.write_str(name);
    let len = match facts.len {
        Some(len) => len,
        None => {
            hasher.write_str("unreadable-metadata");
            return;
        },
    };
    let size = u64_bytes(len);
    hasher.write(size.as_slice());
    if reads_content(len) {
        match &facts.content {
            Ok(bytes) => hasher.write(bytes.as_slice()),
            Err(kind) => {
                let note = crate::text::joined("unreadable-file:", kind.as_str());
                hasher.write_str(note.as_str());
            },
        }
    } else {
        match facts.modified_nanos {
            Some(n) => {
                let mut b: Vec<u8> = Vec::new();
                push_le_bytes(&mut b, n, 16);
                assert(Seq::<u8>::empty() + le_bytes(n as nat, 16) =~= le_bytes(n as nat, 16));
                hasher.write(b.as_slice());
            },
            None => {},
        }
    }
}

/// The digest of one file: its fold from the FNV-1a offset, as sixteen hex digits.
pub open spec fn file_digest_spec(name: Seq<char>, facts: FileFacts) -> Seq<char> {
    hex_fixed(file_fold(FNV_OFFSET, name, facts) as nat, 16)
}

/// The digest of one file.
pub fn file_digest(name: &str, facts: &FileFacts) -> (d: String)
    ensures
        d@ == file_digest_spec(name@, *facts),
{
    let mut hasher = Fnv::new();
    hash_file(name, facts, &mut hasher);
    hasher.finish()
}

/// The digest of the file at `relative_path`, or nothing when no file is there.
pub fn digest_of(relative_path: &str, facts: Option<&FileFacts>) -> (d: Option<String>)
    ensures
        match facts {
            Some(f) => d matches Some(x) && x@ == file_digest_spec(relative_path@, *f),
            None => d is None,
        },
{
    match facts {
        Some(f) => Some(file_digest(relative_path, f)),
        None => None,
    }
}

/// Each file's name with its digest, in the order of the walk.
pub open spec fn digests(files: Seq<(String, FileFacts)>) -> Seq<(Seq<char>, Seq<char>)> {
    files.map_values(|f: (String, FileFacts)| (f.0@, file_digest_spec(f.0@, f.1)))
}

/// The digest of every file the walk met, by its path relative to the root.
pub fn snapshot(files: &Vec<(String, FileFacts)>) -> (t: Tree)
    ensures
        forall|k: Seq<char>| lookup(t@, k) == lookup(digests(files@), k),
{
    let ghost all = digests(files@);
    let mut t = Tree::new();
    let mut i: usize = 0;
    while i < files.len()
        invariant
            i <= files.len(),
            all == digests(files@),
            forall|k: Seq<char>| lookup(t@, k) == lookup(all.take(i as int), k),
        decreases files.len() - i,
    {
        let (name, facts) = &files[i];
        let d = file_digest(name.as_str(), facts);
        let ghost before = t@;
        t.insert(name.clone(), d);
        assert(all.take(i + 1).drop_last() =~= all.take(i as int));
        assert(all.take(i + 1).last() == (name@, d@));
        i += 1;
    }
    assert(all.take(i as int) =~= all);
    t
}

/// The walk folded into an FNV-1a state: each unreadable directory by a note and its name,
/// each file as `file_fold` folds it.
pub open spec fn walk_fold(h: u64, visits: Seq<Visit>) -> u64
    decreases visits.len(),
{
    if visits.len() == 0 {
        h
    } else {
        let before = walk_fold(h, visits.drop_last());
        match visits.last() {
            Visit::UnreadableDirectory(name) => fnv_text(fnv_text(before, "unreadable-directory"@), name@),
            Visit::File(name, facts) => file_fold(before, name@, facts),
        }
    }
}

/// The files beside the walk folded after it, in order.
pub open spec fn extra_fold(h: u64, extra: Seq<(String, FileFacts)>) -> u64
    decreases extra.len(),
{
    if extra.len() == 0 {
        h
    } else {
        let (name, facts) = extra.last();
        file_fold(extra_fold(h, extra.drop_last()), name@, facts)
    }
}

/// The fingerprint of a project: what its walk met and the extra files that exist, folded
/// in order, as sixteen hex digits.
pub open spec fn fingerprint_spec(visits: Seq<Visit>, extra: Seq<(String, FileFacts)>) -> Seq<char> {
    hex_fixed(extra_fold(walk_fold(FNV_OFFSET, visits), extra) as nat, 16)
}

/// The fingerprint of a project from its walk and the extra files that exist.
pub fn fingerprint(visits: &Vec<Visit>, extra: &Vec<(String, FileFacts)>) -> (f: String)
    ensures
        f@ == fingerprint_spec(visits@, extra@),
{
    let mut hasher = Fnv::new();
    let mut i: usize = 0;
    while i < visits.len()
        invariant
            i <= visits.len(),
            hasher@ == walk_fold(FNV_OFFSET, visits@.take(i as int)),
        decreases visits.len() - i,
    {
        assert(visits@.take(i + 1).drop_last() =~= visits@.take(i as int));
        assert(visits@.take(i + 1).last() == visits@[i as int]);
        match &visits[i] {
            Visit::UnreadableDirectory(name) => {
                hasher.write_str("unreadable-directory");
                hasher.write_str(name.as_str());
            },
            Visit::File(name, facts) => {
                hash_file(name.as_str(), facts, &mut hasher);
            },
        }
        i += 1;
    }
    assert(visits@.take(i as int) =~= visits@);
    let ghost walked = hasher@;
    let mut j: usize = 0;
    while j < extra.len()
        invariant
            j <= extra.len(),
            hasher@ == extra_fold(walked, extra@.take(j as int)),
        decreases extra.len() - j,
    {
        assert(extra@.take(j + 1).drop_last() =~= extra@.take(j as int));
        assert(extra@.take(j + 1).last() == extra@[j as int]);
        let (name, facts) = &extra[j];
        hash_file(name.as_str(), facts, &mut hasher);
        j += 1;
    }
    assert(extra@.take(j as int) =~= extra@);
    hasher.finish()
}

/// Whether the walk passes over a directory called `name`: BlaBla's own records, version
/// control, build outputs, dependency caches and editor settings.
pub open spec fn skipped_spec(name: Seq<char>) -> bool {
    name == ".blabla"@ || name == ".git"@ || name == "target"@ || name == "node_modules"@ || name
        == "__pycache__"@ || name == ".venv"@ || name == "venv"@ || name == ".hypothesis"@ || name == ".serena"@
        || name == ".idea"@ || name == ".vscode"@ || name == ".pytest_cache"@
}

/// Whether the walk passes over a directory called `name`.
pub fn skipped_directory(name: &str) -> (b: bool)
    ensures
        b == skipped_spec(name@),
{
    str_eq(name, ".blabla") || str_eq(name, ".git") || str_eq(name, "target") || str_eq(name, "node_modules")
        || str_eq(name, "__pycache__") || str_eq(name, ".venv") || str_eq(name, "venv") || str_eq(
        name,
        ".hypothesis",
    ) || str_eq(name, ".serena") || str_eq(name, ".idea") || str_eq(name, ".vscode") || str_eq(
        name,
        ".pytest_cache",
    )
}

/// Multiplying by the FNV prime is one to one on 64-bit states: the prime is odd, so it has
/// an inverse modulo 2^64.
proof fn lemma_prime_product_injective(x: int, y: int)
    requires
        0 <= x < 0x1_0000_0000_0000_0000,
        0 <= y < 0x1_0000_0000_0000_0000,
        (x * 0x100000001b3) % 0x1_0000_0000_0000_0000 == (y * 0x100000001b3) % 0x1_0000_0000_0000_0000,
    ensures
        x == y,
{
    let m: int = 0x1_0000_0000_0000_0000;
    let inv: int = 0xce965057aff6957b;
    let k: int = 887285111055;
    assert(0x100000001b3int * inv == 1 + k * m);
    vstd::arithmetic::div_mod::lemma_mul_mod_noop_left(x * 0x100000001b3, inv, m);
    vstd::arithmetic::div_mod::lemma_mul_mod_noop_left(y * 0x100000001b3, inv, m);
    assert((x * 0x100000001b3) * inv == m * (x * k) + x) by (nonlinear_arith)
        requires
            0x100000001b3int * inv == 1 + k * m,
    ;
    assert((y * 0x100000001b3) * inv == m * (y * k) + y) by (nonlinear_arith)
        requires
            0x100000001b3int * inv == 1 + k * m,
    ;
    vstd::arithmetic::div_mod::lemma_mod_multiples_vanish(x * k, x, m);
    vstd::arithmetic::div_mod::lemma_mod_multiples_vanish(y * k, y, m);
    vstd::arithmetic::div_mod::lemma_small_mod(x as nat, m as nat);
    vstd::arithmetic::div_mod::lemma_small_mod(y as nat, m as nat);
}

/// One FNV-1a step tells states apart: the same byte folded into two different states
/// gives two different states.
pub proof fn law_fnv_step_keeps_states_apart(h1: u64, h2: u64, b: u8)
    requires
        h1 != h2,
    ensures
        fnv_step(h1, b) != fnv_step(h2, b),
{
    let x = h1 ^ (b as u64);
    let y = h2 ^ (b as u64);
    assert(x != y) by (bit_vector)
        requires
            h1 != h2,
            x == h1 ^ (b as u64),
            y == h2 ^ (b as u64),
    ;
    if fnv_step(h1, b) == fnv_step(h2, b) {
        lemma_prime_product_injective(x as int, y as int);
    }
}

/// One FNV-1a step tells bytes apart: two different bytes folded into one state give two
/// different states.
pub proof fn law_fnv_step_keeps_bytes_apart(h: u64, b1: u8, b2: u8)
    requires
        b1 != b2,
    ensures
        fnv_step(h, b1) != fnv_step(h, b2),
{
    let x = h ^ (b1 as u64);
    let y = h ^ (b2 as u64);
    assert(x != y) by (bit_vector)
        requires
            b1 != b2,
            x == h ^ (b1 as u64),
            y == h ^ (b2 as u64),
    ;
    if fnv_step(h, b1) == fnv_step(h, b2) {
        lemma_prime_product_injective(x as int, y as int);
    }
}

/// Folding the same bytes into two different states keeps them different.
pub proof fn law_fnv_fold_keeps_states_apart(h1: u64, h2: u64, bytes: Seq<u8>)
    requires
        h1 != h2,
    ensures
        fnv_fold(h1, bytes) != fnv_fold(h2, bytes),
    decreases bytes.len(),
{
    if bytes.len() > 0 {
        law_fnv_fold_keeps_states_apart(h1, h2, bytes.drop_last());
        law_fnv_step_keeps_states_apart(fnv_fold(h1, bytes.drop_last()), fnv_fold(h2, bytes.drop_last()), bytes.last());
    }
}

/// A large file is fingerprinted by its modification time: two files with the same name and
/// size over `CONTENT_HASH_LIMIT`, whose modification times differ in their lowest byte only
/// (as a rewrite within the same 256 ns does), fold to different states; and a known
/// modification time is folded, as its 16 little-endian bytes, after what the file gives
/// without one.
pub proof fn law_a_large_file_is_fingerprinted_by_its_modification_time(
    h: u64,
    name: Seq<char>,
    len: u64,
    n1: u128,
    n2: u128,
    content: Result<Vec<u8>, String>,
)
    requires
        len > CONTENT_HASH_LIMIT,
        n1 != n2,
        n1 / 256 == n2 / 256,
    ensures
        file_fold(h, name, FileFacts { len: Some(len), content, modified_nanos: Some(n1) }) != file_fold(
            h,
            name,
            FileFacts { len: Some(len), content, modified_nanos: Some(n2) },
        ),
        file_fold(h, name, FileFacts { len: Some(len), content, modified_nanos: Some(n1) }) == fnv_fold(
            file_fold(h, name, FileFacts { len: Some(len), content, modified_nanos: None }),
            le_bytes(n1 as nat, 16),
        ),
{
    let sized = fnv_fold(fnv_text(h, name), le_bytes(len as nat, 8));
    lemma_low_bytes_differ(n1 as nat, n2 as nat);
    let b1 = (n1 as nat % 256) as u8;
    let b2 = (n2 as nat % 256) as u8;
    let rest = le_bytes((n1 as nat / 256) as nat, 15);
    lemma_le_split(n1 as nat);
    lemma_le_split(n2 as nat);
    lemma_fold_one(sized, b1, rest);
    lemma_fold_one(sized, b2, rest);
    law_fnv_step_keeps_bytes_apart(sized, b1, b2);
    law_fnv_fold_keeps_states_apart(fnv_step(sized, b1), fnv_step(sized, b2), rest);
}

proof fn lemma_low_bytes_differ(n1: nat, n2: nat)
    requires
        n1 != n2,
        n1 / 256 == n2 / 256,
    ensures
        n1 % 256 != n2 % 256,
{
    assert(n1 == 256 * (n1 / 256) + n1 % 256) by (nonlinear_arith);
    assert(n2 == 256 * (n2 / 256) + n2 % 256) by (nonlinear_arith);
}

proof fn lemma_le_split(n: nat)
    ensures
        le_bytes(n, 16) == seq![(n % 256) as u8] + le_bytes((n / 256) as nat, 15),
{
}

proof fn lemma_fold_one(h: u64, b: u8, rest: Seq<u8>)
    ensures
        fnv_fold(h, seq![b] + rest) == fnv_fold(fnv_step(h, b), rest),
{
    crate::project::law_fnv_folds_in_pieces(h, seq![b], rest);
    assert(seq![b].drop_last() =~= Seq::<u8>::empty());
    assert(fnv_fold(h, seq![b]) == fnv_step(fnv_fold(h, Seq::<u8>::empty()), b));
}

/// A small file is fingerprinted by its content: two readable files with the same name and
/// size up to `CONTENT_HASH_LIMIT` whose contents differ in their last byte only fold to
/// different states, whatever their modification times.
pub proof fn law_a_small_file_is_fingerprinted_by_its_content(
    h: u64,
    name: Seq<char>,
    len: u64,
    c1: Vec<u8>,
    c2: Vec<u8>,
    m1: Option<u128>,
    m2: Option<u128>,
)
    requires
        len <= CONTENT_HASH_LIMIT,
        c1@.len() > 0,
        c1@.len() == c2@.len(),
        c1@.drop_last() == c2@.drop_last(),
        c1@.last() != c2@.last(),
    ensures
        file_fold(h, name, FileFacts { len: Some(len), content: Ok(c1), modified_nanos: m1 }) != file_fold(
            h,
            name,
            FileFacts { len: Some(len), content: Ok(c2), modified_nanos: m2 },
        ),
{
    let sized = fnv_fold(fnv_text(h, name), le_bytes(len as nat, 8));
    law_fnv_step_keeps_bytes_apart(fnv_fold(sized, c1@.drop_last()), c1@.last(), c2@.last());
}

} // verus!
