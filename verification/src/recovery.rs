use crate::text::{append, joined, str_eq};
use vstd::prelude::*;

verus! {

/// The directory, under the records, that a recovery build is installed in.
pub const BIN_DIRECTORY: &'static str = "bin";

/// The build that is running: its version, the digest of its executable, and whether it is a
/// recovery build installed beside the records.
#[derive(Clone, Debug, PartialEq, Eq)]
pub struct Identity {
    pub version: String,
    pub digest: String,
    pub recovery: bool,
}

pub open spec fn stamp_spec(identity: Identity) -> Seq<char> {
    identity.version@ + " "@ + identity.digest@
}

impl Identity {
    /// The stamp a build writes into the records it writes: its version and digest.
    pub fn stamp(&self) -> (s: String)
        ensures
            s@ == stamp_spec(*self),
    {
        let mut s = joined(self.version.as_str(), " ");
        append(&mut s, self.digest.as_str());
        s
    }
}

/// Whether a record was last written by this build.
pub fn matches(identity: &Identity, recorded: Option<&str>) -> (b: bool)
    ensures
        b == (recorded matches Some(stamp) && stamp@ == stamp_spec(*identity)),
{
    match recorded {
        Some(stamp) => str_eq(stamp, identity.stamp().as_str()),
        None => false,
    }
}

pub open spec fn foreign_spec(identity: Option<Identity>, recorded: Option<&str>) -> bool {
    identity matches Some(id) && id.recovery && !(recorded matches Some(stamp) && stamp@ == stamp_spec(id))
}

/// A build never finds its own record foreign: a record stamped by this very build is
/// neither refused nor foreign, whether or not the build is a recovery build.
pub proof fn law_own_record_is_never_foreign(identity: Identity, recorded: &str)
    requires
        recorded@ == stamp_spec(identity),
    ensures
        !foreign_spec(Some(identity), Some(recorded)),
{
}

/// Whether a recovery build is looking at a record another build wrote.
pub fn foreign(identity: Option<&Identity>, recorded: Option<&str>) -> (b: bool)
    ensures
        b == foreign_spec(
            match identity {
                Some(id) => Some(*id),
                None => None,
            },
            recorded,
        ),
{
    match identity {
        Some(id) => id.recovery && !matches(id, recorded),
        None => false,
    }
}

pub open spec fn refusal_text(identity: Identity, recorded: Option<&str>) -> Seq<char> {
    let seen = match recorded {
        Some(stamp) => "was last written by "@ + stamp@,
        None => "names no build that wrote it"@,
    };
    "this recovery build is "@ + stamp_spec(identity) + " and the record "@ + seen
        + "; writing it back would silently drop whatever this build cannot represent. Read it here, write it with the build that owns it, or open a new task with this one."@
}

/// Why a recovery build refuses to write a record another build wrote, or `None` when it may.
pub fn refuse_write(identity: &Identity, recorded: Option<&str>) -> (r: Option<String>)
    ensures
        foreign_spec(Some(*identity), recorded) ==> (r matches Some(m) && m@ == refusal_text(*identity, recorded)),
        !foreign_spec(Some(*identity), recorded) ==> r is None,
{
    if !foreign(Some(identity), recorded) {
        return None;
    }
    let seen = match recorded {
        Some(stamp) => joined("was last written by ", stamp),
        None => "names no build that wrote it".to_owned(),
    };
    let mut m = joined("this recovery build is ", identity.stamp().as_str());
    append(&mut m, " and the record ");
    append(&mut m, seen.as_str());
    append(
        &mut m,
        "; writing it back would silently drop whatever this build cannot represent. Read it here, write it with the build that owns it, or open a new task with this one.",
    );
    Some(m)
}

/// The verbs a recovery build withholds, because its run would be no evidence.
pub open spec fn withheld(verb: Seq<char>) -> bool {
    verb == "finish"@ || verb == "status"@ || verb == "run"@ || verb == "check"@
}

pub open spec fn withhold_text(identity: Identity, verb: Seq<char>) -> Seq<char> {
    "this recovery build is "@ + stamp_spec(identity)
        + ", installed under .blabla/bin; it is not the candidate under verification, so its "@ + verb
        + " would not be evidence about this project. It withholds only finish, status, run, check; everything else runs, and task and explain are what it is installed for."@
}

/// Why a recovery build withholds `verb`, or `None` when it runs it.
pub fn withhold(identity: &Identity, verb: &str) -> (r: Option<String>)
    ensures
        identity.recovery && withheld(verb@) ==> (r matches Some(m) && m@ == withhold_text(*identity, verb@)),
        !(identity.recovery && withheld(verb@)) ==> r is None,
{
    let listed = str_eq(verb, "finish") || str_eq(verb, "status") || str_eq(verb, "run") || str_eq(verb, "check");
    if !identity.recovery || !listed {
        return None;
    }
    let mut m = joined("this recovery build is ", identity.stamp().as_str());
    append(&mut m, ", installed under .blabla/bin; it is not the candidate under verification, so its ");
    append(&mut m, verb);
    append(
        &mut m,
        " would not be evidence about this project. It withholds only finish, status, run, check; everything else runs, and task and explain are what it is installed for.",
    );
    Some(m)
}

} // verus!
