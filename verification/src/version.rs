//! The version oracle: the next version to publish, derived from what the
//! registry reports for the sentinel crate, and the rendering of versions as
//! `major.minor.patch` strings for manifest fields.

use vstd::prelude::*;
use vstd::string::StringExecFns;
use crate::Error;

verus! {

/// A semantic version, as the registry reports it for the sentinel crate.
#[derive(Clone, Copy, PartialEq, Eq, Structural, Debug)]
pub struct Version {
    pub major: u64,
    pub minor: u64,
    pub patch: u64,
}

/// The character for a single decimal digit.
pub open spec fn digit_char(d: nat) -> char {
    if d == 0 { '0' }
    else if d == 1 { '1' }
    else if d == 2 { '2' }
    else if d == 3 { '3' }
    else if d == 4 { '4' }
    else if d == 5 { '5' }
    else if d == 6 { '6' }
    else if d == 7 { '7' }
    else if d == 8 { '8' }
    else { '9' }
}

/// The decimal rendering of a number, most significant digit first.
pub open spec fn dec_chars(n: nat) -> Seq<char>
    decreases n,
{
    if n < 10 {
        seq![digit_char(n)]
    } else {
        dec_chars(n / 10).push(digit_char(n % 10))
    }
}

/// The `major.minor.patch` rendering of a version.
pub open spec fn version_chars(v: Version) -> Seq<char> {
    dec_chars(v.major as nat) + seq!['.'] + dec_chars(v.minor as nat) + seq!['.'] + dec_chars(
        v.patch as nat,
    )
}

fn push_digit(s: &mut String, d: u64)
    requires
        d < 10,
    ensures
        final(s)@ == old(s)@.push(digit_char(d as nat)),
{
    let lit: &str = match d {
        0 => "0",
        1 => "1",
        2 => "2",
        3 => "3",
        4 => "4",
        5 => "5",
        6 => "6",
        7 => "7",
        8 => "8",
        _ => "9",
    };
    proof {
        reveal_strlit("0");
        reveal_strlit("1");
        reveal_strlit("2");
        reveal_strlit("3");
        reveal_strlit("4");
        reveal_strlit("5");
        reveal_strlit("6");
        reveal_strlit("7");
        reveal_strlit("8");
        reveal_strlit("9");
        assert(lit@ =~= seq![digit_char(d as nat)]);
    }
    s.append(lit);
    proof {
        assert(s@ =~= old(s)@.push(digit_char(d as nat)));
    }
}

fn push_dec(s: &mut String, n: u64)
    ensures
        final(s)@ == old(s)@ + dec_chars(n as nat),
    decreases n,
{
    if n < 10 {
        push_digit(s, n);
        proof {
            assert(s@ =~= old(s)@ + dec_chars(n as nat));
        }
    } else {
        push_dec(s, n / 10);
        push_digit(s, n % 10);
        proof {
            assert(s@ =~= old(s)@ + dec_chars(n as nat));
        }
    }
}

/// The decimal rendering of a number as an owned string.
pub fn u64_to_string(n: u64) -> (r: String)
    ensures
        r@ == dec_chars(n as nat),
{
    let mut s = String::new();
    push_dec(&mut s, n);
    proof {
        assert(s@ =~= dec_chars(n as nat));
    }
    s
}

/// The `major.minor.patch` rendering of a version as an owned string.
pub fn version_to_string(v: &Version) -> (r: String)
    ensures
        r@ == version_chars(*v),
{
    let mut s = u64_to_string(v.major);
    proof {
        reveal_strlit(".");
        assert("."@ =~= seq!['.']);
    }
    s.append(".");
    push_dec(&mut s, v.minor);
    s.append(".");
    push_dec(&mut s, v.patch);
    proof {
        assert(s@ =~= version_chars(*v));
    }
    s
}

/// The version currently published, as the registry's answer determines it: a
/// not-found answer stands for no generation published yet, version `0.0.0`;
/// a successful answer carries the sentinel crate's reported maximum version;
/// any other status is fatal, as is a successful answer whose body did not
/// yield a version.
pub fn get_current_version(status: u32, reported: Option<Version>) -> (r: Result<Version, Error>)
    ensures
        status == 404 ==> r == Ok::<Version, Error>(Version { major: 0, minor: 0, patch: 0 }),
        status == 200 && reported is Some ==> r == Ok::<Version, Error>(reported->0),
        status == 200 && reported is None ==> r == Err::<Version, Error>(
            Error::MalformedRegistryResponse,
        ),
        status != 200 && status != 404 ==> r == Err::<Version, Error>(
            Error::UnexpectedRegistryStatus,
        ),
{
    if status == 404 {
        Ok(Version { major: 0, minor: 0, patch: 0 })
    } else if status == 200 {
        match reported {
            Some(v) => Ok(v),
            None => Err(Error::MalformedRegistryResponse),
        }
    } else {
        Err(Error::UnexpectedRegistryStatus)
    }
}

/// The version every crate of the run is published at: one major generation
/// past the current one; minor and patch pass through unchanged.
pub fn next_version(cur: &Version) -> (r: Version)
    requires
        cur.major < u64::MAX,
    ensures
        r.major == cur.major + 1,
        r.minor == cur.minor,
        r.patch == cur.patch,
{
    Version { major: cur.major + 1, minor: cur.minor, patch: cur.patch }
}

/// The version to publish, from the registry's answer to the sentinel query:
/// the current version with its major component bumped by one. A not-found
/// answer therefore yields `1.0.0`.
pub fn get_version_to_publish(status: u32, reported: Option<Version>) -> (r: Result<
    Version,
    Error,
>)
    requires
        status == 200 && reported is Some ==> reported->0.major < u64::MAX,
    ensures
        status == 404 ==> r == Ok::<Version, Error>(Version { major: 1, minor: 0, patch: 0 }),
        status == 200 && reported is Some ==> r == Ok::<Version, Error>(
            Version {
                major: (reported->0.major + 1) as u64,
                minor: reported->0.minor,
                patch: reported->0.patch,
            },
        ),
        status == 200 && reported is None ==> r == Err::<Version, Error>(
            Error::MalformedRegistryResponse,
        ),
        status != 200 && status != 404 ==> r == Err::<Version, Error>(
            Error::UnexpectedRegistryStatus,
        ),
{
    match get_current_version(status, reported) {
        Ok(cur) => Ok(next_version(&cur)),
        Err(e) => Err(e),
    }
}

} // verus!
