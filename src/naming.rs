//! Generated names of p2p rooms: the current time and a fixed literal,
//! hashed, as decimal digits.
use vstd::prelude::*;
use vstd::string::StringExecFns;

verus! {

/// The decimal digit for `d`, below ten.
pub open spec fn digit_char(d: nat) -> char {
    if d == 0 { '0' }
    else if d == 1 { '1' }
    else if d == 2 { '2' }
    else if d == 3 { '3' }
    else if d == 4 { '4' }
    else if d == 5 { '5' }
    else if d == 6 { '6' }
    else if d == 7 { '7' }
    else if d == 8 { '8' }
    else { '9' }
}

/// The decimal digits of `n`, most significant first, with no leading zero.
pub open spec fn decimal(n: nat) -> Seq<char>
    decreases n,
{
    if n < 10 {
        seq![digit_char(n)]
    } else {
        decimal(n / 10).push(digit_char(n % 10))
    }
}

/// The digest that std's `DefaultHasher` gives the text `s`.
pub uninterp spec fn hash_of(s: Seq<char>) -> u64;

/// Relies on std's `SystemTime::now`, chrono's `From<SystemTime>` for
/// `DateTime<Utc>` and `DateTime::to_rfc3339_opts`: the current time as
/// RFC 3339 text with nanoseconds. Nothing is stated of it: it depends on the
/// clock. The conversion takes clock readings before 1970 as negative
/// timestamps; it fails only beyond chrono's range of about 262,000 years,
/// which the system clock cannot reach.
#[verifier::external_body]
fn current_time_text() -> (r: String) {
    chrono::DateTime::<chrono::Utc>::from(std::time::SystemTime::now()).to_rfc3339_opts(
        chrono::SecondsFormat::Nanos,
        true,
    )
}

/// Relies on std's `BuildHasher::hash_one` with a default-built
/// `DefaultHasher`: a 64-bit digest of the text. `DefaultHasher::new` is not
/// seeded, so equal texts give equal digests.
#[verifier::external_body]
fn hash_text(s: &str) -> (r: u64)
    ensures
        r == hash_of(s@),
{
    std::hash::BuildHasher::hash_one(&std::hash::BuildHasherDefault::<std::hash::DefaultHasher>::default(), s)
}

/// The one-character text of the digit `d`.
fn digit_text(d: u64) -> (r: &'static str)
    requires
        d < 10,
    ensures
        r@ == seq![digit_char(d as nat)],
{
    proof {
        reveal_strlit("0");
        reveal_strlit("1");
        reveal_strlit("2");
        reveal_strlit("3");
        reveal_strlit("4");
        reveal_strlit("5");
        reveal_strlit("6");
        reveal_strlit("7");
        reveal_strlit("8");
        reveal_strlit("9");
    }
    if d == 0 {
        "0"
    } else if d == 1 {
        "1"
    } else if d == 2 {
        "2"
    } else if d == 3 {
        "3"
    } else if d == 4 {
        "4"
    } else if d == 5 {
        "5"
    } else if d == 6 {
        "6"
    } else if d == 7 {
        "7"
    } else if d == 8 {
        "8"
    } else {
        "9"
    }
}

/// The decimal digits of `n`.
pub fn decimal_text(n: u64) -> (r: String)
    ensures
        r@ == decimal(n as nat),
{
    let mut acc = String::new();
    let mut m: u64 = n;
    while m >= 10
        invariant
            decimal(n as nat) == decimal(m as nat) + acc@,
        decreases m,
    {
        let d = digit_text(m % 10);
        proof {
            assert(decimal(m as nat) == decimal((m / 10) as nat).push(digit_char((m % 10) as nat)));
            assert(decimal((m / 10) as nat).push(digit_char((m % 10) as nat)) + acc@ =~= decimal((m / 10) as nat) + (seq![digit_char((m % 10) as nat)] + acc@));
        }
        acc = String::from_str(d).concat(acc.as_str());
        m = m / 10;
    }
    let r = String::from_str(digit_text(m)).concat(acc.as_str());
    r
}

/// The name of a p2p room created at the time `time` (as text): the digest
/// of the time followed by the literal "Private Room", in decimal.
pub fn room_name_from(time: &String) -> (r: String)
    ensures
        r@ == decimal(hash_of(time@ + "Private Room"@) as nat),
        r@.len() > 0,
{
    let mut seed = time.clone();
    seed.append("Private Room");
    let h = hash_text(seed.as_str());
    let r = decimal_text(h);
    proof {
        if h >= 10 {
            assert(decimal(h as nat) == decimal(h as nat / 10).push(digit_char(h as nat % 10)));
        }
    }
    r
}

/// A name for a new p2p room, derived from the current time and the literal
/// "Private Room", hashed. It is not unique by construction: the caller
/// checks it against the names in use.
pub fn p2p_room_name() -> (r: String)
    ensures
        exists|t: Seq<char>| r@ == decimal(hash_of(t + "Private Room"@) as nat),
        r@.len() > 0,
{
    let now = current_time_text();
    room_name_from(&now)
}

} // verus!
