//! Ballot tokens, registration tokens and voting receipts.
//!
//! A ballot token reads `VOTE-<year>-<6 base-36 characters>`; a receipt
//! code reads `VOTE-<year>-<8 hex digits>` for invited ballots and
//! `ANON-<year>-<8 hex digits>` for anonymous ones, where the hex digits
//! are the leading segment of the ballot identifier.  A receipt is a
//! pure function of the ballot and the year, so fetching it later
//! reproduces the code issued at submission.

use vstd::prelude::*;

use crate::ids::Uid;

verus! {

/// Timestamps strictly below this bound (the first instant of year
/// 10000) have four-digit years.
pub const MAX_TOKEN_TIMESTAMP: i64 = 253402300800;

/// Names the calendar year (UTC) of a Unix timestamp, as the outside
/// date library computes it.
pub uninterp spec fn year_of(ts: i64) -> u32;

/// Relies on `chrono::DateTime::<Utc>::from_timestamp` and
/// `Datelike::year`: the year is a function of the timestamp alone, and
/// timestamps from 1970 up to year 10000 give four-digit years.
#[verifier::external_body]
pub(crate) fn timestamp_year(ts: i64) -> (r: u32)
    requires
        0 <= ts < MAX_TOKEN_TIMESTAMP,
    ensures
        r == year_of(ts),
        1970 <= r <= 9999,
{
    match chrono::DateTime::from_timestamp(ts, 0) {
        Some(dt) => chrono::Datelike::year(&dt) as u32,
        None => 1970,  // excluded by the timestamp bound
    }
}

/// Relies on `rand::thread_rng` and `Rng::gen_range`: the result lies
/// below the bound; nothing else is promised of a fresh random draw.
#[verifier::external_body]
fn random_below(bound: u32) -> (r: u32)
    requires
        bound > 0,
    ensures
        r < bound,
{
    rand::Rng::gen_range(&mut rand::thread_rng(), 0..bound)
}

/// Relies on `uuid::Uuid::new_v4` and `Uuid::as_u64_pair`: a fresh
/// random identifier; nothing is promised of its value.
#[verifier::external_body]
pub(crate) fn fresh_uid() -> (r: Uid)
{
    let (hi, lo) = uuid::Uuid::new_v4().as_u64_pair();
    Uid { hi, lo }
}

/// Relies on `String::push`: appends the character to the string.
#[verifier::external_body]
fn push_char(s: &mut String, c: char)
    ensures
        final(s)@ == old(s)@.push(c),
{
    s.push(c);
}

/// The lowercase hexadecimal digit of a value below 16.
pub open spec fn hex_digit(d: int) -> char {
    if d == 0 {
        '0'
    } else if d == 1 {
        '1'
    } else if d == 2 {
        '2'
    } else if d == 3 {
        '3'
    } else if d == 4 {
        '4'
    } else if d == 5 {
        '5'
    } else if d == 6 {
        '6'
    } else if d == 7 {
        '7'
    } else if d == 8 {
        '8'
    } else if d == 9 {
        '9'
    } else if d == 10 {
        'a'
    } else if d == 11 {
        'b'
    } else if d == 12 {
        'c'
    } else if d == 13 {
        'd'
    } else if d == 14 {
        'e'
    } else {
        'f'
    }
}

/// The decimal digit of a value below 10.
pub open spec fn dec_digit(d: int) -> char {
    if d <= 9 {
        hex_digit(d)
    } else {
        '9'
    }
}

/// The last `n` hexadecimal digits of `x`, most significant first.
pub open spec fn hex_digits(x: int, n: int) -> Seq<char>
    decreases n,
{
    if n <= 0 {
        Seq::empty()
    } else {
        hex_digits(x / 16, n - 1).push(hex_digit(x % 16))
    }
}

/// The last `n` decimal digits of `x`, most significant first.
pub open spec fn dec_digits(x: int, n: int) -> Seq<char>
    decreases n,
{
    if n <= 0 {
        Seq::empty()
    } else {
        dec_digits(x / 10, n - 1).push(dec_digit(x % 10))
    }
}

/// The base-36 character of a value below 36: the letters then the
/// digits.
pub open spec fn b36_spec(d: int) -> char {
    if d == 0 {
        'A'
    } else if d == 1 {
        'B'
    } else if d == 2 {
        'C'
    } else if d == 3 {
        'D'
    } else if d == 4 {
        'E'
    } else if d == 5 {
        'F'
    } else if d == 6 {
        'G'
    } else if d == 7 {
        'H'
    } else if d == 8 {
        'I'
    } else if d == 9 {
        'J'
    } else if d == 10 {
        'K'
    } else if d == 11 {
        'L'
    } else if d == 12 {
        'M'
    } else if d == 13 {
        'N'
    } else if d == 14 {
        'O'
    } else if d == 15 {
        'P'
    } else if d == 16 {
        'Q'
    } else if d == 17 {
        'R'
    } else if d == 18 {
        'S'
    } else if d == 19 {
        'T'
    } else if d == 20 {
        'U'
    } else if d == 21 {
        'V'
    } else if d == 22 {
        'W'
    } else if d == 23 {
        'X'
    } else if d == 24 {
        'Y'
    } else if d == 25 {
        'Z'
    } else if d == 26 {
        '0'
    } else if d == 27 {
        '1'
    } else if d == 28 {
        '2'
    } else if d == 29 {
        '3'
    } else if d == 30 {
        '4'
    } else if d == 31 {
        '5'
    } else if d == 32 {
        '6'
    } else if d == 33 {
        '7'
    } else if d == 34 {
        '8'
    } else {
        '9'
    }
}

/// The leading eight hex digits of a ballot identifier: the first
/// segment of its canonical form.
pub open spec fn id_first_segment(id: Uid) -> Seq<char> {
    hex_digits(id.hi as int / 0x1_0000_0000, 8)
}

/// The receipt code for a ballot: prefix, four-digit year, and the
/// ballot identifier's first segment.
pub open spec fn spec_receipt_code(anonymous: bool, year: int, id: Uid) -> Seq<char> {
    (if anonymous {
        "ANON-"@
    } else {
        "VOTE-"@
    }) + dec_digits(year, 4) + "-"@ + id_first_segment(id)
}

/// A ballot token built from a year and six draws below 36.
pub open spec fn spec_ballot_token(year: int, picks: Seq<u8>) -> Seq<char> {
    "VOTE-"@ + dec_digits(year, 4) + "-"@ + picks.map_values(|p: u8| b36_spec(p as int))
}

/// `s` has the shape of a ballot token for `year`: the prefix, the
/// four-digit year, and six characters drawn from the base-36 alphabet.
pub open spec fn is_ballot_token(s: Seq<char>, year: int) -> bool {
    exists|picks: Seq<u8>|
        picks.len() == 6 && (forall|i: int| 0 <= i < 6 ==> #[trigger] picks[i] < 36) && s
            == spec_ballot_token(year, picks)
}

/// The canonical hyphenated form of an identifier: five groups of
/// lowercase hex digits, 8-4-4-4-12.
pub open spec fn spec_uid_hyphenated(id: Uid) -> Seq<char> {
    hex_digits(id.hi as int / 0x1_0000_0000, 8) + "-"@ + hex_digits(
        (id.hi as int / 0x1_0000) % 0x1_0000,
        4,
    ) + "-"@ + hex_digits(id.hi as int % 0x1_0000, 4) + "-"@ + hex_digits(
        id.lo as int / 0x1_0000_0000_0000,
        4,
    ) + "-"@ + hex_digits(id.lo as int % 0x1_0000_0000_0000, 12)
}

/// Append the last `n` hex digits of `x`, most significant first.
fn push_hex(s: &mut String, x: u64, n: usize)
    ensures
        final(s)@ == old(s)@ + hex_digits(x as int, n as int),
    decreases n,
{
    if n == 0 {
        assert(final(s)@ =~= old(s)@ + hex_digits(x as int, 0));
        return ;
    }
    push_hex(s, x / 16, n - 1);
    let d = x % 16;
    let c: char = if d == 0 {
        '0'
    } else if d == 1 {
        '1'
    } else if d == 2 {
        '2'
    } else if d == 3 {
        '3'
    } else if d == 4 {
        '4'
    } else if d == 5 {
        '5'
    } else if d == 6 {
        '6'
    } else if d == 7 {
        '7'
    } else if d == 8 {
        '8'
    } else if d == 9 {
        '9'
    } else if d == 10 {
        'a'
    } else if d == 11 {
        'b'
    } else if d == 12 {
        'c'
    } else if d == 13 {
        'd'
    } else if d == 14 {
        'e'
    } else {
        'f'
    };
    assert(c == hex_digit(x as int % 16));
    push_char(s, c);
    assert(final(s)@ =~= old(s)@ + hex_digits(x as int, n as int));
}

/// Append the last `n` decimal digits of `x`, most significant first.
fn push_dec(s: &mut String, x: u64, n: usize)
    ensures
        final(s)@ == old(s)@ + dec_digits(x as int, n as int),
    decreases n,
{
    if n == 0 {
        assert(final(s)@ =~= old(s)@ + dec_digits(x as int, 0));
        return ;
    }
    push_dec(s, x / 10, n - 1);
    let d = x % 10;
    let c: char = if d == 0 {
        '0'
    } else if d == 1 {
        '1'
    } else if d == 2 {
        '2'
    } else if d == 3 {
        '3'
    } else if d == 4 {
        '4'
    } else if d == 5 {
        '5'
    } else if d == 6 {
        '6'
    } else if d == 7 {
        '7'
    } else if d == 8 {
        '8'
    } else {
        '9'
    };
    assert(c == dec_digit(x as int % 10));
    push_char(s, c);
    assert(final(s)@ =~= old(s)@ + dec_digits(x as int, n as int));
}

/// The receipt code for a ballot submitted in the given year.
pub fn receipt_code(anonymous: bool, year: u32, ballot_id: &Uid) -> (r: String)
    requires
        year <= 9999,
    ensures
        r@ == spec_receipt_code(anonymous, year as int, *ballot_id),
{
    let mut s = if anonymous {
        String::from_str("ANON-")
    } else {
        String::from_str("VOTE-")
    };
    push_dec(&mut s, year as u64, 4);
    s.append("-");
    push_hex(&mut s, ballot_id.hi / 0x1_0000_0000, 8);
    proof {
        assert(ballot_id.hi as int / 0x1_0000_0000 == (ballot_id.hi / 0x1_0000_0000u64) as int);
        assert(s@ =~= spec_receipt_code(anonymous, year as int, *ballot_id));
    }
    s
}

/// A fresh single-use ballot token for the year of `now`: the prefix,
/// the four-digit year, and six random characters from the base-36
/// alphabet.
pub fn new_ballot_token(now: i64) -> (r: String)
    requires
        0 <= now < MAX_TOKEN_TIMESTAMP,
    ensures
        is_ballot_token(r@, year_of(now) as int),
        r@.len() == 16,
{
    let year = timestamp_year(now);
    let mut s = String::from_str("VOTE-");
    push_dec(&mut s, year as u64, 4);
    s.append("-");
    let ghost head = s@;
    let mut picks: Vec<u8> = Vec::new();
    let mut i: usize = 0;
    proof {
        assert(picks@.map_values(|p: u8| b36_spec(p as int)) =~= Seq::<char>::empty());
        assert(s@ =~= head + picks@.map_values(|p: u8| b36_spec(p as int)));
    }
    while i < 6
        invariant
            0 <= i <= 6,
            picks@.len() == i,
            forall|j: int| 0 <= j < i ==> picks@[j] < 36,
            s@ == head + picks@.map_values(|p: u8| b36_spec(p as int)),
        decreases 6 - i,
    {
        let ghost picks0 = picks@;
        let p = random_below(36) as u8;
        picks.push(p);
        let c = b36_char(p);
        push_char(&mut s, c);
        proof {
            assert(picks@ == picks0.push(p));
            assert(picks@.map_values(|p: u8| b36_spec(p as int)) =~= picks0.map_values(
                |p: u8| b36_spec(p as int),
            ).push(b36_spec(p as int)));
            assert(s@ =~= head + picks@.map_values(|p: u8| b36_spec(p as int)));
        }
        i += 1;
    }
    proof {
        assert(s@ == spec_ballot_token(year_of(now) as int, picks@));
        assert(is_ballot_token(s@, year_of(now) as int));
        reveal_strlit("VOTE-");
        reveal_strlit("-");
        lemma_dec_digits_len(year as int, 4);
        assert(s@.len() == 16);
    }
    s
}

/// The base-36 character for a value below 36.
fn b36_char(p: u8) -> (c: char)
    requires
        p < 36,
    ensures
        c == b36_spec(p as int),
{
    if p == 0 {
        'A'
    } else if p == 1 {
        'B'
    } else if p == 2 {
        'C'
    } else if p == 3 {
        'D'
    } else if p == 4 {
        'E'
    } else if p == 5 {
        'F'
    } else if p == 6 {
        'G'
    } else if p == 7 {
        'H'
    } else if p == 8 {
        'I'
    } else if p == 9 {
        'J'
    } else if p == 10 {
        'K'
    } else if p == 11 {
        'L'
    } else if p == 12 {
        'M'
    } else if p == 13 {
        'N'
    } else if p == 14 {
        'O'
    } else if p == 15 {
        'P'
    } else if p == 16 {
        'Q'
    } else if p == 17 {
        'R'
    } else if p == 18 {
        'S'
    } else if p == 19 {
        'T'
    } else if p == 20 {
        'U'
    } else if p == 21 {
        'V'
    } else if p == 22 {
        'W'
    } else if p == 23 {
        'X'
    } else if p == 24 {
        'Y'
    } else if p == 25 {
        'Z'
    } else if p == 26 {
        '0'
    } else if p == 27 {
        '1'
    } else if p == 28 {
        '2'
    } else if p == 29 {
        '3'
    } else if p == 30 {
        '4'
    } else if p == 31 {
        '5'
    } else if p == 32 {
        '6'
    } else if p == 33 {
        '7'
    } else if p == 34 {
        '8'
    } else {
        '9'
    }
}

/// A fresh registration token: the prefix `reg_` followed by the
/// canonical hyphenated form of a random identifier.
pub fn new_registration_token() -> (r: String)
    ensures
        exists|u: Uid| r@ == "reg_"@ + spec_uid_hyphenated(u),
        r@.len() == 40,
{
    let u = fresh_uid();
    let mut s = String::from_str("reg_");
    push_hex(&mut s, u.hi / 0x1_0000_0000, 8);
    s.append("-");
    push_hex(&mut s, (u.hi / 0x1_0000) % 0x1_0000, 4);
    s.append("-");
    push_hex(&mut s, u.hi % 0x1_0000, 4);
    s.append("-");
    push_hex(&mut s, u.lo / 0x1_0000_0000_0000, 4);
    s.append("-");
    push_hex(&mut s, u.lo % 0x1_0000_0000_0000, 12);
    proof {
        assert(s@ =~= "reg_"@ + spec_uid_hyphenated(u));
        reveal_strlit("reg_");
        reveal_strlit("-");
        lemma_hex_digits_len(u.hi as int / 0x1_0000_0000, 8);
        lemma_hex_digits_len((u.hi as int / 0x1_0000) % 0x1_0000, 4);
        lemma_hex_digits_len(u.hi as int % 0x1_0000, 4);
        lemma_hex_digits_len(u.lo as int / 0x1_0000_0000_0000, 4);
        lemma_hex_digits_len(u.lo as int % 0x1_0000_0000_0000, 12);
        assert(s@.len() == 40);
    }
    s
}

proof fn lemma_dec_digits_len(x: int, n: int)
    requires
        n >= 0,
    ensures
        dec_digits(x, n).len() == n,
    decreases n,
{
    if n > 0 {
        lemma_dec_digits_len(x / 10, n - 1);
    }
}

proof fn lemma_hex_digits_len(x: int, n: int)
    requires
        n >= 0,
    ensures
        hex_digits(x, n).len() == n,
    decreases n,
{
    if n > 0 {
        lemma_hex_digits_len(x / 16, n - 1);
    }
}

} // verus!
