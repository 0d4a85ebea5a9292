//! Header parsing: scan the leading bytes of a source file for its injection
//! address, an 8-character hexadecimal token whose first character is the
//! ASCII digit `8`, and check that the file ends in a newline.

use vstd::prelude::*;

verus! {

/// Why a source file's header was rejected.
#[derive(Clone, Copy, PartialEq, Eq, Structural, Debug)]
pub enum HeaderError {
    /// No address token stands in the lookahead window.
    MissingAddress,
    /// The file's last byte is not a newline.
    NotNewlineTerminated,
}

/// ASCII `8`, the required first character of an address token.
pub const DIGIT_EIGHT: u8 = 56;

/// ASCII newline.
pub const NEWLINE: u8 = 10;

/// How many leading bytes of a source file are searched for the token.
pub const LOOKAHEAD: usize = 512;

pub open spec fn is_hex_digit(c: u8) -> bool {
    (48 <= c && c <= 57)  // '0'..='9'
    || (97 <= c && c <= 102)  // 'a'..='f'
    || (65 <= c && c <= 70)  // 'A'..='F'
}

pub open spec fn hex_val(c: u8) -> int {
    if 48 <= c && c <= 57 {
        c - 48
    } else if 97 <= c && c <= 102 {
        c - 97 + 10
    } else {
        c - 65 + 10
    }
}

/// An address token stands at position `i`: eight hex digits, the first of
/// which is the digit `8`.
pub open spec fn token_at(s: Seq<u8>, i: int) -> bool {
    &&& 0 <= i
    &&& i + 8 <= s.len()
    &&& s[i] == DIGIT_EIGHT
    &&& forall|j: int| i <= j < i + 8 ==> is_hex_digit(s[j])
}

/// The value of the first `k` digits of the token at position `i`.
pub open spec fn token_prefix_val(s: Seq<u8>, i: int, k: int) -> int
    decreases k,
{
    if k <= 0 {
        0
    } else {
        token_prefix_val(s, i, k - 1) * 16 + hex_val(s[i + k - 1])
    }
}

/// The integer value of the 8-digit token at position `i`.
pub open spec fn token_val(s: Seq<u8>, i: int) -> int {
    token_prefix_val(s, i, 8)
}

pub open spec fn pow16(k: int) -> int
    decreases k,
{
    if k <= 0 {
        1
    } else {
        16 * pow16(k - 1)
    }
}

/// The first token found scanning left to right from position `i`, if any.
pub open spec fn find_spec(s: Seq<u8>, i: int) -> Option<u32>
    decreases s.len() - i,
{
    if i + 8 > s.len() {
        None
    } else if token_at(s, i) {
        Some(token_val(s, i) as u32)
    } else {
        find_spec(s, i + 1)
    }
}

/// The address of the first token in the window, if any.
pub open spec fn first_addr(s: Seq<u8>) -> Option<u32> {
    find_spec(s, 0)
}

/// What header parsing returns for a window of leading bytes and the file's
/// last byte: the first token's value, unless no token stands in the window
/// (`MissingAddress`, checked first) or the last byte is not a newline.
pub open spec fn header_spec(s: Seq<u8>, last: u8) -> Result<u32, HeaderError> {
    match first_addr(s) {
        None => Err(HeaderError::MissingAddress),
        Some(v) => if last != NEWLINE {
            Err(HeaderError::NotNewlineTerminated)
        } else {
            Ok(v)
        },
    }
}

proof fn lemma_pow16_pos(k: int)
    ensures
        pow16(k) >= 1,
    decreases k,
{
    if k > 0 {
        lemma_pow16_pos(k - 1);
    }
}

proof fn lemma_prefix_bounds(s: Seq<u8>, i: int, k: int)
    requires
        token_at(s, i),
        0 <= k <= 8,
    ensures
        0 <= token_prefix_val(s, i, k) < pow16(k),
        k >= 1 ==> token_prefix_val(s, i, k) >= 8 * pow16(k - 1),
    decreases k,
{
    if k > 0 {
        lemma_prefix_bounds(s, i, k - 1);
        assert(is_hex_digit(s[i + k - 1]));
        assert(0 <= hex_val(s[i + k - 1]) < 16);
        if k == 1 {
            assert(hex_val(s[i]) == 8);
        } else {
            lemma_pow16_pos(k - 2);
        }
    }
}

/// The value of any address token lies in the upper half of the 32-bit range.
pub proof fn lemma_token_val_range(s: Seq<u8>, i: int)
    requires
        token_at(s, i),
    ensures
        0x8000_0000 <= token_val(s, i) < 0x1_0000_0000,
{
    lemma_prefix_bounds(s, i, 8);
    reveal_with_fuel(pow16, 9);
    assert(pow16(8) == 0x1_0000_0000);
    assert(pow16(7) == 0x1000_0000);
}

proof fn lemma_find_spec_some_ge(s: Seq<u8>, i: int)
    requires
        find_spec(s, i) is Some,
    ensures
        find_spec(s, i)->Some_0 >= 0x8000_0000,
    decreases s.len() - i,
{
    if i + 8 <= s.len() {
        if token_at(s, i) {
            lemma_token_val_range(s, i);
        } else {
            lemma_find_spec_some_ge(s, i + 1);
        }
    }
}

/// Scan the window for the first address token, left to right.
pub fn find_address(window: &[u8]) -> (r: Option<u32>)
    ensures
        r == first_addr(window@),
{
    if window.len() < 8 {
        return None;
    }
    let mut p: usize = 0;
    while p <= window.len() - 8
        invariant
            8 <= window.len(),
            p <= window.len() - 8 + 1,
            find_spec(window@, 0) == find_spec(window@, p as int),
        decreases window.len() - p,
    {
        let ghost gi = p as int;
        if window[p] == DIGIT_EIGHT {
            let mut v: u32 = 0;
            let mut k: usize = 0;
            let mut ok: bool = true;
            while k < 8
                invariant
                    8 <= window.len(),
                    p <= window.len() - 8,
                    k <= 8,
                    ok ==> forall|j: int| gi <= j < gi + k ==> is_hex_digit(window@[j]),
                    ok ==> v == token_prefix_val(window@, gi, k as int),
                    ok ==> v < pow16(k as int),
                    gi == p as int,
                    !ok ==> !token_at(window@, gi),
                decreases 8 - k,
            {
                let c = window[p + k];
                if !ok {
                    // keep stepping to the fixed width; nothing more to record
                    k = k + 1;
                } else {
                    proof {
                        reveal_with_fuel(pow16, 9);
                        assert(pow16(k as int) <= pow16(7)) by {
                            lemma_pow16_mono(k as int, 7);
                        };
                    }
                    let d: u32 = if 48 <= c && c <= 57 {
                        (c - 48) as u32
                    } else if 97 <= c && c <= 102 {
                        (c - 97 + 10) as u32
                    } else if 65 <= c && c <= 70 {
                        (c - 65 + 10) as u32
                    } else {
                        ok = false;
                        0
                    };
                    if ok {
                        assert(v < 0x1000_0000);
                        v = v * 16 + d;
                        assert(v == token_prefix_val(window@, gi, k as int + 1));
                    } else {
                        assert(!is_hex_digit(window@[gi + k]));
                        assert(!token_at(window@, gi));
                    }
                    k = k + 1;
                }
            }
            if ok {
                proof {
                    assert(token_at(window@, gi));
                    assert(find_spec(window@, gi) == Some((token_val(window@, gi) as u32)));
                }
                return Some(v);
            }
        } else {
            proof {
                assert(!token_at(window@, gi));
            }
        }
        proof {
            assert(find_spec(window@, gi) == find_spec(window@, gi + 1));
        }
        p = p + 1;
    }
    proof {
        assert(find_spec(window@, p as int) == None::<u32>);
    }
    None
}

proof fn lemma_pow16_mono(a: int, b: int)
    requires
        a <= b,
    ensures
        pow16(a) <= pow16(b),
    decreases b - a,
{
    if a < b {
        lemma_pow16_mono(a, b - 1);
        lemma_pow16_pos(b - 1);
    }
}

/// Parse a source file's header: `window` holds the file's leading bytes (at
/// most the lookahead limit), `last_byte` the file's final byte. Returns the
/// first address token's value; fails with `MissingAddress` when the window
/// holds no token, and otherwise with `NotNewlineTerminated` when the file
/// does not end in a newline.
pub fn parse_header(window: &[u8], last_byte: u8) -> (r: Result<u32, HeaderError>)
    ensures
        r == header_spec(window@, last_byte),
        r matches Ok(v) ==> v >= 0x8000_0000,
{
    proof {
        if first_addr(window@) is Some {
            lemma_find_spec_some_ge(window@, 0);
        }
    }
    match find_address(window) {
        None => Err(HeaderError::MissingAddress),
        Some(v) => if last_byte != NEWLINE {
            Err(HeaderError::NotNewlineTerminated)
        } else {
            Ok(v)
        },
    }
}

proof fn lemma_find_spec_reaches(s: Seq<u8>, q: int, i: int)
    requires
        0 <= q <= i,
        token_at(s, i),
        forall|t: int| q <= t < i ==> !token_at(s, t),
    ensures
        find_spec(s, q) == Some((token_val(s, i) as u32)),
    decreases i - q,
{
    if q < i {
        lemma_find_spec_reaches(s, q + 1, i);
    }
}

/// Law: a valid address token placed anywhere in the window of a
/// newline-terminated file is recovered exactly, provided no token stands
/// before it (the scan is first-match-wins).
pub proof fn lemma_first_token_recovered(s: Seq<u8>, i: int, last: u8)
    requires
        token_at(s, i),
        forall|q: int| 0 <= q < i ==> !token_at(s, q),
        last == NEWLINE,
    ensures
        header_spec(s, last) == Ok::<u32, HeaderError>(token_val(s, i) as u32),
        token_val(s, i) as u32 == token_val(s, i),
{
    lemma_find_spec_reaches(s, 0, i);
    lemma_token_val_range(s, i);
}

proof fn lemma_find_spec_none(s: Seq<u8>, q: int)
    requires
        forall|t: int| #[trigger] token_at(s, t) == false,
    ensures
        find_spec(s, q) == None::<u32>,
    decreases s.len() - q,
{
    if q + 8 <= s.len() {
        assert(!token_at(s, q));
        lemma_find_spec_none(s, q + 1);
    }
}

/// Law: a window holding no address token fails with `MissingAddress`,
/// whatever the rest of the file holds.
pub proof fn lemma_no_token_missing_address(s: Seq<u8>, last: u8)
    requires
        forall|t: int| #[trigger] token_at(s, t) == false,
    ensures
        header_spec(s, last) == Err::<u32, HeaderError>(HeaderError::MissingAddress),
{
    lemma_find_spec_none(s, 0);
}

proof fn lemma_find_spec_some(s: Seq<u8>, q: int, i: int)
    requires
        0 <= q <= i,
        token_at(s, i),
    ensures
        find_spec(s, q) is Some,
    decreases i - q,
{
    if token_at(s, q) {
    } else if q < i {
        lemma_find_spec_some(s, q + 1, i);
    }
}

/// Law: a file that does not end in a newline is rejected with
/// `NotNewlineTerminated`, for every window that holds an address token.
/// (When the window holds no token, `MissingAddress` takes precedence.)
pub proof fn lemma_missing_newline_rejected(s: Seq<u8>, i: int, last: u8)
    requires
        token_at(s, i),
        last != NEWLINE,
    ensures
        header_spec(s, last) == Err::<u32, HeaderError>(HeaderError::NotNewlineTerminated),
{
    lemma_find_spec_some(s, 0, i);
}

} // verus!
