//! Character-level helpers: ASCII case folding for asset symbols, decimal
//! rendering and parsing of amounts and identifiers, the memo formats, and
//! hex encoding of signing payloads.

use vstd::prelude::*;

verus! {

/// ASCII lower-casing of a single character; other characters are unchanged.
pub open spec fn fold_char(c: char) -> char {
    if 'A' <= c && c <= 'Z' {
        ((c as u8) + 32) as char
    } else {
        c
    }
}

/// ASCII case folding of a character sequence. Asset symbols compare equal
/// exactly when their folded sequences are equal.
pub open spec fn fold_seq(s: Seq<char>) -> Seq<char> {
    s.map_values(|c: char| fold_char(c))
}

/// Lower-cases one ASCII letter, leaving every other character unchanged.
pub fn fold_char_exec(c: char) -> (r: char)
    ensures
        r == fold_char(c),
{
    if 'A' <= c && c <= 'Z' {
        (((c as u8) + 32) as char)
    } else {
        c
    }
}

/// Case-insensitive comparison of two strings, by ASCII case folding.
pub fn eq_fold(a: &str, b: &str) -> (r: bool)
    ensures
        r == (fold_seq(a@) == fold_seq(b@)),
{
    let a_len = a.unicode_len();
    let b_len = b.unicode_len();
    if a_len != b_len {
        assert(fold_seq(a@).len() == a@.len());
        assert(fold_seq(b@).len() == b@.len());
        return false;
    }
    let mut i: usize = 0;
    while i < a_len
        invariant
            i <= a_len,
            a_len == a@.len(),
            a_len == b@.len(),
            forall|j: int| 0 <= j < i ==> fold_char(a@[j]) == fold_char(b@[j]),
        decreases a_len - i,
    {
        let ca = a.get_char(i);
        let cb = b.get_char(i);
        if fold_char_exec(ca) != fold_char_exec(cb) {
            assert(fold_seq(a@)[i as int] != fold_seq(b@)[i as int]);
            return false;
        }
        i = i + 1;
    }
    assert(fold_seq(a@) =~= fold_seq(b@));
    true
}

/// Exact equality of two string slices.
pub fn str_eq(a: &str, b: &str) -> (r: bool)
    ensures
        r == (a@ == b@),
{
    let a_len = a.unicode_len();
    let b_len = b.unicode_len();
    if a_len != b_len {
        return false;
    }
    let mut i: usize = 0;
    while i < a_len
        invariant
            i <= a_len,
            a_len == a@.len(),
            a_len == b@.len(),
            forall|j: int| 0 <= j < i ==> a@[j] == b@[j],
        decreases a_len - i,
    {
        if a.get_char(i) != b.get_char(i) {
            assert(a@[i as int] != b@[i as int]);
            return false;
        }
        i = i + 1;
    }
    assert(a@ =~= b@);
    true
}

/// The character for one decimal digit.
pub open spec fn digit_char(d: nat) -> char {
    ((48 + d) as u8) as char
}

/// The decimal rendering of a natural number, most significant digit first,
/// with no leading zeros (except for the number zero itself).
pub open spec fn dec_seq(n: nat) -> Seq<char>
    decreases n,
{
    if n < 10 {
        seq![digit_char(n)]
    } else {
        dec_seq(n / 10) + seq![digit_char(n % 10)]
    }
}

/// One decimal digit as a string slice.
pub fn digit_str(d: u8) -> (r: &'static str)
    requires
        d < 10,
    ensures
        r@ =~= seq![digit_char(d as nat)],
{
    proof {
        reveal_strlit("0");
        reveal_strlit("1");
        reveal_strlit("2");
        reveal_strlit("3");
        reveal_strlit("4");
        reveal_strlit("5");
        reveal_strlit("6");
        reveal_strlit("7");
        reveal_strlit("8");
        reveal_strlit("9");
    }
    match d {
        0 => "0",
        1 => "1",
        2 => "2",
        3 => "3",
        4 => "4",
        5 => "5",
        6 => "6",
        7 => "7",
        8 => "8",
        _ => "9",
    }
}

/// Renders an identifier in decimal.
pub fn u64_to_dec(n: u64) -> (r: String)
    ensures
        r@ == dec_seq(n as nat),
    decreases n,
{
    if n < 10 {
        String::from_str(digit_str(n as u8))
    } else {
        let mut s = u64_to_dec(n / 10);
        s.append(digit_str((n % 10) as u8));
        assert(s@ == dec_seq(n as nat));
        s
    }
}

/// The memo that an inbound payment for a sub-intent must carry.
pub open spec fn sub_memo_seq(id: u64) -> Seq<char> {
    "sub:"@ + dec_seq(id as nat)
}

/// The memo that the outbound transition for a sub-intent must carry.
pub open spec fn transition_memo_seq(id: u64) -> Seq<char> {
    "transition:sub:"@ + dec_seq(id as nat)
}

/// The memo that a deposit to the custody address must carry.
pub open spec fn deposit_memo_seq(user: Seq<char>, asset: Seq<char>) -> Seq<char> {
    "mpc:deposit:"@ + user + ":"@ + asset
}

/// Builds the inbound payment memo for a sub-intent.
pub fn sub_memo(id: u64) -> (r: String)
    ensures
        r@ == sub_memo_seq(id),
{
    let mut s = String::from_str("sub:");
    let d = u64_to_dec(id);
    s.append(d.as_str());
    s
}

/// Builds the outbound transition memo for a sub-intent.
pub fn transition_memo(id: u64) -> (r: String)
    ensures
        r@ == transition_memo_seq(id),
{
    let mut s = String::from_str("transition:sub:");
    let d = u64_to_dec(id);
    s.append(d.as_str());
    s
}

/// Builds the deposit memo for a user and asset.
pub fn deposit_memo(user: &str, asset: &str) -> (r: String)
    ensures
        r@ == deposit_memo_seq(user@, asset@),
{
    let mut s = String::from_str("mpc:deposit:");
    s.append(user);
    s.append(":");
    s.append(asset);
    assert(s@ == deposit_memo_seq(user@, asset@));
    s
}

/// Whether a sequence consists only of decimal digits.
pub open spec fn all_digits(s: Seq<char>) -> bool {
    forall|i: int| 0 <= i < s.len() ==> '0' <= #[trigger] s[i] && s[i] <= '9'
}

/// The value of a digit sequence read in decimal, most significant first.
pub open spec fn dec_value(s: Seq<char>) -> nat
    decreases s.len(),
{
    if s.len() == 0 {
        0
    } else {
        (dec_value(s.drop_last()) * 10 + (s.last() as int - 48)) as nat
    }
}

/// Parses a decimal number. Returns the value exactly when the string is a
/// non-empty run of digits whose value fits in 128 bits.
pub fn parse_u128(s: &str) -> (r: Option<u128>)
    ensures
        match r {
            Some(v) => s@.len() > 0 && all_digits(s@) && v == dec_value(s@)
                && dec_value(s@) <= u128::MAX,
            None => s@.len() == 0 || !all_digits(s@) || dec_value(s@) > u128::MAX,
        },
{
    let len = s.unicode_len();
    if len == 0 {
        return None;
    }
    let mut acc: u128 = 0;
    let mut i: usize = 0;
    while i < len
        invariant
            0 < len == s@.len(),
            i <= len,
            all_digits(s@.subrange(0, i as int)),
            acc == dec_value(s@.subrange(0, i as int)),
        decreases len - i,
    {
        let c = s.get_char(i);
        if c < '0' || c > '9' {
            assert(!all_digits(s@)) by {
                assert(s@[i as int] == c);
            }
            return None;
        }
        let d: u32 = (c as u32) - 48;
        let shifted = match acc.checked_mul(10) {
            Some(x) => x,
            None => {
                proof {
                    lemma_dec_value_prefix_monotone(s@, i as int);
                }
                return None;
            },
        };
        let next = match shifted.checked_add(d as u128) {
            Some(x) => x,
            None => {
                proof {
                    lemma_dec_value_prefix_monotone(s@, i as int);
                }
                return None;
            },
        };
        proof {
            assert(s@.subrange(0, i + 1).drop_last() =~= s@.subrange(0, i as int));
            assert(s@.subrange(0, i + 1).last() == c);
        }
        acc = next;
        i = i + 1;
    }
    proof {
        assert(s@.subrange(0, len as int) =~= s@);
    }
    Some(acc)
}

/// If a digit prefix up to position `i` already overflows when extended by
/// the digit at `i`, the value of the whole digit string overflows too.
proof fn lemma_dec_value_prefix_monotone(s: Seq<char>, i: int)
    requires
        0 <= i < s.len(),
        all_digits(s.subrange(0, i)),
        '0' <= s[i] && s[i] <= '9',
        dec_value(s.subrange(0, i)) * 10 + (s[i] as nat - 48) > u128::MAX,
    ensures
        !all_digits(s) || dec_value(s) > u128::MAX,
{
    if all_digits(s) {
        assert(s.subrange(0, i + 1).drop_last() =~= s.subrange(0, i));
        assert(dec_value(s.subrange(0, i + 1)) > u128::MAX);
        lemma_dec_value_extend_monotone(s, i + 1);
    }
}

/// The value of a digit string is at least the value of any of its prefixes.
proof fn lemma_dec_value_extend_monotone(s: Seq<char>, i: int)
    requires
        0 <= i <= s.len(),
        all_digits(s),
    ensures
        dec_value(s) >= dec_value(s.subrange(0, i)),
    decreases s.len() - i,
{
    if i < s.len() {
        assert(s.subrange(0, i + 1).drop_last() =~= s.subrange(0, i));
        assert(dec_value(s.subrange(0, i + 1)) >= dec_value(s.subrange(0, i)));
        lemma_dec_value_extend_monotone(s, i + 1);
    } else {
        assert(s.subrange(0, i) =~= s);
    }
}

/// The hex character for one value below sixteen.
pub open spec fn hex_digit(d: nat) -> char {
    if d < 10 {
        ((48 + d) as u8) as char
    } else {
        ((87 + d) as u8) as char
    }
}

/// Lowercase hex rendering of a byte sequence: two digits per byte, high
/// nibble first.
pub open spec fn hex_seq(bytes: Seq<u8>) -> Seq<char>
    decreases bytes.len(),
{
    if bytes.len() == 0 {
        Seq::empty()
    } else {
        hex_seq(bytes.drop_last()) + seq![
            hex_digit((bytes.last() / 16) as nat),
            hex_digit((bytes.last() % 16) as nat),
        ]
    }
}

/// Relies on hex::encode: each byte becomes two lowercase hex digits,
/// high nibble first, from the table "0123456789abcdef".
#[verifier::external_body]
pub fn hex_encode(payload: &[u8; 32]) -> (r: String)
    ensures
        r@ == hex_seq(payload@),
{
    hex::encode(payload)
}

} // verus!

