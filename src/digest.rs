//! SHA-1 digests, their hexadecimal form, and how recorded digests are compared.
use vstd::prelude::*;

verus! {

/// What SHA-1 makes of `data`, written as lowercase hexadecimal.
pub uninterp spec fn sha1_hex(data: Seq<u8>) -> Seq<char>;

/// Relies on `sha1::Sha1` (`new`, `update`, `hexdigest`): the hex digest of `input`.
#[verifier::external_body]
pub(crate) fn sha1_digest(input: &[u8]) -> (r: String)
    ensures
        r@ == sha1_hex(input@),
{
    let mut digest = sha1::Sha1::new();
    digest.update(input);
    digest.hexdigest()
}

pub open spec fn hex_digits() -> Seq<char> {
    "0123456789abcdef"@
}

/// Two lowercase hexadecimal digits for each byte.
pub open spec fn hex_of(b: Seq<u8>) -> Seq<char>
    decreases b.len(),
{
    if b.len() == 0 {
        Seq::empty()
    } else {
        hex_of(b.drop_last()) + seq![
            hex_digits()[b.last() as int / 16],
            hex_digits()[b.last() as int % 16],
        ]
    }
}

/// Writes `input` as lowercase hexadecimal, two digits per byte.
pub fn to_hex(input: &[u8]) -> (r: String)
    ensures
        r@ == hex_of(input@),
{
    let digits = "0123456789abcdef";
    proof {
        reveal_strlit("0123456789abcdef");
    }
    let mut s = String::new();
    let mut i: usize = 0;
    while i < input.len()
        invariant
            i <= input@.len(),
            digits@ == hex_digits(),
            digits@.len() == 16,
            s@ == hex_of(input@.subrange(0, i as int)),
        decreases input.len() - i,
    {
        let b = input[i];
        let hi = (b / 16) as usize;
        let lo = (b % 16) as usize;
        s.append(digits.substring_char(hi, hi + 1));
        s.append(digits.substring_char(lo, lo + 1));
        assert(input@.subrange(0, i as int + 1).drop_last() =~= input@.subrange(0, i as int));
        assert(s@ =~= hex_of(input@.subrange(0, i as int + 1)));
        i = i + 1;
    }
    assert(input@.subrange(0, input@.len() as int) =~= input@);
    s
}

pub open spec fn is_ascii_upper(c: char) -> bool {
    'A' <= c <= 'Z'
}

/// `a` and `b` are the same character up to ASCII case.
pub open spec fn same_ignoring_case(a: char, b: char) -> bool {
    a == b || (is_ascii_upper(a) && b as u32 == a as u32 + 32) || (is_ascii_upper(b) && a as u32
        == b as u32 + 32)
}

/// A recorded hex digest matches a computed one: same text up to ASCII case.
pub open spec fn digests_match(recorded: Seq<char>, computed: Seq<char>) -> bool {
    recorded.len() == computed.len() && forall|i: int|
        0 <= i < recorded.len() ==> same_ignoring_case(recorded[i], computed[i])
}

/// Compares a recorded digest with a computed one, ignoring ASCII case.
pub fn digest_matches(recorded: &str, computed: &str) -> (r: bool)
    ensures
        r == digests_match(recorded@, computed@),
{
    let n = recorded.unicode_len();
    if n != computed.unicode_len() {
        return false;
    }
    let mut i: usize = 0;
    while i < n
        invariant
            n == recorded@.len(),
            n == computed@.len(),
            i <= n,
            forall|j: int| 0 <= j < i ==> same_ignoring_case(recorded@[j], computed@[j]),
        decreases n - i,
    {
        let a = recorded.get_char(i);
        let b = computed.get_char(i);
        let same = a == b || (('A' <= a && a <= 'Z') && (b as u32) == (a as u32) + 32) || (('A'
            <= b && b <= 'Z') && (a as u32) == (b as u32) + 32);
        if !same {
            return false;
        }
        i = i + 1;
    }
    true
}

} // verus!
