//! Base64 text for bodies that are not text.
use base64::engine::general_purpose::STANDARD;
use base64::Engine;
use vstd::prelude::*;

verus! {

/// Byte `i` of `s`, and zero behind its end.
pub open spec fn byte_at(s: Seq<u8>, i: int) -> int {
    if i < s.len() {
        s[i] as int
    } else {
        0
    }
}

/// The bytes of group `g` of three, as one number.
pub open spec fn group(s: Seq<u8>, g: int) -> int {
    byte_at(s, 3 * g) * 65536 + byte_at(s, 3 * g + 1) * 256 + byte_at(s, 3 * g + 2)
}

/// Digit `k` of a group, in base 64, with the highest digit first.
pub open spec fn sextet(group: int, k: int) -> int {
    if k == 0 {
        group / 262144
    } else if k == 1 {
        group / 4096 % 64
    } else if k == 2 {
        group / 64 % 64
    } else {
        group % 64
    }
}

/// The character for a digit in base 64.
pub open spec fn symbol(d: int) -> char {
    if d < 26 {
        (65 + d) as char
    } else if d < 52 {
        (71 + d) as char
    } else if d < 62 {
        (d - 4) as char
    } else if d == 62 {
        '+'
    } else {
        '/'
    }
}

/// Character `j` of `s` in base64: a digit of group `j / 4`, or `=` where no
/// byte reaches it.
pub open spec fn base64_char(s: Seq<u8>, j: int) -> char {
    if 3 * (j / 4) + j % 4 > s.len() {
        '='
    } else {
        symbol(sextet(group(s, j / 4), j % 4))
    }
}

/// `s` in base64: four characters for each group of three bytes.
pub open spec fn base64(s: Seq<u8>) -> Seq<char> {
    Seq::new((4 * ((s.len() + 2) / 3)) as nat, |j: int| base64_char(s, j))
}

/// `Engine::encode` of the engine `STANDARD`: base64 with the standard alphabet
/// and padding. The bound keeps the length of the text within what a string
/// can hold.
#[verifier::external_body]
pub(crate) fn encode_base64(data: &Vec<u8>) -> (r: String)
    requires
        data@.len() <= usize::MAX / 4,
    ensures
        r@ == base64(data@),
{
    STANDARD.encode(data)
}

proof fn lemma_symbol_injective(a: int, b: int)
    requires
        0 <= a < 64,
        0 <= b < 64,
        symbol(a) == symbol(b),
    ensures
        a == b,
{
}

proof fn lemma_symbol_not_pad(a: int)
    requires
        0 <= a < 64,
    ensures
        symbol(a) != '=',
{
}

proof fn lemma_group_range(s: Seq<u8>, g: int)
    requires
        0 <= g,
    ensures
        0 <= group(s, g) < 16777216,
        forall|k: int| 0 <= k < 4 ==> 0 <= #[trigger] sextet(group(s, g), k) < 64,
{
}

proof fn lemma_group_bytes(s: Seq<u8>, g: int)
    requires
        0 <= g,
    ensures
        byte_at(s, 3 * g) == group(s, g) / 65536,
        byte_at(s, 3 * g + 1) == group(s, g) / 256 % 256,
        byte_at(s, 3 * g + 2) == group(s, g) % 256,
{
}

proof fn lemma_group_digits(n: int)
    requires
        0 <= n < 16777216,
    ensures
        n == sextet(n, 0) * 262144 + sextet(n, 1) * 4096 + sextet(n, 2) * 64 + sextet(n, 3),
{
}

/// How many bytes the last group holds shows in the padding.
proof fn lemma_same_length(a: Seq<u8>, b: Seq<u8>)
    requires
        base64(a) == base64(b),
    ensures
        a.len() == b.len(),
{
    let n = ((a.len() + 2) / 3) as int;
    assert(base64(a).len() == 4 * n);
    assert(base64(b).len() == 4 * ((b.len() + 2) / 3));
    if a.len() != b.len() && n > 0 {
        let j2 = 4 * n - 2;
        let j3 = 4 * n - 1;
        assert(j2 / 4 == n - 1 && j2 % 4 == 2 && j3 / 4 == n - 1 && j3 % 4 == 3);
        lemma_group_range(a, n - 1);
        lemma_group_range(b, n - 1);
        lemma_symbol_not_pad(sextet(group(a, n - 1), 2));
        lemma_symbol_not_pad(sextet(group(a, n - 1), 3));
        lemma_symbol_not_pad(sextet(group(b, n - 1), 2));
        lemma_symbol_not_pad(sextet(group(b, n - 1), 3));
        assert(base64(a)[j2] == base64_char(a, j2) && base64(b)[j2] == base64_char(b, j2));
        assert(base64(a)[j3] == base64_char(a, j3) && base64(b)[j3] == base64_char(b, j3));
    }
}

/// Base64 loses nothing: two bodies with the same text are the same body.
pub proof fn base64_loses_nothing(a: Seq<u8>, b: Seq<u8>)
    requires
        base64(a) == base64(b),
    ensures
        a == b,
{
    lemma_same_length(a, b);
    assert forall|i: int| 0 <= i < a.len() implies a[i] == b[i] by {
        let g = i / 3;
        lemma_group_range(a, g);
        lemma_group_range(b, g);
        lemma_group_digits(group(a, g));
        lemma_group_digits(group(b, g));
        assert forall|k: int| 0 <= k < 4 implies sextet(group(a, g), k) == sextet(group(b, g), k) by {
            let j = 4 * g + k;
            assert(j / 4 == g && j % 4 == k);
            assert(j < base64(a).len());
            if 3 * g + k > a.len() {
                lemma_short_group(a, g, k);
                lemma_short_group(b, g, k);
            } else {
                assert(base64(a)[j] == base64_char(a, j) && base64(b)[j] == base64_char(b, j));
                lemma_symbol_injective(sextet(group(a, g), k), sextet(group(b, g), k));
            }
        }
        lemma_group_bytes(a, g);
        lemma_group_bytes(b, g);
        assert(sextet(group(a, g), 0) == sextet(group(b, g), 0));
        assert(sextet(group(a, g), 1) == sextet(group(b, g), 1));
        assert(sextet(group(a, g), 2) == sextet(group(b, g), 2));
        assert(sextet(group(a, g), 3) == sextet(group(b, g), 3));
        assert(group(a, g) == group(b, g));
        assert(i == 3 * g || i == 3 * g + 1 || i == 3 * g + 2);
        assert(byte_at(a, i) == byte_at(b, i));
    }
    assert(a =~= b);
}

/// Where a group is padded, the digits that are not written are zero.
proof fn lemma_short_group(s: Seq<u8>, g: int, k: int)
    requires
        0 <= g,
        3 * g < s.len(),
        0 <= k < 4,
        3 * g + k > s.len(),
    ensures
        sextet(group(s, g), k) == 0,
{
}

} // verus!
