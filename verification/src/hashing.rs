//! The leaf encoder: an identity's bytes are rendered as uppercase hex and
//! then digested, and internal nodes are digests of the concatenation of
//! their two children.

use vstd::prelude::*;

verus! {

/// The hex digest that `sha256::digest` computes for a string; it depends on
/// the characters of the input alone.
pub uninterp spec fn sha_of(s: Seq<char>) -> Seq<char>;

/// Relies on sha256::digest: a deterministic hex digest of the input text.
#[verifier::external_body]
pub(crate) fn digest_str(s: &str) -> (r: String)
    ensures
        r@ == sha_of(s@),
{
    sha256::digest(s)
}

/// The digest of the concatenation of two node texts, left first: the hash of
/// a parent node in the tree.
pub open spec fn hash2(a: Seq<char>, b: Seq<char>) -> Seq<char> {
    sha_of(a + b)
}

/// Uppercase hex digit for a nibble value.
pub open spec fn spec_nibble_char(n: int) -> char {
    if n == 0 {
        '0'
    } else if n == 1 {
        '1'
    } else if n == 2 {
        '2'
    } else if n == 3 {
        '3'
    } else if n == 4 {
        '4'
    } else if n == 5 {
        '5'
    } else if n == 6 {
        '6'
    } else if n == 7 {
        '7'
    } else if n == 8 {
        '8'
    } else if n == 9 {
        '9'
    } else if n == 10 {
        'A'
    } else if n == 11 {
        'B'
    } else if n == 12 {
        'C'
    } else if n == 13 {
        'D'
    } else if n == 14 {
        'E'
    } else {
        'F'
    }
}

/// Each byte rendered as two uppercase hex digits, concatenated in order with
/// no separators.
pub open spec fn hex_upper_of(bytes: Seq<u8>) -> Seq<char> {
    Seq::new(
        bytes.len() * 2,
        |i: int|
            if i % 2 == 0 {
                spec_nibble_char(bytes[i / 2] as int / 16)
            } else {
                spec_nibble_char(bytes[i / 2] as int % 16)
            },
    )
}

/// The leaf value committed for an identity: the digest of its uppercase hex
/// rendering.
pub open spec fn leaf_of(identity: Seq<u8>) -> Seq<char> {
    sha_of(hex_upper_of(identity))
}

fn nibble_str(n: u8) -> (r: &'static str)
    requires
        n < 16,
    ensures
        r@.len() == 1,
        r@[0] == spec_nibble_char(n as int),
{
    proof {
        reveal_strlit("0");
        reveal_strlit("1");
        reveal_strlit("2");
        reveal_strlit("3");
        reveal_strlit("4");
        reveal_strlit("5");
        reveal_strlit("6");
        reveal_strlit("7");
        reveal_strlit("8");
        reveal_strlit("9");
        reveal_strlit("A");
        reveal_strlit("B");
        reveal_strlit("C");
        reveal_strlit("D");
        reveal_strlit("E");
        reveal_strlit("F");
    }
    match n {
        0 => "0",
        1 => "1",
        2 => "2",
        3 => "3",
        4 => "4",
        5 => "5",
        6 => "6",
        7 => "7",
        8 => "8",
        9 => "9",
        10 => "A",
        11 => "B",
        12 => "C",
        13 => "D",
        14 => "E",
        _ => "F",
    }
}

/// Renders bytes as uppercase hex, two digits per byte.
pub fn hex_upper(bytes: &[u8]) -> (r: String)
    ensures
        r@ == hex_upper_of(bytes@),
{
    let mut s = String::new();
    let mut i: usize = 0;
    while i < bytes.len()
        invariant
            i <= bytes@.len(),
            s@ == hex_upper_of(bytes@.take(i as int)),
        decreases bytes@.len() - i,
    {
        let b = bytes[i];
        s.append(nibble_str(b / 16));
        s.append(nibble_str(b % 16));
        i += 1;
        proof {
            assert(s@ =~= hex_upper_of(bytes@.take(i as int)));
        }
    }
    proof {
        assert(bytes@.take(bytes@.len() as int) =~= bytes@);
    }
    s
}

} // verus!
