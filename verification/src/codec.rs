//! Byte layout of the persisted framebuffer file.
//!
//! A layout file is a flat JSON array of unsigned byte values in GRB order,
//! with no header or versioning: `[` then decimal numbers separated by `,`
//! then `]`. The encoder emits the canonical form (no whitespace, no leading
//! zeros) and the parser accepts exactly that form, so encoding then parsing
//! reproduces the buffer byte for byte.

use vstd::prelude::*;

verus! {

/// ASCII decimal digit.
pub open spec fn is_digit(c: u8) -> bool {
    48 <= c <= 57
}

/// Canonical decimal encoding of one byte value, as ASCII digits.
pub open spec fn enc_byte(b: u8) -> Seq<u8> {
    if b < 10 {
        seq![(48 + b) as u8]
    } else if b < 100 {
        seq![(48 + b / 10) as u8, (48 + b % 10) as u8]
    } else {
        seq![(48 + b / 100) as u8, (48 + (b / 10) % 10) as u8, (48 + b % 10) as u8]
    }
}

/// Comma-separated decimal encodings of a sequence of bytes.
pub open spec fn enc_list(s: Seq<u8>) -> Seq<u8>
    decreases s.len(),
{
    if s.len() == 0 {
        Seq::empty()
    } else if s.len() == 1 {
        enc_byte(s[0])
    } else {
        enc_byte(s[0]) + seq![44u8] + enc_list(s.drop_first())
    }
}

/// The full layout file for a buffer: a JSON array of its byte values.
pub open spec fn spec_encode(s: Seq<u8>) -> Seq<u8> {
    seq![91u8] + enc_list(s) + seq![93u8]
}

/// Number of consecutive ASCII digits in `s` starting at position `i`.
pub open spec fn digit_run_at(s: Seq<u8>, i: int) -> int
    decreases s.len() - i,
{
    if i < 0 || i >= s.len() || !is_digit(s[i]) {
        0
    } else {
        1 + digit_run_at(s, i + 1)
    }
}

/// Value of the `k` ASCII digits of `s` starting at position `i`.
pub open spec fn num_value(s: Seq<u8>, i: int, k: int) -> int {
    if k == 1 {
        s[i] - 48
    } else if k == 2 {
        (s[i] - 48) * 10 + (s[i + 1] - 48)
    } else {
        (s[i] - 48) * 100 + (s[i + 1] - 48) * 10 + (s[i + 2] - 48)
    }
}

/// Parses `number (',' number)* ']'` from position `i` to the very end of
/// `s`, rejecting leading zeros and values over 255.
pub open spec fn spec_parse_items(s: Seq<u8>, i: int) -> Option<Seq<u8>>
    decreases s.len() - i,
{
    let k = digit_run_at(s, i);
    if k < 1 || k > 3 {
        None
    } else if s[i] == 48 && k != 1 {
        None
    } else if num_value(s, i, k) > 255 {
        None
    } else {
        let b = num_value(s, i, k) as u8;
        if i + k < s.len() && s[i + k] == 93 {
            if i + k == s.len() - 1 {
                Some(seq![b])
            } else {
                None
            }
        } else if i + k < s.len() && s[i + k] == 44 {
            match spec_parse_items(s, i + k + 1) {
                None => None,
                Some(vs) => Some(seq![b] + vs),
            }
        } else {
            None
        }
    }
}

/// Parses a whole layout file: the byte values of the array, or `None` if
/// the text is not a canonical layout file.
pub open spec fn spec_parse(s: Seq<u8>) -> Option<Seq<u8>> {
    if s.len() == 2 && s[0] == 91 && s[1] == 93 {
        Some(Seq::empty())
    } else if s.len() >= 2 && s[0] == 91 {
        spec_parse_items(s, 1)
    } else {
        None
    }
}

/// Appending one more byte extends the comma-separated encoding at the tail.
proof fn lemma_enc_list_push(s: Seq<u8>, x: u8)
    ensures
        enc_list(s.push(x)) == if s.len() == 0 {
            enc_byte(x)
        } else {
            enc_list(s) + seq![44u8] + enc_byte(x)
        },
    decreases s.len(),
{
    if s.len() == 0 {
        assert(s.push(x).len() == 1);
        assert(s.push(x)[0] == x);
    } else {
        assert(s.push(x).drop_first() =~= s.drop_first().push(x));
        lemma_enc_list_push(s.drop_first(), x);
        if s.len() == 1 {
            assert(enc_list(s) == enc_byte(s[0]));
            assert(enc_list(s.push(x)) == enc_byte(s[0]) + seq![44u8] + enc_byte(x));
            assert(enc_list(s) + seq![44u8] + enc_byte(x) == enc_byte(s[0]) + seq![44u8] + enc_byte(
                x,
            ));
        } else {
            assert(enc_list(s.push(x)) == enc_byte(s[0]) + seq![44u8] + (enc_list(s.drop_first())
                + seq![44u8] + enc_byte(x)));
            assert(enc_list(s) + seq![44u8] + enc_byte(x) =~= enc_byte(s[0]) + seq![44u8] + (
            enc_list(s.drop_first()) + seq![44u8] + enc_byte(x)));
        }
    }
}

/// Shape of a byte's canonical encoding: one to three digits, no leading
/// zero unless the value is below ten, and its decimal value is the byte.
proof fn lemma_enc_byte(b: u8)
    ensures
        1 <= enc_byte(b).len() <= 3,
        forall|j: int| 0 <= j < enc_byte(b).len() ==> is_digit(#[trigger] enc_byte(b)[j]),
        enc_byte(b)[0] == 48 ==> enc_byte(b).len() == 1,
        num_value(enc_byte(b), 0, enc_byte(b).len() as int) == b,
{
    if b < 10 {
    } else if b < 100 {
        assert((b / 10) * 10 + b % 10 == b) by (nonlinear_arith);
        assert(1 <= b / 10 <= 9) by (nonlinear_arith)
            requires 10 <= b < 100;
    } else {
        assert((b / 100) * 100 + ((b / 10) % 10) * 10 + b % 10 == b) by (nonlinear_arith);
        assert(1 <= b / 100 <= 2) by (nonlinear_arith)
            requires 100 <= b <= 255;
        assert((b / 10) % 10 <= 9) by (nonlinear_arith);
    }
}

/// If exactly the `k` positions from `i` hold digits, the digit run at `i`
/// has length `k`.
proof fn lemma_digit_run_exact(s: Seq<u8>, i: int, k: int)
    requires
        0 <= i,
        0 <= k,
        i + k <= s.len(),
        forall|j: int| 0 <= j < k ==> is_digit(#[trigger] s[i + j]),
        i + k == s.len() || !is_digit(s[i + k]),
    ensures
        digit_run_at(s, i) == k,
    decreases k,
{
    if k > 0 {
        assert(is_digit(s[i + 0]));
        assert forall|j: int| 0 <= j < k - 1 implies is_digit(#[trigger] s[(i + 1) + j]) by {
            assert(is_digit(s[i + (j + 1)]));
        }
        lemma_digit_run_exact(s, i + 1, k - 1);
    }
}

/// A digit run is never negative.
proof fn lemma_digit_run_nonneg(s: Seq<u8>, i: int)
    ensures
        digit_run_at(s, i) >= 0,
    decreases (if i < s.len() { s.len() - i } else { 0 }),
{
    if 0 <= i && i < s.len() && is_digit(s[i]) {
        lemma_digit_run_nonneg(s, i + 1);
    }
}

/// A run of at least `k` digits starting at `i` makes the digit run at
/// least `k` long.
proof fn lemma_digit_run_at_least(s: Seq<u8>, i: int, k: int)
    requires
        0 <= i,
        0 <= k,
        i + k <= s.len(),
        forall|j: int| 0 <= j < k ==> is_digit(#[trigger] s[i + j]),
    ensures
        digit_run_at(s, i) >= k,
    decreases k,
{
    if k == 0 {
        lemma_digit_run_nonneg(s, i);
    }
    if k > 0 {
        assert(is_digit(s[i + 0]));
        assert forall|j: int| 0 <= j < k - 1 implies is_digit(#[trigger] s[(i + 1) + j]) by {
            assert(is_digit(s[i + (j + 1)]));
        }
        lemma_digit_run_at_least(s, i + 1, k - 1);
    }
}

/// Parsing from position `i` recovers `u` when the text from `i` onward is
/// the encoding of `u` followed by the closing bracket.
proof fn lemma_parse_items_of_encoding(s: Seq<u8>, i: int, u: Seq<u8>)
    requires
        0 <= i <= s.len(),
        s.skip(i) == enc_list(u) + seq![93u8],
        u.len() >= 1,
    ensures
        spec_parse_items(s, i) == Some(u),
    decreases u.len(),
{
    let b = u[0];
    let e = enc_byte(b);
    lemma_enc_byte(b);
    let k = e.len() as int;
    let tail = s.skip(i);
    assert(tail.len() == s.len() - i);
    assert forall|j: int| 0 <= j < tail.len() implies #[trigger] tail[j] == s[i + j] by {}
    if u.len() == 1 {
        assert(enc_list(u) == e);
        assert(tail.len() == k + 1);
        assert(s.len() == i + k + 1);
        assert forall|j: int| 0 <= j < k implies #[trigger] s[i + j] == e[j] by {
            assert(tail[j] == s[i + j]);
            assert(tail[j] == (enc_list(u) + seq![93u8])[j]);
        }
        assert(s[i + k] == 93) by {
            assert(tail[k] == s[i + k]);
            assert(tail[k] == (enc_list(u) + seq![93u8])[k]);
        }
        assert forall|j: int| 0 <= j < k implies is_digit(#[trigger] s[i + j]) by {
            assert(s[i + j] == e[j]);
        }
        assert(!is_digit(93u8));
        lemma_digit_run_exact(s, i, k);
        assert(s[i + 0] == e[0]);
        assert(s[i] == e[0]);
        if k >= 2 {
            assert(s[i + 1] == e[1]);
        }
        if k == 3 {
            assert(s[i + 2] == e[2]);
        }
        assert(num_value(s, i, k) == num_value(e, 0, k));
        assert(spec_parse_items(s, i) == Some(seq![b]));
        assert(seq![b] =~= u);
    } else {
        let u1 = u.drop_first();
        assert(u1.len() >= 1);
        assert(enc_list(u) == e + seq![44u8] + enc_list(u1));
        assert(enc_list(u1).len() >= 1) by {
            lemma_enc_byte(u1[0]);
            if u1.len() >= 2 {
                assert(enc_list(u1) == enc_byte(u1[0]) + seq![44u8] + enc_list(u1.drop_first()));
            }
        }
        assert(tail.len() == enc_list(u).len() + 1);
        assert(enc_list(u).len() == k + 1 + enc_list(u1).len());
        assert(s.len() >= i + k + 3);
        assert forall|j: int| 0 <= j < k implies #[trigger] s[i + j] == e[j] by {
            assert(tail[j] == s[i + j]);
            assert(tail[j] == (enc_list(u) + seq![93u8])[j]);
            assert((enc_list(u) + seq![93u8])[j] == enc_list(u)[j]);
            assert(enc_list(u)[j] == (e + seq![44u8] + enc_list(u1))[j]);
        }
        assert(s[i + k] == 44) by {
            assert(tail[k] == s[i + k]);
            assert(tail[k] == (enc_list(u) + seq![93u8])[k]);
            assert((enc_list(u) + seq![93u8])[k] == enc_list(u)[k]);
            assert(enc_list(u)[k] == (e + seq![44u8] + enc_list(u1))[k]);
        }
        assert forall|j: int| 0 <= j < k implies is_digit(#[trigger] s[i + j]) by {
            assert(s[i + j] == e[j]);
        }
        assert(!is_digit(44u8));
        lemma_digit_run_exact(s, i, k);
        assert(s[i + 0] == e[0]);
        assert(s[i] == e[0]);
        if k >= 2 {
            assert(s[i + 1] == e[1]);
        }
        if k == 3 {
            assert(s[i + 2] == e[2]);
        }
        assert(num_value(s, i, k) == num_value(e, 0, k));
        assert(s.skip(i + k + 1) =~= enc_list(u1) + seq![93u8]) by {
            assert forall|j: int| 0 <= j < s.len() - (i + k + 1) implies #[trigger] s.skip(
                i + k + 1,
            )[j] == (enc_list(u1) + seq![93u8])[j] by {
                assert(s.skip(i + k + 1)[j] == s[i + k + 1 + j]);
                assert(s[i + (k + 1 + j)] == tail[k + 1 + j]);
                assert(tail[k + 1 + j] == (enc_list(u) + seq![93u8])[k + 1 + j]);
            }
        }
        lemma_parse_items_of_encoding(s, i + k + 1, u1);
        assert(i + k < s.len());
        assert(s[i + k] != 93);
        assert(spec_parse_items(s, i) == Some(seq![b] + u1));
        assert(seq![b] + u1 =~= u);
    }
}

/// Saving a buffer and loading the file back yields byte-identical
/// contents: parsing is a left inverse of encoding.
pub proof fn lemma_layout_round_trip(bytes: Seq<u8>)
    ensures
        spec_parse(spec_encode(bytes)) == Some(bytes),
{
    let s = spec_encode(bytes);
    if bytes.len() == 0 {
        assert(s =~= seq![91u8, 93u8]);
        assert(spec_parse(s) == Some(Seq::<u8>::empty()));
        assert(Seq::<u8>::empty() =~= bytes);
    } else {
        lemma_enc_byte(bytes[0]);
        assert(enc_list(bytes).len() >= 1) by {
            if bytes.len() >= 2 {
                assert(enc_list(bytes) == enc_byte(bytes[0]) + seq![44u8] + enc_list(
                    bytes.drop_first(),
                ));
            }
        }
        assert(s.len() >= 3);
        assert(s[0] == 91);
        assert(s.skip(1) =~= enc_list(bytes) + seq![93u8]);
        lemma_parse_items_of_encoding(s, 1, bytes);
    }
}

/// Encodes a buffer as its canonical layout file text.
pub fn encode_layout(bytes: &Vec<u8>) -> (r: Vec<u8>)
    ensures
        r@ == spec_encode(bytes@),
{
    let n = bytes.len();
    let mut r: Vec<u8> = Vec::new();
    r.push(91);
    let mut i: usize = 0;
    while i < n
        invariant
            n == bytes@.len(),
            i <= n,
            r@ == seq![91u8] + enc_list(bytes@.take(i as int)),
        decreases n - i,
    {
        let ghost prefix = bytes@.take(i as int);
        if i > 0 {
            r.push(44);
        }
        let b = bytes[i];
        if b >= 100 {
            r.push(48 + b / 100);
        }
        if b >= 10 {
            r.push(48 + (b / 10) % 10);
        }
        r.push(48 + b % 10);
        proof {
            assert(b / 100 <= 2 && (b / 10) % 10 <= 9 && b % 10 <= 9 && b / 10 <= 25) by (nonlinear_arith);
            if b < 10 {
                assert((b / 10) % 10 == b / 10);
                assert(b % 10 == b);
            }
            if 10 <= b && b < 100 {
                assert((b / 10) % 10 == b / 10) by (nonlinear_arith)
                    requires 10 <= b < 100;
            }
            lemma_enc_list_push(prefix, b);
            assert(bytes@.take(i + 1) =~= prefix.push(b));
            if i > 0 {
                assert(r@ =~= seq![91u8] + (enc_list(prefix) + seq![44u8] + enc_byte(b)));
            } else {
                assert(prefix.len() == 0);
                assert(r@ =~= seq![91u8] + enc_byte(b));
            }
        }
        i = i + 1;
    }
    r.push(93);
    proof {
        assert(bytes@.take(n as int) =~= bytes@);
        assert(r@ =~= seq![91u8] + enc_list(bytes@) + seq![93u8]);
    }
    r
}

/// Parses `number (',' number)* ']'` from position `i` to the end of the
/// text, mirroring `spec_parse_items`.
fn parse_items(text: &Vec<u8>, i: usize) -> (r: Option<Vec<u8>>)
    requires
        1 <= i <= text@.len(),
    ensures
        match r {
            Some(v) => spec_parse_items(text@, i as int) == Some(v@),
            None => spec_parse_items(text@, i as int) is None,
        },
    decreases text@.len() - i,
{
    let n = text.len();
    let mut k: usize = 0;
    while k < 4 && i + k < n && 48 <= text[i + k] && text[i + k] <= 57
        invariant
            n == text@.len(),
            i + k <= n,
            k <= 4,
            forall|j: int| 0 <= j < k ==> is_digit(#[trigger] text@[i + j]),
        decreases 4 - k,
    {
        k = k + 1;
    }
    if k == 4 {
        proof {
            lemma_digit_run_at_least(text@, i as int, 4);
        }
        return None;
    }
    proof {
        lemma_digit_run_exact(text@, i as int, k as int);
    }
    if k == 0 {
        return None;
    }
    if text[i] == 48 && k != 1 {
        return None;
    }
    let v: u32 = if k == 1 {
        (text[i] - 48) as u32
    } else if k == 2 {
        (text[i] - 48) as u32 * 10 + (text[i + 1] - 48) as u32
    } else {
        (text[i] - 48) as u32 * 100 + (text[i + 1] - 48) as u32 * 10 + (text[i + 2] - 48) as u32
    };
    assert(v == num_value(text@, i as int, k as int));
    if v > 255 {
        return None;
    }
    let b: u8 = v as u8;
    if i + k < n && text[i + k] == 93 {
        if i + k == n - 1 {
            let mut out: Vec<u8> = Vec::new();
            out.push(b);
            proof {
                assert(out@ =~= seq![b]);
            }
            Some(out)
        } else {
            None
        }
    } else if i + k < n && text[i + k] == 44 {
        match parse_items(text, i + k + 1) {
            None => None,
            Some(mut vs) => {
                vs.insert(0, b);
                proof {
                    let ghost tail = vs@.subrange(1, vs@.len() as int);
                    assert(vs@ =~= seq![b] + tail);
                }
                Some(vs)
            },
        }
    } else {
        None
    }
}

/// Parses a layout file: returns the byte values of the array, or `None`
/// if the text is not a canonical layout file.
pub fn parse_layout(text: &Vec<u8>) -> (r: Option<Vec<u8>>)
    ensures
        match r {
            Some(v) => spec_parse(text@) == Some(v@),
            None => spec_parse(text@) is None,
        },
{
    if text.len() < 2 || text[0] != 91 {
        return None;
    }
    if text.len() == 2 && text[1] == 93 {
        let out: Vec<u8> = Vec::new();
        proof {
            assert(out@ =~= Seq::<u8>::empty());
        }
        return Some(out);
    }
    parse_items(text, 1)
}

} // verus!
