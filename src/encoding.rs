//! Standard base64 with padding, for handing raw grid data out as text.
use vstd::prelude::*;

verus! {

/// The 64 characters that digits map to.
pub open spec fn alphabet() -> Seq<char> {
    "ABCDEFGHIJKLMNOPQRSTUVWXYZabcdefghijklmnopqrstuvwxyz0123456789+/"@
}

/// Byte `i` of `data`, zero past its end.
pub open spec fn byte_or_zero(data: Seq<u8>, i: int) -> usize {
    if i < data.len() {
        data[i] as usize
    } else {
        0
    }
}

/// The four characters of the chunk that starts at byte `3 * k`: three
/// bytes read as four 6-bit digits, with `=` for each byte past the end.
pub open spec fn chunk_text(data: Seq<u8>, k: int) -> Seq<char> {
    let i = 3 * k;
    let b0 = byte_or_zero(data, i);
    let b1 = byte_or_zero(data, i + 1);
    let b2 = byte_or_zero(data, i + 2);
    seq![
        alphabet()[((b0 >> 2usize) & 0x3Fusize) as int],
        alphabet()[(((b0 << 4usize) | (b1 >> 4usize)) & 0x3Fusize) as int],
        if i + 1 < data.len() {
            alphabet()[(((b1 << 2usize) | (b2 >> 6usize)) & 0x3Fusize) as int]
        } else {
            '='
        },
        if i + 2 < data.len() {
            alphabet()[(b2 & 0x3Fusize) as int]
        } else {
            '='
        },
    ]
}

/// The text of the first `n` chunks.
pub open spec fn chunks_text(data: Seq<u8>, n: nat) -> Seq<char>
    decreases n,
{
    if n == 0 {
        Seq::empty()
    } else {
        chunks_text(data, (n - 1) as nat) + chunk_text(data, n - 1)
    }
}

/// The base64 text of `data`.
pub open spec fn base64_of(data: Seq<u8>) -> Seq<char> {
    chunks_text(data, ((data.len() + 2) / 3) as nat)
}

proof fn lemma_digit_bound(x: usize)
    ensures
        x & 0x3Fusize < 64,
{
    assert(x & 0x3Fusize < 64) by (bit_vector);
}

/// Appends the alphabet's character for digit `d`.
fn push_digit(out: &mut String, d: usize)
    requires
        d < 64,
    ensures
        final(out)@ == old(out)@.push(alphabet()[d as int]),
{
    let chars: &str = "ABCDEFGHIJKLMNOPQRSTUVWXYZabcdefghijklmnopqrstuvwxyz0123456789+/";
    proof {
        reveal_strlit("ABCDEFGHIJKLMNOPQRSTUVWXYZabcdefghijklmnopqrstuvwxyz0123456789+/");
    }
    let one = chars.substring_char(d, d + 1);
    out.append(one);
    proof {
        assert(one@ =~= seq![alphabet()[d as int]]);
        assert(final(out)@ =~= old(out)@.push(alphabet()[d as int]));
    }
}

/// Appends a padding character.
fn push_pad(out: &mut String)
    ensures
        final(out)@ == old(out)@.push('='),
{
    proof {
        reveal_strlit("=");
    }
    out.append("=");
    proof {
        assert(final(out)@ =~= old(out)@.push('='));
    }
}

/// The base64 text of `data`, padded with `=`.
pub fn base64_encode(data: &[u8]) -> (r: String)
    ensures
        r@ == base64_of(data@),
{
    let mut result = String::new();
    let n = data.len();
    let mut i: usize = 0;
    let mut k: usize = 0;
    while i < n
        invariant
            n == data@.len(),
            i == 3 * k,
            i <= n + 2,
            k <= (n + 2) / 3,
            i < n ==> k < (n + 2) / 3,
            i >= n ==> k == (n + 2) / 3,
            result@ == chunks_text(data@, k as nat),
        decreases n + 3 - i,
    {
        let b0: usize = data[i] as usize;
        let b1: usize = if i + 1 < n {
            data[i + 1] as usize
        } else {
            0
        };
        let b2: usize = if i + 2 < n {
            data[i + 2] as usize
        } else {
            0
        };
        let ghost before = result@;
        proof {
            lemma_digit_bound(b0 >> 2usize);
            lemma_digit_bound((b0 << 4usize) | (b1 >> 4usize));
            lemma_digit_bound((b1 << 2usize) | (b2 >> 6usize));
            lemma_digit_bound(b2);
        }
        push_digit(&mut result, (b0 >> 2) & 0x3F);
        push_digit(&mut result, ((b0 << 4) | (b1 >> 4)) & 0x3F);
        if i + 1 < n {
            push_digit(&mut result, ((b1 << 2) | (b2 >> 6)) & 0x3F);
        } else {
            push_pad(&mut result);
        }
        if i + 2 < n {
            push_digit(&mut result, b2 & 0x3F);
        } else {
            push_pad(&mut result);
        }
        proof {
            assert(result@ =~= before + chunk_text(data@, k as int));
        }
        i = i + 3;
        k = k + 1;
    }
    result
}

} // verus!
