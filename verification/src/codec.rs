//! Byte-stream helpers for the line-oriented relay protocol: a binary-literal
//! decoder, the first line of a received buffer, and fixed-size message
//! frames.
use vstd::prelude::*;

verus! {

/// Value of an ASCII binary digit, or 2 for any other character.
pub open spec fn bit_char_value(c: char) -> int {
    if c == '0' {
        0
    } else if c == '1' {
        1
    } else {
        2
    }
}

/// All eight characters starting at `i` are binary digits.
pub open spec fn chunk_valid(s: Seq<char>, i: int) -> bool {
    forall|j: int| i <= j < i + 8 ==> bit_char_value(#[trigger] s[j]) < 2
}

/// The `k`-th chunk, starting at character `9 * k`, holds only binary
/// digits.
pub open spec fn chunk_ok(s: Seq<char>, k: int) -> bool {
    chunk_valid(s, 9 * k)
}

/// Value of the `k` binary digits starting at `i`, most significant first.
pub open spec fn chunk_val(s: Seq<char>, i: int, k: int) -> int
    decreases k,
{
    if k <= 0 {
        0
    } else {
        chunk_val(s, i, k - 1) * 2 + bit_char_value(s[i + k - 1])
    }
}

/// Number of eight-character chunks a string of `len` characters holds when
/// chunks start every nine characters.
pub open spec fn n_chunks(len: int) -> int
    decreases len + 1,
{
    if len < 8 {
        0
    } else {
        1 + n_chunks(len - 9)
    }
}

/// The error of [`decode_binary`]: some chunk held a character that is no
/// binary digit.
#[derive(Debug, PartialEq, Eq, Structural)]
pub struct BinaryParseError;

/// Value of the character at `j`, as a binary digit.
fn bit_at(s: &str, j: usize) -> (r: u8)
    requires
        j < s@.len(),
    ensures
        r == bit_char_value(s@[j as int]),
{
    let c = s.get_char(j);
    if c == '0' {
        0
    } else if c == '1' {
        1
    } else {
        2
    }
}

/// Decodes a string of eight-character binary literals, one starting every
/// nine characters, into the bytes they spell.
///
/// Fails exactly when some chunk holds a character that is no binary digit.
#[verifier::rlimit(30)]
pub fn decode_binary(s: &str) -> (r: Result<Vec<u8>, BinaryParseError>)
    requires
        s@.len() % 9 == 0 || s@.len() % 9 == 8,
    ensures
        r is Ok <==> (forall|k: int| 0 <= k && 9 * k + 8 <= s@.len() ==> chunk_ok(s@, k)),
        r matches Ok(v) ==> {
            &&& v@.len() == n_chunks(s@.len() as int)
            &&& forall|k: int|
                0 <= k && 9 * k + 8 <= s@.len() ==> v@[k] == chunk_val(s@, 9 * k, 8)
        },
{
    let n = s.unicode_len();
    let mut out: Vec<u8> = Vec::new();
    if n < 8 {
        proof {
            assert(n_chunks(n as int) == 0);
        }
        return Ok(out);
    }
    let mut i: usize = 0;
    while i <= n - 8
        invariant
            n == s@.len(),
            8 <= n,
            i == 9 * out@.len(),
            i <= n + 1,
            n_chunks(n as int) == out@.len() + n_chunks(n - i),
            forall|k: int|
                0 <= k < out@.len() ==> chunk_ok(s@, k) && out@[k] == chunk_val(s@, 9 * k, 8),
        decreases n + 9 - i,
    {
        let b0 = bit_at(s, i);
        let b1 = bit_at(s, i + 1);
        let b2 = bit_at(s, i + 2);
        let b3 = bit_at(s, i + 3);
        let b4 = bit_at(s, i + 4);
        let b5 = bit_at(s, i + 5);
        let b6 = bit_at(s, i + 6);
        let b7 = bit_at(s, i + 7);
        if b0 > 1 || b1 > 1 || b2 > 1 || b3 > 1 || b4 > 1 || b5 > 1 || b6 > 1 || b7 > 1 {
            proof {
                assert(!chunk_valid(s@, i as int));
                assert(!chunk_ok(s@, out@.len() as int));
            }
            return Err(BinaryParseError);
        }
        let value = b0 * 128 + b1 * 64 + b2 * 32 + b3 * 16 + b4 * 8 + b5 * 4 + b6 * 2 + b7;
        proof {
            reveal_with_fuel(chunk_val, 9);
            assert(value == chunk_val(s@, i as int, 8));
        }
        out.push(value);
        i = i + 9;
    }
    proof {
        assert(n_chunks(n - i) == 0);
        assert forall|k: int| 0 <= k && 9 * k + 8 <= s@.len() implies chunk_ok(s@, k) by {
            assert(k < out@.len());
        }
    }
    Ok(out)
}

/// Length of the first line of a byte buffer: the bytes before the first
/// newline, or the whole buffer.
pub open spec fn line_len(b: Seq<u8>) -> int
    decreases b.len(),
{
    if b.len() == 0 {
        0
    } else if b[0] == 10 {
        0
    } else {
        1 + line_len(b.drop_first())
    }
}

/// First line of a byte buffer: the bytes before the first newline, less a
/// carriage return just before that newline; without a newline, the whole
/// buffer.
pub open spec fn first_line(b: Seq<u8>) -> Seq<u8> {
    let n = line_len(b);
    if n < b.len() && n > 0 && b[n - 1] == 13 {
        b.subrange(0, n - 1)
    } else {
        b.subrange(0, n)
    }
}

/// Relies on String::push: appends the one character to the end of the
/// string.
#[verifier::external_body]
fn string_push(s: &mut String, c: char)
    ensures
        final(s)@ == old(s)@.push(c),
{
    s.push(c);
}

/// Reads a received buffer as characters, one per byte, and returns its
/// first line.
pub fn decode_message(buf: &Vec<u8>) -> (r: String)
    ensures
        r@ == Seq::new(first_line(buf@).len(), |i: int| first_line(buf@)[i] as char),
{
    let n = buf.len();
    let mut j: usize = 0;
    proof {
        assert(buf@.subrange(0, n as int) =~= buf@);
    }
    while j < n && buf[j] != 10
        invariant
            j <= n,
            n == buf@.len(),
            line_len(buf@) == j + line_len(buf@.subrange(j as int, n as int)),
            forall|k: int| 0 <= k < j ==> buf@[k] != 10,
        decreases n - j,
    {
        proof {
            assert(buf@.subrange(j as int, n as int)[0] == buf@[j as int]);
            assert(buf@.subrange(j as int, n as int).drop_first() =~= buf@.subrange(
                j as int + 1,
                n as int,
            ));
        }
        j = j + 1;
    }
    proof {
        if j < n {
            assert(buf@.subrange(j as int, n as int)[0] == buf@[j as int]);
        }
        assert(line_len(buf@) == j);
    }
    let end = if j < n && j > 0 && buf[j - 1] == 13 {
        j - 1
    } else {
        j
    };
    let mut message = String::new();
    let mut k: usize = 0;
    while k < end
        invariant
            k <= end,
            end <= n,
            n == buf@.len(),
            message@.len() == k,
            forall|m: int| 0 <= m < k ==> message@[m] == buf@[m] as char,
        decreases end - k,
    {
        string_push(&mut message, buf[k] as char);
        k = k + 1;
    }
    proof {
        assert(message@ =~= Seq::new(first_line(buf@).len(), |i: int| first_line(buf@)[i] as char));
    }
    message
}

/// Frames a message for the relay: its bytes padded with zeros to 1024, or
/// cut to 1024 when longer.
pub fn encode_message(message: String) -> (r: Vec<u8>)
    ensures
        r@.len() == 1024,
        r@ == (if vstd::utf8::encode_utf8(message@).len() >= 1024 {
            vstd::utf8::encode_utf8(message@).subrange(0, 1024)
        } else {
            vstd::utf8::encode_utf8(message@) + Seq::new(
                (1024 - vstd::utf8::encode_utf8(message@).len()) as nat,
                |i: int| 0u8,
            )
        }),
{
    let mut message_vec = vstd::slice::slice_to_vec(message.as_str().as_bytes());
    if message_vec.len() > 1024 {
        message_vec.truncate(1024);
    } else {
        while message_vec.len() < 1024
            invariant
                message_vec@.len() <= 1024,
                vstd::utf8::encode_utf8(message@).len() <= message_vec@.len(),
                message_vec@.subrange(0, vstd::utf8::encode_utf8(message@).len() as int)
                    == vstd::utf8::encode_utf8(message@),
                forall|m: int|
                    vstd::utf8::encode_utf8(message@).len() <= m < message_vec@.len()
                        ==> message_vec@[m] == 0,
            decreases 1024 - message_vec@.len(),
        {
            message_vec.push(0);
        }
    }
    proof {
        let b = vstd::utf8::encode_utf8(message@);
        if b.len() >= 1024 {
            assert(message_vec@ =~= b.subrange(0, 1024));
        } else {
            assert(message_vec@ =~= b + Seq::new((1024 - b.len()) as nat, |i: int| 0u8));
        }
    }
    message_vec
}

} // verus!
