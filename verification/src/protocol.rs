//! Pieces shared by the chat client and server: the outcome of a socket read,
//! the fixed-size message buffer and text comparisons.
use vstd::prelude::*;
use vstd::utf8::encode_utf8;

use crate::text::chars_of;

verus! {

/// Size of the message buffer that the client and the server exchange.
pub const BUF_LEN: usize = 1024;

/// What one read from a socket produced: the peer closed the connection (zero
/// bytes), some text arrived (already decoded as UTF-8), or the read failed.
pub enum ReadOutcome {
    Closed,
    Data(String),
    Failed,
}

/// The UTF-8 bytes of `s` at the start of a zeroed buffer of `BUF_LEN` bytes,
/// and how many bytes were written.
pub open spec fn buffer_holds(buf: Seq<u8>, len: int, s: Seq<char>) -> bool {
    &&& buf.len() == BUF_LEN
    &&& len == encode_utf8(s).len()
    &&& buf.take(len) == encode_utf8(s)
    &&& forall|i: int| len <= i < BUF_LEN ==> buf[i] == 0
}

/// Copies the UTF-8 bytes of `s` into a zeroed buffer of `BUF_LEN` bytes; the
/// text must fit.
pub fn message_buffer(s: &str) -> (r: ([u8; 1024], usize))
    requires
        encode_utf8(s@).len() <= BUF_LEN,
    ensures
        buffer_holds(r.0@, r.1 as int, s@),
{
    let bytes = s.as_bytes();
    let n = bytes.len();
    let mut buf = [0u8; 1024];
    let mut i: usize = 0;
    while i < n
        invariant
            n == bytes@.len() <= BUF_LEN,
            bytes@ == encode_utf8(s@),
            buf@.len() == BUF_LEN,
            i <= n,
            buf@.take(i as int) == bytes@.take(i as int),
            forall|k: int| i <= k < BUF_LEN ==> buf@[k] == 0,
        decreases n - i,
    {
        buf[i] = bytes[i];
        i = i + 1;
        assert(buf@.take(i as int) == bytes@.take(i as int));
    }
    assert(bytes@.take(n as int) == bytes@);
    (buf, n)
}

/// Whether the two texts are equal.
pub fn text_eq(a: &str, b: &str) -> (r: bool)
    ensures
        r == (a@ == b@),
{
    let x = chars_of(a);
    let y = chars_of(b);
    if x.len() != y.len() {
        return false;
    }
    let mut i: usize = 0;
    while i < x.len()
        invariant
            x@ == a@,
            y@ == b@,
            x@.len() == y@.len(),
            i <= x@.len(),
            x@.take(i as int) == y@.take(i as int),
        decreases x@.len() - i,
    {
        if x[i] != y[i] {
            assert(x@[i as int] != y@[i as int]);
            return false;
        }
        i = i + 1;
        assert(x@.take(i as int) == y@.take(i as int));
    }
    assert(x@.take(x@.len() as int) == x@);
    assert(y@.take(y@.len() as int) == y@);
    true
}

/// An owned copy of `s`.
pub fn owned(s: &str) -> (r: String)
    ensures
        r@ == s@,
{
    s.to_owned()
}

} // verus!
