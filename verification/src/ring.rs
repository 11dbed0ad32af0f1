//! Canonical ring-buffer arithmetic: one insert-and-advance operation and one
//! logical-window operation, shared by the frame assembler, the recognizers
//! and any caller that wants to interpret an assembled buffer.

use vstd::arithmetic::div_mod::lemma_small_mod;
use vstd::prelude::*;

verus! {

/// The cursor that follows `cursor` in a ring of length `len`.
pub open spec fn ring_advance(cursor: int, len: int) -> int
    recommends
        0 < len,
{
    (cursor + 1) % len
}

/// The buffer after the bytes of `incoming` have been stored one at a time,
/// starting at `cursor` and wrapping modulo the buffer length.
pub open spec fn ring_store(buf: Seq<u8>, cursor: int, incoming: Seq<u8>) -> Seq<u8>
    recommends
        0 < buf.len(),
        0 <= cursor < buf.len(),
    decreases incoming.len(),
{
    if incoming.len() == 0 {
        buf
    } else {
        ring_store(
            buf.update(cursor, incoming[0]),
            ring_advance(cursor, buf.len() as int),
            incoming.skip(1),
        )
    }
}

/// The logical, oldest-first view of a ring buffer whose next write would
/// land at `cursor`: the bytes from the cursor to the end, then the bytes
/// before the cursor.
pub open spec fn ring_window(buf: Seq<u8>, cursor: int) -> Seq<u8>
    recommends
        0 <= cursor <= buf.len(),
{
    buf.skip(cursor) + buf.take(cursor)
}

/// The index holding the `k`-th most recent byte of a ring whose next write
/// lands at `cursor` (`k == 1` is the newest byte).
pub open spec fn ring_back(cursor: int, len: int, k: int) -> int
    recommends
        0 <= cursor < len,
        1 <= k <= len,
{
    if cursor >= k {
        cursor - k
    } else {
        cursor - k + len
    }
}

/// Storing exactly as many bytes as there is room between the cursor and the
/// end of the buffer overwrites that tail and nothing else.
pub proof fn lemma_ring_store_fills_tail(buf: Seq<u8>, cursor: int, incoming: Seq<u8>)
    requires
        0 < buf.len(),
        0 <= cursor < buf.len(),
        cursor + incoming.len() == buf.len(),
    ensures
        ring_store(buf, cursor, incoming) == buf.take(cursor) + incoming,
    decreases incoming.len(),
{
    let len = buf.len() as int;
    if incoming.len() == 1 {
        assert(cursor == len - 1);
        assert(ring_advance(cursor, len) == 0) by {
            vstd::arithmetic::div_mod::lemma_mod_self_0(len);
        }
        assert(incoming.skip(1).len() == 0);
        assert(ring_store(buf.update(cursor, incoming[0]), 0, incoming.skip(1)) == buf.update(
            cursor,
            incoming[0],
        ));
        assert(buf.update(cursor, incoming[0]) =~= buf.take(cursor) + incoming);
    } else {
        let buf1 = buf.update(cursor, incoming[0]);
        assert(ring_advance(cursor, len) == cursor + 1) by {
            lemma_small_mod((cursor + 1) as nat, buf.len());
        }
        lemma_ring_store_fills_tail(buf1, cursor + 1, incoming.skip(1));
        assert(buf1.take(cursor + 1) + incoming.skip(1) =~= buf.take(cursor) + incoming);
    }
}

/// A burst as long as the whole buffer replaces the whole buffer, and the
/// cursor comes back around to zero: the write index wraps exactly at the
/// buffer length.
pub proof fn lemma_ring_store_full(buf: Seq<u8>, incoming: Seq<u8>)
    requires
        0 < buf.len(),
        incoming.len() == buf.len(),
    ensures
        ring_store(buf, 0, incoming) == incoming,
        incoming.len() as int % buf.len() as int == 0,
{
    lemma_ring_store_fills_tail(buf, 0, incoming);
    assert(buf.take(0) + incoming =~= incoming);
    vstd::arithmetic::div_mod::lemma_mod_self_0(buf.len() as int);
}

/// Storing one more byte after a burst stores it at the cursor the burst
/// advanced to.
pub proof fn lemma_ring_store_snoc(buf: Seq<u8>, cursor: int, bytes: Seq<u8>, byte: u8)
    requires
        0 < buf.len(),
        0 <= cursor < buf.len(),
    ensures
        ring_store(buf, cursor, bytes.push(byte)) == ring_store(buf, cursor, bytes).update(
            (cursor + bytes.len()) % buf.len() as int,
            byte,
        ),
    decreases bytes.len(),
{
    let len = buf.len() as int;
    if bytes.len() == 0 {
        let one = bytes.push(byte);
        assert(one.skip(1) =~= Seq::<u8>::empty());
        assert(ring_store(buf.update(cursor, byte), ring_advance(cursor, len), one.skip(1))
            == buf.update(cursor, byte)) by {
            assert(0 <= ring_advance(cursor, len) < len) by {
                if cursor + 1 < len {
                    lemma_small_mod((cursor + 1) as nat, buf.len());
                } else {
                    vstd::arithmetic::div_mod::lemma_mod_self_0(len);
                }
            }
        }
        lemma_small_mod(cursor as nat, buf.len());
    } else {
        let buf1 = buf.update(cursor, bytes[0]);
        let next = ring_advance(cursor, len);
        assert(0 <= next < len) by {
            if cursor + 1 < len {
                lemma_small_mod((cursor + 1) as nat, buf.len());
            } else {
                vstd::arithmetic::div_mod::lemma_mod_self_0(len);
            }
        }
        assert(bytes.push(byte).skip(1) =~= bytes.skip(1).push(byte));
        lemma_ring_store_snoc(buf1, next, bytes.skip(1), byte);
        assert((next + (bytes.len() - 1)) % len == (cursor + bytes.len()) % len) by {
            vstd::arithmetic::div_mod::lemma_add_mod_noop_right(
                bytes.len() - 1,
                cursor + 1,
                len,
            );
        }
    }
}

/// Adding to an already reduced cursor and reducing again is the same as
/// reducing the whole sum: the ring position of a byte depends only on how
/// many bytes came before it.
pub proof fn lemma_ring_position(a: int, k: int, len: int)
    requires
        0 < len,
    ensures
        ((a % len) + k) % len == (a + k) % len,
{
    vstd::arithmetic::div_mod::lemma_add_mod_noop_right(k, a, len);
}

/// Store one byte at the cursor and advance the cursor around the ring.
pub fn ring_insert(buffer: &mut Vec<u8>, cursor: usize, byte: u8) -> (next: usize)
    requires
        cursor < old(buffer).len(),
    ensures
        final(buffer)@ == old(buffer)@.update(cursor as int, byte),
        next as int == ring_advance(cursor as int, old(buffer).len() as int),
        next < final(buffer).len(),
{
    buffer.set(cursor, byte);
    let next = (cursor + 1) % buffer.len();
    proof {
        if cursor + 1 < buffer.len() {
            lemma_small_mod((cursor + 1) as nat, buffer.len() as nat);
        } else {
            vstd::arithmetic::div_mod::lemma_mod_self_0(buffer.len() as int);
        }
    }
    next
}

/// The ring contents ending at the cursor, oldest first, as a fresh vector.
pub fn ring_window_of(buffer: &[u8], cursor: usize) -> (window: Vec<u8>)
    requires
        cursor <= buffer.len(),
    ensures
        window@ == ring_window(buffer@, cursor as int),
{
    let len = buffer.len();
    let mut window: Vec<u8> = Vec::new();
    let mut i: usize = 0;
    while i < len
        invariant
            cursor <= len == buffer@.len(),
            i <= len,
            window@ == ring_window(buffer@, cursor as int).take(i as int),
        decreases len - i,
    {
        let j = if i < len - cursor {
            cursor + i
        } else {
            i - (len - cursor)
        };
        window.push(buffer[j]);
        proof {
            assert(ring_window(buffer@, cursor as int)[i as int] == buffer@[j as int]);
            assert(window@ =~= ring_window(buffer@, cursor as int).take(i as int + 1));
        }
        i = i + 1;
    }
    proof {
        assert(window@ =~= ring_window(buffer@, cursor as int));
    }
    window
}

} // verus!
