//! The host event bridge: one growable buffer, reused from one delivery to the
//! next, that carries a fixed little-endian header and the payload of a host
//! message into script.
//!
//! Layout: offset 0 message type (i32), 4 session (i32), 8 origin (i32),
//! 12 payload length (u32), 16 payload pointer (u64); the payload starts at
//! offset 64.
use byteorder::{ByteOrder, LittleEndian};
use vstd::prelude::*;
use vstd::arithmetic::div_mod::{lemma_fundamental_div_mod, lemma_mod_multiples_basic};

verus! {

/// Smallest capacity the buffer is given, and the step of linear growth.
pub const SHARED_MIN_SZ: usize = 128;

/// Past this capacity the buffer stops doubling and grows linearly.
pub const SHARED_MAX_SZ: usize = 65536;

/// Bytes reserved for the header; the payload starts here.
pub const HEADER_SIZE: usize = 64;

/// `a / b` rounded up.
pub open spec fn ceil_div(a: nat, b: nat) -> nat
    recommends
        b > 0,
{
    ((a + b - 1) / (b as int)) as nat
}

/// The capacity a buffer of capacity `current` (none yet, or some) grows to
/// for a request of `sz` bytes: the request rounded up to a multiple of twice
/// the current capacity (of the floor when there is none); when that reaches
/// the ceiling, the request rounded up to a multiple of the floor instead;
/// never less than the floor.
pub open spec fn grown_capacity(current: Option<nat>, sz: nat) -> nat {
    let base: nat = match current {
        Some(c) => if c > 0 {
            2 * c
        } else {
            SHARED_MIN_SZ as nat
        },
        None => SHARED_MIN_SZ as nat,
    };
    let doubled = ceil_div(sz, base) * base;
    if doubled >= SHARED_MAX_SZ {
        ceil_div(sz, SHARED_MIN_SZ as nat) * SHARED_MIN_SZ as nat
    } else if doubled < SHARED_MIN_SZ {
        SHARED_MIN_SZ as nat
    } else {
        doubled
    }
}

/// Whether a buffer of capacity `current` must be replaced for `sz` bytes.
pub open spec fn needs_growth(current: Option<nat>, sz: nat) -> bool {
    match current {
        Some(c) => c < sz,
        None => true,
    }
}

/// `n` bytes of `v`, least significant first.
pub open spec fn le_bytes(v: nat, n: nat) -> Seq<u8>
    decreases n,
{
    if n == 0 {
        Seq::empty()
    } else {
        seq![(v % 256) as u8] + le_bytes(v / 256, (n - 1) as nat)
    }
}

/// `s` with `part` written over it from index `at`.
pub open spec fn overwrite(s: Seq<u8>, at: int, part: Seq<u8>) -> Seq<u8> {
    s.subrange(0, at) + part + s.subrange(at + part.len(), s.len() as int)
}

/// Relies on byteorder's `LittleEndian::write_u32`: the four bytes from `at`
/// become `v`, least significant first; the rest stays.
#[verifier::external_body]
pub(crate) fn write_u32_at(buf: &mut Vec<u8>, at: usize, v: u32)
    requires
        at + 4 <= old(buf)@.len(),
    ensures
        final(buf)@ == overwrite(old(buf)@, at as int, le_bytes(v as nat, 4)),
{
    LittleEndian::write_u32(&mut buf[at..at + 4], v)
}

/// Relies on byteorder's `LittleEndian::write_i32`: the four bytes from `at`
/// become the two's complement of `v`, least significant first.
#[verifier::external_body]
pub(crate) fn write_i32_at(buf: &mut Vec<u8>, at: usize, v: i32)
    requires
        at + 4 <= old(buf)@.len(),
    ensures
        final(buf)@ == overwrite(old(buf)@, at as int, le_bytes((v as u32) as nat, 4)),
{
    LittleEndian::write_i32(&mut buf[at..at + 4], v)
}

/// Relies on byteorder's `LittleEndian::write_u64`: the eight bytes from `at`
/// become `v`, least significant first.
#[verifier::external_body]
pub(crate) fn write_u64_at(buf: &mut Vec<u8>, at: usize, v: u64)
    requires
        at + 8 <= old(buf)@.len(),
    ensures
        final(buf)@ == overwrite(old(buf)@, at as int, le_bytes(v as nat, 8)),
{
    LittleEndian::write_u64(&mut buf[at..at + 8], v)
}

/// Relies on byteorder's `LittleEndian::write_i16`: the two bytes from `at`
/// become the two's complement of `v`, least significant first.
#[verifier::external_body]
pub(crate) fn write_i16_at(buf: &mut Vec<u8>, at: usize, v: i16)
    requires
        at + 2 <= old(buf)@.len(),
    ensures
        final(buf)@ == overwrite(old(buf)@, at as int, le_bytes((v as u16) as nat, 2)),
{
    LittleEndian::write_i16(&mut buf[at..at + 2], v)
}

/// `le_bytes` gives exactly `n` bytes.
pub proof fn lemma_le_bytes_len(v: nat, n: nat)
    ensures
        le_bytes(v, n).len() == n,
    decreases n,
{
    if n > 0 {
        lemma_le_bytes_len(v / 256, (n - 1) as nat);
    }
}

proof fn lemma_ceil_div_bounds(a: nat, b: nat)
    requires
        b > 0,
    ensures
        a <= ceil_div(a, b) * b,
        ceil_div(a, b) * b <= a + b - 1,
{
    lemma_fundamental_div_mod(a + b - 1, b as int);
    let q = (a + b - 1) / (b as int);
    let r = (a + b - 1) % (b as int);
    assert(a + b - 1 == b * q + r);
    assert(q * b == b * q) by (nonlinear_arith);
}

/// The reusable buffer of the host event bridge.
pub struct TransportBuffer {
    buf: Option<Vec<u8>>,
}

impl TransportBuffer {
    /// The capacity, once a buffer was allocated.
    pub closed spec fn capacity(&self) -> Option<nat> {
        match self.buf {
            Some(b) => Some(b@.len()),
            None => None,
        }
    }

    /// The bytes of the buffer (empty before the first allocation).
    pub closed spec fn contents(&self) -> Seq<u8> {
        match self.buf {
            Some(b) => b@,
            None => Seq::empty(),
        }
    }

    /// An allocated buffer is a positive multiple of the floor, and fits a
    /// 32-bit length.
    pub closed spec fn wf(&self) -> bool {
        match self.capacity() {
            Some(c) => c <= u32::MAX && c >= SHARED_MIN_SZ && c % (SHARED_MIN_SZ as nat) == 0,
            None => true,
        }
    }

    /// An allocated capacity is a positive multiple of the floor.
    pub proof fn lemma_capacity_is_multiple_of_floor(&self)
        requires
            self.wf(),
        ensures
            self.capacity() matches Some(c) ==> c >= SHARED_MIN_SZ && c % (SHARED_MIN_SZ as nat) == 0,
    {
    }

    /// A bridge with no buffer yet.
    pub fn new() -> (r: Self)
        ensures
            r.wf(),
            r.capacity() is None,
    {
        TransportBuffer { buf: None }
    }

    /// The current capacity; 0 before the first allocation.
    pub fn capacity_now(&self) -> (r: usize)
        ensures
            r == match self.capacity() {
                Some(c) => c,
                None => 0,
            },
    {
        match &self.buf {
            Some(b) => b.len(),
            None => 0,
        }
    }

    /// The bytes of the buffer, for handing to script.
    pub fn as_slice(&self) -> (r: &[u8])
        ensures
            r@ == self.contents(),
    {
        match &self.buf {
            Some(b) => b.as_slice(),
            None => &[],
        }
    }

    /// Makes room for `sz` bytes. The buffer is kept when it is large enough
    /// (`false`); otherwise it is replaced by a zeroed one of the grown
    /// capacity (`true`). The capacity never shrinks.
    pub fn ensure_capacity(&mut self, sz: usize) -> (new_buffer: bool)
        requires
            old(self).wf(),
            sz + SHARED_MIN_SZ <= u32::MAX,
        ensures
            final(self).wf(),
            new_buffer == needs_growth(old(self).capacity(), sz as nat),
            !new_buffer ==> *final(self) == *old(self),
            new_buffer ==> final(self).capacity() == Some(grown_capacity(old(self).capacity(), sz as nat)),
            final(self).capacity() matches Some(c) && c >= sz,
            old(self).capacity() matches Some(c) ==> final(self).capacity()->0 >= c,
    {
        let current: Option<usize> = match &self.buf {
            Some(b) => Some(b.len()),
            None => None,
        };
        if let Some(c) = current {
            if c >= sz {
                return false;
            }
        }
        let base: u64 = match current {
            Some(c) => if c > 0 {
                2 * (c as u64)
            } else {
                SHARED_MIN_SZ as u64
            },
            None => SHARED_MIN_SZ as u64,
        };
        let want = sz as u64;
        proof {
            lemma_ceil_div_bounds(want as nat, base as nat);
            lemma_ceil_div_bounds(want as nat, SHARED_MIN_SZ as nat);
        }
        let doubled: u64 = (want + base - 1) / base * base;
        let alloc: u64 = if doubled >= SHARED_MAX_SZ as u64 {
            (want + SHARED_MIN_SZ as u64 - 1) / (SHARED_MIN_SZ as u64) * (SHARED_MIN_SZ as u64)
        } else if doubled < SHARED_MIN_SZ as u64 {
            SHARED_MIN_SZ as u64
        } else {
            doubled
        };
        proof {
            let w = want as int;
            let b = base as int;
            assert(b % 128 == 0 && b >= 128);
            let q = (w + b - 1) / b;
            assert(q >= 0) by (nonlinear_arith)
                requires w >= 0, b >= 128, q == (w + b - 1) / b;
            let t = b / 128;
            assert(b == 128 * t);
            assert(q * b == (q * t) * 128) by (nonlinear_arith)
                requires b == 128 * t;
            lemma_mod_multiples_basic(q * t, 128);
            let q2 = (w + 127) / 128;
            lemma_mod_multiples_basic(q2, 128);
        }
        let fresh: Vec<u8> = vec![0u8; alloc as usize];
        self.buf = Some(fresh);
        true
    }

    /// Puts `frame` at the start of the buffer, after making room for it as
    /// `ensure_capacity` does; returns whether the buffer was replaced.
    pub fn load_frame(&mut self, frame: &[u8]) -> (new_buffer: bool)
        requires
            old(self).wf(),
            frame@.len() + SHARED_MIN_SZ <= u32::MAX,
        ensures
            final(self).wf(),
            new_buffer == needs_growth(old(self).capacity(), frame@.len()),
            final(self).capacity() == if new_buffer {
                Some(grown_capacity(old(self).capacity(), frame@.len()))
            } else {
                old(self).capacity()
            },
            final(self).capacity() matches Some(c) && c >= frame@.len(),
            final(self).contents().len() == final(self).capacity()->0,
            final(self).contents().subrange(0, frame@.len() as int) == frame@,
    {
        let len = frame.len();
        let new_buffer = self.ensure_capacity(len);
        let mut buf = match self.buf.take() {
            Some(b) => b,
            None => Vec::new(),
        };
        let ghost cap = buf@.len();
        let mut i: usize = 0;
        while i < len
            invariant
                len == frame@.len(),
                buf@.len() == cap,
                cap >= len,
                i <= len,
                forall|j: int| 0 <= j < i ==> buf@[j] == frame@[j],
            decreases len - i,
        {
            buf.set(i, frame[i]);
            i = i + 1;
        }
        proof {
            assert(buf@.subrange(0, len as int) =~= frame@);
        }
        self.buf = Some(buf);
        new_buffer
    }

    /// Delivers one host message: makes room for the header and `payload`,
    /// writes the header at offset 0 and the payload from offset 64, and
    /// returns whether the buffer was replaced (so that script must wrap it
    /// anew). Bytes past the payload hold no meaning.
    pub fn deliver(
        &mut self,
        message_type: i32,
        session: i32,
        origin: i32,
        payload: &[u8],
        payload_ptr: u64,
    ) -> (new_buffer: bool)
        requires
            old(self).wf(),
            payload@.len() + HEADER_SIZE + SHARED_MIN_SZ <= u32::MAX,
        ensures
            final(self).wf(),
            new_buffer == needs_growth(old(self).capacity(), (payload@.len() + HEADER_SIZE) as nat),
            final(self).capacity() == if new_buffer {
                Some(grown_capacity(old(self).capacity(), (payload@.len() + HEADER_SIZE) as nat))
            } else {
                old(self).capacity()
            },
            final(self).capacity() matches Some(c) && c >= payload@.len() + HEADER_SIZE,
            final(self).contents().len() == final(self).capacity()->0,
            final(self).contents().subrange(0, 4) == le_bytes((message_type as u32) as nat, 4),
            final(self).contents().subrange(4, 8) == le_bytes((session as u32) as nat, 4),
            final(self).contents().subrange(8, 12) == le_bytes((origin as u32) as nat, 4),
            final(self).contents().subrange(12, 16) == le_bytes(payload@.len(), 4),
            final(self).contents().subrange(16, 24) == le_bytes(payload_ptr as nat, 8),
            final(self).contents().subrange(HEADER_SIZE as int, HEADER_SIZE + payload@.len()) == payload@,
    {
        let len = payload.len();
        let new_buffer = self.ensure_capacity(len + HEADER_SIZE);
        let mut buf = match self.buf.take() {
            Some(b) => b,
            None => Vec::new(),
        };
        proof {
            lemma_le_bytes_len(0, 4);
            lemma_le_bytes_len(0, 8);
            assert forall|v: nat| #[trigger] le_bytes(v, 4).len() == 4 by {
                lemma_le_bytes_len(v, 4);
            }
            assert forall|v: nat| #[trigger] le_bytes(v, 8).len() == 8 by {
                lemma_le_bytes_len(v, 8);
            }
        }
        let ghost cap = buf@.len();
        write_i32_at(&mut buf, 0, message_type);
        let ghost b1 = buf@;
        write_i32_at(&mut buf, 4, session);
        let ghost b2 = buf@;
        write_i32_at(&mut buf, 8, origin);
        let ghost b3 = buf@;
        write_u32_at(&mut buf, 12, len as u32);
        let ghost b4 = buf@;
        write_u64_at(&mut buf, 16, payload_ptr);
        proof {
            assert(buf@.subrange(0, 16) =~= b4.subrange(0, 16));
            assert(b4.subrange(0, 12) =~= b3.subrange(0, 12));
            assert(b3.subrange(0, 8) =~= b2.subrange(0, 8));
            assert(b2.subrange(0, 4) =~= b1.subrange(0, 4));
            assert(buf@.subrange(0, 4) =~= b1.subrange(0, 4));
            assert(buf@.subrange(4, 8) =~= b2.subrange(4, 8));
            assert(buf@.subrange(8, 12) =~= b3.subrange(8, 12));
            assert(buf@.subrange(12, 16) =~= b4.subrange(12, 16));
        }
        let ghost header = buf@.subrange(0, 24);
        let mut i: usize = 0;
        while i < len
            invariant
                len == payload@.len(),
                buf@.len() == cap,
                cap >= len + HEADER_SIZE,
                len + HEADER_SIZE <= u32::MAX,
                i <= len,
                buf@.subrange(0, 24) == header,
                forall|j: int| 0 <= j < i ==> buf@[HEADER_SIZE + j] == payload@[j],
            decreases len - i,
        {
            buf.set(HEADER_SIZE + i, payload[i]);
            proof {
                assert(buf@.subrange(0, 24) =~= header);
            }
            i = i + 1;
        }
        proof {
            assert(buf@.subrange(HEADER_SIZE as int, HEADER_SIZE + len) =~= payload@);
            assert(buf@.subrange(0, 4) =~= header.subrange(0, 4));
            assert(buf@.subrange(4, 8) =~= header.subrange(4, 8));
            assert(buf@.subrange(8, 12) =~= header.subrange(8, 12));
            assert(buf@.subrange(12, 16) =~= header.subrange(12, 16));
            assert(buf@.subrange(16, 24) =~= header.subrange(16, 24));
        }
        self.buf = Some(buf);
        new_buffer
    }
}

} // verus!
