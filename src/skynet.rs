//! Message-bus side of the host: the argument shapes of its operations, and
//! the framing of socket messages handed to script through the bridge buffer.
//!
//! A socket frame is: message type (i32), socket id (i32), `ud` (i32); then
//! either the data, or an error text behind its length (i16); then, for UDP
//! messages, the peer address behind its length (i16).
use crate::bridge::{le_bytes, lemma_le_bytes_len, overwrite, write_i16_at, write_i32_at};
use vstd::prelude::*;

verus! {

/// Type tag of a UDP socket message.
pub const SKYNET_SOCKET_TYPE_UDP: i32 = 6;

/// Flag asking the bus not to copy a message: the receiver frees it.
pub const PTYPE_TAG_DONTCOPY: i32 = 0x10000;

/// Largest length an i16 length field holds.
pub const MAX_FIELD_LEN: usize = 32767;

pub struct CommandArgs {
    pub cmd: String,
    pub param: String,
}

pub struct SendArgs {
    pub dest: u32,
    pub ptype: i32,
    pub session: i32,
}

pub struct SendNameArgs {
    pub name: String,
    pub ptype: i32,
    pub session: i32,
}

pub struct SocketConnectArgs {
    pub addr: String,
    pub port: i32,
}

pub struct SocketListenArgs {
    pub host: String,
    pub port: i32,
    pub backlog: i32,
}

pub struct SocketUdpArgs {
    pub host: String,
    pub port: i32,
}

pub struct SocketUdpConnectArgs {
    pub id: i32,
    pub host: String,
    pub port: i32,
}

/// The message type a send goes out with: the given type, not to be copied.
pub fn send_type(ptype: i32) -> (r: i32)
    ensures
        r == ptype | PTYPE_TAG_DONTCOPY,
{
    ptype | PTYPE_TAG_DONTCOPY
}

/// The bytes of `bufs`, one after the other.
pub open spec fn concat_all(bufs: Seq<Seq<u8>>) -> Seq<u8>
    decreases bufs.len(),
{
    if bufs.len() == 0 {
        Seq::empty()
    } else {
        concat_all(bufs.drop_last()) + bufs.last()
    }
}

/// Joins the buffers of a send into one message.
pub fn merge_bufs(bufs: &Vec<Vec<u8>>) -> (r: Vec<u8>)
    ensures
        r@ == concat_all(bufs@.map_values(|b: Vec<u8>| b@)),
{
    let ghost views = bufs@.map_values(|b: Vec<u8>| b@);
    let mut out: Vec<u8> = Vec::new();
    let mut i: usize = 0;
    while i < bufs.len()
        invariant
            i <= bufs@.len(),
            views == bufs@.map_values(|b: Vec<u8>| b@),
            out@ == concat_all(views.subrange(0, i as int)),
        decreases bufs@.len() - i,
    {
        let b = &bufs[i];
        let ghost before = out@;
        let mut j: usize = 0;
        while j < b.len()
            invariant
                j <= b@.len(),
                out@ == before + b@.subrange(0, j as int),
            decreases b@.len() - j,
        {
            out.push(b[j]);
            proof {
                assert(out@ =~= before + b@.subrange(0, j + 1));
            }
            j = j + 1;
        }
        proof {
            assert(b@.subrange(0, j as int) =~= b@);
            assert(views.subrange(0, i + 1).drop_last() =~= views.subrange(0, i as int));
            assert(views.subrange(0, i + 1).last() == b@);
        }
        i = i + 1;
    }
    proof {
        assert(views.subrange(0, i as int) =~= views);
    }
    out
}

/// What follows the fixed part of a socket frame.
pub enum SocketBody {
    /// Data received on the socket.
    Data(Vec<u8>),
    /// A message without data: the error text that follows it (maybe empty).
    Error(Vec<u8>),
}

/// A length field of two bytes.
pub open spec fn len_field(n: nat) -> Seq<u8> {
    le_bytes(n, 2)
}

/// The bytes of a socket frame.
pub open spec fn socket_frame(
    msg_type: i32,
    id: i32,
    ud: i32,
    body: SocketBody,
    udp_address: Option<Seq<u8>>,
) -> Seq<u8> {
    let head = le_bytes((msg_type as u32) as nat, 4) + le_bytes((id as u32) as nat, 4) + le_bytes(
        (ud as u32) as nat,
        4,
    );
    let middle = match body {
        SocketBody::Data(d) => d@,
        SocketBody::Error(e) => len_field(e@.len()) + e@,
    };
    let tail = if msg_type == SKYNET_SOCKET_TYPE_UDP {
        match udp_address {
            Some(a) => len_field(a.len()) + a,
            None => len_field(0),
        }
    } else {
        Seq::empty()
    };
    head + middle + tail
}

/// Copies `src` into `buf` from `at`.
fn copy_into(buf: &mut Vec<u8>, at: usize, src: &[u8])
    requires
        at + src@.len() <= old(buf)@.len(),
    ensures
        final(buf)@ == overwrite(old(buf)@, at as int, src@),
{
    let ghost start = buf@;
    let _n = buf.len();
    let mut i: usize = 0;
    while i < src.len()
        invariant
            at + src@.len() <= buf@.len(),
            buf@.len() <= usize::MAX,
            buf@.len() == start.len(),
            i <= src@.len(),
            buf@ == overwrite(start, at as int, src@.subrange(0, i as int)),
        decreases src@.len() - i,
    {
        buf.set(at + i, src[i]);
        proof {
            assert(buf@ =~= overwrite(start, at as int, src@.subrange(0, i + 1)));
        }
        i = i + 1;
    }
    proof {
        assert(src@.subrange(0, i as int) =~= src@);
    }
}

/// Writes a length field of two bytes at `at`.
fn write_len_at(buf: &mut Vec<u8>, at: usize, n: usize)
    requires
        at + 2 <= old(buf)@.len(),
        n <= MAX_FIELD_LEN,
    ensures
        final(buf)@ == overwrite(old(buf)@, at as int, len_field(n as nat)),
{
    let v = n as i16;
    proof {
        assert((v as u16) as nat == n as nat) by (bit_vector)
            requires
                v == n as i16,
                n <= 32767usize,
        ;
    }
    write_i16_at(buf, at, v);
}

/// A length field followed by `bytes`.
fn prefixed(bytes: &[u8]) -> (r: Vec<u8>)
    requires
        bytes@.len() <= MAX_FIELD_LEN,
    ensures
        r@ == len_field(bytes@.len()) + bytes@,
{
    let n = bytes.len();
    let mut out: Vec<u8> = vec![0u8; n + 2];
    proof {
        lemma_le_bytes_len(n as nat, 2);
    }
    write_len_at(&mut out, 0, n);
    let ghost w = out@;
    copy_into(&mut out, 2, bytes);
    proof {
        assert(out@.subrange(0, 2) =~= w.subrange(0, 2));
        assert(out@ =~= len_field(bytes@.len()) + bytes@);
    }
    out
}

/// Builds the frame of one socket message.
pub fn encode_socket_message(
    msg_type: i32,
    id: i32,
    ud: i32,
    body: &SocketBody,
    udp_address: Option<&[u8]>,
) -> (r: Vec<u8>)
    requires
        match body {
            SocketBody::Data(_) => true,
            SocketBody::Error(e) => e@.len() <= MAX_FIELD_LEN,
        },
        match udp_address {
            Some(a) => a@.len() <= MAX_FIELD_LEN,
            None => true,
        },
    ensures
        r@ == socket_frame(
            msg_type,
            id,
            ud,
            *body,
            match udp_address {
                Some(a) => Some(a@),
                None => None,
            },
        ),
{
    let mut head: Vec<u8> = vec![0u8; 12];
    proof {
        lemma_le_bytes_len((msg_type as u32) as nat, 4);
        lemma_le_bytes_len((id as u32) as nat, 4);
        lemma_le_bytes_len((ud as u32) as nat, 4);
    }
    write_i32_at(&mut head, 0, msg_type);
    let ghost b1 = head@;
    write_i32_at(&mut head, 4, id);
    let ghost b2 = head@;
    write_i32_at(&mut head, 8, ud);
    proof {
        assert(head@ =~= le_bytes((msg_type as u32) as nat, 4) + le_bytes((id as u32) as nat, 4)
            + le_bytes((ud as u32) as nat, 4)) by {
            assert(head@.subrange(0, 4) =~= b1.subrange(0, 4));
            assert(head@.subrange(4, 8) =~= b2.subrange(4, 8));
        }
    }
    let mut middle: Vec<u8> = match body {
        SocketBody::Data(d) => {
            let mut m: Vec<u8> = vec![0u8; d.len()];
            copy_into(&mut m, 0, d.as_slice());
            proof {
                assert(m@ =~= d@);
            }
            m
        },
        SocketBody::Error(e) => prefixed(e.as_slice()),
    };
    let mut tail: Vec<u8> = if msg_type == SKYNET_SOCKET_TYPE_UDP {
        match udp_address {
            Some(a) => prefixed(a),
            None => {
                let empty: Vec<u8> = Vec::new();
                let t = prefixed(empty.as_slice());
                proof {
                    assert(t@ =~= len_field(0));
                }
                t
            },
        }
    } else {
        Vec::new()
    };
    head.append(&mut middle);
    head.append(&mut tail);
    head
}

} // verus!
