use crate::bytes::{
    le_u32, le_u64, push_u32_le, push_u64_le, read_u32_le, read_u64_le, u32_le, u64_le,
    lemma_u32_le_round_trip, lemma_u64_le_round_trip,
};
use crate::trace::DecodeError;
use vstd::prelude::*;

verus! {

/// Number of bytes of one encoded simulation record.
pub const SIM_RECORD_SIZE: usize = 25;

#[derive(Debug, PartialEq, Eq, Structural, Clone, Copy)]
pub enum Command {
    Get,
    Put,
}

/// One access as the simulator reads it.
#[derive(Debug, PartialEq, Eq, Structural, Clone, Copy)]
pub struct Access {
    pub timestamp: u64,
    pub command: Command,
    pub key: u64,
    pub size: u32,
    pub ttl: Option<u32>,
}

impl Command {
    pub open spec fn spec_byte(self) -> u8 {
        match self {
            Command::Get => 0,
            Command::Put => 1,
        }
    }
}

/// The command that a wire byte stands for, if any.
pub open spec fn sim_command_of(b: u8) -> Option<Command> {
    if b == 0 {
        Some(Command::Get)
    } else if b == 1 {
        Some(Command::Put)
    } else {
        None
    }
}

/// The TTL field read back: zero stands for none.
pub open spec fn sim_ttl_field(raw: u32) -> Option<u32> {
    if raw == 0 {
        None
    } else {
        Some(raw)
    }
}

/// The 25 bytes that stand for an access.
pub open spec fn sim_encode_spec(a: Access) -> Seq<u8> {
    u64_le(a.timestamp) + seq![a.command.spec_byte()] + u64_le(a.key) + u32_le(a.size) + u32_le(
        match a.ttl {
            None => 0,
            Some(t) => t,
        },
    )
}

/// The access that a record with a known command stands for.
pub open spec fn sim_decode_spec(s: Seq<u8>, command: Command) -> Access {
    Access {
        timestamp: le_u64(s, 0),
        command,
        key: le_u64(s, 9),
        size: le_u32(s, 17),
        ttl: sim_ttl_field(le_u32(s, 21)),
    }
}

/// Whether an access is a read that brings an object of real size into a cache.
pub open spec fn spec_read_through(a: Access) -> bool {
    a.command == Command::Get && a.size > 0
}

impl Access {
    pub fn size() -> (r: usize)
        ensures
            r == SIM_RECORD_SIZE,
    {
        SIM_RECORD_SIZE
    }

    pub fn is_valid_read_through(&self) -> (r: bool)
        ensures
            r == spec_read_through(*self),
    {
        self.command == Command::Get && self.size > 0
    }

    /// Decodes the record at the start of `buf`.
    pub fn from_chunk(buf: &[u8]) -> (r: Result<Access, DecodeError>)
        ensures
            buf@.len() < SIM_RECORD_SIZE ==> r == Err::<Access, DecodeError>(
                DecodeError::UnexpectedEof,
            ),
            buf@.len() >= SIM_RECORD_SIZE ==> match sim_command_of(buf@[8]) {
                Some(c) => r == Ok::<Access, DecodeError>(sim_decode_spec(buf@, c)),
                None => r == Err::<Access, DecodeError>(DecodeError::InvalidFormat),
            },
    {
        if buf.len() < SIM_RECORD_SIZE {
            return Err(DecodeError::UnexpectedEof);
        }
        assert(buf@.subrange(0, buf@.len() as int) =~= buf@);
        decode_at(buf, 0)
    }

    /// Appends the record of this access to `buf`; an absent TTL is written
    /// as zero.
    pub fn as_chunk(&self, buf: &mut Vec<u8>)
        ensures
            final(buf)@ == old(buf)@ + sim_encode_spec(*self),
    {
        push_u64_le(buf, self.timestamp);
        buf.push(
            match self.command {
                Command::Get => 0u8,
                Command::Put => 1u8,
            },
        );
        push_u64_le(buf, self.key);
        push_u32_le(buf, self.size);
        let ttl: u32 = match self.ttl {
            None => 0,
            Some(t) => t,
        };
        push_u32_le(buf, ttl);
        assert(buf@ =~= old(buf)@ + sim_encode_spec(*self));
    }
}

/// Decodes the record that starts at `at`.
fn decode_at(buf: &[u8], at: usize) -> (r: Result<Access, DecodeError>)
    requires
        at + SIM_RECORD_SIZE <= buf@.len(),
    ensures
        match sim_command_of(buf@[at + 8]) {
            Some(c) => r == Ok::<Access, DecodeError>(
                sim_decode_spec(buf@.subrange(at as int, buf@.len() as int), c),
            ),
            None => r == Err::<Access, DecodeError>(DecodeError::InvalidFormat),
        },
{
    let ghost t = buf@.subrange(at as int, buf@.len() as int);
    let n: usize = buf.len();
    assert(at + 25 <= n);
    let timestamp = read_u64_le(buf, at);
    let command = match buf[at + 8] {
        0 => Command::Get,
        1 => Command::Put,
        _ => {
            return Err(DecodeError::InvalidFormat);
        },
    };
    let key = read_u64_le(buf, at + 9);
    let size = read_u32_le(buf, at + 17);
    let raw_ttl = read_u32_le(buf, at + 21);
    let ttl = match raw_ttl {
        0 => None,
        value => Some(value),
    };
    assert(le_u64(t, 0) == le_u64(buf@, at as int));
    assert(le_u64(t, 9) == le_u64(buf@, at + 9));
    assert(le_u32(t, 17) == le_u32(buf@, at + 17));
    assert(le_u32(t, 21) == le_u32(buf@, at + 21));
    Ok(Access { timestamp, command, key, size, ttl })
}

/// The accesses of a stream of whole records, or the error of its first bad
/// record; a stream that ends inside a record is cut short.
pub open spec fn decode_all(s: Seq<u8>) -> Result<Seq<Access>, DecodeError>
    decreases s.len(),
{
    if s.len() == 0 {
        Ok(seq![])
    } else if s.len() < SIM_RECORD_SIZE {
        Err(DecodeError::UnexpectedEof)
    } else {
        match sim_command_of(s[8]) {
            None => Err(DecodeError::InvalidFormat),
            Some(c) => match decode_all(s.subrange(SIM_RECORD_SIZE as int, s.len() as int)) {
                Ok(rest) => Ok(seq![sim_decode_spec(s, c)] + rest),
                Err(e) => Err(e),
            },
        }
    }
}

/// `prefix` put in front of a decoded rest.
pub open spec fn prepend(prefix: Seq<Access>, r: Result<Seq<Access>, DecodeError>) -> Result<
    Seq<Access>,
    DecodeError,
> {
    match r {
        Ok(rest) => Ok(prefix + rest),
        Err(e) => Err(e),
    }
}

/// Decodes every record of a stream; the first bad or cut-short record ends
/// the stream with its error.
pub fn decode_stream(bytes: &[u8]) -> (r: Result<Vec<Access>, DecodeError>)
    ensures
        match decode_all(bytes@) {
            Ok(v) => r is Ok && r->Ok_0@ == v,
            Err(e) => r == Err::<Vec<Access>, DecodeError>(e),
        },
{
    let mut out: Vec<Access> = Vec::new();
    let mut pos: usize = 0;
    assert(bytes@.subrange(0, bytes@.len() as int) =~= bytes@);
    assert(prepend(out@, decode_all(bytes@)) =~= decode_all(bytes@)) by {
        match decode_all(bytes@) {
            Ok(rest) => {
                assert(out@ + rest =~= rest);
            },
            Err(e) => {},
        }
    }
    while pos < bytes.len()
        invariant
            pos <= bytes@.len(),
            decode_all(bytes@) == prepend(
                out@,
                decode_all(bytes@.subrange(pos as int, bytes@.len() as int)),
            ),
        decreases bytes@.len() - pos,
    {
        let ghost t = bytes@.subrange(pos as int, bytes@.len() as int);
        if bytes.len() - pos < SIM_RECORD_SIZE {
            return Err(DecodeError::UnexpectedEof);
        }
        assert(t[8] == bytes@[pos + 8]);
        let a = match decode_at(bytes, pos) {
            Ok(a) => a,
            Err(e) => {
                return Err(e);
            },
        };
        let ghost before = out@;
        out.push(a);
        proof {
            let rest = bytes@.subrange(pos + SIM_RECORD_SIZE, bytes@.len() as int);
            assert(t.subrange(SIM_RECORD_SIZE as int, t.len() as int) =~= rest);
            match decode_all(rest) {
                Ok(v) => {
                    assert(out@ + v =~= before + (seq![a] + v));
                },
                Err(e) => {},
            }
        }
        pos = pos + SIM_RECORD_SIZE;
    }
    assert(bytes@.subrange(pos as int, bytes@.len() as int) =~= Seq::<u8>::empty());
    assert(out@ + Seq::<Access>::empty() =~= out@);
    Ok(out)
}

/// Whether timestamps never decrease along `trace`.
pub fn is_monotone(trace: &Vec<Access>) -> (r: bool)
    ensures
        r == crate::lru::monotone(trace@),
{
    let mut i: usize = 1;
    if trace.len() == 0 {
        return true;
    }
    while i < trace.len()
        invariant
            1 <= i <= trace@.len(),
            forall|j: int, k: int| 0 <= j <= k < i ==> trace@[j].timestamp <= trace@[k].timestamp,
        decreases trace@.len() - i,
    {
        if trace[i].timestamp < trace[i - 1].timestamp {
            return false;
        }
        i = i + 1;
    }
    true
}

/// Decoding the record of an access gives back that access, for every access
/// without a zero TTL (a zero TTL is read back as none).
pub proof fn lemma_sim_record_round_trip(a: Access)
    ensures
        sim_encode_spec(a).len() == SIM_RECORD_SIZE,
        sim_command_of(sim_encode_spec(a)[8]) == Some(a.command),
        a.ttl != Some(0u32) ==> sim_decode_spec(sim_encode_spec(a), a.command) == a,
{
    let s = sim_encode_spec(a);
    let ttl: u32 = match a.ttl {
        None => 0,
        Some(t) => t,
    };
    assert(s.subrange(0, 8) =~= u64_le(a.timestamp));
    assert(s[8] == a.command.spec_byte());
    assert(s.subrange(9, 17) =~= u64_le(a.key));
    assert(s.subrange(17, 21) =~= u32_le(a.size));
    assert(s.subrange(21, 25) =~= u32_le(ttl));
    lemma_u64_le_round_trip(s, 0, a.timestamp);
    lemma_u64_le_round_trip(s, 9, a.key);
    lemma_u32_le_round_trip(s, 17, a.size);
    lemma_u32_le_round_trip(s, 21, ttl);
}

} // verus!
