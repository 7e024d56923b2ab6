use crate::bytes::{
    le_u32, le_u64, push_u32_le, push_u64_le, read_u32_le, read_u64_le, u32_le, u64_le,
    lemma_u32_le_round_trip, lemma_u64_le_round_trip,
};
use vstd::prelude::*;

verus! {

/// Milliseconds since the start of the trace.
pub type Timestamp = u32;

pub type Key = u64;

pub type KeySize = u8;

pub type ValueSize = u32;

pub type ClientId = u32;

pub type Ttl = u32;

/// Number of bytes of one encoded trace record.
pub const RECORD_SIZE: usize = 24;

/// Values of `vsize` must lie below this bound to fit their 22-bit field.
pub const VALUE_SIZE_LIMIT: u32 = 0x40_0000;

/// Largest TTL that the 24-bit field holds.
pub const TTL_MAX: u32 = 0xFF_FFFF;

#[derive(Debug, PartialEq, Eq, Structural, Clone, Copy)]
pub enum Command {
    Nop,
    Get,
    Gets,
    Put,
    Add,
    Cas,
    Replace,
    Append,
    Prepend,
    Delete,
    Incr,
    Decr,
    Read,
    Write,
    Update,
    Invalid,
}

#[derive(Debug, PartialEq, Eq, Structural, Clone, Copy)]
pub struct Access {
    pub timestamp: Timestamp,
    pub command: Command,
    pub key: Key,
    pub ksize: KeySize,
    pub vsize: ValueSize,
    pub cid: ClientId,
    pub ttl: Option<Ttl>,
}

/// Why a record could not be decoded.
#[derive(Debug, PartialEq, Eq, Structural, Clone, Copy)]
pub enum DecodeError {
    /// The buffer holds fewer bytes than one record.
    UnexpectedEof,
    /// The command byte names no command.
    InvalidFormat,
}

/// Why an access could not be encoded.
#[derive(Debug, PartialEq, Eq, Structural, Clone, Copy)]
pub enum EncodeError {
    /// `vsize` does not fit its 22-bit field.
    ValueSizeTooLarge,
}

/// What an encoder reports besides the bytes it wrote.
#[derive(Debug, PartialEq, Eq, Structural, Clone, Copy)]
pub enum Diagnostic {
    /// The TTL did not fit its 24-bit field and was written as `TTL_MAX`.
    OversizedTtl(Ttl),
}

impl Command {
    /// The byte that stands for each command on the wire.
    pub open spec fn spec_byte(self) -> u8 {
        match self {
            Command::Nop => 0,
            Command::Get => 1,
            Command::Gets => 2,
            Command::Put => 3,
            Command::Add => 4,
            Command::Cas => 5,
            Command::Replace => 6,
            Command::Append => 7,
            Command::Prepend => 8,
            Command::Delete => 9,
            Command::Incr => 10,
            Command::Decr => 11,
            Command::Read => 12,
            Command::Write => 13,
            Command::Update => 14,
            Command::Invalid => 255,
        }
    }

    /// The command that a wire byte stands for, if any.
    pub open spec fn spec_from_byte(b: u8) -> Option<Command> {
        if b <= 14 || b == 255 {
            Some(choose|c: Command| c.spec_byte() == b)
        } else {
            None
        }
    }

    pub fn from_byte(byte: u8) -> (r: Result<Command, DecodeError>)
        ensures
            match r {
                Ok(c) => c.spec_byte() == byte,
                Err(e) => e == DecodeError::InvalidFormat,
            },
            r is Ok <==> (byte <= 14 || byte == 255),
    {
        match byte {
            0 => Ok(Command::Nop),
            1 => Ok(Command::Get),
            2 => Ok(Command::Gets),
            3 => Ok(Command::Put),
            4 => Ok(Command::Add),
            5 => Ok(Command::Cas),
            6 => Ok(Command::Replace),
            7 => Ok(Command::Append),
            8 => Ok(Command::Prepend),
            9 => Ok(Command::Delete),
            10 => Ok(Command::Incr),
            11 => Ok(Command::Decr),
            12 => Ok(Command::Read),
            13 => Ok(Command::Write),
            14 => Ok(Command::Update),
            255 => Ok(Command::Invalid),
            _ => Err(DecodeError::InvalidFormat),
        }
    }

    pub fn as_byte(&self) -> (r: u8)
        ensures
            r == self.spec_byte(),
    {
        match self {
            Command::Nop => 0,
            Command::Get => 1,
            Command::Gets => 2,
            Command::Put => 3,
            Command::Add => 4,
            Command::Cas => 5,
            Command::Replace => 6,
            Command::Append => 7,
            Command::Prepend => 8,
            Command::Delete => 9,
            Command::Incr => 10,
            Command::Decr => 11,
            Command::Read => 12,
            Command::Write => 13,
            Command::Update => 14,
            Command::Invalid => 255,
        }
    }
}

/// Distinct commands have distinct wire bytes.
pub proof fn lemma_command_byte_injective(a: Command, b: Command)
    requires
        a.spec_byte() == b.spec_byte(),
    ensures
        a == b,
{
}

/// The TTL as it is written: zero for none, clamped to `TTL_MAX`.
pub open spec fn stored_ttl(ttl: Option<Ttl>) -> u32 {
    match ttl {
        None => 0,
        Some(t) => if t <= TTL_MAX {
            t
        } else {
            TTL_MAX
        },
    }
}

/// Key size in the top 10 bits, value size in the low 22.
pub open spec fn packed_sizes(ksize: KeySize, vsize: ValueSize) -> u32 {
    ((ksize as u32) << 22u32) | vsize
}

/// Command byte in the top 8 bits, TTL in the low 24.
pub open spec fn packed_command_ttl(command: Command, ttl: Option<Ttl>) -> u32 {
    ((command.spec_byte() as u32) << 24u32) | stored_ttl(ttl)
}

/// The 24 bytes that stand for an access.
pub open spec fn encode_spec(a: Access) -> Seq<u8> {
    u32_le(a.timestamp) + u64_le(a.key) + u32_le(packed_sizes(a.ksize, a.vsize)) + u32_le(
        packed_command_ttl(a.command, a.ttl),
    ) + u32_le(a.cid)
}

/// The command byte of the record that starts a buffer.
pub open spec fn record_command_byte(s: Seq<u8>) -> u8 {
    (le_u32(s, 16) >> 24u32) as u8
}

/// The TTL field read back: zero stands for none.
pub open spec fn ttl_field(raw: u32) -> Option<Ttl> {
    if raw & 0xFF_FFFFu32 == 0 {
        None
    } else {
        Some(raw & 0xFF_FFFFu32)
    }
}

/// The access that a well-formed record with a known command byte stands for.
pub open spec fn decode_spec(s: Seq<u8>, command: Command) -> Access {
    let sizes = le_u32(s, 12);
    Access {
        timestamp: le_u32(s, 0),
        command,
        key: le_u64(s, 4),
        ksize: (sizes >> 22u32) as u8,
        vsize: sizes & 0x3F_FFFFu32,
        cid: le_u32(s, 20),
        ttl: ttl_field(le_u32(s, 16)),
    }
}

/// An access that the encoder can write without loss.
pub open spec fn encodable(a: Access) -> bool {
    &&& a.vsize < VALUE_SIZE_LIMIT
    &&& match a.ttl {
        None => true,
        Some(t) => 0 < t && t <= TTL_MAX,
    }
}

/// The access that the record of `a` decodes to: `a` with its TTL as stored.
pub open spec fn stored_access(a: Access) -> Access {
    Access { ttl: ttl_field(stored_ttl(a.ttl)), ..a }
}

/// Decoding the record of an access whose value size fits gives back that
/// access, with a TTL above `TTL_MAX` read back as `TTL_MAX`; for an access
/// that is encodable (no zero TTL, no TTL above `TTL_MAX`) it gives back the
/// access itself.
pub proof fn lemma_record_round_trip(a: Access)
    requires
        a.vsize < VALUE_SIZE_LIMIT,
    ensures
        encode_spec(a).len() == RECORD_SIZE,
        Command::spec_from_byte(record_command_byte(encode_spec(a))) == Some(a.command),
        decode_spec(encode_spec(a), a.command) == stored_access(a),
        encodable(a) ==> stored_access(a) == a,
        a.ttl is Some && a.ttl->0 > TTL_MAX ==> stored_access(a).ttl == Some(TTL_MAX),
{
    let s = encode_spec(a);
    let sizes = packed_sizes(a.ksize, a.vsize);
    let op_ttl = packed_command_ttl(a.command, a.ttl);
    assert(s.subrange(0, 4) =~= u32_le(a.timestamp));
    assert(s.subrange(4, 12) =~= u64_le(a.key));
    assert(s.subrange(12, 16) =~= u32_le(sizes));
    assert(s.subrange(16, 20) =~= u32_le(op_ttl));
    assert(s.subrange(20, 24) =~= u32_le(a.cid));
    lemma_u32_le_round_trip(s, 0, a.timestamp);
    lemma_u64_le_round_trip(s, 4, a.key);
    lemma_u32_le_round_trip(s, 12, sizes);
    lemma_u32_le_round_trip(s, 16, op_ttl);
    lemma_u32_le_round_trip(s, 20, a.cid);
    let k = a.ksize;
    let v = a.vsize;
    assert((((k as u32) << 22u32) | v) >> 22u32 == k as u32 && (((k as u32) << 22u32) | v)
        & 0x3F_FFFFu32 == v) by (bit_vector)
        requires
            v < 0x40_0000u32,
    ;
    let b = a.command.spec_byte();
    let t = stored_ttl(a.ttl);
    assert((((b as u32) << 24u32) | t) >> 24u32 == b as u32 && (((b as u32) << 24u32) | t)
        & 0xFF_FFFFu32 == t && t & 0xFF_FFFFu32 == t) by (bit_vector)
        requires
            t <= 0xFF_FFFFu32,
    ;
    lemma_command_byte_injective(Command::spec_from_byte(b).unwrap(), a.command);
}

impl Access {
    pub fn size() -> (r: usize)
        ensures
            r == RECORD_SIZE,
    {
        RECORD_SIZE
    }

    /// Decodes the record at the start of `buf`.
    pub fn from_chunk(buf: &[u8]) -> (r: Result<Access, DecodeError>)
        ensures
            buf@.len() < RECORD_SIZE ==> r == Err::<Access, DecodeError>(
                DecodeError::UnexpectedEof,
            ),
            buf@.len() >= RECORD_SIZE ==> match Command::spec_from_byte(
                record_command_byte(buf@),
            ) {
                Some(c) => r == Ok::<Access, DecodeError>(decode_spec(buf@, c)),
                None => r == Err::<Access, DecodeError>(DecodeError::InvalidFormat),
            },
    {
        if buf.len() < RECORD_SIZE {
            return Err(DecodeError::UnexpectedEof);
        }
        let timestamp = read_u32_le(buf, 0);
        let key = read_u64_le(buf, 4);
        let key_value_size = read_u32_le(buf, 12);
        let op_ttl = read_u32_le(buf, 16);
        let cid = read_u32_le(buf, 20);

        let ksize = (key_value_size >> 22u32) as u8;
        let vsize = key_value_size & 0x3F_FFFFu32;
        let op = (op_ttl >> 24u32) as u8;
        let ttl = match op_ttl & 0xFF_FFFFu32 {
            0 => None,
            value => Some(value),
        };
        let command = match Command::from_byte(op) {
            Ok(c) => c,
            Err(e) => {
                return Err(e);
            },
        };
        proof {
            let c = Command::spec_from_byte(op).unwrap();
            lemma_command_byte_injective(c, command);
        }
        Ok(Access { timestamp, command, key, ksize, vsize, cid, ttl })
    }

    /// Appends the record of this access to `buf`. A TTL above `TTL_MAX` is
    /// written as `TTL_MAX` and reported; a value size that does not fit is
    /// refused and leaves `buf` as it was.
    pub fn as_chunk(&self, buf: &mut Vec<u8>) -> (r: Result<Option<Diagnostic>, EncodeError>)
        ensures
            self.vsize >= VALUE_SIZE_LIMIT ==> r == Err::<Option<Diagnostic>, EncodeError>(
                EncodeError::ValueSizeTooLarge,
            ) && final(buf)@ == old(buf)@,
            self.vsize < VALUE_SIZE_LIMIT ==> final(buf)@ == old(buf)@ + encode_spec(*self),
            self.vsize < VALUE_SIZE_LIMIT ==> r == Ok::<Option<Diagnostic>, EncodeError>(
                match self.ttl {
                    Some(t) => if t > TTL_MAX {
                        Some(Diagnostic::OversizedTtl(t))
                    } else {
                        None
                    },
                    None => None,
                },
            ),
    {
        if self.vsize >= VALUE_SIZE_LIMIT {
            return Err(EncodeError::ValueSizeTooLarge);
        }
        let (ttl, diagnostic) = match self.ttl {
            None => (0u32, None),
            Some(t) => if t <= TTL_MAX {
                (t, None)
            } else {
                (TTL_MAX, Some(Diagnostic::OversizedTtl(t)))
            },
        };
        let key_value_size: u32 = ((self.ksize as u32) << 22u32) | self.vsize;
        let op_ttl: u32 = ((self.command.as_byte() as u32) << 24u32) | ttl;
        push_u32_le(buf, self.timestamp);
        push_u64_le(buf, self.key);
        push_u32_le(buf, key_value_size);
        push_u32_le(buf, op_ttl);
        push_u32_le(buf, self.cid);
        assert(buf@ =~= old(buf)@ + encode_spec(*self));
        Ok(diagnostic)
    }
}

} // verus!
