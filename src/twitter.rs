use crate::row::{comma_positions, commas, copy_range, decimal_field, field, parse_decimal};
use crate::trace::{Access, ClientId, Command, Key, KeySize, Timestamp, Ttl, ValueSize};
use fasthash::{murmur3::Hash128_x64, FastHash};
use vstd::prelude::*;
use vstd::string::StringSliceAdditionalSpecFns;

verus! {

/// What a source row turns into.
pub enum AccessType {
    Supported(Access),
    Unsupported,
}

/// A source row, with the number of bytes it took in its file.
pub trait ConvertRow {
    fn size(&self) -> usize;
}

/// The source formats that can be normalised.
#[derive(Debug, PartialEq, Eq, Structural, Clone, Copy)]
pub enum Format {
    Twitter,
}

/// Why a row of a Twitter trace could not be read.
#[derive(Debug, PartialEq, Eq, Structural, Clone, Copy)]
pub enum RowError {
    /// Fewer than the seven comma-separated fields of a row.
    TooFewFields,
    /// The timestamp is not a number of seconds whose milliseconds fit a `u32`.
    InvalidTimestamp,
    /// A key size, value size or client id is not a number that fits its field.
    InvalidSize,
    /// The TTL is not a number that fits a `u32`.
    InvalidTtl,
}

/// One row of a Twitter cache trace, split into its fields. The key and the
/// command are kept as the bytes of the row.
pub struct TwitterRow {
    pub timestamp: Timestamp,
    pub key: Vec<u8>,
    pub ksize: KeySize,
    pub vsize: ValueSize,
    pub cid: ClientId,
    pub command: Vec<u8>,
    pub ttl: Ttl,
    pub row_size: usize,
}

/// The 128-bit MurmurHash3 (x64 variant) of a byte string.
pub uninterp spec fn murmur3_x64_128(bytes: Seq<u8>) -> u128;

/// Relies on fasthash's `murmur3::Hash128_x64::hash`: the 128-bit MurmurHash3
/// of the bytes, which depends on those bytes alone.
#[verifier::external_body]
fn hash(key_bytes: &[u8]) -> (r: u128)
    ensures
        r == murmur3_x64_128(key_bytes@),
{
    Hash128_x64::hash(key_bytes)
}

/// The command that a Twitter command name stands for, if it is one that is kept.
pub open spec fn command_of_name(name: Seq<u8>) -> Option<Command> {
    if name == "get".spec_bytes() {
        Some(Command::Get)
    } else if name == "set".spec_bytes() {
        Some(Command::Put)
    } else if name == "add".spec_bytes() {
        Some(Command::Add)
    } else if name == "replace".spec_bytes() {
        Some(Command::Replace)
    } else if name == "append".spec_bytes() {
        Some(Command::Append)
    } else if name == "prepend".spec_bytes() {
        Some(Command::Prepend)
    } else if name == "incr".spec_bytes() {
        Some(Command::Incr)
    } else if name == "decr".spec_bytes() {
        Some(Command::Decr)
    } else if name == "gets".spec_bytes() {
        Some(Command::Gets)
    } else if name == "cas".spec_bytes() {
        Some(Command::Cas)
    } else if name == "delete".spec_bytes() {
        Some(Command::Delete)
    } else {
        None
    }
}

/// The key of a row: the fields between the timestamp and the last five,
/// commas included.
pub open spec fn key_field(s: Seq<u8>, c: Seq<usize>) -> Seq<u8> {
    if c.len() > 5 {
        s.subrange(c[0] + 1, c[c.len() - 5] as int)
    } else {
        Seq::empty()
    }
}

/// The first thing wrong with a row, in the order the fields are read.
pub open spec fn row_error(s: Seq<u8>) -> Option<RowError> {
    let c = commas(s);
    let n = c.len() as int;
    if n < 5 {
        Some(RowError::TooFewFields)
    } else if decimal_field(field(s, c, 0), u32::MAX as int) is None || decimal_field(
        field(s, c, 0),
        u32::MAX as int,
    )->0 * 1000 > u32::MAX {
        Some(RowError::InvalidTimestamp)
    } else if decimal_field(field(s, c, n - 4), u8::MAX as int) is None || decimal_field(
        field(s, c, n - 3),
        u32::MAX as int,
    ) is None || decimal_field(field(s, c, n - 2), u32::MAX as int) is None {
        Some(RowError::InvalidSize)
    } else if decimal_field(field(s, c, n), u32::MAX as int) is None {
        Some(RowError::InvalidTtl)
    } else {
        None
    }
}

/// Whether `row` holds the fields of the well-formed row `s`.
pub open spec fn row_matches(row: TwitterRow, s: Seq<u8>) -> bool {
    let c = commas(s);
    let n = c.len() as int;
    &&& row.timestamp == decimal_field(field(s, c, 0), u32::MAX as int)->0 * 1000
    &&& row.key@ == key_field(s, c)
    &&& row.ksize == decimal_field(field(s, c, n - 4), u8::MAX as int)->0
    &&& row.vsize == decimal_field(field(s, c, n - 3), u32::MAX as int)->0
    &&& row.cid == decimal_field(field(s, c, n - 2), u32::MAX as int)->0
    &&& row.command@ == field(s, c, n - 1)
    &&& row.ttl == decimal_field(field(s, c, n), u32::MAX as int)->0
    &&& row.row_size == s.len() + 1
}

fn bytes_equal(a: &[u8], b: &[u8]) -> (r: bool)
    ensures
        r == (a@ == b@),
{
    if a.len() != b.len() {
        return false;
    }
    let mut i: usize = 0;
    while i < a.len()
        invariant
            i <= a@.len(),
            a@.len() == b@.len(),
            forall|k: int| 0 <= k < i ==> a@[k] == b@[k],
        decreases a@.len() - i,
    {
        if a[i] != b[i] {
            return false;
        }
        i = i + 1;
    }
    assert(a@ =~= b@);
    true
}

fn name_is(name: &Vec<u8>, candidate: &str) -> (r: bool)
    ensures
        r == (name@ == candidate.spec_bytes()),
{
    bytes_equal(name.as_slice(), candidate.as_bytes())
}

/// Zero stands for no TTL.
pub open spec fn ttl_of(raw: Ttl) -> Option<Ttl> {
    if raw == 0 {
        None
    } else {
        Some(raw)
    }
}

/// The access a row stands for, given its command.
pub open spec fn row_access(row: TwitterRow, command: Command) -> Access {
    Access {
        timestamp: row.timestamp,
        command,
        key: murmur3_x64_128(row.key@) as u64,
        ksize: row.ksize,
        vsize: row.vsize,
        cid: row.cid,
        ttl: ttl_of(row.ttl),
    }
}

pub fn parse_command(twitter_row: &TwitterRow) -> (r: Option<Command>)
    ensures
        r == command_of_name(twitter_row.command@),
{
    let name = &twitter_row.command;
    if name_is(name, "get") {
        Some(Command::Get)
    } else if name_is(name, "set") {
        Some(Command::Put)
    } else if name_is(name, "add") {
        Some(Command::Add)
    } else if name_is(name, "replace") {
        Some(Command::Replace)
    } else if name_is(name, "append") {
        Some(Command::Append)
    } else if name_is(name, "prepend") {
        Some(Command::Prepend)
    } else if name_is(name, "incr") {
        Some(Command::Incr)
    } else if name_is(name, "decr") {
        Some(Command::Decr)
    } else if name_is(name, "gets") {
        Some(Command::Gets)
    } else if name_is(name, "cas") {
        Some(Command::Cas)
    } else if name_is(name, "delete") {
        Some(Command::Delete)
    } else {
        None
    }
}

/// The key of a row: the low 64 bits of the MurmurHash3 of its key string.
pub fn parse_key(twitter_row: &TwitterRow) -> (r: Key)
    ensures
        r == murmur3_x64_128(twitter_row.key@) as u64,
{
    hash(twitter_row.key.as_slice()) as Key
}

pub fn parse_ttl(twitter_row: &TwitterRow) -> (r: Option<Ttl>)
    ensures
        r == ttl_of(twitter_row.ttl),
{
    match twitter_row.ttl {
        0 => None,
        ttl => Some(ttl),
    }
}

impl TwitterRow {
    /// Splits a row of a Twitter trace: a timestamp in seconds, a key (which
    /// may itself hold commas), key size, value size, client id, command and
    /// TTL, separated by commas. The timestamp is turned into milliseconds.
    pub fn from_line(value: &str) -> (r: Result<TwitterRow, RowError>)
        requires
            value.spec_bytes().len() < usize::MAX,
        ensures
            match row_error(value.spec_bytes()) {
                Some(e) => r == Err::<TwitterRow, RowError>(e),
                None => r is Ok && row_matches(r->Ok_0, value.spec_bytes()),
            },
    {
        let b = value.as_bytes();
        let ghost s = b@;
        let c = comma_positions(b);
        let n = c.len();
        if n < 5 {
            return Err(RowError::TooFewFields);
        }
        let ghost cs = c@;
        assert(field(s, cs, 0) == b@.subrange(0, c[0] as int));
        let timestamp = match parse_decimal(b, 0, c[0], 0xFFFF_FFFF) {
            Some(t) => if t <= 4_294_967 {
                assert(t * 1000 <= u32::MAX) by (nonlinear_arith)
                    requires
                        t <= 4_294_967,
                ;
                (t * 1000) as u32
            } else {
                assert(t * 1000 > u32::MAX) by (nonlinear_arith)
                    requires
                        t > 4_294_967,
                ;
                return Err(RowError::InvalidTimestamp);
            },
            None => {
                return Err(RowError::InvalidTimestamp);
            },
        };
        let key = if n > 5 {
            copy_range(b, c[0] + 1, c[n - 5])
        } else {
            Vec::new()
        };
        assert(key@ =~= key_field(s, cs));
        assert(field(s, cs, n - 4) == b@.subrange(c[n - 5] + 1, c[n - 4] as int));
        assert(field(s, cs, n - 3) == b@.subrange(c[n - 4] + 1, c[n - 3] as int));
        assert(field(s, cs, n - 2) == b@.subrange(c[n - 3] + 1, c[n - 2] as int));
        assert(field(s, cs, n - 1) == b@.subrange(c[n - 2] + 1, c[n - 1] as int));
        assert(field(s, cs, n as int) == b@.subrange(c[n - 1] + 1, b@.len() as int));
        let ksize = parse_decimal(b, c[n - 5] + 1, c[n - 4], 255);
        let vsize = parse_decimal(b, c[n - 4] + 1, c[n - 3], 0xFFFF_FFFF);
        let cid = parse_decimal(b, c[n - 3] + 1, c[n - 2], 0xFFFF_FFFF);
        if ksize.is_none() || vsize.is_none() || cid.is_none() {
            return Err(RowError::InvalidSize);
        }
        let ksize = ksize.unwrap() as u8;
        let vsize = vsize.unwrap() as u32;
        let cid = cid.unwrap() as u32;
        let command = copy_range(b, c[n - 2] + 1, c[n - 1]);
        let ttl = match parse_decimal(b, c[n - 1] + 1, b.len(), 0xFFFF_FFFF) {
            Some(t) => t as u32,
            None => {
                return Err(RowError::InvalidTtl);
            },
        };
        Ok(
            TwitterRow {
                timestamp,
                key,
                ksize,
                vsize,
                cid,
                command,
                ttl,
                row_size: b.len() + 1,
            },
        )
    }

    /// The access this row stands for, or `Unsupported` for a command that is
    /// not kept.
    pub fn to_access(&self) -> (r: AccessType)
        ensures
            match command_of_name(self.command@) {
                Some(c) => r == AccessType::Supported(row_access(*self, c)),
                None => r == AccessType::Unsupported,
            },
    {
        match parse_command(self) {
            Some(command) => AccessType::Supported(
                Access {
                    timestamp: self.timestamp,
                    command,
                    key: parse_key(self),
                    ksize: self.ksize,
                    vsize: self.vsize,
                    cid: self.cid,
                    ttl: parse_ttl(self),
                },
            ),
            None => AccessType::Unsupported,
        }
    }
}

impl ConvertRow for TwitterRow {
    fn size(&self) -> usize {
        self.row_size
    }
}

/// The file extension of the source files of a format.
pub fn get_file_extension(format: &Format) -> (r: &'static str)
    ensures
        r@ == "csv"@,
{
    match format {
        Format::Twitter => "csv",
    }
}

} // verus!
