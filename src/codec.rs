//! The self-describing typed value format: every value is a one-byte type
//! code followed by a big-endian body whose shape the code fixes.

use vstd::prelude::*;
use vstd::utf8::{decode_utf8, valid_utf8};

use crate::cursor::{be_u16, be_u32, be_u64, signed16, signed64, to_i16, to_i64, Cursor};

verus! {

/// Why a value, a command or a message could not be decoded.
#[derive(Clone, Copy, Debug, PartialEq, Eq, Structural)]
pub enum DecodeFailure {
    /// Fewer bytes are left than the item needs.
    NotEnoughBytes,
    /// A length or a count read as a negative number.
    UnreasonableSize,
    /// A type code outside the value grammar.
    UnknownTypeCode(u8),
    /// A message type other than request, response or event.
    UnknownMessage(u8),
    /// A command length shorter than the command's own header.
    InvalidLength,
    /// A command type other than log-out, reliable, unreliable or fragment.
    UnknownCommand(u8),
    /// String bytes that are not UTF-8.
    InvalidText,
}

/// The type codes of the value grammar.
#[derive(Clone, Copy, Debug, PartialEq, Eq, Structural)]
pub enum TypeCode {
    Empty,
    Null,
    Dictionary,
    StringArray,
    Byte,
    Double,
    EventData,
    Float,
    Integer,
    Short,
    Long,
    BooleanArray,
    Boolean,
    OperationResponse,
    OperationRequest,
    String,
    ByteArray,
    Array,
    ObjectArray,
    Unknown,
}

pub open spec fn type_code_of(b: u8) -> TypeCode {
    if b == 0x00 {
        TypeCode::Empty
    } else if b == 0x2A {
        TypeCode::Null
    } else if b == 0x44 {
        TypeCode::Dictionary
    } else if b == 0x61 {
        TypeCode::StringArray
    } else if b == 0x62 {
        TypeCode::Byte
    } else if b == 0x64 {
        TypeCode::Double
    } else if b == 0x65 {
        TypeCode::EventData
    } else if b == 0x66 {
        TypeCode::Float
    } else if b == 0x69 {
        TypeCode::Integer
    } else if b == 0x6B {
        TypeCode::Short
    } else if b == 0x6C {
        TypeCode::Long
    } else if b == 0x6E {
        TypeCode::BooleanArray
    } else if b == 0x6F {
        TypeCode::Boolean
    } else if b == 0x70 {
        TypeCode::OperationResponse
    } else if b == 0x71 {
        TypeCode::OperationRequest
    } else if b == 0x73 {
        TypeCode::String
    } else if b == 0x78 {
        TypeCode::ByteArray
    } else if b == 0x79 {
        TypeCode::Array
    } else if b == 0x7A {
        TypeCode::ObjectArray
    } else {
        TypeCode::Unknown
    }
}

impl TypeCode {
    pub fn from_byte(b: u8) -> (r: TypeCode)
        ensures
            r == type_code_of(b),
    {
        match b {
            0x00 => TypeCode::Empty,
            0x2A => TypeCode::Null,
            0x44 => TypeCode::Dictionary,
            0x61 => TypeCode::StringArray,
            0x62 => TypeCode::Byte,
            0x64 => TypeCode::Double,
            0x65 => TypeCode::EventData,
            0x66 => TypeCode::Float,
            0x69 => TypeCode::Integer,
            0x6B => TypeCode::Short,
            0x6C => TypeCode::Long,
            0x6E => TypeCode::BooleanArray,
            0x6F => TypeCode::Boolean,
            0x70 => TypeCode::OperationResponse,
            0x71 => TypeCode::OperationRequest,
            0x73 => TypeCode::String,
            0x78 => TypeCode::ByteArray,
            0x79 => TypeCode::Array,
            0x7A => TypeCode::ObjectArray,
            _ => TypeCode::Unknown,
        }
    }
}

/// A decoded value. `Float` and `Double` hold the IEEE-754 bit patterns as
/// they came off the wire.
#[derive(Debug, PartialEq)]
pub enum Value {
    Null,
    Boolean(bool),
    Byte(u8),
    Short(i16),
    Integer(u32),
    Long(i64),
    Float(u32),
    Double(u64),
    String(String),
    ByteArray(Vec<u8>),
    BooleanArray(Vec<bool>),
    StringArray(Vec<String>),
    Array(Vec<Value>),
    ObjectArray(Vec<Value>),
    Dictionary(Vec<(Value, Value)>),
    EventData(EventData),
    OperationRequest(OperationRequest),
    OperationResponse(OperationResponse),
}

/// Parameters of a message, in the order they were read. A later entry for a
/// key overrides an earlier one.
#[derive(Debug, PartialEq)]
pub struct Parameters {
    pub entries: Vec<(u8, Value)>,
}

#[derive(Debug, PartialEq)]
pub struct EventData {
    pub code: u8,
    pub parameters: Parameters,
}

#[derive(Debug, PartialEq)]
pub struct OperationRequest {
    pub code: u8,
    pub parameters: Parameters,
}

#[derive(Debug, PartialEq)]
pub struct OperationResponse {
    pub code: u8,
    pub return_code: i16,
    pub debug_message: String,
    pub parameters: Parameters,
}

/// The value that the last entry for `key` among the first `n` holds.
pub open spec fn lookup_prefix(entries: Seq<(u8, Value)>, key: u8, n: int) -> Option<Value>
    decreases n,
{
    if n <= 0 {
        None
    } else if entries[n - 1].0 == key {
        Some(entries[n - 1].1)
    } else {
        lookup_prefix(entries, key, n - 1)
    }
}

impl Parameters {
    /// The value that the parameter `key` holds, if any.
    pub open spec fn lookup(&self, key: u8) -> Option<Value> {
        lookup_prefix(self.entries@, key, self.entries@.len() as int)
    }

    pub fn new() -> (r: Parameters)
        ensures
            r.entries@.len() == 0,
    {
        Parameters { entries: Vec::new() }
    }

    pub fn insert(&mut self, key: u8, value: Value)
        ensures
            final(self).entries@ == old(self).entries@.push((key, value)),
            final(self).lookup(key) == Some(value),
            forall|k: u8| k != key ==> final(self).lookup(k) == old(self).lookup(k),
    {
        self.entries.push((key, value));
        proof {
            let s = self.entries@;
            let n = s.len() as int;
            assert(s.subrange(0, n - 1) =~= old(self).entries@.subrange(0, n - 1));
            assert forall|k: u8| k != key implies lookup_prefix(s, k, n) == lookup_prefix(
                old(self).entries@,
                k,
                n - 1,
            ) by {
                lemma_lookup_same_prefix(s, old(self).entries@, k, n - 1);
            }
        }
    }

    pub fn get(&self, key: u8) -> (r: Option<&Value>)
        ensures
            match r {
                Some(v) => self.lookup(key) == Some(*v),
                None => self.lookup(key) is None,
            },
    {
        let mut i = self.entries.len();
        while i > 0
            invariant
                i <= self.entries@.len(),
                lookup_prefix(self.entries@, key, self.entries@.len() as int) == lookup_prefix(
                    self.entries@,
                    key,
                    i as int,
                ),
            decreases i,
        {
            if self.entries[i - 1].0 == key {
                return Some(&self.entries[i - 1].1);
            }
            i = i - 1;
        }
        None
    }

    pub fn len(&self) -> (r: usize)
        ensures
            r == self.entries@.len(),
    {
        self.entries.len()
    }
}

proof fn lemma_lookup_same_prefix(a: Seq<(u8, Value)>, b: Seq<(u8, Value)>, key: u8, n: int)
    requires
        0 <= n <= a.len(),
        n <= b.len(),
        a.subrange(0, n) == b.subrange(0, n),
    ensures
        lookup_prefix(a, key, n) == lookup_prefix(b, key, n),
    decreases n,
{
    if n > 0 {
        assert(a[n - 1] == a.subrange(0, n)[n - 1]);
        assert(b[n - 1] == b.subrange(0, n)[n - 1]);
        assert(a.subrange(0, n - 1) == a.subrange(0, n).subrange(0, n - 1));
        assert(b.subrange(0, n - 1) == b.subrange(0, n).subrange(0, n - 1));
        lemma_lookup_same_prefix(a, b, key, n - 1);
    }
}

/// The value of a type code whose body has a fixed width, read at `p`
/// (`None` for codes of another kind).
pub open spec fn fixed_value(s: Seq<u8>, p: int, code: TypeCode) -> Option<Value> {
    match code {
        TypeCode::Empty => Some(Value::Null),
        TypeCode::Null => Some(Value::Null),
        TypeCode::Boolean => Some(Value::Boolean(s[p] != 0)),
        TypeCode::Byte => Some(Value::Byte(s[p])),
        TypeCode::Short => Some(Value::Short(signed16(be_u16(s, p)) as i16)),
        TypeCode::Integer => Some(Value::Integer(be_u32(s, p) as u32)),
        TypeCode::Long => Some(Value::Long(signed64(be_u64(s, p)) as i64)),
        TypeCode::Float => Some(Value::Float(be_u32(s, p) as u32)),
        TypeCode::Double => Some(Value::Double(be_u64(s, p) as u64)),
        _ => None,
    }
}

/// The width of a fixed-width body.
pub open spec fn fixed_width(code: TypeCode) -> int {
    match code {
        TypeCode::Boolean => 1,
        TypeCode::Byte => 1,
        TypeCode::Short => 2,
        TypeCode::Integer => 4,
        TypeCode::Float => 4,
        TypeCode::Long => 8,
        TypeCode::Double => 8,
        _ => 0,
    }
}

/// The declared byte length of a string whose length field is at `p`.
pub open spec fn string_size(s: Seq<u8>, p: int) -> int {
    signed16(be_u16(s, p))
}

/// The outcome of reading a string at `p`: its characters, or why not.
pub open spec fn string_outcome(s: Seq<u8>, p: int) -> Result<Seq<char>, DecodeFailure> {
    let n = string_size(s, p);
    if s.len() - p < 2 {
        Err(DecodeFailure::NotEnoughBytes)
    } else if n < 0 {
        Err(DecodeFailure::UnreasonableSize)
    } else if s.len() - p - 2 < n {
        Err(DecodeFailure::NotEnoughBytes)
    } else if !valid_utf8(s.subrange(p + 2, p + 2 + n)) {
        Err(DecodeFailure::InvalidText)
    } else {
        Ok(decode_utf8(s.subrange(p + 2, p + 2 + n)))
    }
}

/// Where the read of a string that starts at `p` leaves the cursor.
pub open spec fn string_end(s: Seq<u8>, p: int) -> int {
    let n = string_size(s, p);
    if s.len() - p < 2 {
        p
    } else if n < 0 || s.len() - p - 2 < n {
        p + 2
    } else {
        p + 2 + n
    }
}

/// The outcome of reading a byte array (a four-byte length, then the bytes).
pub open spec fn byte_array_outcome(s: Seq<u8>, p: int) -> Result<Seq<u8>, DecodeFailure> {
    if s.len() - p < 4 || s.len() - p - 4 < be_u32(s, p) {
        Err(DecodeFailure::NotEnoughBytes)
    } else {
        Ok(s.subrange(p + 4, p + 4 + be_u32(s, p)))
    }
}

pub open spec fn byte_array_end(s: Seq<u8>, p: int) -> int {
    if s.len() - p < 4 {
        p
    } else if s.len() - p - 4 < be_u32(s, p) {
        p + 4
    } else {
        p + 4 + be_u32(s, p)
    }
}

/// The outcome of reading a boolean array (a two-byte count, one byte each).
pub open spec fn bool_array_outcome(s: Seq<u8>, p: int) -> Result<Seq<bool>, DecodeFailure> {
    let n = string_size(s, p);
    if s.len() - p < 2 {
        Err(DecodeFailure::NotEnoughBytes)
    } else if n < 0 {
        Err(DecodeFailure::UnreasonableSize)
    } else if s.len() - p - 2 < n {
        Err(DecodeFailure::NotEnoughBytes)
    } else {
        Ok(s.subrange(p + 2, p + 2 + n).map_values(|b: u8| b != 0))
    }
}

/// Whether a decoded value has the shape that the type code announces.
pub open spec fn has_shape(v: Value, code: TypeCode) -> bool {
    match code {
        TypeCode::Empty | TypeCode::Null => v is Null,
        TypeCode::Boolean => v is Boolean,
        TypeCode::Byte => v is Byte,
        TypeCode::Short => v is Short,
        TypeCode::Integer => v is Integer,
        TypeCode::Long => v is Long,
        TypeCode::Float => v is Float,
        TypeCode::Double => v is Double,
        TypeCode::String => v is String,
        TypeCode::ByteArray => v is ByteArray,
        TypeCode::BooleanArray => v is BooleanArray,
        TypeCode::StringArray => v is StringArray,
        TypeCode::Array => v is Array,
        TypeCode::ObjectArray => v is ObjectArray,
        TypeCode::Dictionary => v is Dictionary,
        TypeCode::EventData => v is EventData,
        TypeCode::OperationRequest => v is OperationRequest,
        TypeCode::OperationResponse => v is OperationResponse,
        TypeCode::Unknown => false,
    }
}

/// Whether a type code lets a container name its element type, or says
/// that each element carries its own code.
pub open spec fn per_element_code(b: u8) -> bool {
    b == 0x00 || b == 0x2A
}

/// `c` reads the buffer that `start` read, and has not gone back.
pub open spec fn went_on(start: &Cursor, c: &Cursor) -> bool {
    c.bytes() == start.bytes() && 0 <= start.pos() <= c.pos() <= c.bytes().len()
}

/// Relies on `String::from_utf8`: it succeeds exactly on valid UTF-8, and
/// then holds the characters that the bytes encode.
#[verifier::external_body]
pub(crate) fn text_from_utf8(bytes: Vec<u8>) -> (r: Option<String>)
    ensures
        r is Some <==> valid_utf8(bytes@),
        r is Some ==> r->0@ == decode_utf8(bytes@),
{
    String::from_utf8(bytes).ok()
}

pub fn deserialize_boolean(c: &mut Cursor) -> (r: Result<bool, DecodeFailure>)
    requires
        old(c).wf(),
    ensures
        final(c).pos() <= final(c).bytes().len(),
        old(c).rest() >= 1 ==> r == Ok::<bool, DecodeFailure>(
            old(c).bytes()[old(c).pos()] != 0,
        ) && old(c).moved(final(c), 1),
        old(c).rest() < 1 ==> r == Err::<bool, DecodeFailure>(DecodeFailure::NotEnoughBytes)
            && old(c).moved(final(c), 0),
{
    match c.read_u8() {
        Some(b) => Ok(b != 0),
        None => Err(DecodeFailure::NotEnoughBytes),
    }
}

pub fn deserialize_byte(c: &mut Cursor) -> (r: Result<u8, DecodeFailure>)
    requires
        old(c).wf(),
    ensures
        final(c).pos() <= final(c).bytes().len(),
        old(c).rest() >= 1 ==> r == Ok::<u8, DecodeFailure>(old(c).bytes()[old(c).pos()]) && old(
            c,
        ).moved(final(c), 1),
        old(c).rest() < 1 ==> r == Err::<u8, DecodeFailure>(DecodeFailure::NotEnoughBytes) && old(
            c,
        ).moved(final(c), 0),
{
    match c.read_u8() {
        Some(b) => Ok(b),
        None => Err(DecodeFailure::NotEnoughBytes),
    }
}

pub fn deserialize_short(c: &mut Cursor) -> (r: Result<i16, DecodeFailure>)
    requires
        old(c).wf(),
    ensures
        final(c).pos() <= final(c).bytes().len(),
        old(c).rest() >= 2 ==> r == Ok::<i16, DecodeFailure>(
            signed16(be_u16(old(c).bytes(), old(c).pos())) as i16,
        ) && old(c).moved(final(c), 2),
        old(c).rest() < 2 ==> r == Err::<i16, DecodeFailure>(DecodeFailure::NotEnoughBytes) && old(
            c,
        ).moved(final(c), 0),
{
    match c.read_u16() {
        Some(v) => Ok(to_i16(v)),
        None => Err(DecodeFailure::NotEnoughBytes),
    }
}

pub fn deserialize_integer(c: &mut Cursor) -> (r: Result<u32, DecodeFailure>)
    requires
        old(c).wf(),
    ensures
        final(c).pos() <= final(c).bytes().len(),
        old(c).rest() >= 4 ==> r == Ok::<u32, DecodeFailure>(
            be_u32(old(c).bytes(), old(c).pos()) as u32,
        ) && old(c).moved(final(c), 4),
        old(c).rest() < 4 ==> r == Err::<u32, DecodeFailure>(DecodeFailure::NotEnoughBytes) && old(
            c,
        ).moved(final(c), 0),
{
    match c.read_u32() {
        Some(v) => Ok(v),
        None => Err(DecodeFailure::NotEnoughBytes),
    }
}

pub fn deserialize_long(c: &mut Cursor) -> (r: Result<i64, DecodeFailure>)
    requires
        old(c).wf(),
    ensures
        final(c).pos() <= final(c).bytes().len(),
        old(c).rest() >= 8 ==> r == Ok::<i64, DecodeFailure>(
            signed64(be_u64(old(c).bytes(), old(c).pos())) as i64,
        ) && old(c).moved(final(c), 8),
        old(c).rest() < 8 ==> r == Err::<i64, DecodeFailure>(DecodeFailure::NotEnoughBytes) && old(
            c,
        ).moved(final(c), 0),
{
    match c.read_u64() {
        Some(v) => Ok(to_i64(v)),
        None => Err(DecodeFailure::NotEnoughBytes),
    }
}

/// Reads a length-prefixed UTF-8 string.
pub fn deserialize_string(c: &mut Cursor) -> (r: Result<String, DecodeFailure>)
    requires
        old(c).wf(),
    ensures
        final(c).bytes() == old(c).bytes(),
        final(c).pos() <= final(c).bytes().len(),
        final(c).pos() == string_end(old(c).bytes(), old(c).pos()),
        match string_outcome(old(c).bytes(), old(c).pos()) {
            Ok(t) => r is Ok && r->Ok_0@ == t,
            Err(e) => r == Err::<String, DecodeFailure>(e),
        },
{
    let size = match c.read_u16() {
        Some(v) => to_i16(v),
        None => return Err(DecodeFailure::NotEnoughBytes),
    };
    if size < 0 {
        return Err(DecodeFailure::UnreasonableSize);
    }
    let bytes = match c.take(size as usize) {
        Some(b) => b,
        None => return Err(DecodeFailure::NotEnoughBytes),
    };
    match text_from_utf8(bytes) {
        Some(s) => Ok(s),
        None => Err(DecodeFailure::InvalidText),
    }
}

/// Reads a byte array: a four-byte length, then the bytes.
pub fn deserialize_byte_array(c: &mut Cursor) -> (r: Result<Vec<u8>, DecodeFailure>)
    requires
        old(c).wf(),
    ensures
        final(c).bytes() == old(c).bytes(),
        final(c).pos() <= final(c).bytes().len(),
        final(c).pos() == byte_array_end(old(c).bytes(), old(c).pos()),
        match byte_array_outcome(old(c).bytes(), old(c).pos()) {
            Ok(t) => r is Ok && r->Ok_0@ == t,
            Err(e) => r == Err::<Vec<u8>, DecodeFailure>(e),
        },
{
    let size = match c.read_u32() {
        Some(v) => v,
        None => return Err(DecodeFailure::NotEnoughBytes),
    };
    match c.take(size as usize) {
        Some(b) => Ok(b),
        None => Err(DecodeFailure::NotEnoughBytes),
    }
}

/// Reads a boolean array: a two-byte count, then one byte per element.
pub fn deserialize_boolean_array(c: &mut Cursor) -> (r: Result<Vec<bool>, DecodeFailure>)
    requires
        old(c).wf(),
    ensures
        went_on(old(c), final(c)),
        match bool_array_outcome(old(c).bytes(), old(c).pos()) {
            Ok(t) => r is Ok && r->Ok_0@ == t,
            Err(e) => r == Err::<Vec<bool>, DecodeFailure>(e),
        },
{
    let size = match c.read_u16() {
        Some(v) => to_i16(v),
        None => return Err(DecodeFailure::NotEnoughBytes),
    };
    if size < 0 {
        return Err(DecodeFailure::UnreasonableSize);
    }
    let bytes = match c.take(size as usize) {
        Some(b) => b,
        None => return Err(DecodeFailure::NotEnoughBytes),
    };
    let mut out: Vec<bool> = Vec::new();
    let mut i: usize = 0;
    while i < bytes.len()
        invariant
            0 <= i <= bytes@.len(),
            out@ == bytes@.subrange(0, i as int).map_values(|b: u8| b != 0),
        decreases bytes@.len() - i,
    {
        out.push(bytes[i] != 0);
        i = i + 1;
        assert(out@ =~= bytes@.subrange(0, i as int).map_values(|b: u8| b != 0));
    }
    assert(bytes@.subrange(0, i as int) =~= bytes@);
    Ok(out)
}

/// Reading `n` strings one after another from `p`: their characters, or the
/// first failure, and where reading stopped.
pub open spec fn strings_outcome(s: Seq<u8>, p: int, n: nat) -> (
    Result<Seq<Seq<char>>, DecodeFailure>,
    int,
)
    decreases n,
{
    if n == 0 {
        (Ok(Seq::empty()), p)
    } else {
        let (front, q) = strings_outcome(s, p, (n - 1) as nat);
        match front {
            Err(e) => (Err(e), q),
            Ok(f) => match string_outcome(s, q) {
                Ok(t) => (Ok(f.push(t)), string_end(s, q)),
                Err(e) => (Err(e), string_end(s, q)),
            },
        }
    }
}

/// A failure among the first `i` strings is the failure among the first `n`.
proof fn lemma_strings_failure_stays(s: Seq<u8>, p: int, i: nat, n: nat)
    requires
        i <= n,
        strings_outcome(s, p, i).0 is Err,
    ensures
        strings_outcome(s, p, n) == strings_outcome(s, p, i),
    decreases n - i,
{
    if i < n {
        lemma_strings_failure_stays(s, p, i, (n - 1) as nat);
    }
}

/// Reads a string array: a two-byte count, then that many strings.
pub fn deserialize_string_array(c: &mut Cursor) -> (r: Result<Vec<String>, DecodeFailure>)
    requires
        old(c).wf(),
    ensures
        went_on(old(c), final(c)),
        old(c).rest() < 2 ==> r == Err::<Vec<String>, DecodeFailure>(
            DecodeFailure::NotEnoughBytes,
        ),
        old(c).rest() >= 2 && string_size(old(c).bytes(), old(c).pos()) < 0 ==> r == Err::<
            Vec<String>,
            DecodeFailure,
        >(DecodeFailure::UnreasonableSize),
        old(c).rest() >= 2 && string_size(old(c).bytes(), old(c).pos()) >= 0 ==> {
            let (o, q) = strings_outcome(
                old(c).bytes(),
                old(c).pos() + 2,
                string_size(old(c).bytes(), old(c).pos()) as nat,
            );
            &&& final(c).pos() == q
            &&& match o {
                Ok(v) => r is Ok && r->Ok_0@.map_values(|x: String| x@) == v,
                Err(e) => r == Err::<Vec<String>, DecodeFailure>(e),
            }
        },
{
    let size = match c.read_u16() {
        Some(v) => to_i16(v),
        None => return Err(DecodeFailure::NotEnoughBytes),
    };
    if size < 0 {
        return Err(DecodeFailure::UnreasonableSize);
    }
    let ghost s = c.bytes();
    let ghost start = c.pos();
    let n = size as usize;
    let mut out: Vec<String> = Vec::new();
    assert(out@.map_values(|x: String| x@) =~= Seq::<Seq<char>>::empty());
    let mut i: usize = 0;
    while i < n
        invariant
            0 <= i <= n,
            went_on(old(c), c),
            old(c).rest() >= 2,
            string_size(old(c).bytes(), old(c).pos()) == n,
            s == old(c).bytes(),
            start == old(c).pos() + 2,
            strings_outcome(s, start, i as nat) == (
                Ok::<Seq<Seq<char>>, DecodeFailure>(out@.map_values(|x: String| x@)),
                c.pos(),
            ),
        decreases n - i,
    {
        match deserialize_string(c) {
            Ok(t) => {
                let ghost before = out@;
                out.push(t);
                assert(out@.map_values(|x: String| x@) =~= before.map_values(|x: String| x@).push(
                    t@,
                ));
            },
            Err(e) => {
                proof {
                    lemma_strings_failure_stays(s, start, (i + 1) as nat, n as nat);
                }
                return Err(e);
            },
        }
        i = i + 1;
    }
    Ok(out)
}

/// What reading a body of type `code` at `p` of `s` gives, as far as the
/// body has a flat shape: fixed-width values, strings, byte arrays and
/// boolean arrays exactly; for every code, the shape the code announces, and
/// an error naming a code outside the grammar.
pub open spec fn typed_outcome(
    s: Seq<u8>,
    p: int,
    code: u8,
    r: Result<Value, DecodeFailure>,
    end: int,
) -> bool {
    let t = type_code_of(code);
    let n = string_size(s, p);
    let nf = |e: DecodeFailure| r == Err::<Value, DecodeFailure>(e);
    &&& r is Ok ==> has_shape(r->Ok_0, t)
    &&& t is StringArray ==> (s.len() - p < 2 ==> nf(DecodeFailure::NotEnoughBytes)) && (s.len() - p
        >= 2 && n < 0 ==> nf(DecodeFailure::UnreasonableSize)) && (s.len() - p >= 2 && n >= 0
        ==> match strings_outcome(s, p + 2, n as nat).0 {
        Ok(v) => r is Ok && r->Ok_0->StringArray_0@.map_values(|x: String| x@) == v,
        Err(e) => nf(e),
    })
    &&& (t is Array || t is ObjectArray) ==> (s.len() - p < 2 ==> nf(DecodeFailure::NotEnoughBytes))
        && (s.len() - p >= 2 && n < 0 ==> nf(DecodeFailure::UnreasonableSize))
    &&& t is Array ==> (s.len() - p == 2 && n >= 0 ==> nf(DecodeFailure::NotEnoughBytes)) && (s.len()
        - p >= 3 && n >= 0 ==> r is Ok)
    &&& t is ObjectArray ==> (s.len() - p >= 2 && n >= 0 ==> r is Ok)
    &&& t is Dictionary ==> (s.len() - p < 4 ==> nf(DecodeFailure::NotEnoughBytes)) && (s.len() - p
        >= 4 && string_size(s, p + 2) < 0 ==> nf(DecodeFailure::UnreasonableSize)) && (s.len() - p
        >= 4 && string_size(s, p + 2) >= 0 ==> r is Ok)
    &&& (t is EventData || t is OperationRequest) ==> (s.len() - p < 3 ==> nf(
        DecodeFailure::NotEnoughBytes,
    )) && (s.len() - p >= 3 ==> (r is Ok <==> body_readable(s, p)))
    &&& t is OperationResponse ==> (s.len() - p < 3 ==> nf(DecodeFailure::NotEnoughBytes))
    &&& t is Unknown ==> r == Err::<Value, DecodeFailure>(DecodeFailure::UnknownTypeCode(code))
        && end == p
    &&& fixed_value(s, p, t) is Some ==> {
        let w = fixed_width(t);
        &&& s.len() - p >= w ==> r == Ok::<Value, DecodeFailure>(fixed_value(s, p, t)->0) && end
            == p + w
        &&& s.len() - p < w ==> r == Err::<Value, DecodeFailure>(DecodeFailure::NotEnoughBytes)
    }
    &&& t is String ==> end == string_end(s, p) && match string_outcome(s, p) {
        Ok(x) => r is Ok && r->Ok_0->String_0@ == x,
        Err(e) => r == Err::<Value, DecodeFailure>(e),
    }
    &&& t is ByteArray ==> end == byte_array_end(s, p) && match byte_array_outcome(s, p) {
        Ok(x) => r is Ok && r->Ok_0->ByteArray_0@ == x,
        Err(e) => r == Err::<Value, DecodeFailure>(e),
    }
    &&& t is BooleanArray ==> match bool_array_outcome(s, p) {
        Ok(x) => r is Ok && r->Ok_0->BooleanArray_0@ == x,
        Err(e) => r == Err::<Value, DecodeFailure>(e),
    }
}

/// Reads the body of a value whose type code is `code`.
pub fn deserialize(code: u8, c: &mut Cursor) -> (r: Result<Value, DecodeFailure>)
    requires
        old(c).wf(),
    ensures
        went_on(old(c), final(c)),
        typed_outcome(old(c).bytes(), old(c).pos(), code, r, final(c).pos()),
    decreases old(c).rest(), 1int,
{
    match TypeCode::from_byte(code) {
        TypeCode::Empty | TypeCode::Null => Ok(Value::Null),
        TypeCode::Boolean => Ok(Value::Boolean(deserialize_boolean(c)?)),
        TypeCode::Byte => Ok(Value::Byte(deserialize_byte(c)?)),
        TypeCode::Short => Ok(Value::Short(deserialize_short(c)?)),
        TypeCode::Integer => Ok(Value::Integer(deserialize_integer(c)?)),
        TypeCode::Long => Ok(Value::Long(deserialize_long(c)?)),
        TypeCode::Float => match c.read_u32() {
            Some(v) => Ok(Value::Float(v)),
            None => Err(DecodeFailure::NotEnoughBytes),
        },
        TypeCode::Double => match c.read_u64() {
            Some(v) => Ok(Value::Double(v)),
            None => Err(DecodeFailure::NotEnoughBytes),
        },
        TypeCode::String => Ok(Value::String(deserialize_string(c)?)),
        TypeCode::ByteArray => Ok(Value::ByteArray(deserialize_byte_array(c)?)),
        TypeCode::BooleanArray => Ok(Value::BooleanArray(deserialize_boolean_array(c)?)),
        TypeCode::StringArray => Ok(Value::StringArray(deserialize_string_array(c)?)),
        TypeCode::Array => Ok(Value::Array(deserialize_array(c)?)),
        TypeCode::ObjectArray => Ok(Value::ObjectArray(deserialize_object_array(c)?)),
        TypeCode::Dictionary => Ok(Value::Dictionary(deserialize_dictionary(c)?)),
        TypeCode::EventData => Ok(Value::EventData(deserialize_event_data(c)?)),
        TypeCode::OperationRequest => Ok(Value::OperationRequest(deserialize_operation_request(c)?)),
        TypeCode::OperationResponse => Ok(
            Value::OperationResponse(deserialize_operation_response(c)?),
        ),
        TypeCode::Unknown => Err(DecodeFailure::UnknownTypeCode(code)),
    }
}

/// What reading a tagged value (a type code, then a body) at `p` gives.
pub open spec fn tagged_outcome(s: Seq<u8>, p: int, r: Result<Value, DecodeFailure>, end: int) -> bool {
    if s.len() - p < 1 {
        r == Err::<Value, DecodeFailure>(DecodeFailure::NotEnoughBytes)
    } else {
        typed_outcome(s, p + 1, s[p], r, end)
    }
}

/// Entry `k` of `entries` has its key at `ps[k]` and its tagged value from
/// `ps[k] + 1` up to `ps[k + 1]`.
pub open spec fn entries_read(s: Seq<u8>, ps: Seq<int>, entries: Seq<(u8, Value)>) -> bool {
    &&& ps.len() == entries.len() + 1
    &&& forall|k: int|
        0 <= k < entries.len() ==> 0 <= #[trigger] ps[k] < s.len() && entries[k].0 == s[ps[k]]
            && tagged_outcome(s, ps[k] + 1, Ok(entries[k].1), ps[k + 1])
}

/// The table entry at `q` cannot be read: no key, or a value that fails.
pub open spec fn entry_fails(s: Seq<u8>, q: int) -> bool {
    s.len() - q < 1 || exists|e: DecodeFailure, end: int|
        #[trigger] tagged_outcome(s, q + 1, Err::<Value, DecodeFailure>(e), end)
}

/// The table whose count field is at `p` holds `entries`: they are read one
/// after another, as many as the count says, or up to the first one that
/// cannot be read (those before it are kept).
pub open spec fn table_read(s: Seq<u8>, p: int, entries: Seq<(u8, Value)>) -> bool {
    exists|ps: Seq<int>|
        #[trigger] entries_read(s, ps, entries) && ps[0] == p + 2 && (entries.len() == string_size(
            s,
            p,
        ) || (entries.len() < string_size(s, p) && entry_fails(s, ps.last())))
}

/// Reads a type code, then a value of that type.
pub fn deserialize_value(c: &mut Cursor) -> (r: Result<Value, DecodeFailure>)
    requires
        old(c).wf(),
    ensures
        went_on(old(c), final(c)),
        tagged_outcome(old(c).bytes(), old(c).pos(), r, final(c).pos()),
    decreases old(c).rest(), 2int,
{
    let code = match c.read_u8() {
        Some(b) => b,
        None => return Err(DecodeFailure::NotEnoughBytes),
    };
    deserialize(code, c)
}

/// Reads the element code that a container announced, or the element's own
/// code where the container leaves it to each element.
fn element_code(announced: u8, c: &mut Cursor) -> (r: Option<u8>)
    requires
        old(c).wf(),
    ensures
        went_on(old(c), final(c)),
        !per_element_code(announced) ==> r == Some(announced) && final(c).pos() == old(c).pos(),
        per_element_code(announced) ==> (old(c).rest() >= 1 ==> r == Some(
            old(c).bytes()[old(c).pos()],
        ) && old(c).moved(final(c), 1)) && (old(c).rest() < 1 ==> r is None),
{
    if announced == 0x00 || announced == 0x2A {
        c.read_u8()
    } else {
        Some(announced)
    }
}

/// The element at `q` of a container that announced the element code
/// `announced` reads as `v`, ending at `q2` (the element brings its own code
/// where the container leaves it to each element).
pub open spec fn element_read(s: Seq<u8>, q: int, announced: u8, v: Value, q2: int) -> bool {
    if per_element_code(announced) {
        0 <= q < s.len() && typed_outcome(s, q + 1, s[q], Ok::<Value, DecodeFailure>(v), q2)
    } else {
        typed_outcome(s, q, announced, Ok::<Value, DecodeFailure>(v), q2)
    }
}

/// The element at `q` cannot be read.
pub open spec fn element_fails(s: Seq<u8>, q: int, announced: u8) -> bool {
    if per_element_code(announced) {
        s.len() - q < 1 || exists|e: DecodeFailure, end: int|
            #[trigger] typed_outcome(s, q + 1, s[q], Err::<Value, DecodeFailure>(e), end)
    } else {
        exists|e: DecodeFailure, end: int|
            #[trigger] typed_outcome(s, q, announced, Err::<Value, DecodeFailure>(e), end)
    }
}

/// Element `k` of `vs` is read from `ps[k]` up to `ps[k + 1]`.
pub open spec fn elements_read(s: Seq<u8>, ps: Seq<int>, announced: u8, vs: Seq<Value>) -> bool {
    &&& ps.len() == vs.len() + 1
    &&& forall|k: int| 0 <= k < vs.len() ==> #[trigger] element_read(s, ps[k], announced, vs[k], ps[k + 1])
}

/// The container whose elements start at `first`, `size` of them announced,
/// holds `vs`: read one after another, as many as announced, or up to the
/// first that cannot be read (those before it are kept).
pub open spec fn container_read(s: Seq<u8>, first: int, size: int, announced: u8, vs: Seq<Value>) -> bool {
    exists|ps: Seq<int>|
        #[trigger] elements_read(s, ps, announced, vs) && ps[0] == first && (vs.len() == size || (vs.len()
            < size && element_fails(s, ps.last(), announced)))
}

/// Reads an array: a two-byte count, an element code, then the elements. An
/// element that fails ends the array; those before it are kept.
pub fn deserialize_array(c: &mut Cursor) -> (r: Result<Vec<Value>, DecodeFailure>)
    requires
        old(c).wf(),
    ensures
        went_on(old(c), final(c)),
        old(c).rest() < 2 ==> r == Err::<Vec<Value>, DecodeFailure>(DecodeFailure::NotEnoughBytes),
        old(c).rest() >= 2 && string_size(old(c).bytes(), old(c).pos()) < 0 ==> r == Err::<
            Vec<Value>,
            DecodeFailure,
        >(DecodeFailure::UnreasonableSize),
        old(c).rest() == 2 && string_size(old(c).bytes(), old(c).pos()) >= 0 ==> r == Err::<
            Vec<Value>,
            DecodeFailure,
        >(DecodeFailure::NotEnoughBytes),
        r is Ok ==> r->Ok_0@.len() <= string_size(old(c).bytes(), old(c).pos()),
        r is Ok && !per_element_code(old(c).bytes()[old(c).pos() + 2]) ==> forall|i: int|
            0 <= i < r->Ok_0@.len() ==> has_shape(
                #[trigger] r->Ok_0@[i],
                type_code_of(old(c).bytes()[old(c).pos() + 2]),
            ),
        old(c).rest() >= 3 && string_size(old(c).bytes(), old(c).pos()) >= 0 ==> r is Ok,
        r is Ok ==> container_read(
            old(c).bytes(),
            old(c).pos() + 3,
            string_size(old(c).bytes(), old(c).pos()),
            old(c).bytes()[old(c).pos() + 2],
            r->Ok_0@,
        ),
    decreases old(c).rest(), 0int,
{
    let size = match c.read_u16() {
        Some(v) => to_i16(v),
        None => return Err(DecodeFailure::NotEnoughBytes),
    };
    if size < 0 {
        return Err(DecodeFailure::UnreasonableSize);
    }
    let ghost code_at = old(c).pos() + 2;
    let code = match c.read_u8() {
        Some(b) => b,
        None => return Err(DecodeFailure::NotEnoughBytes),
    };
    let n = size as usize;
    let ghost s = old(c).bytes();
    let mut out: Vec<Value> = Vec::new();
    let ghost mut ps: Seq<int> = seq![c.pos()];
    let mut stopped = false;
    let mut i: usize = 0;
    while i < n && !stopped
        invariant
            0 <= i <= n,
            n == string_size(s, old(c).pos()),
            s == old(c).bytes(),
            out@.len() == i,
            went_on(old(c), c),
            c.pos() >= old(c).pos() + 3,
            code == old(c).bytes()[code_at],
            code_at == old(c).pos() + 2,
            !per_element_code(code) ==> forall|j: int|
                0 <= j < out@.len() ==> has_shape(#[trigger] out@[j], type_code_of(code)),
            elements_read(s, ps, code, out@),
            ps[0] == old(c).pos() + 3,
            !stopped ==> ps.last() == c.pos(),
            stopped ==> element_fails(s, ps.last(), code),
        decreases n - i, if stopped { 0int } else { 1int },
    {
        let ghost q = c.pos();
        let element = match element_code(code, c) {
            Some(b) => b,
            None => {
                stopped = true;
                continue;
            },
        };
        let ghost q1 = c.pos();
        match deserialize(element, c) {
            Ok(v) => {
                let ghost before = out@;
                out.push(v);
                proof {
                    assert(element_read(s, q, code, v, c.pos()));
                    let ps2 = ps.push(c.pos());
                    assert forall|k: int| 0 <= k < out@.len() implies #[trigger] element_read(s, ps2[k], code, out@[k], ps2[k + 1]) by {
                        if k < before.len() {
                            assert(out@[k] == before[k] && ps2[k] == ps[k] && ps2[k + 1] == ps[k + 1]);
                        }
                    }
                    ps = ps2;
                }
                i = i + 1;
            },
            Err(e) => {
                proof {
                    if per_element_code(code) {
                        assert(typed_outcome(s, q + 1, s[q], Err::<Value, DecodeFailure>(e), c.pos()));
                    } else {
                        assert(typed_outcome(s, q, code, Err::<Value, DecodeFailure>(e), c.pos()));
                    }
                }
                stopped = true;
            },
        }
    }
    proof {
        assert(elements_read(s, ps, code, out@));
    }
    Ok(out)
}

/// Reads an array whose elements each carry their own type code. An element
/// that fails ends the array; those before it are kept.
pub fn deserialize_object_array(c: &mut Cursor) -> (r: Result<Vec<Value>, DecodeFailure>)
    requires
        old(c).wf(),
    ensures
        went_on(old(c), final(c)),
        old(c).rest() < 2 ==> r == Err::<Vec<Value>, DecodeFailure>(DecodeFailure::NotEnoughBytes),
        old(c).rest() >= 2 && string_size(old(c).bytes(), old(c).pos()) < 0 ==> r == Err::<
            Vec<Value>,
            DecodeFailure,
        >(DecodeFailure::UnreasonableSize),
        r is Ok ==> r->Ok_0@.len() <= string_size(old(c).bytes(), old(c).pos()),
        old(c).rest() >= 2 && string_size(old(c).bytes(), old(c).pos()) >= 0 ==> r is Ok,
        r is Ok ==> container_read(
            old(c).bytes(),
            old(c).pos() + 2,
            string_size(old(c).bytes(), old(c).pos()),
            0u8,
            r->Ok_0@,
        ),
    decreases old(c).rest(), 0int,
{
    let size = match c.read_u16() {
        Some(v) => to_i16(v),
        None => return Err(DecodeFailure::NotEnoughBytes),
    };
    if size < 0 {
        return Err(DecodeFailure::UnreasonableSize);
    }
    let n = size as usize;
    let ghost s = old(c).bytes();
    let mut out: Vec<Value> = Vec::new();
    let ghost mut ps: Seq<int> = seq![c.pos()];
    let mut stopped = false;
    let mut i: usize = 0;
    while i < n && !stopped
        invariant
            0 <= i <= n,
            n == string_size(s, old(c).pos()),
            s == old(c).bytes(),
            out@.len() == i,
            went_on(old(c), c),
            c.pos() >= old(c).pos() + 2,
            elements_read(s, ps, 0u8, out@),
            ps[0] == old(c).pos() + 2,
            !stopped ==> ps.last() == c.pos(),
            stopped ==> element_fails(s, ps.last(), 0u8),
        decreases n - i, if stopped { 0int } else { 1int },
    {
        let ghost q = c.pos();
        match deserialize_value(c) {
            Ok(v) => {
                let ghost before = out@;
                out.push(v);
                proof {
                    assert(element_read(s, q, 0u8, v, c.pos()));
                    let ps2 = ps.push(c.pos());
                    assert forall|k: int| 0 <= k < out@.len() implies #[trigger] element_read(s, ps2[k], 0u8, out@[k], ps2[k + 1]) by {
                        if k < before.len() {
                            assert(out@[k] == before[k] && ps2[k] == ps[k] && ps2[k + 1] == ps[k + 1]);
                        }
                    }
                    ps = ps2;
                }
                i = i + 1;
            },
            Err(e) => {
                proof {
                    if s.len() - q >= 1 {
                        assert(typed_outcome(s, q + 1, s[q], Err::<Value, DecodeFailure>(e), c.pos()));
                    }
                }
                stopped = true;
            },
        }
    }
    proof {
        assert(elements_read(s, ps, 0u8, out@));
    }
    Ok(out)
}

/// Reads one element of a container that announced `announced`.
fn read_element(announced: u8, c: &mut Cursor) -> (r: Result<Value, DecodeFailure>)
    requires
        old(c).wf(),
    ensures
        went_on(old(c), final(c)),
        match r {
            Ok(v) => element_read(old(c).bytes(), old(c).pos(), announced, v, final(c).pos()),
            Err(_) => element_fails(old(c).bytes(), old(c).pos(), announced),
        },
    decreases old(c).rest(), 2int,
{
    let ghost s = c.bytes();
    let ghost q = c.pos();
    let code = match element_code(announced, c) {
        Some(b) => b,
        None => return Err(DecodeFailure::NotEnoughBytes),
    };
    let r = deserialize(code, c);
    proof {
        match r {
            Ok(_) => {},
            Err(e) => {
                if per_element_code(announced) {
                    assert(typed_outcome(s, q + 1, s[q], Err::<Value, DecodeFailure>(e), c.pos()));
                } else {
                    assert(typed_outcome(s, q, announced, Err::<Value, DecodeFailure>(e), c.pos()));
                }
            },
        }
    }
    r
}

/// Pair `k` of `pairs` has its key from `ps[k]` to `ms[k]` and its value from
/// `ms[k]` to `ps[k + 1]`.
pub open spec fn pairs_read(s: Seq<u8>, ps: Seq<int>, ms: Seq<int>, kc: u8, vc: u8, pairs: Seq<(Value, Value)>) -> bool {
    &&& ps.len() == pairs.len() + 1
    &&& ms.len() == pairs.len()
    &&& forall|k: int|
        0 <= k < pairs.len() ==> #[trigger] element_read(s, ps[k], kc, pairs[k].0, ms[k]) && element_read(
            s,
            ms[k],
            vc,
            pairs[k].1,
            ps[k + 1],
        )
}

/// The pair at `q` cannot be read: its key fails, or its value does.
pub open spec fn pair_fails(s: Seq<u8>, q: int, kc: u8, vc: u8) -> bool {
    element_fails(s, q, kc) || exists|key: Value, m: int|
        #[trigger] element_read(s, q, kc, key, m) && element_fails(s, m, vc)
}

/// The dictionary at `p` holds `pairs`: read one after another, as many as
/// its count says, or up to the first pair that cannot be read (those before
/// it are kept).
pub open spec fn dictionary_read(s: Seq<u8>, p: int, pairs: Seq<(Value, Value)>) -> bool {
    exists|ps: Seq<int>, ms: Seq<int>|
        #[trigger] pairs_read(s, ps, ms, s[p], s[p + 1], pairs) && ps[0] == p + 4 && (pairs.len()
            == string_size(s, p + 2) || (pairs.len() < string_size(s, p + 2) && pair_fails(
            s,
            ps.last(),
            s[p],
            s[p + 1],
        )))
}

/// Whether `a` and `b` name the same dictionary key: scalar and string keys
/// of the same kind with the same content (other kinds name no key).
pub open spec fn same_key(a: Value, b: Value) -> bool {
    match (a, b) {
        (Value::String(x), Value::String(y)) => x@ == y@,
        (Value::Byte(x), Value::Byte(y)) => x == y,
        (Value::Short(x), Value::Short(y)) => x == y,
        (Value::Integer(x), Value::Integer(y)) => x == y,
        (Value::Long(x), Value::Long(y)) => x == y,
        (Value::Boolean(x), Value::Boolean(y)) => x == y,
        _ => false,
    }
}

/// The value of the last pair among the first `n` of `pairs` whose key is
/// `key`.
pub open spec fn dictionary_lookup(pairs: Seq<(Value, Value)>, key: Value, n: int) -> Option<Value>
    decreases n,
{
    if n <= 0 {
        None
    } else if same_key(pairs[n - 1].0, key) {
        Some(pairs[n - 1].1)
    } else {
        dictionary_lookup(pairs, key, n - 1)
    }
}

fn keys_match(a: &Value, b: &Value) -> (r: bool)
    ensures
        r == same_key(*a, *b),
{
    match (a, b) {
        (Value::String(x), Value::String(y)) => *x == *y,
        (Value::Byte(x), Value::Byte(y)) => *x == *y,
        (Value::Short(x), Value::Short(y)) => *x == *y,
        (Value::Integer(x), Value::Integer(y)) => *x == *y,
        (Value::Long(x), Value::Long(y)) => *x == *y,
        (Value::Boolean(x), Value::Boolean(y)) => *x == *y,
        _ => false,
    }
}

/// The value that a dictionary holds for `key`; a later pair for a key
/// overrides an earlier one.
pub fn dictionary_get<'a>(pairs: &'a Vec<(Value, Value)>, key: &Value) -> (r: Option<&'a Value>)
    ensures
        match r {
            Some(v) => dictionary_lookup(pairs@, *key, pairs@.len() as int) == Some(*v),
            None => dictionary_lookup(pairs@, *key, pairs@.len() as int) is None,
        },
{
    let mut i = pairs.len();
    while i > 0
        invariant
            i <= pairs@.len(),
            dictionary_lookup(pairs@, *key, pairs@.len() as int) == dictionary_lookup(pairs@, *key, i as int),
        decreases i,
    {
        if keys_match(&pairs[i - 1].0, key) {
            return Some(&pairs[i - 1].1);
        }
        i = i - 1;
    }
    None
}

/// Reads a dictionary: a key code, a value code, a two-byte count, then the
/// pairs. A pair that fails ends the dictionary; those before it are kept.
pub fn deserialize_dictionary(c: &mut Cursor) -> (r: Result<Vec<(Value, Value)>, DecodeFailure>)
    requires
        old(c).wf(),
    ensures
        went_on(old(c), final(c)),
        old(c).rest() < 4 ==> r == Err::<Vec<(Value, Value)>, DecodeFailure>(
            DecodeFailure::NotEnoughBytes,
        ),
        old(c).rest() >= 4 && string_size(old(c).bytes(), old(c).pos() + 2) < 0 ==> r == Err::<
            Vec<(Value, Value)>,
            DecodeFailure,
        >(DecodeFailure::UnreasonableSize),
        r is Ok ==> r->Ok_0@.len() <= string_size(old(c).bytes(), old(c).pos() + 2),
        r is Ok && !per_element_code(old(c).bytes()[old(c).pos()]) ==> forall|i: int|
            0 <= i < r->Ok_0@.len() ==> has_shape(
                (#[trigger] r->Ok_0@[i]).0,
                type_code_of(old(c).bytes()[old(c).pos()]),
            ),
        r is Ok && !per_element_code(old(c).bytes()[old(c).pos() + 1]) ==> forall|i: int|
            0 <= i < r->Ok_0@.len() ==> has_shape(
                (#[trigger] r->Ok_0@[i]).1,
                type_code_of(old(c).bytes()[old(c).pos() + 1]),
            ),
        old(c).rest() >= 4 && string_size(old(c).bytes(), old(c).pos() + 2) >= 0 ==> r is Ok,
        r is Ok ==> dictionary_read(old(c).bytes(), old(c).pos(), r->Ok_0@),
    decreases old(c).rest(), 0int,
{
    if c.remaining() < 4 {
        return Err(DecodeFailure::NotEnoughBytes);
    }
    let key_code = c.read_u8().unwrap();
    let value_code = c.read_u8().unwrap();
    let size = to_i16(c.read_u16().unwrap());
    if size < 0 {
        return Err(DecodeFailure::UnreasonableSize);
    }
    let n = size as usize;
    let ghost s = old(c).bytes();
    let mut out: Vec<(Value, Value)> = Vec::new();
    let ghost mut ps: Seq<int> = seq![c.pos()];
    let ghost mut ms: Seq<int> = Seq::empty();
    let mut stopped = false;
    let mut i: usize = 0;
    while i < n && !stopped
        invariant
            0 <= i <= n,
            n == string_size(s, old(c).pos() + 2),
            s == old(c).bytes(),
            out@.len() == i,
            went_on(old(c), c),
            c.pos() >= old(c).pos() + 4,
            key_code == old(c).bytes()[old(c).pos()],
            value_code == old(c).bytes()[old(c).pos() + 1],
            !per_element_code(key_code) ==> forall|j: int|
                0 <= j < out@.len() ==> has_shape((#[trigger] out@[j]).0, type_code_of(key_code)),
            !per_element_code(value_code) ==> forall|j: int|
                0 <= j < out@.len() ==> has_shape((#[trigger] out@[j]).1, type_code_of(value_code)),
            pairs_read(s, ps, ms, key_code, value_code, out@),
            ps[0] == old(c).pos() + 4,
            !stopped ==> ps.last() == c.pos(),
            stopped ==> pair_fails(s, ps.last(), key_code, value_code),
        decreases n - i, if stopped { 0int } else { 1int },
    {
        let ghost q = c.pos();
        let key = match read_element(key_code, c) {
            Ok(v) => v,
            Err(_) => {
                stopped = true;
                continue;
            },
        };
        let ghost m = c.pos();
        let value = match read_element(value_code, c) {
            Ok(v) => v,
            Err(_) => {
                assert(element_read(s, q, key_code, key, m));
                stopped = true;
                continue;
            },
        };
        proof {
            if !per_element_code(key_code) {
                assert(typed_outcome(s, q, key_code, Ok::<Value, DecodeFailure>(key), m));
            }
            if !per_element_code(value_code) {
                assert(typed_outcome(s, m, value_code, Ok::<Value, DecodeFailure>(value), c.pos()));
            }
        }
        let ghost before = out@;
        out.push((key, value));
        proof {
            let ps2 = ps.push(c.pos());
            let ms2 = ms.push(m);
            assert forall|k: int| 0 <= k < out@.len() implies #[trigger] element_read(s, ps2[k], key_code, out@[k].0, ms2[k])
                && element_read(s, ms2[k], value_code, out@[k].1, ps2[k + 1]) by {
                if k < before.len() {
                    assert(out@[k] == before[k] && ps2[k] == ps[k] && ps2[k + 1] == ps[k + 1] && ms2[k] == ms[k]);
                }
            }
            ps = ps2;
            ms = ms2;
        }
        i = i + 1;
    }
    proof {
        assert(pairs_read(s, ps, ms, key_code, value_code, out@));
    }
    Ok(out)
}

/// Reads a parameter table: a two-byte count, then entries of a one-byte key
/// and a tagged value. An entry that fails ends the table; those before it
/// are kept.
pub fn deserialize_parameter_table(c: &mut Cursor) -> (r: Result<Parameters, DecodeFailure>)
    requires
        old(c).wf(),
    ensures
        went_on(old(c), final(c)),
        old(c).rest() < 2 ==> r == Err::<Parameters, DecodeFailure>(
            DecodeFailure::NotEnoughBytes,
        ),
        old(c).rest() >= 2 && string_size(old(c).bytes(), old(c).pos()) < 0 ==> r == Err::<
            Parameters,
            DecodeFailure,
        >(DecodeFailure::UnreasonableSize),
        old(c).rest() >= 2 && string_size(old(c).bytes(), old(c).pos()) >= 0 ==> r is Ok
            && table_read(old(c).bytes(), old(c).pos(), r->Ok_0.entries@),
    decreases old(c).rest(), 0int,
{
    let size = match c.read_u16() {
        Some(v) => to_i16(v),
        None => return Err(DecodeFailure::NotEnoughBytes),
    };
    if size < 0 {
        return Err(DecodeFailure::UnreasonableSize);
    }
    let ghost s = c.bytes();
    let ghost start = old(c).pos();
    let n = size as usize;
    let mut out = Parameters::new();
    let ghost mut ps: Seq<int> = seq![c.pos()];
    let mut stopped = false;
    let mut i: usize = 0;
    assert(out.entries@.len() == 0);
    while i < n && !stopped
        invariant
            0 <= i <= n,
            n == string_size(s, start),
            s == old(c).bytes(),
            start == old(c).pos(),
            out.entries@.len() == i,
            went_on(old(c), c),
            c.pos() >= old(c).pos() + 2,
            entries_read(s, ps, out.entries@),
            ps[0] == start + 2,
            ps.last() <= c.pos(),
            !stopped ==> ps.last() == c.pos(),
            stopped ==> entry_fails(s, ps.last()),
        decreases n - i, if stopped { 0int } else { 1int },
    {
        let ghost q = c.pos();
        let key = match c.read_u8() {
            Some(b) => b,
            None => {
                stopped = true;
                continue;
            },
        };
        let ghost entries_before = out.entries@;
        match deserialize_value(c) {
            Ok(v) => {
                out.insert(key, v);
                proof {
                    let ps2 = ps.push(c.pos());
                    assert forall|k: int| 0 <= k < out.entries@.len() implies 0 <= #[trigger] ps2[k] < s.len()
                        && out.entries@[k].0 == s[ps2[k]] && tagged_outcome(s, ps2[k] + 1, Ok(out.entries@[k].1), ps2[k + 1]) by {
                        if k < entries_before.len() {
                            assert(out.entries@[k] == entries_before[k]);
                            assert(ps2[k] == ps[k] && ps2[k + 1] == ps[k + 1]);
                        }
                    }
                    ps = ps2;
                }
                i = i + 1;
            },
            Err(e) => {
                assert(tagged_outcome(s, q + 1, Err::<Value, DecodeFailure>(e), c.pos()));
                stopped = true;
            },
        }
    }
    proof {
        assert(entries_read(s, ps, out.entries@));
    }
    Ok(out)
}

/// The event data at `p`: its code, then its parameter table.
pub open spec fn event_read(s: Seq<u8>, p: int, e: EventData) -> bool {
    e.code == s[p] && table_read(s, p + 1, e.parameters.entries@)
}

/// Event data, or a request, can be read at `p`.
pub open spec fn body_readable(s: Seq<u8>, p: int) -> bool {
    s.len() - p >= 3 && string_size(s, p + 1) >= 0
}

pub open spec fn request_read(s: Seq<u8>, p: int, e: OperationRequest) -> bool {
    e.code == s[p] && table_read(s, p + 1, e.parameters.entries@)
}

/// The text a response keeps of its debug value: the string, or "None".
pub open spec fn debug_text(v: Value) -> Seq<char> {
    match v {
        Value::String(t) => t@,
        _ => seq!['N', 'o', 'n', 'e'],
    }
}

/// The response at `p`: code, return code, a tagged debug value read up to
/// `q`, then the parameter table from `q`.
pub open spec fn response_read(s: Seq<u8>, p: int, e: OperationResponse) -> bool {
    &&& e.code == s[p]
    &&& e.return_code == signed16(be_u16(s, p + 1))
    &&& exists|v: Value, q: int|
        #[trigger] tagged_outcome(s, p + 3, Ok::<Value, DecodeFailure>(v), q) && e.debug_message@
            == debug_text(v) && table_read(s, q, e.parameters.entries@)
}

/// Why a response at `p` cannot be read: too short, a debug value that
/// fails, or a parameter table that cannot start where the value ends.
pub open spec fn response_fails(s: Seq<u8>, p: int) -> bool {
    s.len() - p < 3 || (exists|e: DecodeFailure, q: int|
        #[trigger] tagged_outcome(s, p + 3, Err::<Value, DecodeFailure>(e), q)) || (exists|v: Value, q: int|
        #[trigger] tagged_outcome(s, p + 3, Ok::<Value, DecodeFailure>(v), q) && (s.len() - q < 2
            || string_size(s, q) < 0))
}

pub fn deserialize_event_data(c: &mut Cursor) -> (r: Result<EventData, DecodeFailure>)
    requires
        old(c).wf(),
    ensures
        went_on(old(c), final(c)),
        old(c).rest() < 3 ==> r == Err::<EventData, DecodeFailure>(DecodeFailure::NotEnoughBytes),
        old(c).rest() >= 3 ==> (r is Ok <==> body_readable(old(c).bytes(), old(c).pos())),
        r is Ok ==> event_read(old(c).bytes(), old(c).pos(), r->Ok_0),
    decreases old(c).rest(), 0int,
{
    let code = match c.read_u8() {
        Some(b) => b,
        None => return Err(DecodeFailure::NotEnoughBytes),
    };
    let parameters = deserialize_parameter_table(c)?;
    Ok(EventData { code, parameters })
}

pub fn deserialize_operation_request(c: &mut Cursor) -> (r: Result<
    OperationRequest,
    DecodeFailure,
>)
    requires
        old(c).wf(),
    ensures
        went_on(old(c), final(c)),
        old(c).rest() < 3 ==> r == Err::<OperationRequest, DecodeFailure>(
            DecodeFailure::NotEnoughBytes,
        ),
        old(c).rest() >= 3 ==> (r is Ok <==> body_readable(old(c).bytes(), old(c).pos())),
        r is Ok ==> request_read(old(c).bytes(), old(c).pos(), r->Ok_0),
    decreases old(c).rest(), 0int,
{
    let code = match c.read_u8() {
        Some(b) => b,
        None => return Err(DecodeFailure::NotEnoughBytes),
    };
    let parameters = deserialize_parameter_table(c)?;
    Ok(OperationRequest { code, parameters })
}

/// Reads a response: its code, a two-byte return code, a tagged debug
/// message (any value other than a string stands for "None"), then the
/// parameters.
pub fn deserialize_operation_response(c: &mut Cursor) -> (r: Result<
    OperationResponse,
    DecodeFailure,
>)
    requires
        old(c).wf(),
    ensures
        went_on(old(c), final(c)),
        old(c).rest() < 4 ==> r == Err::<OperationResponse, DecodeFailure>(
            DecodeFailure::NotEnoughBytes,
        ),
        r is Ok ==> response_read(old(c).bytes(), old(c).pos(), r->Ok_0),
        r is Err ==> response_fails(old(c).bytes(), old(c).pos()),
    decreases old(c).rest(), 0int,
{
    let code = match c.read_u8() {
        Some(b) => b,
        None => return Err(DecodeFailure::NotEnoughBytes),
    };
    let return_code = match c.read_u16() {
        Some(v) => to_i16(v),
        None => return Err(DecodeFailure::NotEnoughBytes),
    };
    let ghost vp = c.pos();
    let ghost b = old(c).bytes();
    let ghost p = old(c).pos();
    let value = match deserialize_value(c) {
        Ok(v) => v,
        Err(e) => {
            assert(tagged_outcome(b, p + 3, Err::<Value, DecodeFailure>(e), c.pos()));
            assert(response_fails(b, p));
            return Err(e);
        },
    };
    let ghost q = c.pos();
    assert(tagged_outcome(b, p + 3, Ok::<Value, DecodeFailure>(value), q));
    let debug_message = match &value {
        Value::String(s) => s.clone(),
        _ => {
            let d = "None".to_owned();
            proof {
                reveal_strlit("None");
            }
            d
        },
    };
    assert(debug_message@ == debug_text(value));
    let parameters = match deserialize_parameter_table(c) {
        Ok(t) => t,
        Err(e) => {
            assert(b.len() - q < 2 || string_size(b, q) < 0);
            assert(response_fails(b, p));
            return Err(e);
        },
    };
    let r = OperationResponse { code, return_code, debug_message, parameters };
    assert(vp == old(c).pos() + 3);
    assert(table_read(old(c).bytes(), q, r.parameters.entries@));
    assert(tagged_outcome(old(c).bytes(), old(c).pos() + 3, Ok::<Value, DecodeFailure>(value), q));
    Ok(r)
}

} // verus!
