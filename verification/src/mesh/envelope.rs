//! The protocol envelope every mesh message travels in, its JSON wire
//! form, its validation rules and its integrity checksum.
use crate::mesh::identity::{clone_opt_string, opt_view, owned};
use crate::platform::{
    format_rfc3339, native_word_bytes, new_message_id, rfc3339_text, short_ascii, utc_now_nanos,
};
use crate::text::{blank, is_blank, str_eq};
use std::collections::hash_map::DefaultHasher;
use std::hash::Hasher;
use vstd::prelude::*;
use vstd::std_specs::hash::DefaultHasherAdditionalSpecFns;
use vstd::utf8::encode_utf8;

verus! {

broadcast use vstd::string::group_string_axioms;

pub const PROTOCOL_VERSION: &'static str = "mesh.v0";

/// Hard limit on the serialized size of an envelope, in bytes.
pub const MAX_ENVELOPE_BYTES: usize = 64 * 1024;

/// Size that control messages should stay within, in bytes.
pub const CONTROL_TARGET_BYTES: usize = 2 * 1024;

/// Hops a new envelope may travel.
pub const DEFAULT_TTL: u8 = 8;

pub open spec fn protocol_version() -> Seq<char> {
    "mesh.v0"@
}

/// How the payload is to be read.
#[derive(Clone, Copy, Debug, PartialEq, Eq, Structural)]
pub enum PayloadType {
    Json,
    Text,
    Empty,
}

/// Whether an envelope is addressed to one node or to all.
#[derive(Clone, Copy, Debug, PartialEq, Eq, Structural)]
pub enum DestinationKind {
    Direct,
    Broadcast,
}

/// A mesh message. Ids are the 128-bit values of UUIDs; `payload` and
/// `metadata` hold compact JSON text (`null` for an absent metadata value).
#[derive(Debug)]
pub struct ProtocolEnvelope {
    pub protocol_version: String,
    pub message_id: u128,
    pub correlation_id: Option<u128>,
    pub source_node_id: String,
    pub target_node_id: Option<String>,
    pub destination: DestinationKind,
    pub timestamp: String,
    pub ttl: u8,
    pub hop_count: u8,
    pub message_type: String,
    pub payload_type: PayloadType,
    pub payload: String,
    pub checksum: Option<String>,
    pub metadata: String,
}

pub struct EnvelopeView {
    pub protocol_version: Seq<char>,
    pub message_id: u128,
    pub correlation_id: Option<u128>,
    pub source_node_id: Seq<char>,
    pub target_node_id: Option<Seq<char>>,
    pub destination: DestinationKind,
    pub timestamp: Seq<char>,
    pub ttl: u8,
    pub hop_count: u8,
    pub message_type: Seq<char>,
    pub payload_type: PayloadType,
    pub payload: Seq<char>,
    pub checksum: Option<Seq<char>>,
    pub metadata: Seq<char>,
}

impl View for ProtocolEnvelope {
    type V = EnvelopeView;

    open spec fn view(&self) -> EnvelopeView {
        EnvelopeView {
            protocol_version: self.protocol_version@,
            message_id: self.message_id,
            correlation_id: self.correlation_id,
            source_node_id: self.source_node_id@,
            target_node_id: opt_view(self.target_node_id),
            destination: self.destination,
            timestamp: self.timestamp@,
            ttl: self.ttl,
            hop_count: self.hop_count,
            message_type: self.message_type@,
            payload_type: self.payload_type,
            payload: self.payload@,
            checksum: opt_view(self.checksum),
            metadata: self.metadata@,
        }
    }
}

impl Clone for ProtocolEnvelope {
    fn clone(&self) -> (r: Self)
        ensures
            r@ == self@,
    {
        ProtocolEnvelope {
            protocol_version: self.protocol_version.clone(),
            message_id: self.message_id,
            correlation_id: self.correlation_id,
            source_node_id: self.source_node_id.clone(),
            target_node_id: clone_opt_string(&self.target_node_id),
            destination: self.destination,
            timestamp: self.timestamp.clone(),
            ttl: self.ttl,
            hop_count: self.hop_count,
            message_type: self.message_type.clone(),
            payload_type: self.payload_type,
            payload: self.payload.clone(),
            checksum: clone_opt_string(&self.checksum),
            metadata: self.metadata.clone(),
        }
    }
}

/* The JSON wire form. */

/// Lower-case hexadecimal digit of `n` (0 to 15).
pub open spec fn hex_digit(n: int) -> char {
    if n < 10 {
        (48 + n) as char
    } else {
        (87 + n) as char
    }
}

/// Decimal digit of `n` (0 to 9).
pub open spec fn dec_digit(n: int) -> char {
    (48 + n) as char
}

/// How a character appears inside a JSON string: quote and backslash
/// escaped, the control characters with short escapes as `\b \t \n \f \r`,
/// the other control characters as `\u00XX`, everything else as itself.
pub open spec fn escape_char(c: char) -> Seq<char> {
    if c == '"' {
        seq!['\\', '"']
    } else if c == '\\' {
        seq!['\\', '\\']
    } else if c == '\u{8}' {
        seq!['\\', 'b']
    } else if c == '\t' {
        seq!['\\', 't']
    } else if c == '\n' {
        seq!['\\', 'n']
    } else if c == '\u{c}' {
        seq!['\\', 'f']
    } else if c == '\r' {
        seq!['\\', 'r']
    } else if (c as u32) < 0x20 {
        seq!['\\', 'u', '0', '0', hex_digit((c as u32) as int / 16), hex_digit((c as u32) as int % 16)]
    } else {
        seq![c]
    }
}

pub open spec fn escape(s: Seq<char>) -> Seq<char>
    decreases s.len(),
{
    if s.len() == 0 {
        Seq::empty()
    } else {
        escape(s.drop_last()) + escape_char(s.last())
    }
}

/// A JSON string literal.
pub open spec fn json_str(s: Seq<char>) -> Seq<char> {
    seq!['"'] + escape(s) + seq!['"']
}

/// Decimal text of a byte-sized number.
pub open spec fn u8_text(n: u8) -> Seq<char> {
    if n < 10 {
        seq![dec_digit(n as int)]
    } else if n < 100 {
        seq![dec_digit(n as int / 10), dec_digit(n as int % 10)]
    } else {
        seq![dec_digit(n as int / 100), dec_digit((n as int / 10) % 10), dec_digit(n as int % 10)]
    }
}

/// The `i`-th hexadecimal digit of a 128-bit id, most significant first.
pub open spec fn id_nibble(id: u128, i: int) -> u128 {
    (id >> ((124 - 4 * i) as u128)) & 15
}

/// The first `i` hex digits of an id in hyphenated UUID form, with the
/// hyphens after the 8th, 12th, 16th and 20th digits.
pub open spec fn uuid_prefix(id: u128, i: nat) -> Seq<char>
    decreases i,
{
    if i == 0 {
        Seq::empty()
    } else {
        uuid_prefix(id, (i - 1) as nat) + seq![hex_digit(id_nibble(id, i - 1) as int)] + (if i
            == 8 || i == 12 || i == 16 || i == 20 {
            seq!['-']
        } else {
            Seq::empty()
        })
    }
}

/// A UUID in lower-case hyphenated form, as its serialization writes it.
pub open spec fn uuid_text(id: u128) -> Seq<char> {
    uuid_prefix(id, 32)
}

pub open spec fn destination_name(d: DestinationKind) -> Seq<char> {
    match d {
        DestinationKind::Direct => "direct"@,
        DestinationKind::Broadcast => "broadcast"@,
    }
}

pub open spec fn payload_type_name(p: PayloadType) -> Seq<char> {
    match p {
        PayloadType::Json => "json"@,
        PayloadType::Text => "text"@,
        PayloadType::Empty => "empty"@,
    }
}

/// A string that needs no escaping, between quotes.
pub open spec fn quoted(s: Seq<char>) -> Seq<char> {
    seq!['"'] + s + seq!['"']
}

/// The opening of an envelope's JSON text: protocol version and ids.
pub open spec fn envelope_json_head(e: EnvelopeView) -> Seq<char> {
    "{\"protocolVersion\":"@ + json_str(e.protocol_version) + ",\"messageId\":"@ + quoted(
        uuid_text(e.message_id),
    ) + (match e.correlation_id {
        Some(c) => ",\"correlationId\":"@ + quoted(uuid_text(c)),
        None => Seq::empty(),
    })
}

/// The routing part of an envelope's JSON text.
pub open spec fn envelope_json_route(e: EnvelopeView) -> Seq<char> {
    ",\"sourceNodeId\":"@ + json_str(e.source_node_id) + (match e.target_node_id {
        Some(t) => ",\"targetNodeId\":"@ + json_str(t),
        None => Seq::empty(),
    }) + ",\"destination\":"@ + json_str(destination_name(e.destination)) + ",\"timestamp\":"@
        + json_str(e.timestamp) + ",\"ttl\":"@ + u8_text(e.ttl) + ",\"hopCount\":"@ + u8_text(
        e.hop_count,
    )
}

/// The content part of an envelope's JSON text, with the closing brace.
pub open spec fn envelope_json_body(e: EnvelopeView) -> Seq<char> {
    ",\"messageType\":"@ + json_str(e.message_type) + ",\"payloadType\":"@ + json_str(
        payload_type_name(e.payload_type),
    ) + ",\"payload\":"@ + e.payload + (match e.checksum {
        Some(c) => ",\"checksum\":"@ + json_str(c),
        None => Seq::empty(),
    }) + (if e.metadata == "null"@ {
        Seq::empty()
    } else {
        ",\"metadata\":"@ + e.metadata
    }) + "}"@
}

/// The compact JSON text of an envelope: the fields in declaration order
/// under their camel-case names, absent optional fields and a `null`
/// metadata left out.
pub open spec fn envelope_json(e: EnvelopeView) -> Seq<char> {
    envelope_json_head(e) + envelope_json_route(e) + envelope_json_body(e)
}

/// Size in bytes of the UTF-8 encoded JSON text of an envelope.
pub open spec fn envelope_size(e: EnvelopeView) -> usize {
    encode_utf8(envelope_json(e)).len() as usize
}

/// The verdict on an envelope: the protocol version must be this one's,
/// the source and the message type must not be blank, the hop count must
/// not exceed the ttl, and the serialized envelope must fit in
/// `MAX_ENVELOPE_BYTES`; the first rule broken names the error.
pub open spec fn validation(e: EnvelopeView) -> Result<(), Seq<char>> {
    if e.protocol_version != protocol_version() {
        Err("unsupported_protocol_version"@)
    } else if is_blank(e.source_node_id) {
        Err("source_node_id_required"@)
    } else if is_blank(e.message_type) {
        Err("message_type_required"@)
    } else if e.hop_count > e.ttl {
        Err("ttl_exhausted"@)
    } else if envelope_size(e) > MAX_ENVELOPE_BYTES {
        Err("payload_too_large"@)
    } else {
        Ok(())
    }
}

pub open spec fn result_view(r: Result<(), String>) -> Result<(), Seq<char>> {
    match r {
        Ok(()) => Ok(()),
        Err(e) => Err(e@),
    }
}

fn hex_char(n: u8) -> (c: char)
    requires
        n < 16,
    ensures
        c == hex_digit(n as int),
{
    if n < 10 {
        (48 + n) as char
    } else {
        (87 + n) as char
    }
}

fn dec_char(n: u8) -> (c: char)
    requires
        n < 10,
    ensures
        c == dec_digit(n as int),
{
    (48 + n) as char
}

fn push_escaped_char(out: &mut String, c: char)
    ensures
        final(out)@ == old(out)@ + escape_char(c),
{
    if c == '"' {
        out.push('\\');
        out.push('"');
    } else if c == '\\' {
        out.push('\\');
        out.push('\\');
    } else if c == '\u{8}' {
        out.push('\\');
        out.push('b');
    } else if c == '\t' {
        out.push('\\');
        out.push('t');
    } else if c == '\n' {
        out.push('\\');
        out.push('n');
    } else if c == '\u{c}' {
        out.push('\\');
        out.push('f');
    } else if c == '\r' {
        out.push('\\');
        out.push('r');
    } else if (c as u32) < 0x20 {
        let v: u32 = c as u32;
        out.push('\\');
        out.push('u');
        out.push('0');
        out.push('0');
        out.push(hex_char((v / 16) as u8));
        out.push(hex_char((v % 16) as u8));
    } else {
        out.push(c);
    }
    assert(final(out)@ =~= old(out)@ + escape_char(c));
}

/// Appends `s` as a JSON string literal.
pub fn push_json_str(out: &mut String, s: &str)
    ensures
        final(out)@ == old(out)@ + json_str(s@),
{
    let ghost start = out@;
    out.push('"');
    let n = s.unicode_len();
    for c in it: s.chars()
        invariant
            it.seq() == s@,
            n == s@.len(),
            out@ == start + seq!['"'] + escape(s@.subrange(0, it.index() as int)),
    {
        let ghost i = it.index();
        proof {
            assert(s@.subrange(0, i + 1).drop_last() =~= s@.subrange(0, i as int));
        }
        push_escaped_char(out, c);
    }
    assert(s@.subrange(0, s@.len() as int) =~= s@);
    out.push('"');
    assert(out@ =~= start + json_str(s@));
}

fn push_u8(out: &mut String, n: u8)
    ensures
        final(out)@ == old(out)@ + u8_text(n),
{
    if n < 10 {
        out.push(dec_char(n));
    } else if n < 100 {
        out.push(dec_char(n / 10));
        out.push(dec_char(n % 10));
    } else {
        out.push(dec_char(n / 100));
        out.push(dec_char((n / 10) % 10));
        out.push(dec_char(n % 10));
    }
    assert(final(out)@ =~= old(out)@ + u8_text(n));
}

/// Appends an id in hyphenated UUID form.
pub fn push_uuid_text(out: &mut String, id: u128)
    ensures
        final(out)@ == old(out)@ + uuid_text(id),
{
    let ghost start = out@;
    let mut i: u32 = 0;
    while i < 32
        invariant
            i <= 32,
            out@ == start + uuid_prefix(id, i as nat),
        decreases 32 - i,
    {
        let sh: u32 = 124 - 4 * i;
        let d = (id >> sh) & 15;
        assert(d < 16) by (bit_vector)
            requires
                d == (id >> sh) & 15,
        ;
        assert(d == id_nibble(id, i as int));
        out.push(hex_char(d as u8));
        if i == 7 || i == 11 || i == 15 || i == 19 {
            out.push('-');
        }
        i = i + 1;
        assert(out@ =~= start + uuid_prefix(id, i as nat));
    }
}

fn push_str(out: &mut String, s: &str)
    ensures
        final(out)@ == old(out)@ + s@,
{
    out.append(s);
}

fn push_quoted_uuid(out: &mut String, id: u128)
    ensures
        final(out)@ == old(out)@ + quoted(uuid_text(id)),
{
    let ghost start = out@;
    out.push('"');
    push_uuid_text(out, id);
    out.push('"');
    assert(out@ =~= start + quoted(uuid_text(id)));
}

impl ProtocolEnvelope {
    fn push_json_head(&self, out: &mut String)
        ensures
            final(out)@ == old(out)@ + envelope_json_head(self@),
    {
        let ghost start = out@;
        push_str(out, "{\"protocolVersion\":");
        push_json_str(out, self.protocol_version.as_str());
        push_str(out, ",\"messageId\":");
        push_quoted_uuid(out, self.message_id);
        let ghost a = out@;
        match self.correlation_id {
            Some(c) => {
                push_str(out, ",\"correlationId\":");
                push_quoted_uuid(out, c);
            },
            None => {},
        }
        assert(out@ =~= start + envelope_json_head(self@));
    }

    #[verifier::rlimit(60)]
    fn push_json_route(&self, out: &mut String)
        ensures
            final(out)@ == old(out)@ + envelope_json_route(self@),
    {
        let ghost start = out@;
        push_str(out, ",\"sourceNodeId\":");
        push_json_str(out, self.source_node_id.as_str());
        match &self.target_node_id {
            Some(t) => {
                push_str(out, ",\"targetNodeId\":");
                push_json_str(out, t.as_str());
            },
            None => {},
        }
        let ghost a = out@;
        push_str(out, ",\"destination\":");
        match self.destination {
            DestinationKind::Direct => push_json_str(out, "direct"),
            DestinationKind::Broadcast => push_json_str(out, "broadcast"),
        }
        push_str(out, ",\"timestamp\":");
        push_json_str(out, self.timestamp.as_str());
        push_str(out, ",\"ttl\":");
        push_u8(out, self.ttl);
        push_str(out, ",\"hopCount\":");
        push_u8(out, self.hop_count);
        assert(out@ =~= start + envelope_json_route(self@));
    }

    #[verifier::rlimit(60)]
    fn push_json_body(&self, out: &mut String)
        ensures
            final(out)@ == old(out)@ + envelope_json_body(self@),
    {
        let ghost start = out@;
        push_str(out, ",\"messageType\":");
        push_json_str(out, self.message_type.as_str());
        push_str(out, ",\"payloadType\":");
        match self.payload_type {
            PayloadType::Json => push_json_str(out, "json"),
            PayloadType::Text => push_json_str(out, "text"),
            PayloadType::Empty => push_json_str(out, "empty"),
        }
        push_str(out, ",\"payload\":");
        push_str(out, self.payload.as_str());
        let ghost a = out@;
        match &self.checksum {
            Some(c) => {
                push_str(out, ",\"checksum\":");
                push_json_str(out, c.as_str());
            },
            None => {},
        }
        let ghost b = out@;
        if !str_eq(self.metadata.as_str(), "null") {
            push_str(out, ",\"metadata\":");
            push_str(out, self.metadata.as_str());
        }
        push_str(out, "}");
        assert(out@ =~= start + envelope_json_body(self@));
    }

    /// The compact JSON text of this envelope.
    pub fn json_text(&self) -> (r: String)
        ensures
            r@ == envelope_json(self@),
    {
        let mut out = String::new();
        self.push_json_head(&mut out);
        self.push_json_route(&mut out);
        self.push_json_body(&mut out);
        assert(out@ =~= envelope_json(self@));
        out
    }

    /// Size in bytes of the serialized envelope.
    pub fn serialized_len(&self) -> (r: usize)
        ensures
            r == envelope_size(self@),
    {
        let text = self.json_text();
        text.as_str().len()
    }

    pub fn validate(&self) -> (r: Result<(), String>)
        ensures
            result_view(r) == validation(self@),
    {
        if !str_eq(self.protocol_version.as_str(), PROTOCOL_VERSION) {
            return Err(owned("unsupported_protocol_version"));
        }
        if blank(self.source_node_id.as_str()) {
            return Err(owned("source_node_id_required"));
        }
        if blank(self.message_type.as_str()) {
            return Err(owned("message_type_required"));
        }
        if self.hop_count > self.ttl {
            return Err(owned("ttl_exhausted"));
        }
        if self.serialized_len() > MAX_ENVELOPE_BYTES {
            return Err(owned("payload_too_large"));
        }
        Ok(())
    }

    /// The envelope one hop further on; refused with `ttl_exhausted` once
    /// the hop count has reached the ttl.
    pub fn forwarded(&self) -> (r: Result<Self, String>)
        ensures
            match r {
                Ok(next) => self.hop_count < self.ttl && next@ == (EnvelopeView {
                    hop_count: (self.hop_count + 1) as u8,
                    ..self@
                }),
                Err(e) => self.hop_count >= self.ttl && e@ == "ttl_exhausted"@,
            },
    {
        if self.hop_count >= self.ttl {
            return Err(owned("ttl_exhausted"));
        }
        let mut next = self.clone();
        next.hop_count = next.hop_count + 1;
        Ok(next)
    }
}

/* The integrity checksum. */

/// The 16 bytes of an id, most significant first.
pub open spec fn be_bytes(id: u128) -> Seq<u8> {
    Seq::new(16, |k: int| ((id >> ((120 - 8 * k) as u128)) & 255) as u8)
}

/// What hashing a string feeds a hasher: its UTF-8 bytes, then `0xff`.
pub open spec fn str_chunks(s: Seq<char>) -> Seq<Seq<u8>> {
    seq![encode_utf8(s), seq![0xffu8]]
}

/// The byte chunks the checksum hashes, in order: protocol version, the 16
/// bytes of the message id (a UUID hashes as its bytes alone), the source
/// node id, the target (discriminant word, then the text when present),
/// message type and payload. `discr_word` is the machine word of the
/// target's discriminant (0 absent, 1 present).
pub open spec fn checksum_chunks(e: EnvelopeView, discr_word: Seq<u8>) -> Seq<
    Seq<u8>,
> {
    str_chunks(e.protocol_version) + seq![be_bytes(e.message_id)] + str_chunks(
        e.source_node_id,
    ) + seq![discr_word] + (
    match e.target_node_id {
        Some(t) => str_chunks(t),
        None => Seq::empty(),
    }) + str_chunks(e.message_type) + str_chunks(e.payload)
}

/// The first `i` hex digits of a 64-bit value, zero-padded to 16 digits.
pub open spec fn hex16_prefix(h: u64, i: nat) -> Seq<char>
    decreases i,
{
    if i == 0 {
        Seq::empty()
    } else {
        hex16_prefix(h, (i - 1) as nat) + seq![
            hex_digit(((h >> ((60 - 4 * (i - 1)) as u64)) & 15) as int),
        ]
    }
}

/// A 64-bit value as 16 lower-case hex digits.
pub open spec fn hex16(h: u64) -> Seq<char> {
    hex16_prefix(h, 16)
}

/// The checksum text for the given machine words.
pub open spec fn checksum_text(e: EnvelopeView, discr_word: Seq<u8>) -> Seq<
    char,
> {
    hex16(DefaultHasher::spec_finish(checksum_chunks(e, discr_word)))
}

fn hex16_string(h: u64) -> (r: String)
    ensures
        r@ == hex16(h),
{
    let mut out = String::new();
    let mut i: u64 = 0;
    while i < 16
        invariant
            i <= 16,
            out@ == hex16_prefix(h, i as nat),
        decreases 16 - i,
    {
        let sh: u64 = 60 - 4 * i;
        let d = (h >> sh) & 15;
        assert(d < 16) by (bit_vector)
            requires
                d == (h >> sh) & 15,
        ;
        out.push(hex_char(d as u8));
        i = i + 1;
        assert(out@ =~= hex16_prefix(h, i as nat));
    }
    out
}

fn id_bytes(id: u128) -> (r: Vec<u8>)
    ensures
        r@ == be_bytes(id),
{
    let mut r: Vec<u8> = Vec::new();
    let mut k: u32 = 0;
    while k < 16
        invariant
            k <= 16,
            r@.len() == k,
            forall|j: int| 0 <= j < k ==> r@[j] == be_bytes(id)[j],
        decreases 16 - k,
    {
        let sh: u32 = 120 - 8 * k;
        let b = (id >> sh) & 255;
        assert(b < 256) by (bit_vector)
            requires
                b == (id >> sh) & 255,
        ;
        r.push(b as u8);
        k = k + 1;
    }
    assert(r@ =~= be_bytes(id));
    r
}

fn hash_str(h: &mut DefaultHasher, s: &str)
    ensures
        final(h)@ == old(h)@ + str_chunks(s@),
{
    h.write(s.as_bytes());
    let mut tail: Vec<u8> = Vec::new();
    tail.push(0xff);
    assert(tail@ =~= seq![0xffu8]);
    h.write(tail.as_slice());
    assert(final(h)@ =~= old(h)@ + str_chunks(s@));
}

impl ProtocolEnvelope {
    /// The checksum of this envelope for the given machine words.
    pub fn checksum_with(&self, discr_word: &[u8]) -> (r: String)
        ensures
            r@ == checksum_text(self@, discr_word@),
    {
        let mut h = DefaultHasher::new();
        hash_str(&mut h, self.protocol_version.as_str());
        let idb = id_bytes(self.message_id);
        h.write(idb.as_slice());
        hash_str(&mut h, self.source_node_id.as_str());
        h.write(discr_word);
        let ghost mid = h@;
        match &self.target_node_id {
            Some(t) => hash_str(&mut h, t.as_str()),
            None => {},
        }
        hash_str(&mut h, self.message_type.as_str());
        hash_str(&mut h, self.payload.as_str());
        assert(h@ =~= checksum_chunks(self@, discr_word@));
        hex16_string(h.finish())
    }

    /// The integrity checksum of this envelope on this machine.
    pub fn payload_checksum(&self) -> (r: String)
        ensures
            exists|discr_word: Seq<u8>|
                r@ == checksum_text(self@, discr_word),
    {
        let discr: usize = if self.target_node_id.is_some() {
            1
        } else {
            0
        };
        let discr_word = native_word_bytes(discr);
        self.checksum_with(discr_word.as_slice())
    }
}

/// The text of a wall-clock instant as envelopes carry it: its RFC 3339
/// form, or the Unix epoch where the instant cannot be formatted.
pub open spec fn timestamp_of(unix_nanos: i128) -> Seq<char> {
    match rfc3339_text(unix_nanos) {
        Some(t) => t,
        None => "1970-01-01T00:00:00Z"@,
    }
}

pub fn timestamp_text(unix_nanos: i128) -> (r: String)
    ensures
        r@ == timestamp_of(unix_nanos),
        short_ascii(r@, 35),
{
    let formatted = format_rfc3339(unix_nanos);
    proof {
        reveal_strlit("1970-01-01T00:00:00Z");
    }
    timestamp_or_epoch(formatted)
}

/// The text of a formatted instant, or the Unix epoch where formatting
/// gave nothing.
pub fn timestamp_or_epoch(formatted: Option<String>) -> (r: String)
    ensures
        r@ == match formatted {
            Some(t) => t@,
            None => "1970-01-01T00:00:00Z"@,
        },
{
    match formatted {
        Some(s) => s,
        None => owned("1970-01-01T00:00:00Z"),
    }
}

/// The current time as envelope text.
pub fn now_rfc3339() -> (r: String)
    ensures
        exists|t: i128| r@ == timestamp_of(t),
        short_ascii(r@, 35),
{
    timestamp_text(utc_now_nanos())
}

/// A new envelope as `new` builds it, before its id, time and checksum are
/// known: current protocol, no correlation, addressed to the target when
/// it is given and not blank (otherwise a broadcast), ttl 8, no hops yet,
/// no metadata.
pub open spec fn fresh_envelope(
    source: Seq<char>,
    target: Option<Seq<char>>,
    message_type: Seq<char>,
    payload_type: PayloadType,
    payload: Seq<char>,
    message_id: u128,
    timestamp: Seq<char>,
) -> EnvelopeView {
    let t = match target {
        Some(x) => if is_blank(x) {
            None
        } else {
            Some(x)
        },
        None => None,
    };
    EnvelopeView {
        protocol_version: protocol_version(),
        message_id: message_id,
        correlation_id: None,
        source_node_id: source,
        target_node_id: t,
        destination: if t is Some {
            DestinationKind::Direct
        } else {
            DestinationKind::Broadcast
        },
        timestamp: timestamp,
        ttl: 8,
        hop_count: 0,
        message_type: message_type,
        payload_type: payload_type,
        payload: payload,
        checksum: None,
        metadata: "null"@,
    }
}

/// A new envelope with its checksum, for the given id, time and machine
/// words.
pub open spec fn new_envelope(
    source: Seq<char>,
    target: Option<Seq<char>>,
    message_type: Seq<char>,
    payload_type: PayloadType,
    payload: Seq<char>,
    message_id: u128,
    unix_nanos: i128,
    discr_word: Seq<u8>,
) -> EnvelopeView {
    let base = fresh_envelope(
        source,
        target,
        message_type,
        payload_type,
        payload,
        message_id,
        timestamp_of(unix_nanos),
    );
    EnvelopeView { checksum: Some(checksum_text(base, discr_word)), ..base }
}

impl ProtocolEnvelope {
    /// A new envelope with a fresh random id, the current time and its
    /// checksum. `payload` is compact JSON text.
    pub fn new(
        source_node_id: String,
        target_node_id: Option<String>,
        message_type: String,
        payload_type: PayloadType,
        payload: String,
    ) -> (r: Self)
        ensures
            exists|discr_word: Seq<u8>, t: i128|
                r@ == #[trigger] new_envelope(
                    source_node_id@,
                    opt_view(target_node_id),
                    message_type@,
                    payload_type,
                    payload@,
                    r.message_id,
                    t,
                    discr_word,
                ),
            short_ascii(r@.timestamp, 35),
    {
        let target = match target_node_id {
            Some(t) => if blank(t.as_str()) {
                None
            } else {
                Some(t)
            },
            None => None,
        };
        let destination = if target.is_some() {
            DestinationKind::Direct
        } else {
            DestinationKind::Broadcast
        };
        let mut envelope = ProtocolEnvelope {
            protocol_version: owned(PROTOCOL_VERSION),
            message_id: new_message_id(),
            correlation_id: None,
            source_node_id,
            target_node_id: target,
            destination,
            timestamp: now_rfc3339(),
            ttl: DEFAULT_TTL,
            hop_count: 0,
            message_type,
            payload_type,
            payload,
            checksum: None,
            metadata: owned("null"),
        };
        let ghost base = envelope@;
        let checksum = envelope.payload_checksum();
        proof {
            let t = choose|t: i128| base.timestamp == timestamp_of(t);
            let dw = choose|dw: Seq<u8>| checksum@ == checksum_text(base, dw);
            assert(base == fresh_envelope(
                source_node_id@,
                opt_view(target_node_id),
                message_type@,
                payload_type,
                payload@,
                base.message_id,
                timestamp_of(t),
            ));
        }
        envelope.checksum = Some(checksum);
        proof {
            let t = choose|t: i128| base.timestamp == timestamp_of(t);
            let dw = choose|dw: Seq<u8>| checksum@ == checksum_text(base, dw);
            assert(envelope@ == new_envelope(
                source_node_id@,
                opt_view(target_node_id),
                message_type@,
                payload_type,
                payload@,
                envelope.message_id,
                t,
                dw,
            ));
        }
        envelope
    }
}

/// An envelope that passes validation fits in `MAX_ENVELOPE_BYTES` once
/// serialized, has not travelled past its ttl, and speaks this protocol.
pub proof fn law_valid_envelope_fits(e: EnvelopeView)
    requires
        validation(e) is Ok,
    ensures
        envelope_size(e) <= MAX_ENVELOPE_BYTES,
        e.hop_count <= e.ttl,
        e.protocol_version == protocol_version(),
        !is_blank(e.source_node_id),
        !is_blank(e.message_type),
{
}

/// The checksum covers the protocol version, the id, the source, the
/// target, the message type and the payload only: forwarding (a new hop
/// count), a new ttl or a new timestamp leave it as it was, so a forwarded
/// envelope still checks.
pub proof fn law_checksum_survives_forwarding(
    e: EnvelopeView,
    hop_count: u8,
    ttl: u8,
    timestamp: Seq<char>,
    discr_word: Seq<u8>,
)
    ensures
        checksum_text(
            EnvelopeView { hop_count: hop_count, ttl: ttl, timestamp: timestamp, ..e },
            discr_word,
        ) == checksum_text(e, discr_word),
{
    assert(checksum_chunks(
        EnvelopeView { hop_count: hop_count, ttl: ttl, timestamp: timestamp, ..e },
        discr_word,
    ) == checksum_chunks(e, discr_word));
}

proof fn lemma_escape_len(s: Seq<char>)
    ensures
        escape(s).len() <= 6 * s.len(),
    decreases s.len(),
{
    if s.len() > 0 {
        lemma_escape_len(s.drop_last());
        assert(escape_char(s.last()).len() <= 6);
    }
}

proof fn lemma_utf8_len(s: Seq<char>)
    ensures
        encode_utf8(s).len() <= 4 * s.len(),
    decreases s.len(),
{
    if s.len() > 0 {
        lemma_utf8_len(s.drop_first());
        assert(vstd::utf8::encode_scalar(s[0] as u32).len() <= 4);
    }
}

proof fn lemma_uuid_prefix_len(id: u128, i: nat)
    ensures
        uuid_prefix(id, i).len() <= 2 * i,
    decreases i,
{
    if i > 0 {
        lemma_uuid_prefix_len(id, (i - 1) as nat);
    }
}

proof fn lemma_hex16_prefix_len(h: u64, i: nat)
    ensures
        hex16_prefix(h, i).len() == i,
    decreases i,
{
    if i > 0 {
        lemma_hex16_prefix_len(h, (i - 1) as nat);
    }
}

proof fn lemma_json_str_len(s: Seq<char>)
    ensures
        json_str(s).len() <= 2 + 6 * s.len(),
{
    lemma_escape_len(s);
}

/// A new envelope is valid when its source and message type are not blank
/// and its source, target, message type and payload hold at most 2048
/// characters together (its timestamp being the short text a clock
/// reading formats to): `new` builds envelopes that pass `validate`.
pub proof fn law_fresh_envelope_is_valid(
    source: Seq<char>,
    target: Option<Seq<char>>,
    message_type: Seq<char>,
    payload_type: PayloadType,
    payload: Seq<char>,
    message_id: u128,
    unix_nanos: i128,
    discr_word: Seq<u8>,
)
    requires
        !is_blank(source),
        !is_blank(message_type),
        short_ascii(timestamp_of(unix_nanos), 35),
        source.len() + match target {
            Some(x) => x.len(),
            None => 0,
        } + message_type.len() + payload.len() <= 2048,
    ensures
        validation(
            new_envelope(
                source,
                target,
                message_type,
                payload_type,
                payload,
                message_id,
                unix_nanos,
                discr_word,
            ),
        ) is Ok,
{
    let e = new_envelope(
        source,
        target,
        message_type,
        payload_type,
        payload,
        message_id,
        unix_nanos,
        discr_word,
    );
    let tl: int = match e.target_node_id {
        Some(x) => x.len() as int,
        None => 0,
    };
    assert(tl <= match target {
        Some(x) => x.len() as int,
        None => 0,
    });
    reveal_strlit("mesh.v0");
    reveal_strlit("null");
    lemma_json_str_len(e.protocol_version);
    lemma_uuid_prefix_len(message_id, 32);
    reveal_strlit("{\"protocolVersion\":");
    reveal_strlit(",\"messageId\":");
    assert(e.correlation_id is None);
    assert(envelope_json_head(e).len() <= 200 + 6 * 7);
    lemma_json_str_len(source);
    match e.target_node_id {
        Some(x) => lemma_json_str_len(x),
        None => {},
    }
    lemma_json_str_len(destination_name(e.destination));
    lemma_json_str_len(e.timestamp);
    assert(u8_text(e.ttl).len() <= 3 && u8_text(e.hop_count).len() <= 3);
    assert(destination_name(e.destination).len() <= 9) by {
        reveal_strlit("direct");
        reveal_strlit("broadcast");
    }
    reveal_strlit(",\"sourceNodeId\":");
    reveal_strlit(",\"targetNodeId\":");
    reveal_strlit(",\"destination\":");
    reveal_strlit(",\"timestamp\":");
    reveal_strlit(",\"ttl\":");
    reveal_strlit(",\"hopCount\":");
    assert(envelope_json_route(e).len() <= 200 + 2 + 6 * source.len() + 2 + 6 * tl + 2 + 6 * 9
        + 2 + 6 * 35 + 6);
    lemma_json_str_len(message_type);
    lemma_json_str_len(payload_type_name(payload_type));
    assert(payload_type_name(payload_type).len() <= 5) by {
        reveal_strlit("json");
        reveal_strlit("text");
        reveal_strlit("empty");
    }
    let c = checksum_text(
        fresh_envelope(
            source,
            target,
            message_type,
            payload_type,
            payload,
            message_id,
            timestamp_of(unix_nanos),
        ),
        discr_word,
    );
    lemma_hex16_prefix_len(DefaultHasher::spec_finish(
        checksum_chunks(
            fresh_envelope(
                source,
                target,
                message_type,
                payload_type,
                payload,
                message_id,
                timestamp_of(unix_nanos),
            ),
            discr_word,
        ),
    ), 16);
    lemma_json_str_len(c);
    reveal_strlit(",\"messageType\":");
    reveal_strlit(",\"payloadType\":");
    reveal_strlit(",\"payload\":");
    reveal_strlit(",\"checksum\":");
    reveal_strlit("}");
    assert(envelope_json_body(e).len() <= 200 + 2 + 6 * message_type.len() + 2 + 6 * 5
        + payload.len() + 2 + 6 * 16);
    lemma_utf8_len(envelope_json(e));
    assert(envelope_json(e).len() <= 20000);
}

} // verus!
