//! Open Trading Compiled (`.otc`) binary format for cached OTL nodes.
//!
//! Layout: `"OTCB"`, a 4-byte endian marker, little-endian major/minor version
//! (u16 each), engine generation (u32), feature flags (u64), 8 reserved zero
//! bytes, then a length-prefixed UTF-8 manifest and a length-prefixed bytecode
//! block (each prefix a little-endian u32).

use crate::layers::string_views;
use crate::signature::ScriptSignature;
use crate::text::{append_chars, chars_of, decimal, decimal_of, string_of};
use vstd::bytes::*;
use vstd::prelude::*;
use vstd::slice::slice_subrange;
use vstd::utf8::*;

verus! {

broadcast use {vstd::utf8::encode_utf8_valid_utf8, vstd::utf8::encode_utf8_decode_utf8};

/// `b"OTCB"`.
pub const OTCB_MAGIC: [u8; 4] = [0x4f, 0x54, 0x43, 0x42];

/// Little-endian platform marker (bytes 4–7 of the file header).
pub const OTCB_ENDIAN_MARKER: [u8; 4] = [0x01, 0x00, 0x00, 0x00];

/// Fixed header (magic + marker) plus the metadata block.
pub const PREFIX_LEN: usize = 32;

/// Application version stamped into every `.otc` asset.
pub const APPLICATION_MAJOR: u16 = 0;

pub const APPLICATION_MINOR: u16 = 1;

/// Feature flag: scalar uniform parameters present in the compile context.
pub const FEATURE_SCALAR_CONSTANTS: u64 = 1;

/// Runtime engine generation for this build.
pub const CURRENT_ENGINE_GENERATION: u32 = 2;

pub open spec fn magic_seq() -> Seq<u8> {
    seq![0x4fu8, 0x54u8, 0x43u8, 0x42u8]
}

pub open spec fn endian_seq() -> Seq<u8> {
    seq![0x01u8, 0x00u8, 0x00u8, 0x00u8]
}

pub open spec fn reserved_seq() -> Seq<u8> {
    Seq::new(8, |i: int| 0u8)
}

/// Manifest payload wrapper.
#[derive(Clone, Debug, PartialEq, Eq)]
pub struct NodeManifest {
    pub manifest_json: String,
}

impl NodeManifest {
    pub fn from_json(manifest_json: String) -> (m: NodeManifest)
        ensures
            m.manifest_json@ == manifest_json@,
    {
        NodeManifest { manifest_json }
    }

    /// The manifest that lists a script's input and output ports.
    pub fn from_script_signature(signature: &ScriptSignature) -> (m: NodeManifest)
        ensures
            m.manifest_json@ == spec_manifest_json(signature@.inputs, signature@.outputs),
    {
        NodeManifest { manifest_json: manifest_json_from_signature(signature) }
    }
}

/// `{"name":"<name>","type":"float"}`: one port of a manifest.
pub open spec fn port_json(name: Seq<char>) -> Seq<char> {
    "{\"name\":\""@ + name + "\",\"type\":\"float\"}"@
}

/// The port entries of `names`, in order, separated by commas.
pub open spec fn ports_json(names: Seq<Seq<char>>) -> Seq<char>
    decreases names.len(),
{
    if names.len() == 0 {
        Seq::empty()
    } else if names.len() == 1 {
        port_json(names[0])
    } else {
        ports_json(names.drop_last()) + ","@ + port_json(names.last())
    }
}

/// `{"inputs":[...],"outputs":[...]}` over the given port names.
pub open spec fn spec_manifest_json(inputs: Seq<Seq<char>>, outputs: Seq<Seq<char>>) -> Seq<char> {
    "{\"inputs\":["@ + ports_json(inputs) + "],\"outputs\":["@ + ports_json(outputs) + "]}"@
}

/// Append the port entries of `names` to `out`.
fn append_ports_json(out: &mut Vec<char>, names: &Vec<String>)
    ensures
        final(out)@ == old(out)@ + ports_json(string_views(names@)),
{
    let ghost start = out@;
    let mut i: usize = 0;
    while i < names.len()
        invariant
            i <= names.len(),
            out@ == start + ports_json(string_views(names@).subrange(0, i as int)),
        decreases names.len() - i,
    {
        let ghost done = string_views(names@).subrange(0, i as int);
        let ghost next = string_views(names@).subrange(0, i + 1);
        assert(next.drop_last() == done);
        assert(next.last() == names@[i as int]@);
        if i > 0 {
            append_chars(out, &chars_of(","));
        }
        append_chars(out, &chars_of("{\"name\":\""));
        append_chars(out, &chars_of(names[i].as_str()));
        append_chars(out, &chars_of("\",\"type\":\"float\"}"));
        i = i + 1;
    }
    assert(string_views(names@).subrange(0, names@.len() as int) == string_views(names@));
}

/// The JSON manifest that lists a signature's inputs and outputs as float ports.
pub fn manifest_json_from_signature(signature: &ScriptSignature) -> (r: String)
    ensures
        r@ == spec_manifest_json(signature@.inputs, signature@.outputs),
{
    let mut out: Vec<char> = chars_of("{\"inputs\":[");
    append_ports_json(&mut out, &signature.inputs);
    append_chars(&mut out, &chars_of("],\"outputs\":["));
    append_ports_json(&mut out, &signature.outputs);
    append_chars(&mut out, &chars_of("]}"));
    string_of(&out)
}

/// Parsed fixed metadata block (bytes 8–31).
#[derive(Clone, Copy, Debug, PartialEq, Eq, Structural)]
pub struct OtcBinaryHeader {
    pub major_version: u16,
    pub minor_version: u16,
    pub engine_generation: u32,
    pub feature_flags: u64,
}

#[allow(inconsistent_fields)]
#[derive(Debug, PartialEq, Eq)]
pub enum OtcError {
    TooShort { len: usize, expected: usize },
    InvalidMagic,
    InvalidEndianMarker,
    ManifestLengthOverflow { len: u32, remaining: usize },
    BytecodeLengthOverflow { len: u32, remaining: usize },
    ManifestNotUtf8,
    EngineGenerationMismatch { asset_generation: u32, local_generation: u32 },
    BytecodeNotUtf8,
    Io { path: String, message: String },
}

/// Spec-level error value: `Io` carries its texts by view.
#[allow(inconsistent_fields)]
pub enum OtcErrorModel {
    TooShort { len: usize, expected: usize },
    InvalidMagic,
    InvalidEndianMarker,
    ManifestLengthOverflow { len: u32, remaining: usize },
    BytecodeLengthOverflow { len: u32, remaining: usize },
    ManifestNotUtf8,
    EngineGenerationMismatch { asset_generation: u32, local_generation: u32 },
    BytecodeNotUtf8,
    Io { path: Seq<char>, message: Seq<char> },
}

impl View for OtcError {
    type V = OtcErrorModel;

    open spec fn view(&self) -> OtcErrorModel {
        match self {
            OtcError::TooShort { len, expected } => OtcErrorModel::TooShort {
                len: *len,
                expected: *expected,
            },
            OtcError::InvalidMagic => OtcErrorModel::InvalidMagic,
            OtcError::InvalidEndianMarker => OtcErrorModel::InvalidEndianMarker,
            OtcError::ManifestLengthOverflow { len, remaining } =>
                OtcErrorModel::ManifestLengthOverflow { len: *len, remaining: *remaining },
            OtcError::BytecodeLengthOverflow { len, remaining } =>
                OtcErrorModel::BytecodeLengthOverflow { len: *len, remaining: *remaining },
            OtcError::ManifestNotUtf8 => OtcErrorModel::ManifestNotUtf8,
            OtcError::EngineGenerationMismatch { asset_generation, local_generation } =>
                OtcErrorModel::EngineGenerationMismatch {
                asset_generation: *asset_generation,
                local_generation: *local_generation,
            },
            OtcError::BytecodeNotUtf8 => OtcErrorModel::BytecodeNotUtf8,
            OtcError::Io { path, message } => OtcErrorModel::Io {
                path: path@,
                message: message@,
            },
        }
    }
}

/// A decoded `.otc` asset.
#[derive(Clone, Debug, PartialEq, Eq)]
pub struct OtcCompiledAsset {
    pub header: OtcBinaryHeader,
    pub manifest_json: String,
    pub bytecode: Vec<u8>,
}

/// Mathematical content of a decoded asset.
pub struct AssetModel {
    pub header: OtcBinaryHeader,
    pub manifest: Seq<char>,
    pub bytecode: Seq<u8>,
}

impl View for OtcCompiledAsset {
    type V = AssetModel;

    open spec fn view(&self) -> AssetModel {
        AssetModel { header: self.header, manifest: self.manifest_json@, bytecode: self.bytecode@ }
    }
}

// ---------------------------------------------------------------------------
// Compatibility
// ---------------------------------------------------------------------------

/// An asset is accepted unless it needs a newer engine generation.
pub open spec fn spec_compatibility(header: OtcBinaryHeader, local: u32) -> Result<(), OtcErrorModel> {
    if header.engine_generation > local {
        Err(
            OtcErrorModel::EngineGenerationMismatch {
                asset_generation: header.engine_generation,
                local_generation: local,
            },
        )
    } else {
        Ok(())
    }
}

/// Validate header fields after the fixed 32-byte prefix has been parsed.
pub fn verify_header_compatibility(header: &OtcBinaryHeader, local_engine_generation: u32) -> (r:
    Result<(), OtcError>)
    ensures
        r matches Ok(_) ==> spec_compatibility(*header, local_engine_generation) is Ok,
        r matches Err(e) ==> spec_compatibility(*header, local_engine_generation) == Err::<
            (),
            OtcErrorModel,
        >(e@),
{
    if header.engine_generation > local_engine_generation {
        return Err(
            OtcError::EngineGenerationMismatch {
                asset_generation: header.engine_generation,
                local_generation: local_engine_generation,
            },
        );
    }
    Ok(())
}

impl OtcBinaryHeader {
    pub fn validate_compatibility(&self, local_engine_generation: u32) -> (r: Result<(), OtcError>)
        ensures
            r matches Ok(_) ==> spec_compatibility(*self, local_engine_generation) is Ok,
            r matches Err(e) ==> spec_compatibility(*self, local_engine_generation) == Err::<
                (),
                OtcErrorModel,
            >(e@),
    {
        verify_header_compatibility(self, local_engine_generation)
    }
}

/// `std::str::from_utf8`: succeeds exactly on well-formed UTF-8 and then
/// yields the decoded characters.
#[verifier::external_body]
fn utf8_str(bytes: &[u8]) -> (r: Option<&str>)
    ensures
        r is Some <==> valid_utf8(bytes@),
        r matches Some(s) ==> s@ == decode_utf8(bytes@),
{
    std::str::from_utf8(bytes).ok()
}

impl OtcCompiledAsset {
    pub fn validate_for_current_engine(&self) -> (r: Result<(), OtcError>)
        ensures
            r matches Ok(_) ==> spec_compatibility(self.header, CURRENT_ENGINE_GENERATION) is Ok,
            r matches Err(e) ==> spec_compatibility(self.header, CURRENT_ENGINE_GENERATION)
                == Err::<(), OtcErrorModel>(e@),
    {
        self.header.validate_compatibility(CURRENT_ENGINE_GENERATION)
    }

    /// Interpret bytecode as UTF-8 OTL source.
    pub fn bytecode_as_script_source(&self) -> (r: Result<&str, OtcError>)
        ensures
            r is Ok <==> valid_utf8(self.bytecode@),
            r matches Ok(s) ==> s@ == decode_utf8(self.bytecode@),
            r matches Err(e) ==> e == OtcError::BytecodeNotUtf8,
    {
        match utf8_str(self.bytecode.as_slice()) {
            Some(s) => Ok(s),
            None => Err(OtcError::BytecodeNotUtf8),
        }
    }
}

// ---------------------------------------------------------------------------
// Encoding
// ---------------------------------------------------------------------------

/// The length prefix written for a payload (saturating at `u32::MAX`).
pub open spec fn prefix_len_value(n: nat) -> u32 {
    if n <= u32::MAX {
        n as u32
    } else {
        u32::MAX
    }
}

pub open spec fn length_prefixed(payload: Seq<u8>) -> Seq<u8> {
    spec_u32_to_le_bytes(prefix_len_value(payload.len())) + payload
}

pub open spec fn header_bytes(h: OtcBinaryHeader) -> Seq<u8> {
    magic_seq() + endian_seq() + spec_u16_to_le_bytes(h.major_version) + spec_u16_to_le_bytes(
        h.minor_version,
    ) + spec_u32_to_le_bytes(h.engine_generation) + spec_u64_to_le_bytes(h.feature_flags)
        + reserved_seq()
}

/// The complete byte stream for a header, manifest bytes and bytecode.
pub open spec fn spec_encode(h: OtcBinaryHeader, manifest: Seq<u8>, bytecode: Seq<u8>) -> Seq<u8> {
    header_bytes(h) + length_prefixed(manifest) + length_prefixed(bytecode)
}

fn append_bytes(out: &mut Vec<u8>, b: &[u8])
    ensures
        final(out)@ == old(out)@ + b@,
{
    let mut i: usize = 0;
    while i < b.len()
        invariant
            i <= b.len(),
            out@ == old(out)@ + b@.subrange(0, i as int),
        decreases b.len() - i,
    {
        out.push(b[i]);
        i = i + 1;
    }
    assert(b@.subrange(0, b@.len() as int) =~= b@);
}

fn append_length_prefixed(out: &mut Vec<u8>, payload: &[u8])
    ensures
        final(out)@ == old(out)@ + length_prefixed(payload@),
{
    let len: u32 = if payload.len() <= 0xffff_ffffusize {
        payload.len() as u32
    } else {
        0xffff_ffffu32
    };
    let lb = u32_to_le_bytes(len);
    append_bytes(out, lb.as_slice());
    append_bytes(out, payload);
    assert(out@ =~= old(out)@ + length_prefixed(payload@));
}

/// Assemble a complete `.otc` byte stream; `scalar_constants` sets
/// [`FEATURE_SCALAR_CONSTANTS`] in the written feature flags.
pub fn serialize_to_bytes(
    scalar_constants: bool,
    manifest: &NodeManifest,
    bytecode: &[u8],
    major_version: u16,
    minor_version: u16,
    engine_generation: u32,
    feature_flags: u64,
) -> (out: Vec<u8>)
    ensures
        out@ == spec_encode(
            OtcBinaryHeader {
                major_version,
                minor_version,
                engine_generation,
                feature_flags: if scalar_constants {
                    feature_flags | FEATURE_SCALAR_CONSTANTS
                } else {
                    feature_flags
                },
            },
            encode_utf8(manifest.manifest_json@),
            bytecode@,
        ),
{
    let mut flags = feature_flags;
    if scalar_constants {
        flags = flags | FEATURE_SCALAR_CONSTANTS;
    }
    let mut out: Vec<u8> = Vec::new();
    let magic: [u8; 4] = OTCB_MAGIC;
    let marker: [u8; 4] = OTCB_ENDIAN_MARKER;
    append_bytes(&mut out, &magic);
    append_bytes(&mut out, &marker);
    let b = u16_to_le_bytes(major_version);
    append_bytes(&mut out, b.as_slice());
    let b = u16_to_le_bytes(minor_version);
    append_bytes(&mut out, b.as_slice());
    let b = u32_to_le_bytes(engine_generation);
    append_bytes(&mut out, b.as_slice());
    let b = u64_to_le_bytes(flags);
    append_bytes(&mut out, b.as_slice());
    let reserved: [u8; 8] = [0u8, 0u8, 0u8, 0u8, 0u8, 0u8, 0u8, 0u8];
    append_bytes(&mut out, &reserved);
    let ghost h = OtcBinaryHeader {
        major_version,
        minor_version,
        engine_generation,
        feature_flags: flags,
    };
    assert(magic@ =~= magic_seq());
    assert(marker@ =~= endian_seq());
    assert(reserved@ =~= reserved_seq());
    assert(out@ =~= header_bytes(h));
    let mb = manifest.manifest_json.as_str().as_bytes();
    append_length_prefixed(&mut out, mb);
    append_length_prefixed(&mut out, bytecode);
    assert(out@ =~= spec_encode(h, encode_utf8(manifest.manifest_json@), bytecode@));
    out
}

/// Fluent builder for `.otc` streams.
pub struct OtcBinaryEncoder {
    major_version: u16,
    minor_version: u16,
    engine_generation: u32,
    feature_flags: u64,
    manifest_json: Option<String>,
    bytecode: Option<Vec<u8>>,
}

impl OtcBinaryEncoder {
    pub closed spec fn spec_major(&self) -> u16 {
        self.major_version
    }

    pub closed spec fn spec_minor(&self) -> u16 {
        self.minor_version
    }

    pub closed spec fn spec_generation(&self) -> u32 {
        self.engine_generation
    }

    pub closed spec fn spec_flags(&self) -> u64 {
        self.feature_flags
    }

    /// Manifest text written by `encode` (empty when none was given).
    pub closed spec fn spec_manifest(&self) -> Seq<char> {
        match self.manifest_json {
            Some(m) => m@,
            None => Seq::empty(),
        }
    }

    /// Bytecode written by `encode` (empty when none was given).
    pub closed spec fn spec_bytecode(&self) -> Seq<u8> {
        match self.bytecode {
            Some(b) => b@,
            None => Seq::empty(),
        }
    }

    /// The header `encode` writes.
    pub open spec fn spec_header(&self) -> OtcBinaryHeader {
        OtcBinaryHeader {
            major_version: self.spec_major(),
            minor_version: self.spec_minor(),
            engine_generation: self.spec_generation(),
            feature_flags: self.spec_flags(),
        }
    }

    pub fn new() -> (e: OtcBinaryEncoder)
        ensures
            e.spec_major() == APPLICATION_MAJOR,
            e.spec_minor() == APPLICATION_MINOR,
            e.spec_generation() == CURRENT_ENGINE_GENERATION,
            e.spec_flags() == 0,
            e.spec_manifest() == Seq::<char>::empty(),
            e.spec_bytecode() == Seq::<u8>::empty(),
    {
        OtcBinaryEncoder {
            major_version: APPLICATION_MAJOR,
            minor_version: APPLICATION_MINOR,
            engine_generation: CURRENT_ENGINE_GENERATION,
            feature_flags: 0,
            manifest_json: None,
            bytecode: None,
        }
    }

    pub fn with_engine_generation(self, generation: u32) -> (e: OtcBinaryEncoder)
        ensures
            e.spec_generation() == generation,
            e.spec_major() == self.spec_major(),
            e.spec_minor() == self.spec_minor(),
            e.spec_flags() == self.spec_flags(),
            e.spec_manifest() == self.spec_manifest(),
            e.spec_bytecode() == self.spec_bytecode(),
    {
        let mut e = self;
        e.engine_generation = generation;
        e
    }

    pub fn with_manifest(self, manifest_json: String) -> (e: OtcBinaryEncoder)
        ensures
            e.spec_manifest() == manifest_json@,
            e.spec_generation() == self.spec_generation(),
            e.spec_major() == self.spec_major(),
            e.spec_minor() == self.spec_minor(),
            e.spec_flags() == self.spec_flags(),
            e.spec_bytecode() == self.spec_bytecode(),
    {
        let mut e = self;
        e.manifest_json = Some(manifest_json);
        e
    }

    pub fn with_bytecode(self, bytecode: &[u8]) -> (e: OtcBinaryEncoder)
        ensures
            e.spec_bytecode() == bytecode@,
            e.spec_manifest() == self.spec_manifest(),
            e.spec_generation() == self.spec_generation(),
            e.spec_major() == self.spec_major(),
            e.spec_minor() == self.spec_minor(),
            e.spec_flags() == self.spec_flags(),
    {
        let mut e = self;
        let mut v: Vec<u8> = Vec::new();
        append_bytes(&mut v, bytecode);
        e.bytecode = Some(v);
        e
    }

    /// Produce the byte stream (always `Ok`).
    pub fn encode(self) -> (r: Result<Vec<u8>, OtcError>)
        ensures
            r matches Ok(bytes) && bytes@ == spec_encode(
                self.spec_header(),
                encode_utf8(self.spec_manifest()),
                self.spec_bytecode(),
            ),
    {
        let manifest_json = match self.manifest_json {
            Some(m) => m,
            None => String::new(),
        };
        let bytecode = match self.bytecode {
            Some(b) => b,
            None => Vec::new(),
        };
        let manifest = NodeManifest::from_json(manifest_json);
        let out = serialize_to_bytes(
            false,
            &manifest,
            bytecode.as_slice(),
            self.major_version,
            self.minor_version,
            self.engine_generation,
            self.feature_flags,
        );
        Ok(out)
    }
}

// ---------------------------------------------------------------------------
// Decoding
// ---------------------------------------------------------------------------

/// Which length-prefixed block is being read (selects the overflow error).
pub enum LengthBlock {
    Manifest,
    Bytecode,
}

/// Read one length-prefixed block: `(payload, rest)` or the error the reader reports.
pub open spec fn spec_read_block(stream: Seq<u8>, manifest: bool) -> Result<
    (Seq<u8>, Seq<u8>),
    OtcErrorModel,
> {
    if stream.len() < 4 {
        Err(OtcErrorModel::TooShort { len: stream.len() as usize, expected: (PREFIX_LEN + 4) as usize })
    } else {
        let len = spec_u32_from_le_bytes(stream.subrange(0, 4));
        let end = 4 + len;
        if end > stream.len() {
            if manifest {
                Err(
                    OtcErrorModel::ManifestLengthOverflow {
                        len,
                        remaining: (stream.len() - 4) as usize,
                    },
                )
            } else {
                Err(
                    OtcErrorModel::BytecodeLengthOverflow {
                        len,
                        remaining: (stream.len() - 4) as usize,
                    },
                )
            }
        } else {
            Ok((stream.subrange(4, end), stream.subrange(end, stream.len() as int)))
        }
    }
}

pub open spec fn spec_header_of(bytes: Seq<u8>) -> OtcBinaryHeader {
    OtcBinaryHeader {
        major_version: spec_u16_from_le_bytes(bytes.subrange(8, 10)),
        minor_version: spec_u16_from_le_bytes(bytes.subrange(10, 12)),
        engine_generation: spec_u32_from_le_bytes(bytes.subrange(12, 16)),
        feature_flags: spec_u64_from_le_bytes(bytes.subrange(16, 24)),
    }
}

/// What decoding a byte stream yields.
pub open spec fn spec_decode(bytes: Seq<u8>) -> Result<AssetModel, OtcErrorModel> {
    if bytes.len() < PREFIX_LEN {
        Err(OtcErrorModel::TooShort { len: bytes.len() as usize, expected: PREFIX_LEN })
    } else if bytes.subrange(0, 4) != magic_seq() {
        Err(OtcErrorModel::InvalidMagic)
    } else if bytes.subrange(4, 8) != endian_seq() {
        Err(OtcErrorModel::InvalidEndianMarker)
    } else {
        match spec_read_block(bytes.subrange(PREFIX_LEN as int, bytes.len() as int), true) {
            Err(e) => Err(e),
            Ok((m, rest)) => if !valid_utf8(m) {
                Err(OtcErrorModel::ManifestNotUtf8)
            } else {
                match spec_read_block(rest, false) {
                    Err(e) => Err(e),
                    Ok((code, _)) => Ok(
                        AssetModel {
                            header: spec_header_of(bytes),
                            manifest: decode_utf8(m),
                            bytecode: code,
                        },
                    ),
                }
            },
        }
    }
}

fn read_length_prefixed_bytes<'a>(stream: &'a [u8], block: LengthBlock) -> (r: Result<
    (&'a [u8], &'a [u8]),
    OtcError,
>)
    ensures
        r matches Ok((p, rest)) ==> spec_read_block(stream@, block is Manifest) == Ok::<
            (Seq<u8>, Seq<u8>),
            OtcErrorModel,
        >((p@, rest@)),
        r matches Err(e) ==> spec_read_block(stream@, block is Manifest) == Err::<
            (Seq<u8>, Seq<u8>),
            OtcErrorModel,
        >(e@),
{
    if stream.len() < 4 {
        return Err(OtcError::TooShort { len: stream.len(), expected: PREFIX_LEN + 4 });
    }
    let len = u32_from_le_bytes(slice_subrange(stream, 0, 4));
    let remaining = stream.len() - 4;
    if len as usize > remaining || (len as u64) > (remaining as u64) {
        let e = match block {
            LengthBlock::Manifest => OtcError::ManifestLengthOverflow { len, remaining },
            LengthBlock::Bytecode => OtcError::BytecodeLengthOverflow { len, remaining },
        };
        return Err(e);
    }
    let end = 4 + len as usize;
    let payload = slice_subrange(stream, 4, end);
    let rest = slice_subrange(stream, end, stream.len());
    Ok((payload, rest))
}

pub fn deserialize_from_bytes(bytes: &[u8]) -> (r: Result<OtcCompiledAsset, OtcError>)
    ensures
        r matches Ok(a) ==> spec_decode(bytes@) == Ok::<AssetModel, OtcErrorModel>(a@),
        r matches Err(e) ==> spec_decode(bytes@) == Err::<AssetModel, OtcErrorModel>(e@),
{
    if bytes.len() < PREFIX_LEN {
        return Err(OtcError::TooShort { len: bytes.len(), expected: PREFIX_LEN });
    }
    if !(bytes[0] == 0x4f && bytes[1] == 0x54 && bytes[2] == 0x43 && bytes[3] == 0x42) {
        assert(bytes@.subrange(0, 4) != magic_seq()) by {
            if bytes@.subrange(0, 4) == magic_seq() {
                assert(bytes@.subrange(0, 4)[0] == bytes@[0]);
                assert(bytes@.subrange(0, 4)[1] == bytes@[1]);
                assert(bytes@.subrange(0, 4)[2] == bytes@[2]);
                assert(bytes@.subrange(0, 4)[3] == bytes@[3]);
            }
        }
        return Err(OtcError::InvalidMagic);
    }
    assert(bytes@.subrange(0, 4) =~= magic_seq());
    if !(bytes[4] == 1 && bytes[5] == 0 && bytes[6] == 0 && bytes[7] == 0) {
        assert(bytes@.subrange(4, 8) != endian_seq()) by {
            if bytes@.subrange(4, 8) == endian_seq() {
                assert(bytes@.subrange(4, 8)[0] == bytes@[4]);
                assert(bytes@.subrange(4, 8)[1] == bytes@[5]);
                assert(bytes@.subrange(4, 8)[2] == bytes@[6]);
                assert(bytes@.subrange(4, 8)[3] == bytes@[7]);
            }
        }
        return Err(OtcError::InvalidEndianMarker);
    }
    assert(bytes@.subrange(4, 8) =~= endian_seq());
    let header = OtcBinaryHeader {
        major_version: u16_from_le_bytes(slice_subrange(bytes, 8, 10)),
        minor_version: u16_from_le_bytes(slice_subrange(bytes, 10, 12)),
        engine_generation: u32_from_le_bytes(slice_subrange(bytes, 12, 16)),
        feature_flags: u64_from_le_bytes(slice_subrange(bytes, 16, 24)),
    };
    let stream = slice_subrange(bytes, PREFIX_LEN, bytes.len());
    let (m, rest) = match read_length_prefixed_bytes(stream, LengthBlock::Manifest) {
        Ok(p) => p,
        Err(e) => return Err(e),
    };
    let text = match utf8_str(m) {
        Some(t) => t,
        None => return Err(OtcError::ManifestNotUtf8),
    };
    let manifest_json = text.to_owned();
    let (code, _tail) = match read_length_prefixed_bytes(rest, LengthBlock::Bytecode) {
        Ok(p) => p,
        Err(e) => return Err(e),
    };
    let mut bytecode: Vec<u8> = Vec::new();
    append_bytes(&mut bytecode, code);
    Ok(OtcCompiledAsset { header, manifest_json, bytecode })
}

/// Stateless decoder entry point.
pub struct OtcBinaryDecoder;

impl OtcBinaryDecoder {
    pub fn decode(bytes: &[u8]) -> (r: Result<OtcCompiledAsset, OtcError>)
        ensures
            r matches Ok(a) ==> spec_decode(bytes@) == Ok::<AssetModel, OtcErrorModel>(a@),
            r matches Err(e) ==> spec_decode(bytes@) == Err::<AssetModel, OtcErrorModel>(e@),
    {
        deserialize_from_bytes(bytes)
    }
}

// ---------------------------------------------------------------------------
// Round trip
// ---------------------------------------------------------------------------

/// Decoding what was encoded gives back the header, the manifest text and the
/// bytecode, whenever both payloads fit a 32-bit length prefix.
pub proof fn lemma_decode_encode_roundtrip(h: OtcBinaryHeader, manifest: Seq<char>, bytecode: Seq<u8>)
    requires
        encode_utf8(manifest).len() <= u32::MAX,
        bytecode.len() <= u32::MAX,
    ensures
        spec_decode(spec_encode(h, encode_utf8(manifest), bytecode)) == Ok::<
            AssetModel,
            OtcErrorModel,
        >(AssetModel { header: h, manifest, bytecode }),
{
    lemma_auto_spec_u16_to_from_le_bytes();
    lemma_auto_spec_u32_to_from_le_bytes();
    lemma_auto_spec_u64_to_from_le_bytes();
    let m = encode_utf8(manifest);
    let bytes = spec_encode(h, m, bytecode);
    let hb = header_bytes(h);
    assert(hb.len() == 32);
    assert(bytes.subrange(0, 4) =~= magic_seq());
    assert(bytes.subrange(4, 8) =~= endian_seq());
    assert(bytes.subrange(8, 10) =~= spec_u16_to_le_bytes(h.major_version));
    assert(bytes.subrange(10, 12) =~= spec_u16_to_le_bytes(h.minor_version));
    assert(bytes.subrange(12, 16) =~= spec_u32_to_le_bytes(h.engine_generation));
    assert(bytes.subrange(16, 24) =~= spec_u64_to_le_bytes(h.feature_flags));
    assert(spec_header_of(bytes) == h);
    let stream = bytes.subrange(32, bytes.len() as int);
    assert(stream =~= length_prefixed(m) + length_prefixed(bytecode));
    assert(prefix_len_value(m.len()) == m.len());
    assert(stream.subrange(0, 4) =~= spec_u32_to_le_bytes(m.len() as u32));
    let rest = stream.subrange(4 + m.len() as int, stream.len() as int);
    assert(stream.subrange(4, 4 + m.len() as int) =~= m);
    assert(rest =~= length_prefixed(bytecode));
    assert(rest.subrange(0, 4) =~= spec_u32_to_le_bytes(bytecode.len() as u32));
    assert(rest.subrange(4, 4 + bytecode.len() as int) =~= bytecode);
}

/// Decoding the output of [`OtcBinaryEncoder::encode`] recovers the builder's
/// header, manifest and bytecode.
pub proof fn lemma_encoder_roundtrip(e: OtcBinaryEncoder)
    requires
        encode_utf8(e.spec_manifest()).len() <= u32::MAX,
        e.spec_bytecode().len() <= u32::MAX,
    ensures
        spec_decode(spec_encode(e.spec_header(), encode_utf8(e.spec_manifest()), e.spec_bytecode()))
            == Ok::<AssetModel, OtcErrorModel>(
            AssetModel {
                header: e.spec_header(),
                manifest: e.spec_manifest(),
                bytecode: e.spec_bytecode(),
            },
        ),
{
    lemma_decode_encode_roundtrip(e.spec_header(), e.spec_manifest(), e.spec_bytecode());
}

/// A decoded asset passes the engine check exactly when its generation is not
/// newer than the engine's.
pub proof fn lemma_compatibility_iff(h: OtcBinaryHeader, local: u32)
    ensures
        spec_compatibility(h, local) is Ok <==> h.engine_generation <= local,
{
}



/// Decoding followed by the current-engine check, as a `.otc` file is loaded.
pub open spec fn spec_load_for_current_engine(bytes: Seq<u8>) -> Result<AssetModel, OtcErrorModel> {
    match spec_decode(bytes) {
        Err(e) => Err(e),
        Ok(a) => match spec_compatibility(a.header, CURRENT_ENGINE_GENERATION) {
            Err(e) => Err(e),
            Ok(_) => Ok(a),
        },
    }
}

/// Decode the bytes of a `.otc` file and reject it unless the current engine
/// generation can run it.
pub fn load_compiled_asset_from_bytes(bytes: &[u8]) -> (r: Result<OtcCompiledAsset, OtcError>)
    ensures
        r matches Ok(a) ==> spec_load_for_current_engine(bytes@) == Ok::<
            AssetModel,
            OtcErrorModel,
        >(a@),
        r matches Err(e) ==> spec_load_for_current_engine(bytes@) == Err::<
            AssetModel,
            OtcErrorModel,
        >(e@),
{
    let asset = match deserialize_from_bytes(bytes) {
        Ok(a) => a,
        Err(e) => return Err(e),
    };
    match asset.validate_for_current_engine() {
        Ok(()) => Ok(asset),
        Err(e) => Err(e),
    }
}

// ---------------------------------------------------------------------------
// Error text
// ---------------------------------------------------------------------------

/// The text each error is shown with.
pub open spec fn otc_error_message(e: OtcErrorModel) -> Seq<char> {
    match e {
        OtcErrorModel::TooShort { len, expected } => "OTC asset is too short ("@ + decimal(
            len as nat,
        ) + " bytes, expected at least "@ + decimal(expected as nat) + ")"@,
        OtcErrorModel::InvalidMagic => "invalid OTCB magic signature"@,
        OtcErrorModel::InvalidEndianMarker => "unsupported endianness marker in OTCB header"@,
        OtcErrorModel::ManifestLengthOverflow { len, remaining } => "manifest length "@ + decimal(
            len as nat,
        ) + " exceeds remaining stream ("@ + decimal(remaining as nat) + " bytes)"@,
        OtcErrorModel::BytecodeLengthOverflow { len, remaining } => "bytecode length "@ + decimal(
            len as nat,
        ) + " exceeds remaining stream ("@ + decimal(remaining as nat) + " bytes)"@,
        OtcErrorModel::ManifestNotUtf8 => "manifest block is not valid UTF-8 JSON"@,
        OtcErrorModel::EngineGenerationMismatch { asset_generation, local_generation } =>
            "Asset compatibility mismatch. The selected node requires MarketLab Engine Generation "@
            + decimal(asset_generation as nat)
            + ", but your installation is running Generation "@ + decimal(local_generation as nat)
            + ". Please update your software."@,
        OtcErrorModel::BytecodeNotUtf8 => "compiled bytecode is not valid UTF-8 OTL source"@,
        OtcErrorModel::Io { path, message } => "failed to read compiled asset at "@ + path + ": "@
            + message,
    }
}

fn join3(a: &str, n: usize, b: &str, m: usize, c: &str) -> (r: String)
    ensures
        r@ == a@ + decimal(n as nat) + b@ + decimal(m as nat) + c@,
{
    let mut out = chars_of(a);
    append_chars(&mut out, &decimal_of(n));
    append_chars(&mut out, &chars_of(b));
    append_chars(&mut out, &decimal_of(m));
    append_chars(&mut out, &chars_of(c));
    string_of(&out)
}

impl OtcError {
    /// The error's display text.
    pub fn message(&self) -> (r: String)
        ensures
            r@ == otc_error_message(self@),
    {
        match self {
            OtcError::TooShort { len, expected } => join3(
                "OTC asset is too short (",
                *len,
                " bytes, expected at least ",
                *expected,
                ")",
            ),
            OtcError::InvalidMagic => "invalid OTCB magic signature".to_owned(),
            OtcError::InvalidEndianMarker => "unsupported endianness marker in OTCB header".to_owned(),
            OtcError::ManifestLengthOverflow { len, remaining } => join3(
                "manifest length ",
                *len as usize,
                " exceeds remaining stream (",
                *remaining,
                " bytes)",
            ),
            OtcError::BytecodeLengthOverflow { len, remaining } => join3(
                "bytecode length ",
                *len as usize,
                " exceeds remaining stream (",
                *remaining,
                " bytes)",
            ),
            OtcError::ManifestNotUtf8 => "manifest block is not valid UTF-8 JSON".to_owned(),
            OtcError::EngineGenerationMismatch { asset_generation, local_generation } => join3(
                "Asset compatibility mismatch. The selected node requires MarketLab Engine Generation ",
                *asset_generation as usize,
                ", but your installation is running Generation ",
                *local_generation as usize,
                ". Please update your software.",
            ),
            OtcError::BytecodeNotUtf8 => "compiled bytecode is not valid UTF-8 OTL source".to_owned(),
            OtcError::Io { path, message } => {
                let mut out = chars_of("failed to read compiled asset at ");
                append_chars(&mut out, &chars_of(path.as_str()));
                append_chars(&mut out, &chars_of(": "));
                append_chars(&mut out, &chars_of(message.as_str()));
                string_of(&out)
            },
        }
    }
}

} // verus!
