//! The byte exchange between the host and a wasm plugin, the codes of a
//! format result, and the plugin schema version a module declares.
use vstd::prelude::*;
use crate::text::{str_eq, starts_with, chars_of};
use crate::canonicalized_path_buf::suffix_from;
use crate::environment::{parse_usize, spec_parse_usize};
use crate::configuration::{ConfigKeyValue, ValueView, key_map_view};

verus! {

/// The buffer through which the host and a plugin pass bytes, filled chunk
/// by chunk from the current index.
#[derive(Debug)]
pub struct SharedBytes {
    pub data: Vec<u8>,
    pub index: usize,
}

impl SharedBytes {
    /// A buffer of `size` zero bytes, to be filled from the start.
    pub fn with_size(size: usize) -> (r: SharedBytes)
        ensures
            r.data@ == Seq::new(size as nat, |i: int| 0u8),
            r.index == 0,
    {
        let mut data: Vec<u8> = Vec::new();
        let mut i: usize = 0;
        while i < size
            invariant
                i <= size,
                data@ == Seq::new(i as nat, |k: int| 0u8),
            decreases size - i,
        {
            data.push(0u8);
            assert(data@ =~= Seq::new((i + 1) as nat, |k: int| 0u8));
            i = i + 1;
        }
        SharedBytes::from_bytes(data)
    }

    /// A buffer holding `data`, to be read from the start.
    pub fn from_bytes(data: Vec<u8>) -> (r: SharedBytes)
        ensures
            r.data@ == data@,
            r.index == 0,
    {
        SharedBytes { data, index: 0 }
    }

    /// Copies a chunk that the plugin wrote into the buffer at the current
    /// index and moves the index past it.
    pub fn write_chunk(&mut self, chunk: &Vec<u8>)
        requires
            old(self).index + chunk@.len() <= old(self).data@.len(),
        ensures
            final(self).data@ == old(self).data@.subrange(0, old(self).index as int) + chunk@ + old(self).data@.subrange(
                old(self).index + chunk@.len(),
                old(self).data@.len() as int,
            ),
            final(self).index == old(self).index + chunk@.len(),
    {
        let start = self.index;
        let total = self.data.len();
        let ghost before = self.data@;
        let mut i: usize = 0;
        while i < chunk.len()
            invariant
                total == before.len(),
                start == old(self).index,
                before == old(self).data@,
                start + chunk@.len() <= before.len(),
                self.data@.len() == before.len(),
                i <= chunk@.len(),
                self.index == start,
                self.data@ == before.subrange(0, start as int) + chunk@.subrange(0, i as int) + before.subrange(
                    start + i,
                    before.len() as int,
                ),
            decreases chunk@.len() - i,
        {
            self.data.set(start + i, chunk[i]);
            assert(self.data@ =~= before.subrange(0, start as int) + chunk@.subrange(0, i + 1) + before.subrange(
                start + i + 1,
                before.len() as int,
            ));
            i = i + 1;
        }
        assert(chunk@.subrange(0, i as int) =~= chunk@);
        self.index = start + chunk.len();
    }

    /// The bytes of the buffer from `offset`, `length` of them, which the
    /// plugin reads.
    pub fn chunk(&self, offset: usize, length: usize) -> (r: Vec<u8>)
        requires
            offset + length <= self.data@.len(),
        ensures
            r@ == self.data@.subrange(offset as int, offset + length),
    {
        let mut r: Vec<u8> = Vec::new();
        let total = self.data.len();
        let mut i: usize = 0;
        while i < length
            invariant
                total == self.data@.len(),
                offset + length <= self.data@.len(),
                i <= length,
                r@ == self.data@.subrange(offset as int, offset + i),
            decreases length - i,
        {
            r.push(self.data[offset + i]);
            assert(r@ =~= self.data@.subrange(offset as int, offset + i + 1));
            i = i + 1;
        }
        r
    }

    /// Takes the bytes out of the buffer, leaving it empty with its index at
    /// the start.
    pub fn take(&mut self) -> (r: Vec<u8>)
        ensures
            r@ == old(self).data@,
            final(self).data@.len() == 0,
            final(self).index == 0,
    {
        let mut data: Vec<u8> = Vec::new();
        std::mem::swap(&mut data, &mut self.data);
        self.index = 0;
        data
    }
}

/// Bytes written chunk after chunk into a buffer sized for them come back
/// whole, in order: here two chunks into a buffer of their total size.
pub proof fn law_shared_bytes_fill(size: nat, first: Seq<u8>, second: Seq<u8>, data: Seq<u8>)
    requires
        first.len() + second.len() == size,
        data.len() == size,
    ensures
        ({
            let after_first = data.subrange(0, 0) + first + data.subrange(first.len() as int, size as int);
            let after_second = after_first.subrange(0, first.len() as int) + second + after_first.subrange(
                (first.len() + second.len()) as int,
                size as int,
            );
            after_second == first + second
        }),
{
    let after_first = data.subrange(0, 0) + first + data.subrange(first.len() as int, size as int);
    assert(after_first.subrange(0, first.len() as int) =~= first);
    assert(after_first.subrange((first.len() + second.len()) as int, size as int) =~= Seq::<u8>::empty());
    assert(first + second + Seq::<u8>::empty() =~= first + second);
}

/// What a plugin's format call reports: no change, a change, or an error.
#[derive(Debug, Clone, Copy, PartialEq, Eq, Structural)]
pub enum WasmFormatResult {
    NoChange,
    Change,
    Error,
}

/// The number by which a format result crosses the wasm boundary.
pub open spec fn result_code(r: WasmFormatResult) -> u8 {
    match r {
        WasmFormatResult::NoChange => 0,
        WasmFormatResult::Change => 1,
        WasmFormatResult::Error => 2,
    }
}

impl WasmFormatResult {
    /// The result a plugin reports by its number; only 0, 1 and 2 are
    /// results.
    pub fn from_code(code: u8) -> (r: WasmFormatResult)
        requires
            code <= 2,
        ensures
            result_code(r) == code,
    {
        if code == 0 {
            WasmFormatResult::NoChange
        } else if code == 1 {
            WasmFormatResult::Change
        } else {
            WasmFormatResult::Error
        }
    }

    /// The number by which the result crosses the wasm boundary.
    pub fn code(&self) -> (r: u8)
        ensures
            r == result_code(*self),
    {
        match self {
            WasmFormatResult::NoChange => 0,
            WasmFormatResult::Change => 1,
            WasmFormatResult::Error => 2,
        }
    }
}

/// A format result survives its trip across the wasm boundary: the number
/// it is sent as gives it back.
pub proof fn law_format_result_code_roundtrip(r: WasmFormatResult, s: WasmFormatResult)
    ensures
        result_code(r) <= 2,
        result_code(r) == result_code(s) ==> r == s,
{
}

/// The plugin schema versions this host runs.
#[derive(Debug, Clone, Copy, PartialEq, Eq, Structural)]
pub enum PluginSchemaVersion {
    V3,
    V4,
}

/// `str::parse::<u32>`: a `usize` that fits in 32 bits.
pub open spec fn spec_parse_u32(s: Seq<char>) -> Option<u32> {
    match spec_parse_usize(s) {
        Some(v) if v <= u32::MAX => Some(v as u32),
        _ => None,
    }
}

/// The prefix of the export that names a module's schema version.
pub open spec fn version_export_prefix() -> Seq<char> {
    "dprint_plugin_version_"@
}

/// The schema version the exports declare: the first export that is
/// `get_plugin_schema_version` (version 3, which such modules have declared
/// for years) or `dprint_plugin_version_` followed by a number.
pub open spec fn declared_version(exports: Seq<Seq<char>>) -> Option<u32>
    decreases exports.len(),
{
    if exports.len() == 0 {
        None
    } else if exports[0] == "get_plugin_schema_version"@ {
        Some(3)
    } else if crate::text::has_prefix(exports[0], version_export_prefix()) && spec_parse_u32(
        exports[0].skip(version_export_prefix().len() as int),
    ) is Some {
        spec_parse_u32(exports[0].skip(version_export_prefix().len() as int))
    } else {
        declared_version(exports.drop_first())
    }
}

/// Why a module's schema version is not one this host runs.
#[derive(Debug, Clone, Copy, PartialEq, Eq, Structural)]
pub enum SchemaVersionError {
    /// No export declares a version: probably not a dprint plugin.
    Undeclared,
    /// A version newer than this host knows: the CLI needs an upgrade.
    TooNew { version: u32 },
    /// A version older than this host runs: the plugin needs an update.
    TooOld { version: u32 },
}

/// The schema version of a module from the names of its exports (see
/// [`declared_version`]): 3 and 4 are run, a newer one asks for a newer CLI,
/// an older one for a newer plugin.
pub fn schema_version_from_exports(exports: &Vec<String>) -> (r: Result<PluginSchemaVersion, SchemaVersionError>)
    ensures
        match declared_version(exports.deep_view()) {
            None => r == Err::<PluginSchemaVersion, SchemaVersionError>(SchemaVersionError::Undeclared),
            Some(v) => if v == 3 {
                r == Ok::<PluginSchemaVersion, SchemaVersionError>(PluginSchemaVersion::V3)
            } else if v == 4 {
                r == Ok::<PluginSchemaVersion, SchemaVersionError>(PluginSchemaVersion::V4)
            } else if v > 4 {
                r == Err::<PluginSchemaVersion, SchemaVersionError>(SchemaVersionError::TooNew { version: v })
            } else {
                r == Err::<PluginSchemaVersion, SchemaVersionError>(SchemaVersionError::TooOld { version: v })
            },
        },
{
    let ghost ev = exports.deep_view();
    let mut found: Option<u32> = None;
    let mut i: usize = 0;
    assert(ev.skip(0) =~= ev);
    while i < exports.len() && found.is_none()
        invariant
            i <= ev.len(),
            ev == exports.deep_view(),
            found is None ==> declared_version(ev) == declared_version(ev.skip(i as int)),
            found matches Some(v) ==> declared_version(ev) == Some(v),
        decreases ev.len() - i,
    {
        assert(ev.skip(i as int)[0] == exports@[i as int]@);
        assert(ev.skip(i as int).drop_first() =~= ev.skip(i + 1));
        let name = exports[i].as_str();
        if str_eq(name, "get_plugin_schema_version") {
            found = Some(3);
        } else if starts_with(name, "dprint_plugin_version_") {
            proof {
                reveal_strlit("dprint_plugin_version_");
            }
            let rest = suffix_from(name, 22);
            assert(rest@ =~= name@.skip(version_export_prefix().len() as int));
            match parse_usize(rest.as_str()) {
                Some(v) => {
                    if v <= 0xffff_ffff {
                        found = Some(v as u32);
                    }
                },
                None => {},
            }
        }
        i = i + 1;
    }
    if found.is_none() {
        assert(ev.skip(i as int).len() == 0);
    }
    match found {
        None => Err(SchemaVersionError::Undeclared),
        Some(v) => if v == 3 {
            Ok(PluginSchemaVersion::V3)
        } else if v == 4 {
            Ok(PluginSchemaVersion::V4)
        } else if v > 4 {
            Err(SchemaVersionError::TooNew { version: v })
        } else {
            Err(SchemaVersionError::TooOld { version: v })
        },
    }
}

/// What the host keeps for a plugin between its request to format another
/// file and its requests for the outcome: the formatted text of the last
/// change and the text of the last error.
#[derive(Debug)]
pub struct HostFormatStore {
    pub formatted_text: Vec<u8>,
    pub error_text: String,
}

impl HostFormatStore {
    /// A store with nothing in it.
    pub fn new() -> (r: HostFormatStore)
        ensures
            r.formatted_text@ == Seq::<u8>::empty(),
            r.error_text@ == Seq::<char>::empty(),
    {
        HostFormatStore { formatted_text: Vec::new(), error_text: String::new() }
    }

    /// Records the reply to a plugin's request to format another file and
    /// gives the result the plugin is told: a change keeps the formatted
    /// text, an error keeps its text, and no change, or no reply at all
    /// (`None`: the request could not be sent or its answer not received),
    /// keeps nothing.
    pub fn record_reply(&mut self, reply: Option<Result<Option<Vec<u8>>, String>>) -> (r: WasmFormatResult)
        ensures
            match reply {
                Some(Ok(Some(t))) => r == WasmFormatResult::Change && final(self).formatted_text@ == t@
                    && final(self).error_text@ == old(self).error_text@,
                Some(Err(e)) => r == WasmFormatResult::Error && final(self).error_text@ == e@
                    && final(self).formatted_text@ == old(self).formatted_text@,
                _ => r == WasmFormatResult::NoChange && final(self).formatted_text@ == old(self).formatted_text@
                    && final(self).error_text@ == old(self).error_text@,
            },
    {
        match reply {
            Some(Ok(Some(t))) => {
                self.formatted_text = t;
                WasmFormatResult::Change
            },
            Some(Err(e)) => {
                self.error_text = e;
                WasmFormatResult::Error
            },
            _ => WasmFormatResult::NoChange,
        }
    }

    /// Hands out the formatted text, leaving none behind.
    pub fn take_formatted_text(&mut self) -> (r: Vec<u8>)
        ensures
            r@ == old(self).formatted_text@,
            final(self).formatted_text@ == Seq::<u8>::empty(),
            final(self).error_text@ == old(self).error_text@,
    {
        let mut out: Vec<u8> = Vec::new();
        std::mem::swap(&mut out, &mut self.formatted_text);
        out
    }

    /// Hands out the error text, leaving none behind.
    pub fn take_error_text(&mut self) -> (r: String)
        ensures
            r@ == old(self).error_text@,
            final(self).error_text@ == Seq::<char>::empty(),
            final(self).formatted_text@ == old(self).formatted_text@,
    {
        let mut out = String::new();
        std::mem::swap(&mut out, &mut self.error_text);
        out
    }
}

/// What a plugin's request to format another file carries to the host: the
/// file's path, the file's bytes (the text the plugin put in the shared
/// buffer) and the override configuration.
#[derive(Debug)]
pub struct HostFormatRequestParts {
    pub file_path: String,
    pub file_bytes: Vec<u8>,
    pub override_config: Vec<(String, ConfigKeyValue)>,
}

/// Builds a plugin's request to format another file from what the plugin
/// handed over before it: the stored file path, the bytes in the shared
/// buffer and the stored override configuration (none stored is an empty
/// one). All three are cleared, so the next request starts afresh. A request
/// without a stored file path is the plugin's mistake, which the host does
/// not accept.
pub fn take_format_request(
    file_path: &mut Option<String>,
    shared: &mut SharedBytes,
    override_config: &mut Option<Vec<(String, ConfigKeyValue)>>,
) -> (r: HostFormatRequestParts)
    requires
        *old(file_path) is Some,
    ensures
        r.file_path@ == (*old(file_path))->0@,
        r.file_bytes@ == old(shared).data@,
        key_map_view(r.override_config@) == match *old(override_config) {
            Some(c) => key_map_view(c@),
            None => Seq::empty(),
        },
        *final(file_path) is None,
        *final(override_config) is None,
        final(shared).data@.len() == 0,
        final(shared).index == 0,
{
    let config = match override_config.take() {
        Some(c) => c,
        None => {
            let empty: Vec<(String, ConfigKeyValue)> = Vec::new();
            assert(key_map_view(empty@) =~= Seq::<(Seq<char>, ValueView)>::empty());
            empty
        },
    };
    let path = match file_path.take() {
        Some(p) => p,
        None => String::new(),
    };
    let bytes = shared.take();
    HostFormatRequestParts { file_path: path, file_bytes: bytes, override_config: config }
}

/// The part of a file a plugin asks the host to format: the whole file is
/// no range; anything else is the byte range from `range_start` to
/// `range_end`.
pub fn host_format_range(range_start: u32, range_end: u32, file_bytes_len: u32) -> (r: Option<(usize, usize)>)
    ensures
        (range_start == 0 && range_end == file_bytes_len) <==> r is None,
        r matches Some((a, b)) ==> a == range_start && b == range_end,
{
    if range_start == 0 && range_end == file_bytes_len {
        None
    } else {
        Some((range_start as usize, range_end as usize))
    }
}


/// The pieces, as (start, length), in which bytes from `index` up to `len`
/// cross a memory buffer of `buffer_size` bytes: one after another, each as
/// long as the buffer or as what is left.
pub open spec fn chunks_from(index: nat, len: nat, buffer_size: nat) -> Seq<(nat, nat)>
    decreases len - index,
{
    if index >= len || buffer_size == 0 {
        Seq::empty()
    } else {
        let count = if len - index < buffer_size {
            (len - index) as nat
        } else {
            buffer_size
        };
        seq![(index, count)] + chunks_from(index + count, len, buffer_size)
    }
}

/// The pieces in which `len` bytes cross a memory buffer of `buffer_size`
/// bytes between the host and a plugin (see [`chunks_from`]); a buffer of
/// no bytes would never move any, so it is left out.
pub fn transfer_chunks(len: usize, buffer_size: usize) -> (r: Vec<(usize, usize)>)
    requires
        buffer_size > 0,
    ensures
        r@.map_values(|c: (usize, usize)| (c.0 as nat, c.1 as nat)) == chunks_from(0, len as nat, buffer_size as nat),
{
    let mut r: Vec<(usize, usize)> = Vec::new();
    let mut index: usize = 0;
    assert(r@.map_values(|c: (usize, usize)| (c.0 as nat, c.1 as nat)) =~= Seq::<(nat, nat)>::empty());
    while index < len
        invariant
            index <= len,
            buffer_size > 0,
            r@.map_values(|c: (usize, usize)| (c.0 as nat, c.1 as nat)) + chunks_from(
                index as nat,
                len as nat,
                buffer_size as nat,
            ) == chunks_from(0, len as nat, buffer_size as nat),
        decreases len - index,
    {
        let count = if len - index < buffer_size {
            len - index
        } else {
            buffer_size
        };
        let ghost before = r@.map_values(|c: (usize, usize)| (c.0 as nat, c.1 as nat));
        r.push((index, count));
        assert(r@.map_values(|c: (usize, usize)| (c.0 as nat, c.1 as nat)) =~= before.push((index as nat, count as nat)));
        assert(before + chunks_from(index as nat, len as nat, buffer_size as nat) =~= before.push(
            (index as nat, count as nat),
        ) + chunks_from((index + count) as nat, len as nat, buffer_size as nat));
        index = index + count;
    }
    assert(chunks_from(index as nat, len as nat, buffer_size as nat) =~= Seq::<(nat, nat)>::empty());
    assert(r@.map_values(|c: (usize, usize)| (c.0 as nat, c.1 as nat)) + Seq::<(nat, nat)>::empty() =~= r@.map_values(
        |c: (usize, usize)| (c.0 as nat, c.1 as nat),
    ));
    r
}

/// The bytes that a list of pieces carries, one piece after another.
pub open spec fn gathered(bytes: Seq<u8>, chunks: Seq<(nat, nat)>) -> Seq<u8>
    decreases chunks.len(),
{
    if chunks.len() == 0 {
        Seq::empty()
    } else {
        bytes.subrange(chunks[0].0 as int, (chunks[0].0 + chunks[0].1) as int) + gathered(bytes, chunks.drop_first())
    }
}

proof fn lemma_chunks_gather(bytes: Seq<u8>, index: nat, buffer_size: nat)
    requires
        index <= bytes.len(),
        buffer_size > 0,
    ensures
        gathered(bytes, chunks_from(index, bytes.len(), buffer_size)) == bytes.subrange(index as int, bytes.len() as int),
    decreases bytes.len() - index,
{
    let len = bytes.len();
    if index >= len {
        assert(bytes.subrange(index as int, len as int) =~= Seq::<u8>::empty());
    } else {
        let count = if len - index < buffer_size {
            (len - index) as nat
        } else {
            buffer_size
        };
        lemma_chunks_gather(bytes, index + count, buffer_size);
        let cs = chunks_from(index, len, buffer_size);
        assert(cs.drop_first() =~= chunks_from(index + count, len, buffer_size));
        assert(bytes.subrange(index as int, (index + count) as int) + bytes.subrange((index + count) as int, len as int) =~= bytes.subrange(
            index as int,
            len as int,
        ));
    }
}

/// Bytes sent or received piece by piece through a plugin's memory buffer
/// arrive whole and in order: the pieces carry exactly the bytes.
pub proof fn law_transfer_chunks_carry_bytes(bytes: Seq<u8>, buffer_size: nat)
    requires
        buffer_size > 0,
    ensures
        gathered(bytes, chunks_from(0, bytes.len(), buffer_size)) == bytes,
        forall|i: int|
            0 <= i < chunks_from(0, bytes.len(), buffer_size).len() ==> #[trigger] chunks_from(
                0,
                bytes.len(),
                buffer_size,
            )[i].1 <= buffer_size,
{
    lemma_chunks_gather(bytes, 0, buffer_size);
    assert(bytes.subrange(0, bytes.len() as int) =~= bytes);
    lemma_chunks_bounded(0, bytes.len(), buffer_size);
}

proof fn lemma_chunks_bounded(index: nat, len: nat, buffer_size: nat)
    ensures
        forall|i: int|
            0 <= i < chunks_from(index, len, buffer_size).len() ==> #[trigger] chunks_from(index, len, buffer_size)[i].1
                <= buffer_size,
    decreases len - index,
{
    if index < len && buffer_size > 0 {
        let count = if len - index < buffer_size {
            (len - index) as nat
        } else {
            buffer_size
        };
        lemma_chunks_bounded(index + count, len, buffer_size);
        let cs = chunks_from(index, len, buffer_size);
        assert forall|i: int| 0 <= i < cs.len() implies #[trigger] cs[i].1 <= buffer_size by {
            if i > 0 {
                assert(cs[i] == chunks_from(index + count, len, buffer_size)[i - 1]);
            }
        }
    }
}

/// The unsigned 32-bit little-endian number at `at` in a plugin's memory.
pub open spec fn le_u32(mem: Seq<u8>, at: int) -> int {
    mem[at] + mem[at + 1] * 256 + mem[at + 2] * 65536 + mem[at + 3] * 16777216
}

/// Where the `i`th buffer descriptor of a `fd_write` call starts: descriptors
/// are 8 bytes each, with addresses computed modulo 2^32.
pub open spec fn iovec_offset(iovs_ptr: u32, i: int) -> int {
    (iovs_ptr + i * 8) % 0x1_0000_0000
}

/// The buffers the first `n` descriptors of a `fd_write` call write, in
/// order, and the count of their bytes modulo 2^32; no count when a
/// descriptor or its buffer lies outside the memory or the file is neither
/// standard output nor standard error, which stops the call.
pub open spec fn fd_write_from(mem: Seq<u8>, fd: u32, iovs_ptr: u32, n: nat) -> (Seq<Seq<u8>>, Option<int>)
    decreases n,
{
    if n == 0 {
        (Seq::empty(), Some(0))
    } else {
        let (logged, total) = fd_write_from(mem, fd, iovs_ptr, (n - 1) as nat);
        match total {
            None => (logged, None),
            Some(t) => {
                let off = iovec_offset(iovs_ptr, n - 1);
                if off + 8 > mem.len() {
                    (logged, None)
                } else {
                    let addr = le_u32(mem, off);
                    let len = le_u32(mem, off + 4);
                    if addr + len > mem.len() || (fd != 1 && fd != 2) {
                        (logged, None)
                    } else {
                        (logged.push(mem.subrange(addr, addr + len)), Some((t + len) % 0x1_0000_0000))
                    }
                }
            },
        }
    }
}

/// What the host's `fd_write` does for a plugin.
#[derive(Debug)]
pub struct FdWriteOutcome {
    /// The buffers written to the log, in order.
    pub logged: Vec<Vec<u8>>,
    /// `0` on success, else `1`.
    pub errno: u32,
    /// The count of bytes written, stored little-endian at `nwritten_ptr` on
    /// success.
    pub nwritten: u32,
}

/// Runs a plugin's `fd_write` call against its memory: each of the
/// `iovs_len` descriptors at `iovs_ptr` (an address and a length, both
/// little-endian) names a buffer that goes to the log, for standard output
/// and standard error only. The call fails with `1` at the first descriptor
/// or buffer outside the memory or on any other file, the buffers before it
/// already written, and when the count cannot be stored at `nwritten_ptr`.
pub fn fd_write(mem: &[u8], fd: u32, iovs_ptr: u32, iovs_len: u32, nwritten_ptr: u32) -> (r: FdWriteOutcome)
    ensures
        r.logged.deep_view() == fd_write_from(mem@, fd, iovs_ptr, iovs_len as nat).0,
        r.errno == match fd_write_from(mem@, fd, iovs_ptr, iovs_len as nat).1 {
            Some(t) => if nwritten_ptr + 4 > mem@.len() {
                1u32
            } else {
                0u32
            },
            None => 1u32,
        },
        r.nwritten == match fd_write_from(mem@, fd, iovs_ptr, iovs_len as nat).1 {
            Some(t) => t,
            None => 0,
        },
{
    let mut logged: Vec<Vec<u8>> = Vec::new();
    let mut total: u32 = 0;
    let mut i: u32 = 0;
    while i < iovs_len
        invariant
            i <= iovs_len,
            fd_write_from(mem@, fd, iovs_ptr, i as nat) == (logged.deep_view(), Some(total as int)),
        decreases iovs_len - i,
    {
        let off: u64 = (iovs_ptr as u64 + (i as u64) * 8) % 0x1_0000_0000;
        assert(off == iovec_offset(iovs_ptr, i as int));
        if off + 8 > mem.len() as u64 {
            proof {
                lemma_fd_write_stops(mem@, fd, iovs_ptr, (i + 1) as nat, iovs_len as nat);
            }
            return FdWriteOutcome { logged, errno: 1, nwritten: 0 };
        }
        let o = off as usize;
        let addr: u64 = mem[o] as u64 + mem[o + 1] as u64 * 256 + mem[o + 2] as u64 * 65536 + mem[o + 3] as u64 * 16777216;
        let len: u64 = mem[o + 4] as u64 + mem[o + 5] as u64 * 256 + mem[o + 6] as u64 * 65536 + mem[o + 7] as u64
            * 16777216;
        assert(addr == le_u32(mem@, off as int));
        assert(len == le_u32(mem@, off + 4));
        if addr + len > mem.len() as u64 || (fd != 1 && fd != 2) {
            proof {
                lemma_fd_write_stops(mem@, fd, iovs_ptr, (i + 1) as nat, iovs_len as nat);
            }
            return FdWriteOutcome { logged, errno: 1, nwritten: 0 };
        }
        let a = addr as usize;
        let l = len as usize;
        let mut buf: Vec<u8> = Vec::new();
        let mut k: usize = 0;
        while k < l
            invariant
                k <= l,
                a + l <= mem@.len(),
                mem@.len() == mem.len(),
                buf@ == mem@.subrange(a as int, a + k),
            decreases l - k,
        {
            buf.push(mem[a + k]);
            assert(buf@ =~= mem@.subrange(a as int, a + k + 1));
            k = k + 1;
        }
        let ghost before = logged.deep_view();
        assert(buf.deep_view() =~= buf@);
        logged.push(buf);
        assert(logged.deep_view() =~= before.push(mem@.subrange(a as int, a + l)));
        total = ((total as u64 + len) % 0x1_0000_0000) as u32;
        i = i + 1;
    }
    if nwritten_ptr as u64 + 4 > mem.len() as u64 {
        FdWriteOutcome { logged, errno: 1, nwritten: total }
    } else {
        FdWriteOutcome { logged, errno: 0, nwritten: total }
    }
}

/// Once a `fd_write` call has stopped, later descriptors change nothing.
proof fn lemma_fd_write_stops(mem: Seq<u8>, fd: u32, iovs_ptr: u32, stopped: nat, n: nat)
    requires
        stopped <= n,
        fd_write_from(mem, fd, iovs_ptr, stopped).1 is None,
    ensures
        fd_write_from(mem, fd, iovs_ptr, n) == fd_write_from(mem, fd, iovs_ptr, stopped),
    decreases n - stopped,
{
    if n > stopped {
        lemma_fd_write_stops(mem, fd, iovs_ptr, stopped, (n - 1) as nat);
    }
}

/// A step of asking a wasm plugin to format a file.
#[derive(Debug, Clone, Copy, PartialEq, Eq, Structural)]
pub enum WasmFormatStep {
    /// Write the plugin and global configuration, as JSON, into the shared
    /// buffer.
    SendConfig,
    /// Call `register_config` with the configuration's id.
    RegisterConfig,
    /// Write the override configuration, as JSON, into the shared buffer.
    SendOverrideConfig,
    /// Call `set_override_config`.
    SetOverrideConfig,
    /// Write the file's path into the shared buffer.
    SendFilePath,
    /// Call `set_file_path`.
    SetFilePath,
    /// Write the file's bytes into the shared buffer.
    SendFileBytes,
    /// Call `format_range` with the configuration's id and the range.
    FormatRange,
    /// Call `format` with the configuration's id.
    Format,
}

/// The steps of a format request, in order: a configuration the instance
/// was not given yet is registered first; an override configuration, when
/// there is one, comes before the file's path and bytes; the file is then
/// formatted, within the range when one was asked for.
pub open spec fn spec_format_request_steps(needs_registration: bool, has_override: bool, has_range: bool) -> Seq<
    WasmFormatStep,
> {
    (if needs_registration {
        seq![WasmFormatStep::SendConfig, WasmFormatStep::RegisterConfig]
    } else {
        Seq::empty()
    }) + (if has_override {
        seq![WasmFormatStep::SendOverrideConfig, WasmFormatStep::SetOverrideConfig]
    } else {
        Seq::empty()
    }) + seq![
        WasmFormatStep::SendFilePath,
        WasmFormatStep::SetFilePath,
        WasmFormatStep::SendFileBytes,
        if has_range {
            WasmFormatStep::FormatRange
        } else {
            WasmFormatStep::Format
        },
    ]
}

/// The steps of a format request (see [`spec_format_request_steps`]).
pub fn format_request_steps(needs_registration: bool, has_override: bool, has_range: bool) -> (r: Vec<WasmFormatStep>)
    ensures
        r@ == spec_format_request_steps(needs_registration, has_override, has_range),
{
    let mut steps: Vec<WasmFormatStep> = Vec::new();
    if needs_registration {
        steps.push(WasmFormatStep::SendConfig);
        steps.push(WasmFormatStep::RegisterConfig);
    }
    if has_override {
        steps.push(WasmFormatStep::SendOverrideConfig);
        steps.push(WasmFormatStep::SetOverrideConfig);
    }
    steps.push(WasmFormatStep::SendFilePath);
    steps.push(WasmFormatStep::SetFilePath);
    steps.push(WasmFormatStep::SendFileBytes);
    if has_range {
        steps.push(WasmFormatStep::FormatRange);
    } else {
        steps.push(WasmFormatStep::Format);
    }
    assert(steps@ =~= spec_format_request_steps(needs_registration, has_override, has_range));
    steps
}

} // verus!
