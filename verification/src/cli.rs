use crate::chunk::{Chunk, ChunkView};
use crate::chunk_type::{spec_type_chars, spec_valid_type_text, ChunkType};
use crate::crc32::crc32_of;
use crate::png::{spec_find_chunk, spec_png_decode, spec_png_encoding, Png};
use crate::png_error::PngError;
use vstd::prelude::*;
use vstd::string::{StrSliceExecFns, StringSliceAdditionalSpecFns};
use vstd::utf8::{decode_utf8, encode_utf8, valid_utf8};

verus! {

/// A command over an in-memory buffer.  Callers read the source file,
/// hand its bytes to [`PngCommand::exec`], and write any returned bytes
/// back out; the command logic itself touches no file.
#[derive(Debug)]
pub enum PngCommand {
    /// Embed a message under the given chunk type, replacing an existing
    /// chunk of that type.
    Encode { chunk_type: String, message: String },
    /// Extract the message stored under the given chunk type.
    Decode { chunk_type: String },
    /// Remove the first chunk of the given type; absence is an error.
    Remove { chunk_type: String },
    /// List the chunk types present, each with its count.
    Print,
}

/// Chunk-type counts as an ordered list of pairs, keys unique, in order of
/// first appearance.
pub type PngCmdSuccessHash = Vec<(String, usize)>;

/// Possible successful outcomes of a command.
#[derive(Debug)]
pub enum PngCmdSuccess {
    /// Simple all-good.
    Success,
    /// Success with text output.
    SuccessMsg(String),
    /// Success with a byte vector: a rebuilt file, or raw chunk bytes when
    /// the stored message is not text.
    SuccessBytes(Vec<u8>),
    /// Success with a key-count listing.
    SuccessHashMap(PngCmdSuccessHash),
}

/// Possible successful outcomes handed back to the command-line surface.
#[derive(Debug)]
pub enum CliSuccess {
    /// Simple all-good.
    Success,
    /// Success with text output.
    SuccessMsg(String),
    /// Success with a byte vector result.
    SuccessBytes(Vec<u8>),
    /// Success with a key-count listing.
    SuccessHashMap(PngCmdSuccessHash),
}

/// The command-line surface: a parsed command, executed over a buffer that
/// the caller read.
pub struct Cli {
    pub command: PngCommand,
}

/// What a command produces, at the specification level.
pub ghost enum CmdOutcome {
    /// Text output.
    Msg(Seq<char>),
    /// Byte output: a rebuilt file, or one chunk's raw record.
    Bytes(Seq<u8>),
    /// The chunk-type counts.
    Counts(Seq<(Seq<char>, usize)>),
}

/// The model of a count listing: each key as characters with its count.
pub open spec fn spec_counts_view(counts: Seq<(String, usize)>) -> Seq<(Seq<char>, usize)> {
    counts.map_values(|p: (String, usize)| (p.0@, p.1))
}

/// The chunk models of a list of chunks.
pub open spec fn spec_chunk_views(chunks: Seq<Chunk>) -> Seq<ChunkView> {
    chunks.map_values(|c: Chunk| c@)
}

/// The index of the first pair bearing the given key, if any.
pub open spec fn spec_find_key(acc: Seq<(Seq<char>, usize)>, key: Seq<char>) -> Option<int>
    decreases acc.len(),
{
    if acc.len() == 0 {
        None
    } else if acc[0].0 == key {
        Some(0)
    } else {
        match spec_find_key(acc.skip(1), key) {
            None => None,
            Some(i) => Some(i + 1),
        }
    }
}

/// Counting one more occurrence of a key: the first matching entry grows
/// by one, or a fresh entry is appended with count one.
pub open spec fn spec_bump(acc: Seq<(Seq<char>, usize)>, key: Seq<char>) -> Seq<
    (Seq<char>, usize),
> {
    match spec_find_key(acc, key) {
        Some(i) => acc.update(i, (key, (acc[i].1 + 1) as usize)),
        None => acc.push((key, 1usize)),
    }
}

/// The chunk-type counts of a chunk sequence, keys in order of first
/// appearance.
pub open spec fn spec_type_counts(s: Seq<ChunkView>) -> Seq<(Seq<char>, usize)>
    decreases s.len(),
{
    if s.len() == 0 {
        Seq::empty()
    } else {
        spec_bump(spec_type_counts(s.drop_last()), spec_type_chars(s.last().type_code))
    }
}

/// What a found key index means, mirroring [`spec_find_key`].
pub proof fn lemma_find_key_found(acc: Seq<(Seq<char>, usize)>, key: Seq<char>)
    ensures
        (match spec_find_key(acc, key) {
            Some(i) => 0 <= i < acc.len() && acc[i].0 == key && (forall|j: int|
                0 <= j < i ==> acc[j].0 != key),
            None => forall|j: int| 0 <= j < acc.len() ==> acc[j].0 != key,
        }),
    decreases acc.len(),
{
    if acc.len() == 0 {
    } else if acc[0].0 == key {
    } else {
        let a1 = acc.skip(1);
        lemma_find_key_found(a1, key);
        match spec_find_key(a1, key) {
            Some(i1) => {
                assert(acc[i1 + 1] == a1[i1]);
                assert forall|j: int| 0 <= j < i1 + 1 implies acc[j].0 != key by {
                    if j > 0 {
                        assert(acc[j] == a1[j - 1]);
                    }
                }
            },
            None => {
                assert forall|j: int| 0 <= j < acc.len() implies acc[j].0 != key by {
                    if j > 0 {
                        assert(acc[j] == a1[j - 1]);
                    }
                }
            },
        }
    }
}

/// The first match is at `i` when `i` bears the key and nothing before it
/// does.
pub proof fn lemma_find_key_at(acc: Seq<(Seq<char>, usize)>, key: Seq<char>, i: int)
    requires
        0 <= i < acc.len(),
        acc[i].0 == key,
        forall|j: int| 0 <= j < i ==> acc[j].0 != key,
    ensures
        spec_find_key(acc, key) == Some(i),
    decreases acc.len(),
{
    if acc[0].0 == key {
        assert(i == 0);
    } else {
        lemma_find_key_at(acc.skip(1), key, i - 1);
    }
}

/// No pair bears the key, so nothing is found.
pub proof fn lemma_find_key_none(acc: Seq<(Seq<char>, usize)>, key: Seq<char>)
    requires
        forall|j: int| 0 <= j < acc.len() ==> acc[j].0 != key,
    ensures
        spec_find_key(acc, key) is None,
    decreases acc.len(),
{
    if acc.len() > 0 {
        lemma_find_key_none(acc.skip(1), key);
    }
}

/// Every count is at most the number of chunks counted.
pub proof fn lemma_type_counts_bounded(s: Seq<ChunkView>)
    ensures
        forall|k: int|
            0 <= k < spec_type_counts(s).len() ==> #[trigger] spec_type_counts(s)[k].1 <= s.len(),
    decreases s.len(),
{
    if s.len() > 0 {
        let prev = spec_type_counts(s.drop_last());
        let key = spec_type_chars(s.last().type_code);
        lemma_type_counts_bounded(s.drop_last());
        lemma_find_key_found(prev, key);
    }
}

/// What each command yields over a decoded buffer.  Every command decodes
/// the buffer first; a rejected type-code string is the generic error; the
/// remaining steps follow the container operations.
pub open spec fn spec_exec(command: PngCommand, b: Seq<u8>) -> Result<CmdOutcome, PngError> {
    match command {
        PngCommand::Encode { chunk_type, message } => match spec_png_decode(b) {
            Err(e) => Err(e),
            Ok(s) => {
                let tb = encode_utf8(chunk_type@);
                if !spec_valid_type_text(tb) {
                    Err(PngError::GenericError)
                } else {
                    let data = encode_utf8(message@);
                    if data.len() > u32::MAX {
                        Err(PngError::GenericError)
                    } else {
                        let nc = ChunkView {
                            data_length: data.len() as u32,
                            type_code: tb,
                            data: data,
                            crc: crc32_of(tb + data),
                        };
                        let s1 = match spec_find_chunk(s, tb) {
                            Some(i) => s.remove(i),
                            None => s,
                        };
                        let s2 = if s1.len() == 0 {
                            seq![nc]
                        } else {
                            s1.insert(s1.len() - 1, nc)
                        };
                        Ok(CmdOutcome::Bytes(spec_png_encoding(s2)))
                    }
                }
            },
        },
        PngCommand::Decode { chunk_type } => match spec_png_decode(b) {
            Err(e) => Err(e),
            Ok(s) => {
                let tb = encode_utf8(chunk_type@);
                if !spec_valid_type_text(tb) {
                    Err(PngError::GenericError)
                } else {
                    match spec_find_chunk(s, tb) {
                        None => Err(PngError::ChunkNotFound),
                        Some(i) => if valid_utf8(s[i].data) {
                            Ok(CmdOutcome::Msg(decode_utf8(s[i].data)))
                        } else {
                            Ok(CmdOutcome::Bytes(s[i].spec_encode()))
                        },
                    }
                }
            },
        },
        PngCommand::Remove { chunk_type } => match spec_png_decode(b) {
            Err(e) => Err(e),
            Ok(s) => {
                let tb = encode_utf8(chunk_type@);
                if !spec_valid_type_text(tb) {
                    Err(PngError::GenericError)
                } else {
                    match spec_find_chunk(s, tb) {
                        None => Err(PngError::ChunkNotFound),
                        Some(i) => Ok(CmdOutcome::Bytes(spec_png_encoding(s.remove(i)))),
                    }
                }
            },
        },
        PngCommand::Print => match spec_png_decode(b) {
            Err(e) => Err(e),
            Ok(s) => Ok(CmdOutcome::Counts(spec_type_counts(s))),
        },
    }
}

/// Whether an executable success value carries exactly the outcome the
/// specification names.
pub open spec fn spec_success_matches(o: CmdOutcome, s: PngCmdSuccess) -> bool {
    match (o, s) {
        (CmdOutcome::Msg(m), PngCmdSuccess::SuccessMsg(x)) => x@ == m,
        (CmdOutcome::Bytes(bs), PngCmdSuccess::SuccessBytes(v)) => v@ == bs,
        (CmdOutcome::Counts(c), PngCmdSuccess::SuccessHashMap(h)) => spec_counts_view(h@) == c,
        _ => false,
    }
}

/// As [`spec_success_matches`], for the command-line surface's own values.
pub open spec fn spec_cli_success_matches(o: CmdOutcome, s: CliSuccess) -> bool {
    match (o, s) {
        (CmdOutcome::Msg(m), CliSuccess::SuccessMsg(x)) => x@ == m,
        (CmdOutcome::Bytes(bs), CliSuccess::SuccessBytes(v)) => v@ == bs,
        (CmdOutcome::Counts(c), CliSuccess::SuccessHashMap(h)) => spec_counts_view(h@) == c,
        _ => false,
    }
}

/// The first index in the count listing bearing the given key.
fn find_key_index(counts: &Vec<(String, usize)>, key: &String) -> (r: Option<usize>)
    ensures
        (match spec_find_key(spec_counts_view(counts@), key@) {
            Some(i) => r matches Some(u) && u as int == i,
            None => r is None,
        }),
{
    let ghost a = spec_counts_view(counts@);
    let mut j: usize = 0;
    while j < counts.len()
        invariant
            j <= counts@.len(),
            a == spec_counts_view(counts@),
            forall|k: int| 0 <= k < j ==> a[k].0 != key@,
        decreases counts@.len() - j,
    {
        if counts[j].0 == *key {
            proof {
                lemma_find_key_at(a, key@, j as int);
            }
            return Some(j);
        }
        j = j + 1;
    }
    proof {
        lemma_find_key_none(a, key@);
    }
    None
}

/// Counts the chunk types of a list of chunks, keys in order of first
/// appearance.
fn count_types(chunks: &Vec<Chunk>) -> (r: Vec<(String, usize)>)
    ensures
        spec_counts_view(r@) == spec_type_counts(spec_chunk_views(chunks@)),
{
    let ghost s = spec_chunk_views(chunks@);
    let mut counts: Vec<(String, usize)> = Vec::new();
    proof {
        assert(spec_counts_view(counts@) =~= spec_type_counts(s.take(0)));
    }
    let mut i: usize = 0;
    while i < chunks.len()
        invariant
            i <= chunks@.len(),
            s == spec_chunk_views(chunks@),
            spec_counts_view(counts@) == spec_type_counts(s.take(i as int)),
        decreases chunks@.len() - i,
    {
        let key = chunks[i].chunk_type().to_string();
        proof {
            assert(s.take(i as int + 1).drop_last() =~= s.take(i as int));
            assert(s.take(i as int + 1).last() == s[i as int]);
            assert(key@ == spec_type_chars(s[i as int].type_code));
            lemma_find_key_found(spec_counts_view(counts@), key@);
            lemma_type_counts_bounded(s.take(i as int));
        }
        match find_key_index(&counts, &key) {
            Some(j) => {
                proof {
                    assert(spec_counts_view(counts@)[j as int].1 == counts@[j as int].1);
                    assert(spec_type_counts(s.take(i as int))[j as int].1 <= s.take(
                        i as int,
                    ).len());
                }
                let n = counts[j].1;
                let _old_pair = counts.remove(j);
                counts.insert(j, (key, n + 1));
                proof {
                    assert(spec_counts_view(counts@) =~= spec_type_counts(s.take(i as int + 1)));
                }
            },
            None => {
                counts.push((key, 1));
                proof {
                    assert(spec_counts_view(counts@) =~= spec_type_counts(s.take(i as int + 1)));
                }
            },
        }
        i = i + 1;
    }
    proof {
        assert(s.take(s.len() as int) =~= s);
    }
    counts
}

impl PngCommand {
    /// Executes a command over the bytes of a source file.  Encode and
    /// Remove return the rebuilt file as bytes; Decode returns the stored
    /// message, or the chunk's raw record when it is not text; Print
    /// returns the type counts.
    pub fn exec(command: &PngCommand, input: &[u8]) -> (r: Result<PngCmdSuccess, PngError>)
        ensures
            (match spec_exec(*command, input@) {
                Ok(o) => r matches Ok(s) && spec_success_matches(o, s),
                Err(e) => r matches Err(e2) && e2 == e,
            }),
    {
        match command {
            PngCommand::Encode { chunk_type, message } => {
                let mut png = match Png::try_from(input) {
                    Ok(p) => p,
                    Err(e) => return Err(e),
                };
                let ct = match ChunkType::from_str(chunk_type.as_str()) {
                    Ok(t) => t,
                    Err(_) => return Err(PngError::GenericError),
                };
                let data = message.as_str().as_bytes_vec();
                if data.len() > u32::MAX as usize {
                    return Err(PngError::GenericError);
                }
                let new_chunk = Chunk::new(&ct, data);
                let _ = png.remove_chunk(&ct);
                png.append_chunk(new_chunk);
                Ok(PngCmdSuccess::SuccessBytes(png.as_bytes()))
            },
            PngCommand::Decode { chunk_type } => {
                let png = match Png::try_from(input) {
                    Ok(p) => p,
                    Err(e) => return Err(e),
                };
                let ct = match ChunkType::from_str(chunk_type.as_str()) {
                    Ok(t) => t,
                    Err(_) => return Err(PngError::GenericError),
                };
                match png.chunk_by_type(&ct) {
                    None => Err(PngError::ChunkNotFound),
                    Some(chunk) => match chunk.as_string() {
                        Ok(cs) => Ok(PngCmdSuccess::SuccessMsg(cs)),
                        Err(_) => Ok(PngCmdSuccess::SuccessBytes(chunk.as_bytes())),
                    },
                }
            },
            PngCommand::Remove { chunk_type } => {
                let mut png = match Png::try_from(input) {
                    Ok(p) => p,
                    Err(e) => return Err(e),
                };
                let ct = match ChunkType::from_str(chunk_type.as_str()) {
                    Ok(t) => t,
                    Err(_) => return Err(PngError::GenericError),
                };
                match png.remove_chunk(&ct) {
                    Err(e) => Err(e),
                    Ok(_) => Ok(PngCmdSuccess::SuccessBytes(png.as_bytes())),
                }
            },
            PngCommand::Print => {
                let png = match Png::try_from(input) {
                    Ok(p) => p,
                    Err(e) => return Err(e),
                };
                let chunk_list = png.chunks();
                let counts = count_types(chunk_list);
                proof {
                    assert(spec_chunk_views(chunk_list@) =~= png@);
                }
                Ok(PngCmdSuccess::SuccessHashMap(counts))
            },
        }
    }
}

impl Cli {
    /// Executes the held command over the bytes of a source file; see
    /// [`PngCommand::exec`].
    pub fn exec(&self, input: &[u8]) -> (r: Result<CliSuccess, PngError>)
        ensures
            (match spec_exec(self.command, input@) {
                Ok(o) => r matches Ok(s) && spec_cli_success_matches(o, s),
                Err(e) => r matches Err(e2) && e2 == e,
            }),
    {
        match PngCommand::exec(&self.command, input) {
            Err(e) => Err(e),
            Ok(s) => Ok(
                match s {
                    PngCmdSuccess::Success => CliSuccess::Success,
                    PngCmdSuccess::SuccessMsg(m) => CliSuccess::SuccessMsg(m),
                    PngCmdSuccess::SuccessBytes(b) => CliSuccess::SuccessBytes(b),
                    PngCmdSuccess::SuccessHashMap(h) => CliSuccess::SuccessHashMap(h),
                },
            ),
        }
    }
}

} // verus!
