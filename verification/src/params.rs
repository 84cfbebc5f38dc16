//! Parameters of the filters, as they are written on the command line.
//!
//! A filter is described by a string of the form `fs=…:fc=…:file=…`:
//! key-value pairs separated by colons, a key and its value separated by the
//! first equals sign of the pair.  `fs` is the output sample rate, `fc` the
//! output center frequency, and `file`, which is optional, names a file that
//! receives the output.  Where a key is given more than once the last one
//! counts, and keys other than these three are ignored.

use vstd::prelude::*;
use vstd::string::StrSliceExecFns;

verus! {

/// Default FFT size.
pub const DEFAULT_FFT_SIZE: usize = 16384;

/// Default number of FFTs in each input buffer.
pub const DEFAULT_FFTS_PER_BUF: usize = 8;

/// Default number of FFTs averaged for spectrum.
pub const DEFAULT_AVERAGES: u32 = 2000;

/// Where the output of a filter or of the spectrum goes besides the message
/// bus.
#[derive(Clone, Debug)]
pub struct OutputParams {
    /// Name of a file that receives every record, if any.
    pub filename: Option<String>,
}

/// Filter design and configuration parameters, as text.
#[derive(Clone, Debug)]
pub struct FilterParams {
    /// Output sample rate, as it was written.
    pub fs_out: String,
    /// Output center frequency, as it was written.
    pub fc_out: String,
    pub output: OutputParams,
}

/// Why a string does not describe a filter.
#[derive(Clone, Copy, Debug, PartialEq, Eq, Structural)]
pub enum FilterParamError {
    /// A part between two colons holds no equals sign.
    MissingValue,
    /// No `fs` is given.
    MissingSampleRate,
    /// No `fc` is given.
    MissingCenterFreq,
}

/// Position of the first `c` in `s`, or the length of `s` where it holds none.
pub open spec fn find(s: Seq<char>, c: char) -> int
    decreases s.len(),
{
    if s.len() == 0 || s[0] == c {
        0
    } else {
        1 + find(s.drop_first(), c)
    }
}

/// The parts of `s` between its colons.  A string without a colon is one
/// part, also where it is empty.
pub open spec fn pieces(s: Seq<char>) -> Seq<Seq<char>>
    decreases s.len(),
{
    let at = find(s, ':');
    if 0 <= at < s.len() {
        seq![s.subrange(0, at)] + pieces(s.subrange(at + 1, s.len() as int))
    } else {
        seq![s]
    }
}

/// The key and the value of a part: what stands before its first equals sign,
/// and what stands behind it.
pub open spec fn pair_of(piece: Seq<char>) -> Option<(Seq<char>, Seq<char>)> {
    let at = find(piece, '=');
    if 0 <= at < piece.len() {
        Some((piece.subrange(0, at), piece.subrange(at + 1, piece.len() as int)))
    } else {
        None
    }
}

/// Whether every part is a key and a value.
pub open spec fn well_paired(parts: Seq<Seq<char>>) -> bool {
    forall|k: int| 0 <= k < parts.len() ==> (#[trigger] pair_of(parts[k])) is Some
}

/// The value of the last part with the key `key`.
pub open spec fn lookup(parts: Seq<Seq<char>>, key: Seq<char>) -> Option<Seq<char>>
    decreases parts.len(),
{
    if parts.len() == 0 {
        None
    } else {
        match pair_of(parts.last()) {
            Some((k, v)) if k == key => Some(v),
            _ => lookup(parts.drop_last(), key),
        }
    }
}

/// The key of the output sample rate.
pub open spec fn key_fs() -> Seq<char> {
    seq!['f', 's']
}

/// The key of the output center frequency.
pub open spec fn key_fc() -> Seq<char> {
    seq!['f', 'c']
}

/// The key of the output file.
pub open spec fn key_file() -> Seq<char> {
    seq!['f', 'i', 'l', 'e']
}

/// What a string says of a filter.
pub open spec fn parsed(s: Seq<char>) -> Result<
    (Seq<char>, Seq<char>, Option<Seq<char>>),
    FilterParamError,
> {
    let parts = pieces(s);
    if !well_paired(parts) {
        Err(FilterParamError::MissingValue)
    } else if lookup(parts, key_fs()) is None {
        Err(FilterParamError::MissingSampleRate)
    } else if lookup(parts, key_fc()) is None {
        Err(FilterParamError::MissingCenterFreq)
    } else {
        Ok((lookup(parts, key_fs())->Some_0, lookup(parts, key_fc())->Some_0, lookup(parts, key_file())))
    }
}

/// Whether parameters hold what a string says of a filter.
pub open spec fn holds(params: FilterParams, said: (Seq<char>, Seq<char>, Option<Seq<char>>)) -> bool {
    &&& params.fs_out@ == said.0
    &&& params.fc_out@ == said.1
    &&& match (params.output.filename, said.2) {
        (Some(name), Some(text)) => name@ == text,
        (None, None) => true,
        _ => false,
    }
}

/// Finding a character where the search begins, or behind a character that is
/// another one.
proof fn lemma_find_step(s: Seq<char>, from: int, to: int, c: char)
    requires
        0 <= from <= to <= s.len(),
        forall|k: int| from <= k < to ==> s[k] != c,
    ensures
        find(s.subrange(from, s.len() as int), c) == (to - from) + find(
            s.subrange(to, s.len() as int),
            c,
        ),
    decreases to - from,
{
    if from < to {
        let tail = s.subrange(from, s.len() as int);
        assert(tail[0] == s[from]);
        assert(tail.drop_first() =~= s.subrange(from + 1, s.len() as int));
        lemma_find_step(s, from + 1, to, c);
    }
}

/// Position of the first `c` in `s` from `from` on and before `end`, or `end`.
fn find_char(s: &str, from: usize, end: usize, c: char) -> (at: usize)
    requires
        from <= end <= s@.len(),
    ensures
        from <= at <= end,
        at - from == find(s@.subrange(from as int, end as int), c),
        forall|k: int| from <= k < at ==> s@[k] != c,
        at < end ==> s@[at as int] == c,
{
    let ghost part = s@.subrange(from as int, end as int);
    let mut at = from;
    while at < end
        invariant
            from <= at <= end <= s@.len(),
            part == s@.subrange(from as int, end as int),
            forall|k: int| from <= k < at ==> s@[k] != c,
        decreases end - at,
    {
        if s.get_char(at) == c {
            proof {
                assert forall|k: int| 0 <= k < at - from implies part[k] != c by {
                    assert(part[k] == s@[from + k]);
                }
                lemma_find_step(part, 0, at - from, c);
                assert(part.subrange(0, part.len() as int) =~= part);
                assert(part.subrange(at - from, part.len() as int)[0] == c);
            }
            return at;
        }
        at += 1;
    }
    proof {
        assert forall|k: int| 0 <= k < part.len() implies part[k] != c by {
            assert(part[k] == s@[from + k]);
        }
        lemma_find_step(part, 0, part.len() as int, c);
        assert(part.subrange(0, part.len() as int) =~= part);
        assert(part.subrange(part.len() as int, part.len() as int).len() == 0);
    }
    at
}

/// The text of a value that may be missing.
pub open spec fn text_of(value: Option<String>) -> Option<Seq<char>> {
    match value {
        Some(text) => Some(text@),
        None => None,
    }
}

/// The parts of a string whose first colon, if any, stands at `end`.
proof fn lemma_pieces_unfold(s: Seq<char>, start: int, end: int)
    requires
        0 <= start <= end <= s.len(),
        end - start == find(s.subrange(start, s.len() as int), ':'),
    ensures
        end < s.len() ==> pieces(s.subrange(start, s.len() as int)) == seq![s.subrange(start, end)]
            + pieces(s.subrange(end + 1, s.len() as int)),
        end == s.len() ==> pieces(s.subrange(start, s.len() as int)) == seq![
            s.subrange(start, end),
        ],
{
    let tail = s.subrange(start, s.len() as int);
    assert(tail.subrange(0, end - start) =~= s.subrange(start, end));
    if end < s.len() {
        assert(tail.subrange(end - start + 1, tail.len() as int) =~= s.subrange(
            end + 1,
            s.len() as int,
        ));
    }
}

/// A value found in one more part.
proof fn lemma_lookup_push(parts: Seq<Seq<char>>, piece: Seq<char>, key: Seq<char>)
    ensures
        lookup(parts.push(piece), key) == match pair_of(piece) {
            Some((k, v)) if k == key => Some(v),
            _ => lookup(parts, key),
        },
{
    assert(parts.push(piece).drop_last() =~= parts);
    assert(parts.push(piece).last() == piece);
}

/// Reads the parameters of a filter from a string of the form
/// `fs=…:fc=…:file=…`.
///
/// The numbers are handed on as they are written.  A part without an equals
/// sign is an error wherever it stands; after that a missing `fs` counts, and
/// then a missing `fc`.
pub fn parse_filter_params(s: &str) -> (r: Result<FilterParams, FilterParamError>)
    ensures
        match (r, parsed(s@)) {
            (Ok(params), Ok(said)) => holds(params, said),
            (Err(e), Err(f)) => e == f,
            _ => false,
        },
{
    let n = s.unicode_len();
    let mut fs: Option<String> = None;
    let mut fc: Option<String> = None;
    let mut file: Option<String> = None;
    let mut start: usize = 0;
    let ghost mut done: Seq<Seq<char>> = Seq::empty();
    assert(s@.subrange(0, n as int) =~= s@);

    loop
        invariant_except_break
            start <= n,
            pieces(s@) == done + pieces(s@.subrange(start as int, n as int)),
        invariant
            n == s@.len(),
            well_paired(done),
            text_of(fs) == lookup(done, key_fs()),
            text_of(fc) == lookup(done, key_fc()),
            text_of(file) == lookup(done, key_file()),
        ensures
            pieces(s@) == done,
        decreases n - start,
    {
        let end = find_char(s, start, n, ':');
        let eq = find_char(s, start, end, '=');
        let ghost piece = s@.subrange(start as int, end as int);
        proof {
            lemma_pieces_unfold(s@, start as int, end as int);
            lemma_lookup_push(done, piece, key_fs());
            lemma_lookup_push(done, piece, key_fc());
            lemma_lookup_push(done, piece, key_file());
        }
        if eq == end {
            proof {
                let parts = pieces(s@);
                assert(parts[done.len() as int] == piece);
                assert(pair_of(parts[done.len() as int]) is None);
            }
            return Err(FilterParamError::MissingValue);
        }
        let ghost key = piece.subrange(0, eq - start);
        let ghost value = piece.subrange(eq - start + 1, piece.len() as int);
        assert(pair_of(piece) == Some((key, value)));
        assert(value =~= s@.subrange(eq + 1, end as int));
        assert(key.len() == eq - start);
        assert(forall|k: int| 0 <= k < key.len() ==> key[k] == s@[start + k]);

        let key_len = eq - start;
        if key_len == 2 && s.get_char(start) == 'f' && s.get_char(start + 1) == 's' {
            assert(key =~= key_fs());
            fs = Some(s.substring_char(eq + 1, end).to_owned());
        } else if key_len == 2 && s.get_char(start) == 'f' && s.get_char(start + 1) == 'c' {
            assert(key =~= key_fc());
            fc = Some(s.substring_char(eq + 1, end).to_owned());
        } else if key_len == 4 && s.get_char(start) == 'f' && s.get_char(start + 1) == 'i'
            && s.get_char(start + 2) == 'l' && s.get_char(start + 3) == 'e' {
            assert(key =~= key_file());
            file = Some(s.substring_char(eq + 1, end).to_owned());
        } else {
            assert(key != key_fs()) by {
                if key.len() == 2 {
                    assert(key_fs()[0] == 'f' && key_fs()[1] == 's');
                }
            }
            assert(key != key_fc()) by {
                if key.len() == 2 {
                    assert(key_fc()[0] == 'f' && key_fc()[1] == 'c');
                }
            }
            assert(key != key_file()) by {
                if key.len() == 4 {
                    assert(key_file()[0] == 'f' && key_file()[1] == 'i' && key_file()[2] == 'l'
                        && key_file()[3] == 'e');
                }
            }
        }
        proof {
            assert(well_paired(done.push(piece))) by {
                assert forall|k: int| 0 <= k < done.push(piece).len() implies (#[trigger] pair_of(
                    done.push(piece)[k],
                )) is Some by {
                    if k < done.len() {
                        assert(done.push(piece)[k] == done[k]);
                    }
                }
            }
            if end < n {
                assert(done + (seq![piece] + pieces(s@.subrange(end + 1, n as int)))
                    =~= done.push(piece) + pieces(s@.subrange(end + 1, n as int)));
            } else {
                assert(done + seq![piece] =~= done.push(piece));
            }
            done = done.push(piece);
        }
        if end == n {
            break;
        }
        start = end + 1;
    }

    match (fs, fc) {
        (None, _) => Err(FilterParamError::MissingSampleRate),
        (Some(_), None) => Err(FilterParamError::MissingCenterFreq),
        (Some(fs_out), Some(fc_out)) => Ok(
            FilterParams { fs_out, fc_out, output: OutputParams { filename: file } },
        ),
    }
}

} // verus!
