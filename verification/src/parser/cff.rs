//! The container demultiplexer: one combined stream holds all companion
//! files, delimited by inline section-header lines of the form
//! `--- file type: TYPE [ENCODING] [: SIZE] ---`. Lines are routed to the
//! configuration, data and annotation buffers of the current section.
use vstd::prelude::*;

use crate::parser::dat::formats::{data_format_of, DataFormat};
use crate::parser::{token_error, ParseError};
use crate::text::{
    all_digits, is_ws, lower_seq, parse_uint, spec_split, spec_trim, split_bytes, subrange_vec,
    to_lower, trim_bytes, NEWLINE,
};
use crate::{file_type_of, FileType};

verus! {

/// A dash.
pub const DASH: u8 = 45;

/// A line, folded to lower case and trimmed.
pub open spec fn norm_line(l: Seq<u8>) -> Seq<u8> {
    spec_trim(lower_seq(l))
}

/// The normalised line opens and closes with three dashes.
pub open spec fn has_dashes(l: Seq<u8>) -> bool {
    let u = norm_line(l);
    &&& u.len() >= 6
    &&& u.subrange(0, 3) == seq![DASH, DASH, DASH]
    &&& u.subrange(u.len() - 3, u.len() as int) == seq![DASH, DASH, DASH]
}

/// What stands between the dashes, trimmed.
pub open spec fn header_inner(l: Seq<u8>) -> Seq<u8> {
    let u = norm_line(l);
    spec_trim(u.subrange(3, u.len() - 3))
}

/// The literal `file type:` marker.
pub open spec fn file_type_marker() -> Seq<u8> {
    seq![102u8, 105u8, 108u8, 101u8, 32u8, 116u8, 121u8, 112u8, 101u8, 58u8]
}

/// Everything after the marker, trimmed.
pub open spec fn header_tail(l: Seq<u8>) -> Seq<u8> {
    spec_trim(header_inner(l).skip(10))
}

/// The tail split at the optional size separator.
pub open spec fn header_colon_parts(l: Seq<u8>) -> Seq<Seq<u8>> {
    spec_split(header_tail(l), 58)
}

/// Index of the first ASCII whitespace byte at or after `i`, or -1.
pub open spec fn find_ws(s: Seq<u8>, i: int) -> int
    decreases s.len() - i,
{
    if i < 0 || i >= s.len() {
        -1
    } else if is_ws(s[i]) {
        i
    } else {
        find_ws(s, i + 1)
    }
}

pub proof fn lemma_find_ws(s: Seq<u8>, i: int)
    requires
        0 <= i <= s.len(),
    ensures
        find_ws(s, i) == -1 ==> forall|j: int| i <= j < s.len() ==> !is_ws(#[trigger] s[j]),
        find_ws(s, i) != -1 ==> i <= find_ws(s, i) < s.len() && is_ws(s[find_ws(s, i)]) && forall|
            j: int,
        | i <= j < find_ws(s, i) ==> !is_ws(#[trigger] s[j]),
    decreases s.len() - i,
{
    if i < s.len() && !is_ws(s[i]) {
        lemma_find_ws(s, i + 1);
    }
}

/// The file-type word of a header: the left part up to the first space.
pub open spec fn header_word1(l: Seq<u8>) -> Seq<u8> {
    let s = spec_trim(header_colon_parts(l)[0]);
    let k = find_ws(s, 0);
    if k < 0 {
        s
    } else {
        s.take(k)
    }
}

/// The optional encoding word of a header: what follows the first space.
pub open spec fn header_word2(l: Seq<u8>) -> Seq<u8> {
    let s = spec_trim(header_colon_parts(l)[0]);
    let k = find_ws(s, 0);
    if k < 0 {
        Seq::empty()
    } else {
        spec_trim(s.skip(k))
    }
}

pub open spec fn is_alpha_word(s: Seq<u8>) -> bool {
    s.len() >= 1 && forall|i: int| 0 <= i < s.len() ==> 97 <= #[trigger] s[i] <= 122
}

/// A section-header line: three dashes, the `file type:` marker, a word, an
/// optional second word, an optional `: SIZE` field, three dashes — case
/// folded and whitespace-tolerant.
pub open spec fn is_header_line(l: Seq<u8>) -> bool {
    &&& has_dashes(l)
    &&& header_inner(l).len() >= 10
    &&& header_inner(l).take(10) == file_type_marker()
    &&& header_colon_parts(l).len() <= 2
    &&& is_alpha_word(header_word1(l))
    &&& (header_word2(l).len() > 0 ==> is_alpha_word(header_word2(l)))
    &&& (header_colon_parts(l).len() == 2 ==> {
        let sz = spec_trim(header_colon_parts(l)[1]);
        sz.len() >= 1 && all_digits(sz)
    })
}


/// A section buffer in progress: nothing appended yet, or the joined lines.
pub open spec fn append_section_line(buf: Option<Seq<u8>>, l: Seq<u8>) -> Option<Seq<u8>> {
    match buf {
        None => Some(l),
        Some(b) => Some(b + seq![NEWLINE] + l),
    }
}

pub open spec fn buf_or_empty(buf: Option<Seq<u8>>) -> Seq<u8> {
    match buf {
        None => Seq::empty(),
        Some(b) => b,
    }
}

/// What the demultiplexer yields from line `i` on, given the current
/// section, declared encoding and size, and the buffers so far: the four
/// buffers and the declared encoding and size, or nothing when a line
/// cannot be placed. A final empty fragment after the last newline is not
/// a line. Non-header lines are appended trimmed; binary content in the
/// data section, content before any header, and an unreadable header field
/// are fatal.
pub open spec fn spec_demux(
    lines: Seq<Seq<u8>>,
    i: int,
    cur: Option<FileType>,
    fmt: Option<DataFormat>,
    size: Option<int>,
    cfg: Option<Seq<u8>>,
    dat: Option<Seq<u8>>,
    hdr: Option<Seq<u8>>,
    inf: Option<Seq<u8>>,
) -> Option<(Seq<u8>, Seq<u8>, Seq<u8>, Seq<u8>, Option<DataFormat>, Option<int>)>
    decreases lines.len() - i,
{
    if i < 0 || i >= lines.len() {
        Some((buf_or_empty(cfg), buf_or_empty(dat), buf_or_empty(hdr), buf_or_empty(inf), fmt, size))
    } else if i == lines.len() - 1 && lines[i].len() == 0 {
        spec_demux(lines, i + 1, cur, fmt, size, cfg, dat, hdr, inf)
    } else {
        let l = lines[i];
        if is_header_line(l) {
            if file_type_of(header_word1(l)) is None {
                None
            } else if header_word2(l).len() > 0 && data_format_of(header_word2(l)) is None {
                None
            } else if header_colon_parts(l).len() == 2 && crate::text::digits_val(
                spec_trim(header_colon_parts(l)[1]),
            ) > usize::MAX {
                None
            } else {
                let fmt2 = if header_word2(l).len() > 0 {
                    data_format_of(header_word2(l))
                } else {
                    fmt
                };
                let size2 = if header_colon_parts(l).len() == 2 {
                    Some(crate::text::digits_val(spec_trim(header_colon_parts(l)[1])) as int)
                } else {
                    size
                };
                spec_demux(lines, i + 1, file_type_of(header_word1(l)), fmt2, size2, cfg, dat, hdr, inf)
            }
        } else {
            let t = spec_trim(l);
            match cur {
                None => None,
                Some(FileType::Cfg) => spec_demux(
                    lines,
                    i + 1,
                    cur,
                    fmt,
                    size,
                    append_section_line(cfg, t),
                    dat,
                    hdr,
                    inf,
                ),
                Some(FileType::Dat) => {
                    if fmt == Some(DataFormat::Ascii) {
                        spec_demux(
                            lines,
                            i + 1,
                            cur,
                            fmt,
                            size,
                            cfg,
                            append_section_line(dat, t),
                            hdr,
                            inf,
                        )
                    } else {
                        None
                    }
                },
                Some(FileType::Hdr) => spec_demux(
                    lines,
                    i + 1,
                    cur,
                    fmt,
                    size,
                    cfg,
                    dat,
                    append_section_line(hdr, t),
                    inf,
                ),
                Some(FileType::Inf) => spec_demux(
                    lines,
                    i + 1,
                    cur,
                    fmt,
                    size,
                    cfg,
                    dat,
                    hdr,
                    append_section_line(inf, t),
                ),
            }
        }
    }
}

/// The pieces of one recognised header line.
pub struct HeaderLine {
    pub file_type_tok: Vec<u8>,
    pub format_tok: Option<Vec<u8>>,
    pub size_tok: Option<Vec<u8>>,
}

/// Recognises a section-header line and takes it apart.
pub fn match_header(line: &[u8]) -> (r: Option<HeaderLine>)
    ensures
        r is Some <==> is_header_line(line@),
        r is Some ==> ({
            let h = r->0;
            &&& h.file_type_tok@ == header_word1(line@)
            &&& (match h.format_tok {
                Some(t) => header_word2(line@).len() > 0 && t@ == header_word2(line@),
                None => header_word2(line@).len() == 0,
            })
            &&& (match h.size_tok {
                Some(t) => header_colon_parts(line@).len() == 2 && t@ == spec_trim(
                    header_colon_parts(line@)[1],
                ),
                None => header_colon_parts(line@).len() == 1,
            })
        }),
{
    let u = trim_bytes(to_lower(line).as_slice());
    let n = u.len();
    if n < 6 {
        return None;
    }
    let dashes_ok = u[0] == DASH && u[1] == DASH && u[2] == DASH && u[n - 1] == DASH && u[n - 2]
        == DASH && u[n - 3] == DASH;
    proof {
        assert(u@.subrange(0, 3) =~= seq![u@[0], u@[1], u@[2]]);
        assert(u@.subrange(n - 3, n as int) =~= seq![u@[n - 3], u@[n - 2], u@[n - 1]]);
        assert(seq![DASH, DASH, DASH].len() == 3 && seq![DASH, DASH, DASH][0] == DASH && seq![
            DASH,
            DASH,
            DASH,
        ][1] == DASH && seq![DASH, DASH, DASH][2] == DASH);
    }
    if !dashes_ok {
        return None;
    }
    let inner = trim_bytes(subrange_vec(u.as_slice(), 3, n - 3).as_slice());
    proof {
        assert(inner@ == header_inner(line@));
    }
    if inner.len() < 10 {
        return None;
    }
    let marker_ok = inner[0] == 102 && inner[1] == 105 && inner[2] == 108 && inner[3] == 101
        && inner[4] == 32 && inner[5] == 116 && inner[6] == 121 && inner[7] == 112 && inner[8]
        == 101 && inner[9] == 58;
    proof {
        assert(inner@.take(10) =~= seq![
            inner@[0],
            inner@[1],
            inner@[2],
            inner@[3],
            inner@[4],
            inner@[5],
            inner@[6],
            inner@[7],
            inner@[8],
            inner@[9],
        ]);
        lemma_marker_bytes();
    }
    if !marker_ok {
        return None;
    }
    let tail = trim_bytes(subrange_vec(inner.as_slice(), 10, inner.len()).as_slice());
    proof {
        assert(inner@.subrange(10, inner@.len() as int) =~= header_inner(line@).skip(10));
        assert(tail@ == header_tail(line@));
    }
    let parts = split_bytes(tail.as_slice(), 58);
    proof {
        assert(parts@.map_values(|t: Vec<u8>| t@) == header_colon_parts(line@));
        assert(parts@[0]@ == header_colon_parts(line@)[0]);
        if parts@.len() == 2 {
            assert(parts@[1]@ == header_colon_parts(line@)[1]);
        }
    }
    if parts.len() > 2 {
        return None;
    }
    let left = trim_bytes(parts[0].as_slice());
    let ln = left.len();
    // Split the left part into the file-type word and the optional
    // encoding word.
    let ws_pos = find_ws_exec(left.as_slice());
    let found_ws = ws_pos.is_some();
    let k: usize = match ws_pos {
        Some(i) => i,
        None => ln,
    };
    proof {
        lemma_find_ws(left@, 0);
        if found_ws {
            assert(find_ws(left@, 0) == k) by {
                let f = find_ws(left@, 0);
                if f == -1 {
                } else if f < k {
                } else if f > k {
                }
            }
        } else {
            assert(find_ws(left@, 0) == -1);
        }
    }
    let word1: Vec<u8>;
    let word2: Option<Vec<u8>>;
    if found_ws {
        word1 = subrange_vec(left.as_slice(), 0, k);
        let w2 = trim_bytes(subrange_vec(left.as_slice(), k, ln).as_slice());
        proof {
            assert(word1@ =~= header_word1(line@));
            assert(left@.subrange(k as int, ln as int) =~= left@.skip(k as int));
            assert(w2@ == header_word2(line@));
        }
        if w2.len() == 0 {
            word2 = None;
        } else {
            if !check_alpha(w2.as_slice()) {
                return None;
            }
            word2 = Some(w2);
        }
    } else {
        word1 = subrange_vec(left.as_slice(), 0, ln);
        proof {
            assert(word1@ =~= left@);
            assert(word1@ =~= header_word1(line@));
        }
        word2 = None;
    }
    if !check_alpha(word1.as_slice()) {
        return None;
    }
    let size_tok: Option<Vec<u8>>;
    if parts.len() == 2 {
        let sz = trim_bytes(parts[1].as_slice());
        if sz.len() == 0 {
            return None;
        }
        if !crate::text::check_digits(sz.as_slice(), 0, sz.len()) {
            proof {
                assert(sz@.subrange(0, sz@.len() as int) =~= sz@);
            }
            return None;
        }
        proof {
            assert(sz@.subrange(0, sz@.len() as int) =~= sz@);
        }
        size_tok = Some(sz);
    } else {
        size_tok = None;
    }
    Some(HeaderLine { file_type_tok: word1, format_tok: word2, size_tok })
}

/// The marker's bytes, spelled out for equality reasoning.
proof fn lemma_marker_bytes()
    ensures
        file_type_marker().len() == 10,
        file_type_marker()[0] == 102,
        file_type_marker()[1] == 105,
        file_type_marker()[2] == 108,
        file_type_marker()[3] == 101,
        file_type_marker()[4] == 32,
        file_type_marker()[5] == 116,
        file_type_marker()[6] == 121,
        file_type_marker()[7] == 112,
        file_type_marker()[8] == 101,
        file_type_marker()[9] == 58,
{
}

/// First ASCII whitespace position in `s`, if any.
fn find_ws_exec(s: &[u8]) -> (r: Option<usize>)
    ensures
        r is Some ==> r->0 < s@.len() && is_ws(s@[r->0 as int]) && forall|j: int|
            0 <= j < r->0 ==> !is_ws(#[trigger] s@[j]),
        r is None ==> forall|j: int| 0 <= j < s@.len() ==> !is_ws(#[trigger] s@[j]),
{
    let n = s.len();
    let mut i: usize = 0;
    while i < n
        invariant
            0 <= i <= n == s@.len(),
            forall|j: int| 0 <= j < i ==> !is_ws(#[trigger] s@[j]),
        decreases n - i,
    {
        let b = s[i];
        if b == 32 || (9 <= b && b <= 13) {
            return Some(i);
        }
        i += 1;
    }
    None
}

/// True when the word is all lower-case letters and non-empty.
fn check_alpha(s: &[u8]) -> (r: bool)
    ensures
        r == is_alpha_word(s@),
{
    let n = s.len();
    if n == 0 {
        return false;
    }
    let mut i: usize = 0;
    while i < n
        invariant
            0 <= i <= n == s@.len(),
            forall|j: int| 0 <= j < i ==> 97 <= #[trigger] s@[j] <= 122,
        decreases n - i,
    {
        if !(97 <= s[i] && s[i] <= 122) {
            return false;
        }
        i += 1;
    }
    true
}

/// The four per-purpose buffers split out of one combined stream, along
/// with what the data section's header declared.
pub struct CffSections {
    pub cfg: Vec<u8>,
    pub dat: Vec<u8>,
    pub hdr: Vec<u8>,
    pub inf: Vec<u8>,
    pub data_format: Option<DataFormat>,
    /// Declared but, as the format stands, never used to bound reads.
    pub data_size: Option<usize>,
}

/// Splits a combined container stream into its four per-purpose buffers.
/// Section headers switch the current section; every other line lands,
/// trimmed, in the current section's buffer. Content before the first
/// header is fatal, as is binary content in the data section and a header
/// field that cannot be read.
pub fn load_cff(data: &[u8]) -> (r: Result<CffSections, ParseError>)
    ensures
        ({
            let d = spec_demux(
                spec_split(data@, NEWLINE),
                0,
                None,
                None,
                None,
                None,
                None,
                None,
                None,
            );
            &&& (r is Ok <==> d is Some)
            &&& r is Ok ==> ({
                let s = r->Ok_0;
                let out = d->0;
                &&& s.cfg@ == out.0
                &&& s.dat@ == out.1
                &&& s.hdr@ == out.2
                &&& s.inf@ == out.3
                &&& s.data_format == out.4
                &&& (match s.data_size {
                    Some(v) => out.5 == Some(v as int),
                    None => out.5 is None,
                })
            })
        }),
{
    let lines = split_bytes(data, NEWLINE);
    let nlines = lines.len();
    let ghost lines_s = spec_split(data@, NEWLINE);
    let mut cfg_lines: Vec<u8> = Vec::new();
    let mut dat_lines: Vec<u8> = Vec::new();
    let mut hdr_lines: Vec<u8> = Vec::new();
    let mut inf_lines: Vec<u8> = Vec::new();
    let mut cfg_any: bool = false;
    let mut dat_any: bool = false;
    let mut hdr_any: bool = false;
    let mut inf_any: bool = false;
    let mut current_file: Option<FileType> = None;
    let mut data_format: Option<DataFormat> = None;
    let mut data_size: Option<usize> = None;
    let mut li: usize = 0;
    while li < nlines
        invariant
            0 <= li <= nlines == lines@.len(),
            lines@.map_values(|t: Vec<u8>| t@) == lines_s,
            lines_s == spec_split(data@, NEWLINE),
            !cfg_any ==> cfg_lines@.len() == 0,
            !dat_any ==> dat_lines@.len() == 0,
            !hdr_any ==> hdr_lines@.len() == 0,
            !inf_any ==> inf_lines@.len() == 0,
            spec_demux(lines_s, 0, None, None, None, None, None, None, None) == spec_demux(
                lines_s,
                li as int,
                current_file,
                data_format,
                spec_size(data_size),
                buf_state(cfg_any, cfg_lines@),
                buf_state(dat_any, dat_lines@),
                buf_state(hdr_any, hdr_lines@),
                buf_state(inf_any, inf_lines@),
            ),
        decreases nlines - li,
    {
        let line = &lines[li];
        let ghost line_s = lines_s[li as int];
        proof {
            assert(lines@[li as int]@ == line_s);
        }
        // A final empty fragment after the last newline is not a line.
        if li + 1 == nlines && line.len() == 0 {
            li += 1;
            continue ;
        }
        let trimmed = trim_bytes(line.as_slice());
        match match_header(line.as_slice()) {
            Some(header) => {
                let ft = match FileType::from_token(header.file_type_tok.as_slice()) {
                    Ok(v) => v,
                    Err(e) => {
                        return Err(e);
                    },
                };
                current_file = Some(ft);
                if let Some(fmt_tok) = header.format_tok {
                    let fmt = match DataFormat::from_token(fmt_tok.as_slice()) {
                        Ok(v) => v,
                        Err(e) => {
                            return Err(e);
                        },
                    };
                    data_format = Some(fmt);
                }
                if let Some(size_tok) = header.size_tok {
                    proof {
                        assert(crate::text::strip_sign(size_tok@) =~= size_tok@);
                    }
                    match parse_uint(size_tok.as_slice(), usize::MAX as u128) {
                        Some(v) => {
                            data_size = Some(v as usize);
                        },
                        None => {
                            return Err(
                                token_error(
                                    "unable to parse the declared data size: '",
                                    size_tok.as_slice(),
                                ),
                            );
                        },
                    }
                }
            },
            None => {
                match current_file {
                    Some(FileType::Cfg) => {
                        push_line(&mut cfg_lines, &mut cfg_any, trimmed);
                    },
                    Some(FileType::Dat) => {
                        let is_ascii = match data_format {
                            Some(DataFormat::Ascii) => true,
                            _ => false,
                        };
                        if is_ascii {
                            push_line(&mut dat_lines, &mut dat_any, trimmed);
                        } else {
                            // Binary content cannot ride inside a combined
                            // container; fail fast instead of mis-decoding.
                            return Err(
                                crate::parser::plain_error(
                                    "binary data inside a combined container is not supported",
                                ),
                            );
                        }
                    },
                    Some(FileType::Hdr) => {
                        push_line(&mut hdr_lines, &mut hdr_any, trimmed);
                    },
                    Some(FileType::Inf) => {
                        push_line(&mut inf_lines, &mut inf_any, trimmed);
                    },
                    None => {
                        return Err(
                            crate::parser::plain_error(
                                "encountered a content line before any section header",
                            ),
                        );
                    },
                }
            },
        }
        li += 1;
    }
    Ok(
        CffSections {
            cfg: cfg_lines,
            dat: dat_lines,
            hdr: hdr_lines,
            inf: inf_lines,
            data_format,
            data_size,
        },
    )
}

/// The declared size as a mathematical integer.
pub open spec fn spec_size(s: Option<usize>) -> Option<int> {
    match s {
        None => None,
        Some(v) => Some(v as int),
    }
}

/// A buffer that has seen a line so far, or nothing.
pub open spec fn buf_state(any: bool, b: Seq<u8>) -> Option<Seq<u8>> {
    if any {
        Some(b)
    } else {
        None
    }
}

/// Appends a line to a section buffer, separating lines with newlines.
fn push_line(buf: &mut Vec<u8>, any: &mut bool, line: Vec<u8>)
    ensures
        *final(any),
        final(buf)@ == old(buf)@ + (if *old(any) {
            seq![NEWLINE]
        } else {
            Seq::<u8>::empty()
        }) + line@,
{
    let ghost buf0 = buf@;
    if *any {
        buf.push(NEWLINE);
    }
    let mut i: usize = 0;
    let n = line.len();
    while i < n
        invariant
            0 <= i <= n == line@.len(),
            buf@ == buf0 + (if *any {
                seq![NEWLINE]
            } else {
                Seq::<u8>::empty()
            }) + line@.take(i as int),
            *any == *old(any),
        decreases n - i,
    {
        buf.push(line[i]);
        proof {
            assert(line@.take(i as int).push(line@[i as int]) =~= line@.take(i + 1 as int));
            assert(buf@ =~= buf0 + (if *any {
                seq![NEWLINE]
            } else {
                Seq::<u8>::empty()
            }) + line@.take(i + 1 as int));
        }
        i += 1;
    }
    proof {
        assert(line@.take(n as int) =~= line@);
    }
    *any = true;
}

} // verus!
