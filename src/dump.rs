//! The lines of an octal dump, as od(1) writes them: each chunk of input
//! shown in one or more formats, each format on a line of its own.
use vstd::prelude::*;

use crate::number::{padded, push_padded};

verus! {

/// A way of showing a chunk of input.
#[derive(Clone, Copy, Debug, PartialEq, Eq, Structural)]
pub enum DumpFormat {
    /// Each byte in octal.
    OctBytes,
    /// Each byte as a character, or an escape, or in octal.
    Ascii,
    /// Each little-endian 16-bit word in decimal.
    DecWords,
    /// Each little-endian 16-bit word in hexadecimal.
    HexWords,
    /// Each little-endian 16-bit word in octal.
    OctWords,
}

/// A byte in octal: a space, then three digits.
pub open spec fn oct_byte_cell(b: u8) -> Seq<u8> {
    seq![32u8] + padded(b as nat, 8, 3, 48)
}

/// A byte as a character: a C escape for the control characters that have
/// one, three octal digits for the other bytes outside printable ASCII, and
/// the character itself otherwise, each right-aligned in four places.
pub open spec fn ascii_cell(b: u8) -> Seq<u8> {
    if b == 7 {
        seq![32u8, 92u8, 103u8]
    } else if b == 8 {
        seq![32u8, 92u8, 98u8]
    } else if b == 9 {
        seq![32u8, 92u8, 116u8]
    } else if b == 10 {
        seq![32u8, 92u8, 110u8]
    } else if b == 11 {
        seq![32u8, 92u8, 118u8]
    } else if b == 12 {
        seq![32u8, 92u8, 102u8]
    } else if b == 13 {
        seq![32u8, 92u8, 114u8]
    } else if b < 32 || b > 126 {
        seq![32u8] + padded(b as nat, 8, 3, 48)
    } else {
        seq![32u8, 32u8, 32u8, b]
    }
}

/// The cells of the bytes `s`, one after the other.
pub open spec fn byte_cells(s: Seq<u8>, ascii: bool) -> Seq<u8>
    decreases s.len(),
{
    if s.len() == 0 {
        Seq::empty()
    } else {
        byte_cells(s.drop_last(), ascii) + if ascii {
            ascii_cell(s.last())
        } else {
            oct_byte_cell(s.last())
        }
    }
}

/// The value of the little-endian word made of the bytes `lo` and `hi`.
pub open spec fn word_value(lo: u8, hi: u8) -> nat {
    lo as nat + 256 * hi as nat
}

/// The cells of the words of `s` (of even length) in base `base`: two
/// spaces, then six digits.
pub open spec fn word_cells(s: Seq<u8>, base: nat) -> Seq<u8>
    decreases s.len(),
{
    if s.len() < 2 {
        Seq::empty()
    } else {
        word_cells(s.subrange(0, s.len() - 2), base) + seq![32u8, 32u8] + padded(
            word_value(s[s.len() - 2], s[s.len() - 1]),
            base,
            6,
            48,
        )
    }
}

/// Whether the format shows 16-bit words.
pub open spec fn shows_words(f: DumpFormat) -> bool {
    f is DecWords || f is HexWords || f is OctWords
}

/// The line that shows the chunk `s` in the format `f`.
pub open spec fn format_line(f: DumpFormat, s: Seq<u8>) -> Seq<u8> {
    match f {
        DumpFormat::OctBytes => byte_cells(s, false),
        DumpFormat::Ascii => byte_cells(s, true),
        DumpFormat::DecWords => word_cells(s, 10),
        DumpFormat::HexWords => word_cells(s, 16),
        DumpFormat::OctWords => word_cells(s, 8),
    }.push(10u8)
}

/// Appends the cells of the bytes of `data` to `out`.
fn write_byte_cells(out: &mut Vec<u8>, data: &[u8], ascii: bool)
    ensures
        final(out)@ == old(out)@ + byte_cells(data@, ascii),
{
    let ghost start = out@;
    let mut i: usize = 0;
    while i < data.len()
        invariant
            i <= data@.len(),
            out@ == start + byte_cells(data@.subrange(0, i as int), ascii),
        decreases data.len() - i,
    {
        let b = data[i];
        let ghost before = out@;
        assert(data@.subrange(0, i + 1).drop_last() =~= data@.subrange(0, i as int));
        if !ascii || b < 7 || (b > 13 && b < 32) || b > 126 {
            out.push(32);
            push_padded(out, b as u64, 8, 3, 48);
        } else if b < 14 {
            let e: u8 = if b == 7 {
                103
            } else if b == 8 {
                98
            } else if b == 9 {
                116
            } else if b == 10 {
                110
            } else if b == 11 {
                118
            } else if b == 12 {
                102
            } else {
                114
            };
            out.push(32);
            out.push(92);
            out.push(e);
        } else {
            out.push(32);
            out.push(32);
            out.push(32);
            out.push(b);
        }
        let ghost cell = if ascii {
            ascii_cell(b)
        } else {
            oct_byte_cell(b)
        };
        assert(out@ =~= before + cell);
        i = i + 1;
    }
    assert(data@.subrange(0, data@.len() as int) =~= data@);
}

/// Appends the cells of the words of `data` in base `base` to `out`.
fn write_word_cells(out: &mut Vec<u8>, data: &[u8], base: u64)
    requires
        2 <= base <= 16,
        data@.len() % 2 == 0,
    ensures
        final(out)@ == old(out)@ + word_cells(data@, base as nat),
{
    let ghost start = out@;
    let mut i: usize = 0;
    while i < data.len()
        invariant
            2 <= base <= 16,
            data@.len() % 2 == 0,
            i <= data@.len(),
            i % 2 == 0,
            out@ == start + word_cells(data@.subrange(0, i as int), base as nat),
        decreases data.len() - i,
    {
        let lo = data[i];
        let hi = data[i + 1];
        let ghost before = out@;
        let ghost next = data@.subrange(0, i + 2);
        assert(next.subrange(0, next.len() - 2) =~= data@.subrange(0, i as int));
        assert(next[next.len() - 2] == lo && next[next.len() - 1] == hi);
        let w: u64 = (hi as u64) * 256 + lo as u64;
        out.push(32);
        out.push(32);
        push_padded(out, w, base, 6, 48);
        assert(out@ =~= before + seq![32u8, 32u8] + padded(word_value(lo, hi), base as nat, 6, 48));
        i = i + 2;
    }
    assert(data@.subrange(0, data@.len() as int) =~= data@);
}

/// Writes a chunk of output data as octal byte values.
pub fn write_oct_bytes(out: &mut Vec<u8>, data: &[u8]) -> (r: usize)
    ensures
        final(out)@ == old(out)@ + format_line(DumpFormat::OctBytes, data@),
        r == data@.len(),
{
    write_byte_cells(out, data, false);
    out.push(10);
    data.len()
}

/// Writes a chunk of output data as octal (16 bit) word values. Words are
/// assumed to be little endian.
pub fn write_oct_words(out: &mut Vec<u8>, data: &[u8]) -> (r: usize)
    requires
        data@.len() % 2 == 0,
    ensures
        final(out)@ == old(out)@ + format_line(DumpFormat::OctWords, data@),
        r == data@.len(),
{
    write_word_cells(out, data, 8);
    out.push(10);
    data.len()
}

/// Writes a chunk of output data as decimal (16 bit) word values. Words are
/// assumed to be little endian.
pub fn write_dec_words(out: &mut Vec<u8>, data: &[u8]) -> (r: usize)
    requires
        data@.len() % 2 == 0,
    ensures
        final(out)@ == old(out)@ + format_line(DumpFormat::DecWords, data@),
        r == data@.len(),
{
    write_word_cells(out, data, 10);
    out.push(10);
    data.len()
}

/// Writes a chunk of output data as hexadecimal (16 bit) word values. Words
/// are assumed to be little endian.
pub fn write_hex_words(out: &mut Vec<u8>, data: &[u8]) -> (r: usize)
    requires
        data@.len() % 2 == 0,
    ensures
        final(out)@ == old(out)@ + format_line(DumpFormat::HexWords, data@),
        r == data@.len(),
{
    write_word_cells(out, data, 16);
    out.push(10);
    data.len()
}

/// Writes a chunk of data as ASCII, reverting to octal byte values for
/// non-printable characters. Standard escape sequences are supported.
pub fn write_ascii_chars(out: &mut Vec<u8>, data: &[u8]) -> (r: usize)
    ensures
        final(out)@ == old(out)@ + format_line(DumpFormat::Ascii, data@),
        r == data@.len(),
{
    write_byte_cells(out, data, true);
    out.push(10);
    data.len()
}

/// What a dump writes for the chunk `s` read at `offset`: one line per
/// format of `fs`, the first headed by the offset in seven octal digits, the
/// others by seven spaces.
pub open spec fn chunk_lines(offset: nat, s: Seq<u8>, fs: Seq<DumpFormat>) -> Seq<u8>
    decreases fs.len(),
{
    if fs.len() == 0 {
        Seq::empty()
    } else {
        chunk_lines(offset, s, fs.drop_last()) + if fs.len() == 1 {
            padded(offset, 8, 7, 48)
        } else {
            Seq::new(7, |_i: int| 32u8)
        } + format_line(fs.last(), s)
    }
}

/// Appends the line that shows `data` in the format `f` to `out`.
fn write_format(out: &mut Vec<u8>, f: DumpFormat, data: &[u8]) -> (r: usize)
    requires
        shows_words(f) ==> data@.len() % 2 == 0,
    ensures
        final(out)@ == old(out)@ + format_line(f, data@),
        r == data@.len(),
{
    match f {
        DumpFormat::OctBytes => write_oct_bytes(out, data),
        DumpFormat::Ascii => write_ascii_chars(out, data),
        DumpFormat::DecWords => write_dec_words(out, data),
        DumpFormat::HexWords => write_hex_words(out, data),
        DumpFormat::OctWords => write_oct_words(out, data),
    }
}

/// Dumps the chunk `chunk`, read at `offset`, in each of the formats
/// `formats`, and returns the offset advanced by the chunk's length once per
/// format.
pub fn write_chunk(out: &mut Vec<u8>, offset: u64, chunk: &[u8], formats: &[DumpFormat]) -> (r: u64)
    requires
        offset + formats@.len() * chunk@.len() <= u64::MAX,
        forall|i: int| 0 <= i < formats@.len() && shows_words(#[trigger] formats@[i]) ==> chunk@.len() % 2 == 0,
    ensures
        final(out)@ == old(out)@ + chunk_lines(offset as nat, chunk@, formats@),
        r == offset + formats@.len() * chunk@.len(),
{
    let ghost start = out@;
    let mut off: u64 = offset;
    let mut i: usize = 0;
    while i < formats.len()
        invariant
            i <= formats@.len(),
            offset + formats@.len() * chunk@.len() <= u64::MAX,
            forall|i: int| 0 <= i < formats@.len() && shows_words(#[trigger] formats@[i]) ==> chunk@.len() % 2 == 0,
            off == offset + i * chunk@.len(),
            out@ == start + chunk_lines(offset as nat, chunk@, formats@.subrange(0, i as int)),
        decreases formats.len() - i,
    {
        let ghost before = out@;
        let ghost fs = formats@.subrange(0, i + 1);
        assert(fs.drop_last() =~= formats@.subrange(0, i as int));
        if i == 0 {
            push_padded(out, offset, 8, 7, 48);
        } else {
            let mut k: usize = 0;
            while k < 7
                invariant
                    k <= 7,
                    out@ == before + Seq::new(k as nat, |_i: int| 32u8),
                decreases 7 - k,
            {
                out.push(32);
                k = k + 1;
                assert(out@ =~= before + Seq::new(k as nat, |_i: int| 32u8));
            }
        }
        let f = formats[i];
        write_format(out, f, chunk);
        proof {
            assert(i * chunk@.len() + chunk@.len() == (i + 1) * chunk@.len()) by (nonlinear_arith);
            assert((i + 1) * chunk@.len() <= formats@.len() * chunk@.len()) by (nonlinear_arith)
                requires
                    i + 1 <= formats@.len(),
            ;
        }
        off = off + chunk.len() as u64;
        i = i + 1;
    }
    assert(formats@.subrange(0, formats@.len() as int) =~= formats@);
    off
}

} // verus!
