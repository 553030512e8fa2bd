//! Counting the bytes, words and lines of a stream, as wc(1) does.
use vstd::prelude::*;

use vstd::string::StringSliceAdditionalSpecFns;

use crate::number::{padded, push_padded};

verus! {

// ASCII codes of the characters that we consider whitespace.
/// Carriage return.
pub const CR: u8 = 13;
/// Horizontal tab.
pub const HT: u8 = 9;
/// Line feed.
pub const LF: u8 = 10;
/// Space.
pub const SP: u8 = 32;
/// Vertical tab.
pub const VT: u8 = 11;

/// Which counts a report shows.
pub struct Format {
    /// Show the byte count.
    pub chars: bool,
    /// Show the word count.
    pub words: bool,
    /// Show the line count.
    pub lines: bool,
}

impl Format {
    /// A format that shows nothing yet.
    pub fn new() -> (r: Format)
        ensures
            !r.chars && !r.words && !r.lines,
    {
        Format { chars: false, words: false, lines: false }
    }
}

/// Whether the byte `b` separates words: carriage return, horizontal tab,
/// line feed, space or vertical tab.
pub open spec fn is_space(b: u8) -> bool {
    b == 13 || b == 9 || b == 10 || b == 32 || b == 11
}

/// Whether a word is open after the bytes `s`, when one was open before them
/// exactly if `in_word`.
pub open spec fn ends_in_word(in_word: bool, s: Seq<u8>) -> bool {
    if s.len() == 0 {
        in_word
    } else {
        !is_space(s.last())
    }
}

/// The number of words that start in the bytes `s`, when a word was open
/// before them exactly if `in_word`.
pub open spec fn words_started(in_word: bool, s: Seq<u8>) -> nat
    decreases s.len(),
{
    if s.len() == 0 {
        0
    } else {
        words_started(in_word, s.drop_last()) + if !is_space(s.last()) && !ends_in_word(
            in_word,
            s.drop_last(),
        ) {
            1nat
        } else {
            0nat
        }
    }
}

/// The number of line feeds in the bytes `s`.
pub open spec fn line_feeds(s: Seq<u8>) -> nat
    decreases s.len(),
{
    if s.len() == 0 {
        0
    } else {
        line_feeds(s.drop_last()) + if s.last() == 10 {
            1nat
        } else {
            0nat
        }
    }
}

/// How the counts grow by one byte `b` at the end of the bytes `s`.
proof fn lemma_count_last(in_word: bool, s: Seq<u8>, b: u8)
    requires
        s.len() > 0,
        s.last() == b,
    ensures
        words_started(in_word, s) == words_started(in_word, s.drop_last()) + if !is_space(b)
            && !ends_in_word(in_word, s.drop_last()) {
            1nat
        } else {
            0nat
        },
        line_feeds(s) == line_feeds(s.drop_last()) + if b == 10 {
            1nat
        } else {
            0nat
        },
        ends_in_word(in_word, s) == !is_space(b),
{
}

/// Counting a stream piece by piece gives the counts of the whole: the words
/// and line feeds of `a` followed by `b` are those of `a` and those of `b`,
/// with `b` counted from where `a` left off.
pub proof fn lemma_count_concat(in_word: bool, a: Seq<u8>, b: Seq<u8>)
    ensures
        words_started(in_word, a + b) == words_started(in_word, a) + words_started(
            ends_in_word(in_word, a),
            b,
        ),
        line_feeds(a + b) == line_feeds(a) + line_feeds(b),
        ends_in_word(in_word, a + b) == ends_in_word(ends_in_word(in_word, a), b),
    decreases b.len(),
{
    if b.len() == 0 {
        assert(a + b =~= a);
    } else {
        assert((a + b).drop_last() =~= a + b.drop_last());
        assert((a + b).last() == b.last());
        lemma_count_concat(in_word, a, b.drop_last());
        lemma_count_last(in_word, a + b, b.last());
        lemma_count_last(ends_in_word(in_word, a), b, b.last());
    }
}

/// A count in a report: right-aligned in seven places, then a space.
pub open spec fn count_field(n: nat) -> Seq<u8> {
    padded(n, 10, 7, 32) + seq![32u8]
}

/// The report line of the counts `c`, without its line end: the line, word
/// and byte counts that its format asks for, in that order, then the name.
pub open spec fn report(c: Counts) -> Seq<u8> {
    (if c.format.lines {
        count_field(c.lines as nat)
    } else {
        Seq::empty()
    }) + (if c.format.words {
        count_field(c.words as nat)
    } else {
        Seq::empty()
    }) + (if c.format.chars {
        count_field(c.chars as nat)
    } else {
        Seq::empty()
    }) + c.file.spec_bytes()
}

/// Appends the bytes `b` to `out`.
fn push_bytes(out: &mut Vec<u8>, b: &[u8])
    ensures
        final(out)@ == old(out)@ + b@,
{
    let ghost start = out@;
    let mut i: usize = 0;
    while i < b.len()
        invariant
            i <= b@.len(),
            out@ == start + b@.subrange(0, i as int),
        decreases b.len() - i,
    {
        out.push(b[i]);
        i = i + 1;
        assert(out@ =~= start + b@.subrange(0, i as int));
    }
    assert(b@.subrange(0, b@.len() as int) =~= b@);
}

/// Appends a count field for `n` to `out`.
fn push_count(out: &mut Vec<u8>, n: usize)
    ensures
        final(out)@ == old(out)@ + count_field(n as nat),
{
    push_padded(out, n as u64, 10, 7, 32);
    out.push(32);
    assert(final(out)@ =~= old(out)@ + count_field(n as nat));
}

/// The counts of one input, with the name it is reported under.
pub struct Counts<'a, 'b> {
    /// The number of bytes.
    pub chars: usize,
    /// The number of words.
    pub words: usize,
    /// The number of lines.
    pub lines: usize,
    /// The name of the input.
    pub file: &'a str,
    /// Whether the last byte counted belongs to a word.
    pub in_word: bool,
    /// Which counts to report.
    pub format: &'b Format,
}

impl<'a, 'b> Counts<'a, 'b> {
    /// Zero counts for the input `file`.
    pub fn new(file: &'a str, format: &'b Format) -> (r: Counts<'a, 'b>)
        ensures
            r.chars == 0 && r.words == 0 && r.lines == 0,
            !r.in_word,
            r.file == file,
            r.format == format,
    {
        Counts { chars: 0, words: 0, lines: 0, file, in_word: false, format }
    }

    /// Adds the counts of `rhs` to these.
    pub fn add_assign(&mut self, rhs: Counts)
        requires
            old(self).chars + rhs.chars <= usize::MAX,
            old(self).words + rhs.words <= usize::MAX,
            old(self).lines + rhs.lines <= usize::MAX,
        ensures
            final(self).chars == old(self).chars + rhs.chars,
            final(self).words == old(self).words + rhs.words,
            final(self).lines == old(self).lines + rhs.lines,
            final(self).file == old(self).file,
            final(self).in_word == old(self).in_word,
            final(self).format == old(self).format,
    {
        *self = Counts {
            chars: self.chars + rhs.chars,
            words: self.words + rhs.words,
            lines: self.lines + rhs.lines,
            file: self.file,
            in_word: self.in_word,
            format: self.format,
        };
    }

    /// Counts the bytes of `buf`, as the next part of the input, and returns
    /// how many were taken (all of them).
    pub fn write(&mut self, buf: &[u8]) -> (r: usize)
        requires
            old(self).chars + buf@.len() <= usize::MAX,
            old(self).words + buf@.len() <= usize::MAX,
            old(self).lines + buf@.len() <= usize::MAX,
        ensures
            r == buf@.len(),
            final(self).chars == old(self).chars + buf@.len(),
            final(self).words == old(self).words + words_started(old(self).in_word, buf@),
            final(self).lines == old(self).lines + line_feeds(buf@),
            final(self).in_word == ends_in_word(old(self).in_word, buf@),
            final(self).file == old(self).file,
            final(self).format == old(self).format,
    {
        let mut i: usize = 0;
        while i < buf.len()
            invariant
                i <= buf@.len(),
                old(self).chars + buf@.len() <= usize::MAX,
                old(self).words + buf@.len() <= usize::MAX,
                old(self).lines + buf@.len() <= usize::MAX,
                self.chars == old(self).chars,
                self.file == old(self).file,
                self.format == old(self).format,
                self.words == old(self).words + words_started(
                    old(self).in_word,
                    buf@.subrange(0, i as int),
                ),
                self.lines == old(self).lines + line_feeds(buf@.subrange(0, i as int)),
                self.in_word == ends_in_word(old(self).in_word, buf@.subrange(0, i as int)),
                words_started(old(self).in_word, buf@.subrange(0, i as int)) <= i,
                line_feeds(buf@.subrange(0, i as int)) <= i,
            decreases buf.len() - i,
        {
            let c = buf[i];
            let ghost before = buf@.subrange(0, i as int);
            let ghost after = buf@.subrange(0, i + 1);
            assert(after.drop_last() =~= before);
            proof {
                lemma_count_last(old(self).in_word, after, c);
            }
            if c == CR || c == HT || c == LF || c == SP || c == VT {
                if self.in_word {
                    self.in_word = false
                }
                if c == LF {
                    self.lines += 1;
                }
            } else if !self.in_word {
                self.in_word = true;
                self.words += 1;
            }
            i = i + 1;
        }
        assert(buf@.subrange(0, buf@.len() as int) =~= buf@);
        self.chars += buf.len();
        buf.len()
    }

    /// Writes the report line of these counts (without its line end) to
    /// `out`.
    pub fn fmt(&self, out: &mut Vec<u8>)
        ensures
            final(out)@ == old(out)@ + report(*self),
    {
        let ghost start = out@;
        if self.format.lines {
            push_count(out, self.lines);
        }
        let ghost a = out@;
        if self.format.words {
            push_count(out, self.words);
        }
        let ghost b = out@;
        if self.format.chars {
            push_count(out, self.chars);
        }
        push_bytes(out, self.file.as_bytes());
        assert(out@ =~= start + report(*self));
    }
}

} // verus!
