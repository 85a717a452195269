use vstd::prelude::*;
use vstd::string::*;

verus! {

/// The two supported record wire formats.
#[derive(Debug, Clone, Copy, PartialEq, Eq, Structural)]
pub enum Format {
    Fasta,
    Fastq,
}

/// The index of the last `.` in `s`, or -1 when there is none.
pub open spec fn last_dot_idx(s: Seq<u8>) -> int
    decreases s.len(),
{
    if s.len() == 0 {
        -1
    } else if s[s.len() - 1] == 46u8 {
        s.len() - 1
    } else {
        last_dot_idx(s.drop_last())
    }
}

/// The last dot index lies in the sequence, or is -1.
pub proof fn lemma_last_dot_idx_bounds(s: Seq<u8>)
    ensures
        -1 <= last_dot_idx(s) < s.len(),
    decreases s.len(),
{
    if s.len() != 0 && s[s.len() - 1] != 46u8 {
        lemma_last_dot_idx_bounds(s.drop_last());
    }
}

/// Whether the bytes read `gz`.
pub open spec fn is_gz(e: Seq<u8>) -> bool {
    e.len() == 2 && e[0] == 103u8 && e[1] == 122u8
}

/// Whether the bytes read `fasta` or `fa`.
pub open spec fn is_fasta_ext(e: Seq<u8>) -> bool {
    (e.len() == 5 && e[0] == 102u8 && e[1] == 97u8 && e[2] == 115u8 && e[3] == 116u8 && e[4]
        == 97u8) || (e.len() == 2 && e[0] == 102u8 && e[1] == 97u8)
}

/// Whether the bytes read `fastq` or `fq`.
pub open spec fn is_fastq_ext(e: Seq<u8>) -> bool {
    (e.len() == 5 && e[0] == 102u8 && e[1] == 97u8 && e[2] == 115u8 && e[3] == 116u8 && e[4]
        == 113u8) || (e.len() == 2 && e[0] == 102u8 && e[1] == 113u8)
}

/// The format an extension names, if any.
pub open spec fn ext_format(e: Seq<u8>) -> Option<Format> {
    if is_fasta_ext(e) {
        Some(Format::Fasta)
    } else if is_fastq_ext(e) {
        Some(Format::Fastq)
    } else {
        None
    }
}

/// The extension a path's format is read from: the part after the last
/// dot — the whole path when it has no dot — except that a trailing `gz`
/// defers to the part between the previous dot and the last one, and
/// yields nothing when no dot precedes it.
pub open spec fn path_ext(s: Seq<u8>) -> Option<Seq<u8>> {
    let i = last_dot_idx(s);
    let last = s.subrange(i + 1, s.len() as int);
    if is_gz(last) {
        if i < 0 {
            None
        } else {
            let j = last_dot_idx(s.subrange(0, i));
            Some(s.subrange(j + 1, i))
        }
    } else {
        Some(last)
    }
}

/// The format a path names through its extension, if any.
pub open spec fn format_of_path(s: Seq<u8>) -> Option<Format> {
    match path_ext(s) {
        None => None,
        Some(e) => ext_format(e),
    }
}

/// Find the last dot strictly before `end`, if any.
fn rfind_dot(s: &[u8], end: usize) -> (r: Option<usize>)
    requires
        end <= s@.len(),
    ensures
        match r {
            Some(i) => i as int == last_dot_idx(s@.subrange(0, end as int)) && i < end,
            None => last_dot_idx(s@.subrange(0, end as int)) == -1,
        },
{
    let mut j = end;
    while j > 0
        invariant
            j <= end <= s@.len(),
            last_dot_idx(s@.subrange(0, end as int)) == last_dot_idx(s@.subrange(0, j as int)),
        decreases j,
    {
        if s[j - 1] == 46 {
            proof {
                assert(s@.subrange(0, j as int)[j - 1] == s@[j - 1]);
            }
            return Some(j - 1);
        }
        proof {
            assert(s@.subrange(0, j as int).drop_last() =~= s@.subrange(0, j - 1));
            assert(s@.subrange(0, j as int)[j - 1] == s@[j - 1]);
        }
        j = j - 1;
    }
    assert(s@.subrange(0, 0) =~= Seq::<u8>::empty());
    None
}

/// Whether `s[lo..hi]` reads `gz`.
fn range_is_gz(s: &[u8], lo: usize, hi: usize) -> (r: bool)
    requires
        lo <= hi <= s@.len(),
    ensures
        r == is_gz(s@.subrange(lo as int, hi as int)),
{
    hi - lo == 2 && s[lo] == 103 && s[lo + 1] == 122
}

/// The format named by the extension `s[lo..hi]`, if any.
fn classify_ext(s: &[u8], lo: usize, hi: usize) -> (r: Option<Format>)
    requires
        lo <= hi <= s@.len(),
    ensures
        r == ext_format(s@.subrange(lo as int, hi as int)),
{
    let len = hi - lo;
    if len == 5 && s[lo] == 102 && s[lo + 1] == 97 && s[lo + 2] == 115 && s[lo + 3] == 116 && s[lo
        + 4] == 97 {
        Some(Format::Fasta)
    } else if len == 2 && s[lo] == 102 && s[lo + 1] == 97 {
        Some(Format::Fasta)
    } else if len == 5 && s[lo] == 102 && s[lo + 1] == 97 && s[lo + 2] == 115 && s[lo + 3] == 116
        && s[lo + 4] == 113 {
        Some(Format::Fastq)
    } else if len == 2 && s[lo] == 102 && s[lo + 1] == 113 {
        Some(Format::Fastq)
    } else {
        None
    }
}

impl Format {
    /// Read the format from a file path: the extension decides, and a
    /// trailing `gz` extension defers to the one before it.
    pub fn from_path(path: &str) -> (r: Option<Format>)
        ensures
            r == format_of_path(path.spec_bytes()),
    {
        let bytes = path.as_bytes();
        let n = bytes.len();
        proof {
            assert(bytes@.subrange(0, n as int) =~= bytes@);
            lemma_last_dot_idx_bounds(bytes@);
        }
        match rfind_dot(bytes, n) {
            None => {
                if range_is_gz(bytes, 0, n) {
                    None
                } else {
                    proof {
                        assert(bytes@.subrange(0, n as int) =~= bytes@);
                    }
                    classify_ext(bytes, 0, n)
                }
            },
            Some(i) => {
                if range_is_gz(bytes, i + 1, n) {
                    proof {
                        lemma_last_dot_idx_bounds(bytes@.subrange(0, i as int));
                    }
                    match rfind_dot(bytes, i) {
                        None => classify_ext(bytes, 0, i),
                        Some(j) => classify_ext(bytes, j + 1, i),
                    }
                } else {
                    classify_ext(bytes, i + 1, n)
                }
            },
        }
    }
}

} // verus!
