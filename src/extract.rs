//! Bounded extraction of one element from a byte stream: bytes are fed in
//! chunks until the element's closing tag has been read.

use crate::error::MzMLParseError;
use crate::text::{contains_seq, find_bytes_from, first_occurrence_at, occurs_at};
use vstd::prelude::*;

verus! {

/// The bytes up to and including the leftmost occurrence of `m` in `s`.
pub open spec fn fragment_of(s: Seq<u8>, m: Seq<u8>) -> Seq<u8> {
    let i = choose|i: int| first_occurrence_at(s, m, i);
    s.subrange(0, i + m.len())
}

/// What extraction yields from the bytes `s` that follow the element's
/// start: the text up to the first closing tag, where that text is at most
/// `ceiling` bytes long; otherwise nothing.
pub open spec fn extraction_of(s: Seq<u8>, m: Seq<u8>, ceiling: nat) -> Option<Seq<u8>> {
    if contains_seq(s, m) && fragment_of(s, m).len() <= ceiling {
        Some(fragment_of(s, m))
    } else {
        None
    }
}

/// `p` is a prefix of `s`.
pub open spec fn is_prefix(p: Seq<u8>, s: Seq<u8>) -> bool {
    p.len() <= s.len() && s.subrange(0, p.len() as int) == p
}

/// The closing tag of a scan element, `</spectrum>`, in ASCII.
pub open spec fn spectrum_close_tag() -> Seq<u8> {
    seq![60u8, 47u8, 115u8, 112u8, 101u8, 99u8, 116u8, 114u8, 117u8, 109u8, 62u8]
}

/// The state of an extraction: the bytes read so far from the element's
/// start, none of which yet holds the closing tag.
#[derive(Debug)]
pub struct ElementExtractor {
    start: usize,
    received: Vec<u8>,
    marker: Vec<u8>,
    ceiling: usize,
}

/// What to do after a chunk was fed.
#[derive(Debug)]
pub enum ExtractStep {
    /// Read another chunk and feed it to this state.
    Pending(ElementExtractor),
    /// The element's text, ending with its closing tag.
    Complete(Vec<u8>),
}

impl ElementExtractor {
    /// The file offset at which the element starts.
    pub closed spec fn start(&self) -> usize {
        self.start
    }

    /// The bytes read so far.
    pub closed spec fn received(&self) -> Seq<u8> {
        self.received@
    }

    /// The closing tag searched for.
    pub closed spec fn marker(&self) -> Seq<u8> {
        self.marker@
    }

    /// The most bytes that may be read before the search gives up.
    pub closed spec fn ceiling(&self) -> usize {
        self.ceiling
    }

    pub closed spec fn wf(&self) -> bool {
        &&& self.marker@.len() > 0
        &&& !contains_seq(self.received@, self.marker@)
        &&& self.received@.len() < self.ceiling
    }

    /// A search for `marker` in the element that starts at file offset
    /// `start`, reading at most `ceiling` bytes.
    pub fn new(start: usize, marker: Vec<u8>, ceiling: usize) -> (r: Self)
        requires
            marker@.len() > 0,
            ceiling > 0,
        ensures
            r.wf(),
            r.start() == start,
            r.received() == Seq::<u8>::empty(),
            r.marker() == marker@,
            r.ceiling() == ceiling,
    {
        let r = ElementExtractor { start, received: Vec::new(), marker, ceiling };
        assert(!contains_seq(r.received@, r.marker@)) by {
            if contains_seq(r.received@, r.marker@) {
                let i = choose|i: int| occurs_at(r.received@, r.marker@, i);
            }
        }
        r
    }

    /// A search for the closing tag of the scan element that starts at file
    /// offset `start`, reading at most `ceiling` bytes.
    pub fn for_spectrum(start: usize, ceiling: usize) -> (r: Self)
        requires
            ceiling > 0,
        ensures
            r.wf(),
            r.start() == start,
            r.received() == Seq::<u8>::empty(),
            r.marker() == spectrum_close_tag(),
            r.ceiling() == ceiling,
    {
        let marker: Vec<u8> = vec![60u8, 47u8, 115u8, 112u8, 101u8, 99u8, 116u8, 114u8, 117u8, 109u8, 62u8];
        assert(marker@ =~= spectrum_close_tag());
        Self::new(start, marker, ceiling)
    }

    /// Takes the next chunk read after the bytes received so far; an empty
    /// chunk means the end of the file. The search covers the new chunk and
    /// the tail of the earlier bytes that a tag split across chunks may start
    /// in. Where the tag is now read and the text up to it is within the
    /// ceiling, that text comes back. Where the tag is read beyond the
    /// ceiling, where the file ended without it, or where the ceiling was
    /// reached without it, `BoundaryNotFoundError` with the start offset.
    /// Otherwise the state with the chunk appended. The outcome is that of
    /// `extraction_of` on every continuation of the bytes read, so it does
    /// not depend on how the bytes were cut into chunks.
    pub fn feed(self, chunk: &[u8]) -> (r: Result<ExtractStep, MzMLParseError>)
        requires
            self.wf(),
        ensures
            ({
                let total = self.received() + chunk@;
                let m = self.marker();
                let c = self.ceiling() as nat;
                if contains_seq(total, m) && fragment_of(total, m).len() <= c {
                    r matches Ok(ExtractStep::Complete(f)) && f@ == fragment_of(total, m)
                } else if contains_seq(total, m) || chunk@.len() == 0 || total.len() >= c {
                    r == Err::<ExtractStep, MzMLParseError>(MzMLParseError::BoundaryNotFoundError(self.start()))
                } else {
                    r matches Ok(ExtractStep::Pending(n)) && n.wf() && n.received() == total
                        && n.marker() == m && n.ceiling() == self.ceiling()
                        && n.start() == self.start()
                }
            }),
            ({
                let total = self.received() + chunk@;
                let m = self.marker();
                let c = self.ceiling() as nat;
                &&& r matches Ok(ExtractStep::Complete(f)) ==> forall|s: Seq<u8>|
                    is_prefix(total, s) ==> #[trigger] extraction_of(s, m, c) == Some(f@)
                &&& r is Err ==> (chunk@.len() == 0 && extraction_of(total, m, c) is None)
                    || forall|s: Seq<u8>| is_prefix(total, s) ==> #[trigger] extraction_of(s, m, c) is None
            }),
    {
        let ElementExtractor { start, received, marker, ceiling } = self;
        let ghost old_bytes = received@;
        let old_len = received.len();
        let mut buf = received;
        buf.extend_from_slice(chunk);
        let ghost total = buf@;
        assert(total =~= old_bytes + chunk@);
        let m = marker.len();
        let from: usize = if old_len >= m - 1 { old_len - (m - 1) } else { 0 };
        assert forall|j: int| 0 <= j < from implies !occurs_at(total, marker@, j) by {
            if occurs_at(total, marker@, j) {
                assert(old_bytes.subrange(j, j + m) =~= total.subrange(j, j + m));
                assert(occurs_at(old_bytes, marker@, j));
            }
        }
        let blen = buf.len();
        match find_bytes_from(buf.as_slice(), marker.as_slice(), from) {
            Some(i) => {
                assert(i + m <= blen);
                proof {
                    lemma_fragment_len(total, marker@, i as int);
                    assert forall|s: Seq<u8>| is_prefix(total, s) implies #[trigger] fragment_of(s, marker@) == fragment_of(total, marker@) && contains_seq(s, marker@) by {
                        assert(s =~= total + s.subrange(total.len() as int, s.len() as int));
                        lemma_fragment_ignores_later_bytes(total, s.subrange(total.len() as int, s.len() as int), marker@);
                    }
                }
                if i + m > ceiling {
                    return Err(MzMLParseError::BoundaryNotFoundError(start));
                }
                buf.truncate(i + m);
                assert(buf@ =~= fragment_of(total, marker@));
                Ok(ExtractStep::Complete(buf))
            },
            None => {
                if chunk.len() == 0 || buf.len() >= ceiling {
                    proof {
                        assert forall|s: Seq<u8>| is_prefix(total, s) && total.len() >= ceiling implies #[trigger] extraction_of(s, marker@, ceiling as nat) is None by {
                            if contains_seq(s, marker@) {
                                let w = choose|w: int| occurs_at(s, marker@, w);
                                lemma_first_occurrence_exists(s, marker@, w);
                                let k = choose|k: int| first_occurrence_at(s, marker@, k);
                                lemma_fragment_len(s, marker@, k);
                                if k + m <= total.len() {
                                    assert(s.subrange(k, k + m) =~= total.subrange(k, k + m));
                                    assert(occurs_at(total, marker@, k));
                                }
                            }
                        }
                    }
                    Err(MzMLParseError::BoundaryNotFoundError(start))
                } else {
                    Ok(ExtractStep::Pending(ElementExtractor { start, received: buf, marker, ceiling }))
                }
            },
        }
    }
}

/// The text up to the leftmost occurrence at `i` has length `i` plus the
/// tag's length.
pub proof fn lemma_fragment_len(s: Seq<u8>, m: Seq<u8>, i: int)
    requires
        first_occurrence_at(s, m, i),
    ensures
        fragment_of(s, m).len() == i + m.len(),
        fragment_of(s, m) == s.subrange(0, i + m.len()),
{
    let k = choose|k: int| first_occurrence_at(s, m, k);
    assert(k == i) by {
        if k < i {
        } else if k > i {
            assert(!occurs_at(s, m, i));
        }
    }
}

/// Once the closing tag has been read, bytes read after it do not change the
/// extracted text: the text does not depend on how the bytes were split into
/// chunks, nor on where a chunk boundary fell relative to the tag.
pub proof fn lemma_fragment_ignores_later_bytes(a: Seq<u8>, b: Seq<u8>, m: Seq<u8>)
    requires
        contains_seq(a, m),
    ensures
        contains_seq(a + b, m),
        fragment_of(a + b, m) == fragment_of(a, m),
{
    let w = choose|w: int| occurs_at(a, m, w);
    lemma_first_occurrence_exists(a, m, w);
    let i = choose|i: int| first_occurrence_at(a, m, i);
    assert(first_occurrence_at(a + b, m, i)) by {
        assert((a + b).subrange(i, i + m.len()) =~= a.subrange(i, i + m.len()));
        assert forall|j: int| 0 <= j < i implies !occurs_at(a + b, m, j) by {
            assert((a + b).subrange(j, j + m.len()) =~= a.subrange(j, j + m.len()));
            assert(!occurs_at(a, m, j));
        }
    }
    let k = choose|k: int| first_occurrence_at(a + b, m, k);
    assert(k == i) by {
        if k < i {
        } else if k > i {
            assert(!occurs_at(a + b, m, i));
        }
    }
    assert((a + b).subrange(0, i + m.len()) =~= a.subrange(0, i + m.len()));
}

/// Where `m` occurs at `w`, it has a leftmost occurrence.
pub proof fn lemma_first_occurrence_exists(s: Seq<u8>, m: Seq<u8>, w: int)
    requires
        occurs_at(s, m, w),
    ensures
        exists|i: int| first_occurrence_at(s, m, i),
    decreases w,
{
    if exists|j: int| 0 <= j < w && occurs_at(s, m, j) {
        let j = choose|j: int| 0 <= j < w && occurs_at(s, m, j);
        lemma_first_occurrence_exists(s, m, j);
    } else {
        assert(first_occurrence_at(s, m, w));
    }
}

} // verus!
