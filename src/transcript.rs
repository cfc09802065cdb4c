//! Chunked transcription: planning the chunks of a long recording and
//! merging the per-chunk segment lists, each in time local to its chunk,
//! into one list in time of the whole recording.
//!
//! Times are whole milliseconds.

use vstd::prelude::*;
use crate::text::push_char;

verus! {

/// Milliseconds in a second.
pub const MS_PER_SECOND: u64 = 1000;

/// A stretch of recognized speech.
#[derive(Debug, PartialEq, Eq)]
pub struct Segment {
    pub start_ms: u64,
    pub end_ms: u64,
    pub text: String,
}

/// What a segment stands for, with times as unbounded integers.
pub struct SegmentView {
    pub start: int,
    pub end: int,
    pub text: Seq<char>,
}

impl View for Segment {
    type V = SegmentView;

    open spec fn view(&self) -> SegmentView {
        SegmentView { start: self.start_ms as int, end: self.end_ms as int, text: self.text@ }
    }
}

/// The views of a list of segments.
pub open spec fn views(segs: Seq<Segment>) -> Seq<SegmentView> {
    segs.map_values(|s: Segment| s@)
}

/// `segs` moved later by `offset`.
pub open spec fn shifted(segs: Seq<SegmentView>, offset: int) -> Seq<SegmentView> {
    segs.map_values(
        |s: SegmentView| SegmentView { start: s.start + offset, end: s.end + offset, text: s.text },
    )
}

/// The chunks' segment lists, each moved by its chunk's offset
/// `index * chunk_ms`, one after the other in chunk order.
pub open spec fn merged(chunks: Seq<Seq<SegmentView>>, chunk_ms: int) -> Seq<SegmentView>
    decreases chunks.len(),
{
    if chunks.len() == 0 {
        Seq::empty()
    } else {
        merged(chunks.drop_last(), chunk_ms) + shifted(
            chunks.last(),
            (chunks.len() - 1) * chunk_ms,
        )
    }
}

/// For each merged segment, the index of the chunk it came from.
pub open spec fn merged_origin(chunks: Seq<Seq<SegmentView>>) -> Seq<int>
    decreases chunks.len(),
{
    if chunks.len() == 0 {
        Seq::empty()
    } else {
        merged_origin(chunks.drop_last()) + Seq::new(
            chunks.last().len(),
            |k: int| chunks.len() - 1,
        )
    }
}

/// For each merged segment, its position within the chunk it came from.
pub open spec fn merged_position(chunks: Seq<Seq<SegmentView>>) -> Seq<int>
    decreases chunks.len(),
{
    if chunks.len() == 0 {
        Seq::empty()
    } else {
        merged_position(chunks.drop_last()) + Seq::new(chunks.last().len(), |k: int| k)
    }
}

/// Number of chunks of at most `chunk_ms` that cover `total_ms`.
pub open spec fn chunk_count_spec(total_ms: int, chunk_ms: int) -> int {
    (total_ms + chunk_ms - 1) / chunk_ms
}

/// Number of chunks of `chunk_seconds` seconds that cover a recording of
/// `total_ms` milliseconds: the ceiling of their quotient.
pub fn chunk_count(total_ms: u64, chunk_seconds: u32) -> (r: u64)
    requires
        chunk_seconds > 0,
    ensures
        r == chunk_count_spec(total_ms as int, chunk_seconds * MS_PER_SECOND),
{
    let chunk_ms: u64 = chunk_seconds as u64 * MS_PER_SECOND;
    let q = total_ms / chunk_ms;
    let r = total_ms % chunk_ms;
    proof {
        assert(chunk_count_spec(total_ms as int, chunk_ms as int) == q + if r > 0 {
            1int
        } else {
            0int
        }) by (nonlinear_arith)
            requires
                chunk_ms > 0,
                q == total_ms / chunk_ms,
                r == total_ms % chunk_ms,
        {
            assert(total_ms == q * chunk_ms + r);
        }
        assert(q * chunk_ms <= total_ms && q * 1000 <= q * chunk_ms) by (nonlinear_arith)
            requires
                chunk_ms >= 1000,
                q == total_ms / chunk_ms,
        ;
    }
    if r > 0 {
        q + 1
    } else {
        q
    }
}

/// Start and end, in milliseconds, of chunk `index` of a recording of
/// `total_ms`: `[index * c, min((index + 1) * c, total))` for chunks of `c`.
pub fn chunk_span(index: u64, total_ms: u64, chunk_seconds: u32) -> (r: (u64, u64))
    requires
        chunk_seconds > 0,
        index < chunk_count_spec(total_ms as int, chunk_seconds * MS_PER_SECOND),
    ensures
        r.0 == index * (chunk_seconds * MS_PER_SECOND),
        r.1 == if (index + 1) * (chunk_seconds * MS_PER_SECOND) < total_ms {
            (index + 1) * (chunk_seconds * MS_PER_SECOND)
        } else {
            total_ms as int
        },
        r.0 < r.1,
{
    let chunk_ms: u64 = chunk_seconds as u64 * MS_PER_SECOND;
    proof {
        assert(index * chunk_ms < total_ms) by (nonlinear_arith)
            requires
                chunk_ms > 0,
                index < (total_ms + chunk_ms - 1) as int / chunk_ms as int,
        {
            assert(index + 1 <= (total_ms + chunk_ms - 1) as int / chunk_ms as int);
            assert((index + 1) * chunk_ms <= total_ms + chunk_ms - 1);
        }
    }
    let start = index * chunk_ms;
    let end = if total_ms - start > chunk_ms {
        start + chunk_ms
    } else {
        total_ms
    };
    proof {
        assert((index + 1) * chunk_ms == index * chunk_ms + chunk_ms) by (nonlinear_arith);
    }
    (start, end)
}

/// Every merged segment is the segment at the same position of the chunk it
/// came from, moved by that chunk's offset `index * chunk_ms`, and merged
/// segments keep the order of their chunks.
pub proof fn lemma_merged_offsets(chunks: Seq<Seq<SegmentView>>, chunk_ms: int)
    ensures
        merged(chunks, chunk_ms).len() == merged_origin(chunks).len(),
        merged_position(chunks).len() == merged_origin(chunks).len(),
        forall|p: int|
            #![trigger merged_origin(chunks)[p]]
            0 <= p < merged_origin(chunks).len() ==> {
                let i = merged_origin(chunks)[p];
                let k = merged_position(chunks)[p];
                let local = chunks[i][k];
                let global = merged(chunks, chunk_ms)[p];
                &&& 0 <= i < chunks.len()
                &&& 0 <= k < chunks[i].len()
                &&& global.start == local.start + i * chunk_ms
                &&& global.end == local.end + i * chunk_ms
                &&& global.text == local.text
            },
        forall|p: int, q: int|
            0 <= p < q < merged_origin(chunks).len() ==> #[trigger] merged_origin(chunks)[p]
                <= #[trigger] merged_origin(chunks)[q],
    decreases chunks.len(),
{
    if chunks.len() > 0 {
        let prev = chunks.drop_last();
        lemma_merged_offsets(prev, chunk_ms);
        let m = merged(chunks, chunk_ms);
        let o = merged_origin(chunks);
        let n0 = merged_origin(prev).len();
        assert forall|p: int|
            #![trigger merged_origin(chunks)[p]]
            0 <= p < o.len() implies {
                let i = o[p];
                let k = merged_position(chunks)[p];
                let local = chunks[i][k];
                let global = m[p];
                &&& 0 <= i < chunks.len()
                &&& 0 <= k < chunks[i].len()
                &&& global.start == local.start + i * chunk_ms
                &&& global.end == local.end + i * chunk_ms
                &&& global.text == local.text
            } by {
            if p < n0 {
                assert(o[p] == merged_origin(prev)[p]);
                assert(chunks[o[p]] == prev[o[p]]);
            }
        }
        assert forall|p: int, q: int|
            0 <= p < q < o.len() implies #[trigger] o[p] <= #[trigger] o[q] by {
            if q < n0 {
                assert(o[p] == merged_origin(prev)[p] && o[q] == merged_origin(prev)[q]);
            } else if p < n0 {
                assert(o[p] == merged_origin(prev)[p]);
            }
        }
    }
}

/// Where every chunk's segments start within the chunk (`0 <= start <=
/// chunk_ms` in local time), merged start times never go down from one chunk
/// to a later one.
pub proof fn lemma_merged_starts_ordered(chunks: Seq<Seq<SegmentView>>, chunk_ms: int)
    requires
        chunk_ms >= 0,
        forall|i: int, k: int|
            0 <= i < chunks.len() && 0 <= k < chunks[i].len() ==> 0 <= #[trigger] chunks[i][k].start
                <= chunk_ms,
    ensures
        forall|p: int, q: int|
            0 <= p < merged_origin(chunks).len() && 0 <= q < merged_origin(chunks).len()
                && #[trigger] merged_origin(chunks)[p] < #[trigger] merged_origin(chunks)[q]
                ==> merged(chunks, chunk_ms)[p].start <= merged(chunks, chunk_ms)[q].start,
{
    lemma_merged_offsets(chunks, chunk_ms);
    let o = merged_origin(chunks);
    let m = merged(chunks, chunk_ms);
    assert forall|p: int, q: int|
        0 <= p < o.len() && 0 <= q < o.len() && #[trigger] o[p] < #[trigger] o[q] implies m[p].start
        <= m[q].start by {
        let i = o[p];
        let j = o[q];
        let kp = merged_position(chunks)[p];
        let kq = merged_position(chunks)[q];
        assert(0 <= chunks[i][kp].start <= chunk_ms);
        assert(0 <= chunks[j][kq].start);
        assert(m[p].start == chunks[i][kp].start + i * chunk_ms);
        assert(m[q].start == chunks[j][kq].start + j * chunk_ms);
        assert(i * chunk_ms + chunk_ms <= j * chunk_ms) by (nonlinear_arith)
            requires
                i + 1 <= j,
                chunk_ms >= 0,
        ;
    }
}

/// Why a chunked transcription cannot be put together.
#[derive(Debug, Clone, Copy, PartialEq, Eq, Structural)]
pub enum TranscribeError {
    /// Chunk `chunk` came back without any segment.
    EmptyChunk { chunk: u64 },
    /// No segment at all was collected.
    NoSegments,
    /// A time of chunk `chunk`, once moved by the chunk's offset, does not
    /// fit in 64 bits of milliseconds.
    TimeOverflow { chunk: u64 },
}

/// The segments collected so far, in time of the whole recording.
pub struct Transcript {
    segments: Vec<Segment>,
    chunk_ms: u64,
    chunks: u64,
    received: Ghost<Seq<Seq<SegmentView>>>,
}

impl Transcript {
    /// Length of every chunk but the last, in milliseconds.
    pub closed spec fn chunk_ms_spec(self) -> int {
        self.chunk_ms as int
    }

    /// The segment lists received so far, in time local to their chunk.
    pub closed spec fn received(self) -> Seq<Seq<SegmentView>> {
        self.received@
    }

    /// The merged segments.
    pub closed spec fn segments_spec(self) -> Seq<SegmentView> {
        views(self.segments@)
    }

    /// Offset of the next chunk.
    pub open spec fn next_offset(self) -> int {
        self.received().len() * self.chunk_ms_spec()
    }

    /// Whether every time of `segs`, moved by the next chunk's offset, fits
    /// in a `u64`.
    pub open spec fn fits(self, segs: Seq<Segment>) -> bool {
        forall|k: int|
            0 <= k < segs.len() ==> self.next_offset() + (#[trigger] segs[k]).start_ms <= u64::MAX
                && self.next_offset() + segs[k].end_ms <= u64::MAX
    }

    /// Invariant: the segments held are the received chunks, each moved by
    /// its offset, in chunk order.
    pub closed spec fn wf(self) -> bool {
        &&& views(self.segments@) == merged(self.received@, self.chunk_ms as int)
        &&& self.chunks == self.received@.len()
        &&& self.chunks <= self.segments@.len()
    }

    /// An empty transcript for chunks of `chunk_seconds` seconds.
    pub fn new(chunk_seconds: u32) -> (t: Transcript)
        ensures
            t.wf(),
            t.received().len() == 0,
            t.chunk_ms_spec() == chunk_seconds * MS_PER_SECOND,
    {
        let t = Transcript {
            segments: Vec::new(),
            chunk_ms: chunk_seconds as u64 * MS_PER_SECOND,
            chunks: 0,
            received: Ghost(Seq::empty()),
        };
        assert(views(t.segments@) =~= Seq::empty());
        t
    }

    /// Adds the segments of the next chunk, given in time local to the
    /// chunk, moving each by the chunk's offset `index * chunk_ms`.  A chunk
    /// without segments is refused and ends the transcription.
    pub fn add_chunk(&mut self, segs: Vec<Segment>) -> (r: Result<(), TranscribeError>)
        requires
            old(self).wf(),
        ensures
            final(self).wf(),
            final(self).chunk_ms_spec() == old(self).chunk_ms_spec(),
            segs@.len() == 0 ==> r == Err::<(), TranscribeError>(
                TranscribeError::EmptyChunk { chunk: old(self).received().len() as u64 },
            ),
            segs@.len() > 0 && !old(self).fits(segs@) ==> r == Err::<(), TranscribeError>(
                TranscribeError::TimeOverflow { chunk: old(self).received().len() as u64 },
            ),
            r is Err ==> final(self).received() == old(self).received()
                && final(self).segments_spec() == old(self).segments_spec(),
            r is Ok <==> segs@.len() > 0 && old(self).fits(segs@),
            r is Ok ==> final(self).received() == old(self).received().push(views(segs@)),
    {
        if segs.len() == 0 {
            return Err(TranscribeError::EmptyChunk { chunk: self.chunks });
        }
        let offset = match self.chunks.checked_mul(self.chunk_ms) {
            Some(o) => o,
            None => {
                assert(!self.fits(segs@)) by {
                    assert(self.next_offset() + segs@[0].start_ms > u64::MAX);
                }
                return Err(TranscribeError::TimeOverflow { chunk: self.chunks });
            },
        };
        let mut moved: Vec<Segment> = Vec::new();
        let mut i: usize = 0;
        while i < segs.len()
            invariant
                self.wf(),
                *self == *old(self),
                segs@.len() > 0,
                i <= segs@.len(),
                offset == self.next_offset(),
                moved@.len() == i,
                forall|k: int| 0 <= k < i ==> self.next_offset() + (#[trigger] segs@[k]).start_ms <= u64::MAX
                    && self.next_offset() + segs@[k].end_ms <= u64::MAX,
                views(moved@) =~= shifted(views(segs@), offset as int).take(i as int),
            decreases segs@.len() - i,
        {
            let seg = &segs[i];
            let start = match seg.start_ms.checked_add(offset) {
                Some(t) => t,
                None => {
                    assert(!self.fits(segs@)) by {
                        assert(self.next_offset() + segs@[i as int].start_ms > u64::MAX);
                    }
                    return Err(TranscribeError::TimeOverflow { chunk: self.chunks });
                },
            };
            let end = match seg.end_ms.checked_add(offset) {
                Some(t) => t,
                None => {
                    assert(!self.fits(segs@)) by {
                        assert(self.next_offset() + segs@[i as int].end_ms > u64::MAX);
                    }
                    return Err(TranscribeError::TimeOverflow { chunk: self.chunks });
                },
            };
            moved.push(Segment { start_ms: start, end_ms: end, text: seg.text.clone() });
            i = i + 1;
        }
        let ghost old_segments = self.segments@;
        let ghost moved_segments = moved@;
        assert(views(moved_segments) =~= shifted(views(segs@), offset as int));
        self.segments.append(&mut moved);
        let merged_len = self.segments.len();
        assert(self.chunks < merged_len);
        proof {
            assert(self.segments@ =~= old_segments + moved_segments);
            assert(views(self.segments@) =~= views(old_segments) + shifted(
                views(segs@),
                offset as int,
            ));
            let chunks = self.received@.push(views(segs@));
            assert(chunks.drop_last() =~= self.received@);
            self.received@ = chunks;
        }
        self.chunks = self.chunks + 1;
        Ok(())
    }

    /// The merged segments, or `NoSegments` when no chunk was added.
    pub fn finish(self) -> (r: Result<Vec<Segment>, TranscribeError>)
        requires
            self.wf(),
        ensures
            r is Ok <==> self.received().len() > 0,
            r matches Ok(v) ==> views(v@) == merged(self.received(), self.chunk_ms_spec()),
            r is Err ==> r == Err::<Vec<Segment>, TranscribeError>(TranscribeError::NoSegments),
    {
        if self.chunks == 0 {
            Err(TranscribeError::NoSegments)
        } else {
            Ok(self.segments)
        }
    }
}

/// The text of each segment, in segment order: the lines to translate.
pub fn line_texts(segments: &Vec<Segment>) -> (r: Vec<String>)
    ensures
        r@.len() == segments@.len(),
        forall|k: int| 0 <= k < r@.len() ==> #[trigger] r@[k]@ == segments@[k].text@,
{
    let mut out: Vec<String> = Vec::new();
    let mut k: usize = 0;
    while k < segments.len()
        invariant
            k <= segments@.len(),
            out@.len() == k,
            forall|j: int| 0 <= j < k ==> #[trigger] out@[j]@ == segments@[j].text@,
        decreases segments@.len() - k,
    {
        out.push(segments[k].text.clone());
        k = k + 1;
    }
    out
}

/// The subtitle text of one line: the translation alone, or, when
/// `bilingual`, the translation above the source line.
pub open spec fn display_line(source: Seq<char>, translated: Seq<char>, bilingual: bool) -> Seq<
    char,
> {
    if bilingual {
        translated + seq!['\n'] + source
    } else {
        translated
    }
}

/// The subtitle text of every line, from the source lines and their
/// translations, index by index.
pub fn display_lines(sources: &Vec<String>, translations: &Vec<String>, bilingual: bool) -> (r:
    Vec<String>)
    requires
        sources@.len() == translations@.len(),
    ensures
        r@.len() == sources@.len(),
        forall|k: int|
            0 <= k < r@.len() ==> #[trigger] r@[k]@ == display_line(
                sources@[k]@,
                translations@[k]@,
                bilingual,
            ),
{
    let mut out: Vec<String> = Vec::new();
    let mut k: usize = 0;
    while k < sources.len()
        invariant
            sources@.len() == translations@.len(),
            k <= sources@.len(),
            out@.len() == k,
            forall|j: int|
                0 <= j < k ==> #[trigger] out@[j]@ == display_line(
                    sources@[j]@,
                    translations@[j]@,
                    bilingual,
                ),
        decreases sources@.len() - k,
    {
        let line = if bilingual {
            let mut l = translations[k].clone();
            push_char(&mut l, '\n');
            l.append(sources[k].as_str());
            l
        } else {
            translations[k].clone()
        };
        out.push(line);
        k = k + 1;
    }
    out
}

} // verus!
