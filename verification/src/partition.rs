//! Dividing an axis among workers.

use vstd::prelude::*;

verus! {

/// A run of consecutive lines: from `start` up to, not including, `end`.
#[derive(Clone, Copy, PartialEq, Eq, Debug, Structural)]
pub struct Span {
    pub start: u32,
    pub end: u32,
}

impl Span {
    pub open spec fn contains(self, line: int) -> bool {
        self.start <= line < self.end
    }
}

/// Where the span of worker `id` begins: every worker but the last takes
/// `len / workers` lines.
pub open spec fn span_start(len: int, workers: int, id: int) -> int {
    id * (len / workers)
}

/// Where the span of worker `id` ends. The last worker goes on to the end of the
/// axis, and so takes what the division left over.
pub open spec fn span_end(len: int, workers: int, id: int) -> int {
    if id == workers - 1 {
        len
    } else {
        (id + 1) * (len / workers)
    }
}

/// The spans of all workers, in order.
pub open spec fn partition_spans(len: u32, workers: u32) -> Seq<Span> {
    Seq::new(
        workers as nat,
        |id: int|
            Span {
                start: span_start(len as int, workers as int, id) as u32,
                end: span_end(len as int, workers as int, id) as u32,
            },
    )
}

/// The spans lie end to end from 0 to `len`: the first begins at 0, each begins
/// where the one before it ended, and the last ends at `len`.
pub open spec fn tiles(spans: Seq<Span>, len: int) -> bool {
    &&& spans.len() >= 1
    &&& spans[0].start == 0
    &&& spans[spans.len() - 1].end == len
    &&& forall|i: int| 0 <= i < spans.len() ==> (#[trigger] spans[i]).start <= spans[i].end
    &&& forall|i: int| 0 <= i < spans.len() - 1 ==> (#[trigger] spans[i]).end == spans[i + 1].start
}

/// The bounds of every span lie on the axis, in order.
pub proof fn lemma_span_bounds(len: int, workers: int, id: int)
    requires
        0 <= len,
        1 <= workers,
        0 <= id < workers,
    ensures
        0 <= span_start(len, workers, id) <= span_end(len, workers, id) <= len,
        id + 1 < workers ==> span_end(len, workers, id) == span_start(len, workers, id + 1),
        span_start(len, workers, 0) == 0,
        span_end(len, workers, workers - 1) == len,
{
    let c = len / workers;
    vstd::arithmetic::div_mod::lemma_fundamental_div_mod(len, workers);
    vstd::arithmetic::div_mod::lemma_mod_bound(len, workers);
    vstd::arithmetic::div_mod::lemma_div_pos_is_pos(len, workers);
    assert(workers * c <= len);
    assert(0 <= id * c && id * c <= (id + 1) * c && (id + 1) * c <= workers * c)
        by (nonlinear_arith)
        requires
            0 <= c,
            0 <= id,
            id + 1 <= workers,
    ;
    assert(0 * c == 0);
}

/// The spans of a partition lie end to end over the whole axis.
pub proof fn lemma_partition_tiles(len: u32, workers: u32)
    requires
        workers >= 1,
    ensures
        partition_spans(len, workers).len() == workers,
        tiles(partition_spans(len, workers), len as int),
        forall|id: int|
            0 <= id < workers ==> (#[trigger] partition_spans(len, workers)[id]).start
                == span_start(len as int, workers as int, id),
        forall|id: int|
            0 <= id < workers ==> (#[trigger] partition_spans(len, workers)[id]).end == span_end(
                len as int,
                workers as int,
                id,
            ),
{
    let spans = partition_spans(len, workers);
    assert forall|id: int| 0 <= id < workers implies {
        &&& (#[trigger] spans[id]).start == span_start(len as int, workers as int, id)
        &&& spans[id].end == span_end(len as int, workers as int, id)
        &&& spans[id].start <= spans[id].end
        &&& id + 1 < workers ==> spans[id].end == span_start(len as int, workers as int, id + 1)
    } by {
        lemma_span_bounds(len as int, workers as int, id);
    }
    lemma_span_bounds(len as int, workers as int, 0);
    assert forall|i: int| 0 <= i < spans.len() - 1 implies (#[trigger] spans[i]).end == spans[i
        + 1].start by {
        assert(spans[i + 1].start == span_start(len as int, workers as int, i + 1));
    }
}

/// In spans that lie end to end, a later span begins no earlier than an earlier
/// one ends.
pub proof fn lemma_tiles_ordered(spans: Seq<Span>, len: int, i: int, j: int)
    requires
        tiles(spans, len),
        0 <= i < j < spans.len(),
    ensures
        spans[i].end <= spans[j].start,
    decreases j - i,
{
    if i + 1 < j {
        lemma_tiles_ordered(spans, len, i, j - 1);
        assert(spans[j - 1].start <= spans[j - 1].end);
        assert(spans[j - 1].end == spans[j].start);
    } else {
        assert(spans[i].end == spans[i + 1].start);
    }
}

/// Searching from span `from` onwards finds a span that contains `line`.
proof fn lemma_tiles_reach(spans: Seq<Span>, len: int, line: int, from: int) -> (at: int)
    requires
        tiles(spans, len),
        0 <= from < spans.len(),
        spans[from].start <= line < len,
    ensures
        0 <= at < spans.len(),
        spans[at].contains(line),
    decreases spans.len() - from,
{
    if line < spans[from].end {
        from
    } else {
        assert(spans[from].end == spans[from + 1].start);
        lemma_tiles_reach(spans, len, line, from + 1)
    }
}

/// Spans that lie end to end cover the axis exactly once: every line of the axis
/// is in one span, and in no other.
pub proof fn lemma_tiles_cover(spans: Seq<Span>, len: int, line: int)
    requires
        tiles(spans, len),
        0 <= line < len,
    ensures
        exists|i: int| 0 <= i < spans.len() && (#[trigger] spans[i]).contains(line),
        forall|i: int, j: int|
            0 <= i < spans.len() && 0 <= j < spans.len() && (#[trigger] spans[i]).contains(line)
                && (#[trigger] spans[j]).contains(line) ==> i == j,
{
    let at = lemma_tiles_reach(spans, len, line, 0);
    assert(spans[at].contains(line));
    assert forall|i: int, j: int|
        0 <= i < spans.len() && 0 <= j < spans.len() && (#[trigger] spans[i]).contains(line) && (
        #[trigger] spans[j]).contains(line) implies i == j by {
        if i < j {
            lemma_tiles_ordered(spans, len, i, j);
        } else if j < i {
            lemma_tiles_ordered(spans, len, j, i);
        }
    }
}

/// Spans that lie end to end stay on the axis.
pub proof fn lemma_tiles_within(spans: Seq<Span>, len: int, i: int)
    requires
        tiles(spans, len),
        0 <= i < spans.len(),
    ensures
        0 <= spans[i].start <= spans[i].end <= len,
{
    if i + 1 < spans.len() {
        lemma_tiles_ordered(spans, len, i, spans.len() - 1);
        assert(spans[spans.len() - 1].start <= spans[spans.len() - 1].end);
    }
}

/// However many workers share an axis, each of its lines falls to exactly one of
/// them; with more workers than lines, all but the last get nothing.
pub proof fn lemma_partition_covers(len: u32, workers: u32, line: int)
    requires
        workers >= 1,
        0 <= line < len,
    ensures
        exists|id: int|
            0 <= id < workers && (#[trigger] partition_spans(len, workers)[id]).contains(line),
        forall|i: int, j: int|
            0 <= i < workers && 0 <= j < workers && (#[trigger] partition_spans(
                len,
                workers,
            )[i]).contains(line) && (#[trigger] partition_spans(len, workers)[j]).contains(line)
                ==> i == j,
        workers > len ==> forall|id: int|
            0 <= id < workers - 1 ==> (#[trigger] partition_spans(len, workers)[id]).start
                == partition_spans(len, workers)[id].end,
{
    lemma_partition_tiles(len, workers);
    lemma_tiles_cover(partition_spans(len, workers), len as int, line);
    if workers > len {
        vstd::arithmetic::div_mod::lemma_basic_div(len as int, workers as int);
        assert forall|id: int| 0 <= id < workers - 1 implies (#[trigger] partition_spans(
            len,
            workers,
        )[id]).start == partition_spans(len, workers)[id].end by {
            assert(id * 0 == 0 && (id + 1) * 0 == 0);
        }
    }
}

/// The span of one worker.
pub fn span_for(len: u32, workers: u32, id: u32) -> (span: Span)
    requires
        workers >= 1,
        id < workers,
    ensures
        span == partition_spans(len, workers)[id as int],
        span.start == span_start(len as int, workers as int, id as int),
        span.end == span_end(len as int, workers as int, id as int),
{
    proof {
        lemma_span_bounds(len as int, workers as int, id as int);
    }
    let chunk: u32 = len / workers;
    let start: u32 = id * chunk;
    let end: u32 = if id == workers - 1 {
        len
    } else {
        (id + 1) * chunk
    };
    Span { start, end }
}

/// Divides an axis of `len` lines among `workers` workers.
///
/// The spans lie end to end from 0 to `len`, so no line is left out and none is
/// given twice.
pub fn partition(len: u32, workers: u32) -> (spans: Vec<Span>)
    requires
        workers >= 1,
    ensures
        spans@ == partition_spans(len, workers),
        tiles(spans@, len as int),
{
    let mut spans: Vec<Span> = Vec::new();
    let mut id: u32 = 0;
    while id < workers
        invariant
            workers >= 1,
            id <= workers,
            spans.len() == id,
            forall|i: int| 0 <= i < id ==> spans[i] == partition_spans(len, workers)[i],
        decreases workers - id,
    {
        spans.push(span_for(len, workers, id));
        id = id + 1;
    }
    proof {
        lemma_partition_tiles(len, workers);
        assert(spans@ =~= partition_spans(len, workers));
    }
    spans
}

} // verus!
