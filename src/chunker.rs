//! Splitting a byte stream into records around a sentinel.
//!
//! The bytes arrive in pieces (`Chunker::feed`); completed records are taken
//! out with `Chunker::next_chunk`; `Chunker::finish` announces the end of the
//! input, after which the partial record left in the buffer is flushed.
use vstd::prelude::*;
use vstd::slice::{slice_subrange, slice_to_vec};

verus! {

/// `pat` occurs in `s` at position `i`. An empty pattern occurs nowhere.
pub open spec fn matches_at(s: Seq<u8>, pat: Seq<u8>, i: int) -> bool {
    &&& pat.len() > 0
    &&& 0 <= i
    &&& i + pat.len() <= s.len()
    &&& s.subrange(i, i + pat.len()) == pat
}

/// The chunks of `s` that start at `from`, scanning for the sentinel from
/// position `pos` on. A sentinel that `marks_end` closes its chunk and belongs
/// to it; otherwise it opens the next chunk. With `flush`, the bytes after the
/// last sentinel form a final chunk; without it they are left pending, as when
/// more input may follow. Empty chunks are never produced.
pub open spec fn cut(s: Seq<u8>, pat: Seq<u8>, marks_end: bool, from: int, pos: int, flush: bool) -> Seq<Seq<u8>>
    decreases s.len() - pos,
{
    if pat.len() == 0 || pos < 0 || pos + pat.len() > s.len() {
        if flush && 0 <= from < s.len() {
            seq![s.subrange(from, s.len() as int)]
        } else {
            seq![]
        }
    } else if matches_at(s, pat, pos) {
        let end = if marks_end { pos + pat.len() } else { pos };
        let rest = cut(s, pat, marks_end, end, pos + pat.len(), flush);
        if from < end {
            seq![s.subrange(from, end)] + rest
        } else {
            rest
        }
    } else {
        cut(s, pat, marks_end, from, pos + 1, flush)
    }
}

/// The chunks of a complete input.
pub open spec fn chunks_of(s: Seq<u8>, pat: Seq<u8>, marks_end: bool) -> Seq<Seq<u8>> {
    cut(s, pat, marks_end, 0, 0, true)
}

/// The chunks of an input that may still grow: those that no further byte can change.
pub open spec fn settled_chunks(s: Seq<u8>, pat: Seq<u8>, marks_end: bool) -> Seq<Seq<u8>> {
    cut(s, pat, marks_end, 0, 0, false)
}

/// The first position `p` with `start <= p` at which `needle` occurs in
/// `haystack`, if any. An empty needle is never found.
fn find_from(needle: &[u8], haystack: &[u8], start: usize) -> (r: Option<usize>)
    ensures
        r matches Some(p) ==> start <= p && matches_at(haystack@, needle@, p as int),
        forall|q: int|
            start <= q && (r matches Some(p) ==> q < p) ==> !#[trigger] matches_at(
                haystack@,
                needle@,
                q,
            ),
{
    let n = needle.len();
    let h = haystack.len();
    if n == 0 || n > h {
        return None;
    }
    let mut i: usize = start;
    while i <= h - n
        invariant
            0 < n <= h,
            n == needle@.len(),
            h == haystack@.len(),
            start <= i,
            forall|q: int| start <= q < i ==> !#[trigger] matches_at(haystack@, needle@, q),
        decreases h - i,
    {
        let mut k: usize = 0;
        let mut same = true;
        while k < n
            invariant
                0 < n <= h,
                n == needle@.len(),
                h == haystack@.len(),
                i <= h - n,
                k <= n,
                same <==> forall|j: int| 0 <= j < k ==> haystack@[i + j] == needle@[j],
            decreases n - k,
        {
            if haystack[i + k] != needle[k] {
                same = false;
            }
            k = k + 1;
        }
        if same {
            assert(haystack@.subrange(i as int, i + n) =~= needle@);
            return Some(i);
        }
        assert(!matches_at(haystack@, needle@, i as int)) by {
            if matches_at(haystack@, needle@, i as int) {
                let j = choose|j: int| 0 <= j < n && haystack@[i + j] != needle@[j];
                assert(haystack@.subrange(i as int, i + n)[j] == needle@[j]);
            }
        }
        i = i + 1;
    }
    assert forall|q: int| start <= q implies !#[trigger] matches_at(haystack@, needle@, q) by {}
    None
}

/// The first position at which `needle` occurs in `haystack`, if any.
pub fn first_index_of(needle: &[u8], haystack: &[u8]) -> (r: Option<usize>)
    ensures
        r matches Some(p) ==> matches_at(haystack@, needle@, p as int),
        forall|q: int|
            0 <= q && (r matches Some(p) ==> q < p) ==> !#[trigger] matches_at(haystack@, needle@, q),
{
    find_from(needle, haystack, 0)
}

/// Moves the bytes from `from` on to the front of `buf`, dropping those before.
fn compact_buf(from: usize, buf: &mut Vec<u8>) -> (r: usize)
    requires
        from <= old(buf)@.len(),
    ensures
        r == from,
        final(buf)@ == old(buf)@.subrange(from as int, old(buf)@.len() as int),
{
    if from != 0 {
        let len = buf.len();
        let mut i: usize = from;
        while i < len
            invariant
                from <= i <= len,
                len == buf@.len(),
                len == old(buf)@.len(),
                forall|j: int| 0 <= j < i - from ==> buf@[j] == old(buf)@[j + from],
                forall|j: int| i <= j < len ==> buf@[j] == old(buf)@[j],
            decreases len - i,
        {
            let b = buf[i];
            buf.set(i - from, b);
            i = i + 1;
        }
        buf.truncate(len - from);
        assert(buf@ =~= old(buf)@.subrange(from as int, old(buf)@.len() as int));
    }
    from
}

/// Appends `data` to `buf`.
fn append_bytes(buf: &mut Vec<u8>, data: &[u8])
    ensures
        final(buf)@ == old(buf)@ + data@,
{
    let mut i: usize = 0;
    while i < data.len()
        invariant
            i <= data@.len(),
            buf@ == old(buf)@ + data@.subrange(0, i as int),
        decreases data@.len() - i,
    {
        buf.push(data[i]);
        i = i + 1;
        assert(buf@ =~= old(buf)@ + data@.subrange(0, i as int));
    }
    assert(data@.subrange(0, i as int) =~= data@);
}

/// `x` starts with `s`: `x` is what `s` may yet grow into.
pub open spec fn extends(x: Seq<u8>, s: Seq<u8>) -> bool {
    s.len() <= x.len() && x.subrange(0, s.len() as int) == s
}

/// Where `w` is the part of `x` from `k` on, `pat` occurs in `w` at `i`
/// exactly when it occurs in `x` at `k + i`.
proof fn lemma_match_window(x: Seq<u8>, w: Seq<u8>, k: int, pat: Seq<u8>, i: int)
    requires
        0 <= k,
        k + w.len() <= x.len(),
        w == x.subrange(k, k + w.len()),
        0 <= i,
        i + pat.len() <= w.len(),
    ensures
        matches_at(w, pat, i) == matches_at(x, pat, k + i),
{
    assert(w.subrange(i, i + pat.len()) =~= x.subrange(k + i, k + i + pat.len()));
}

/// Positions where the sentinel does not occur can be skipped over.
proof fn lemma_cut_skip(
    x: Seq<u8>,
    pat: Seq<u8>,
    marks_end: bool,
    from: int,
    s1: int,
    s2: int,
    flush: bool,
)
    requires
        0 <= s1 <= s2,
        forall|q: int| s1 <= q < s2 ==> !#[trigger] matches_at(x, pat, q),
    ensures
        cut(x, pat, marks_end, from, s1, flush) == cut(x, pat, marks_end, from, s2, flush),
    decreases s2 - s1,
{
    if s1 < s2 {
        if pat.len() == 0 || s1 + pat.len() > x.len() {
        } else {
            assert(!matches_at(x, pat, s1));
            lemma_cut_skip(x, pat, marks_end, from, s1 + 1, s2, flush);
        }
    }
}

proof fn lemma_cut_flatten(s: Seq<u8>, pat: Seq<u8>, me: bool, from: int, pos: int)
    requires
        0 <= from <= pos <= s.len(),
    ensures
        cut(s, pat, me, from, pos, true).flatten() == s.subrange(from, s.len() as int),
    decreases s.len() - pos,
{
    let c = cut(s, pat, me, from, pos, true);
    if pat.len() == 0 || pos + pat.len() > s.len() {
        if from < s.len() {
            seq![s.subrange(from, s.len() as int)].lemma_flatten_one_element();
        } else {
            assert(s.subrange(from, s.len() as int) =~= Seq::<u8>::empty());
        }
    } else if matches_at(s, pat, pos) {
        let end = if me { pos + pat.len() } else { pos };
        let rest = cut(s, pat, me, end, pos + pat.len(), true);
        lemma_cut_flatten(s, pat, me, end, pos + pat.len());
        if from < end {
            let head = s.subrange(from, end);
            assert((seq![head] + rest).first() == head);
            assert((seq![head] + rest).drop_first() =~= rest);
            assert(head + s.subrange(end, s.len() as int) =~= s.subrange(from, s.len() as int));
        }
    } else {
        lemma_cut_flatten(s, pat, me, from, pos + 1);
    }
}

/// Handing out the chunks loses and adds nothing: joined in order they give
/// back the input, whatever the sentinel.
pub proof fn lemma_chunks_round_trip(s: Seq<u8>, pat: Seq<u8>, marks_end: bool)
    ensures
        chunks_of(s, pat, marks_end).flatten() == s,
{
    lemma_cut_flatten(s, pat, marks_end, 0, 0);
    assert(s.subrange(0, s.len() as int) =~= s);
}

/// `c` ends with `pat`.
pub open spec fn ends_with(c: Seq<u8>, pat: Seq<u8>) -> bool {
    pat.len() <= c.len() && c.subrange(c.len() - pat.len(), c.len() as int) == pat
}

/// `c` begins with `pat`.
pub open spec fn begins_with(c: Seq<u8>, pat: Seq<u8>) -> bool {
    pat.len() <= c.len() && c.subrange(0, pat.len() as int) == pat
}

proof fn lemma_cut_ends(s: Seq<u8>, pat: Seq<u8>, from: int, pos: int)
    requires
        0 <= from <= pos,
    ensures
        forall|i: int|
            0 <= i < cut(s, pat, true, from, pos, true).len() - 1 ==> ends_with(
                #[trigger] cut(s, pat, true, from, pos, true)[i],
                pat,
            ),
    decreases s.len() - pos,
{
    if pat.len() == 0 || pos + pat.len() > s.len() {
    } else if matches_at(s, pat, pos) {
        let end = pos + pat.len();
        let rest = cut(s, pat, true, end, end, true);
        lemma_cut_ends(s, pat, end, end);
        let head = s.subrange(from, end);
        assert(cut(s, pat, true, from, pos, true) == seq![head] + rest);
        assert(head.subrange(head.len() - pat.len(), head.len() as int) =~= s.subrange(pos, end));
        assert forall|i: int| 0 <= i < (seq![head] + rest).len() - 1 implies ends_with(
            #[trigger] (seq![head] + rest)[i],
            pat,
        ) by {
            if i > 0 {
                assert((seq![head] + rest)[i] == rest[i - 1]);
            }
        }
    } else {
        assert(cut(s, pat, true, from, pos, true) == cut(s, pat, true, from, pos + 1, true));
        lemma_cut_ends(s, pat, from, pos + 1);
    }
}

proof fn lemma_cut_begins(s: Seq<u8>, pat: Seq<u8>, from: int, pos: int)
    requires
        0 <= from <= pos,
        matches_at(s, pat, from) ==> from == pos || from + pat.len() <= pos,
    ensures
        forall|i: int|
            0 <= i < cut(s, pat, false, from, pos, true).len() && (i > 0 || matches_at(s, pat, from))
                ==> begins_with(#[trigger] cut(s, pat, false, from, pos, true)[i], pat),
    decreases s.len() - pos,
{
    let c = cut(s, pat, false, from, pos, true);
    if pat.len() == 0 || pos < 0 || pos + pat.len() > s.len() {
        if matches_at(s, pat, from) && from < s.len() {
            assert(c[0].subrange(0, pat.len() as int) =~= s.subrange(from, from + pat.len()));
        }
    } else if matches_at(s, pat, pos) {
        let rest = cut(s, pat, false, pos, pos + pat.len(), true);
        lemma_cut_begins(s, pat, pos, pos + pat.len());
        if from < pos {
            let head = s.subrange(from, pos);
            assert(c == seq![head] + rest);
            assert forall|i: int|
                0 <= i < (seq![head] + rest).len() && (i > 0 || matches_at(s, pat, from))
                implies begins_with(#[trigger] (seq![head] + rest)[i], pat) by {
                if i > 0 {
                    assert((seq![head] + rest)[i] == rest[i - 1]);
                } else {
                    assert(head.subrange(0, pat.len() as int) =~= s.subrange(from, from + pat.len()));
                }
            }
        }
    } else {
        assert(c == cut(s, pat, false, from, pos + 1, true));
        lemma_cut_begins(s, pat, from, pos + 1);
    }
}

/// No chunk splits a sentinel: where the sentinel marks the end of a chunk,
/// every chunk but the last ends with it; where it marks the start, every
/// chunk but the first begins with it.
pub proof fn lemma_chunks_keep_sentinel(s: Seq<u8>, pat: Seq<u8>, marks_end: bool)
    ensures
        marks_end ==> forall|i: int|
            0 <= i < chunks_of(s, pat, marks_end).len() - 1 ==> ends_with(
                #[trigger] chunks_of(s, pat, marks_end)[i],
                pat,
            ),
        !marks_end ==> forall|i: int|
            0 < i < chunks_of(s, pat, marks_end).len() ==> begins_with(
                #[trigger] chunks_of(s, pat, marks_end)[i],
                pat,
            ),
{
    if marks_end {
        lemma_cut_ends(s, pat, 0, 0);
    } else {
        lemma_cut_begins(s, pat, 0, 0);
    }
}

proof fn lemma_cut_settled_prefix(s: Seq<u8>, x: Seq<u8>, pat: Seq<u8>, me: bool, from: int, pos: int)
    requires
        extends(x, s),
        0 <= from <= pos,
    ensures
        cut(s, pat, me, from, pos, false).is_prefix_of(cut(x, pat, me, from, pos, true)),
    decreases s.len() - pos,
{
    let a = cut(s, pat, me, from, pos, false);
    let b = cut(x, pat, me, from, pos, true);
    if pat.len() == 0 || pos + pat.len() > s.len() {
        assert(a =~= Seq::<Seq<u8>>::empty());
        assert(a =~= b.subrange(0, 0));
    } else {
        lemma_match_window(x, s, 0, pat, pos);
        assert(s =~= x.subrange(0, s.len() as int));
        if matches_at(s, pat, pos) {
            let end = if me { pos + pat.len() } else { pos };
            lemma_cut_settled_prefix(s, x, pat, me, end, pos + pat.len());
            let ra = cut(s, pat, me, end, pos + pat.len(), false);
            let rb = cut(x, pat, me, end, pos + pat.len(), true);
            if from < end {
                assert(s.subrange(from, end) =~= x.subrange(from, end));
                assert(a == seq![s.subrange(from, end)] + ra);
                assert(b == seq![x.subrange(from, end)] + rb);
                assert(a =~= b.subrange(0, a.len() as int));
            }
        } else {
            lemma_cut_settled_prefix(s, x, pat, me, from, pos + 1);
        }
    }
}

/// A chunk settled before the end of the input is final: whatever bytes
/// follow, the chunks of the complete input begin with the settled ones.
pub proof fn lemma_settled_chunks_are_final(s: Seq<u8>, x: Seq<u8>, pat: Seq<u8>, marks_end: bool)
    requires
        s.is_prefix_of(x),
    ensures
        settled_chunks(s, pat, marks_end).is_prefix_of(chunks_of(x, pat, marks_end)),
{
    assert(extends(x, s));
    lemma_cut_settled_prefix(s, x, pat, marks_end, 0, 0);
}

/// An empty input has no chunks.
pub proof fn lemma_chunks_of_empty(pat: Seq<u8>, marks_end: bool)
    ensures
        chunks_of(Seq::<u8>::empty(), pat, marks_end).len() == 0,
{
}

/// A sentinel and whether it marks the end of a chunk (else its start).
pub struct Delim<'a> {
    sentinel: &'a [u8],
    marks_chunk_end: bool,
}

impl<'a> Delim<'a> {
    pub fn new(sentinel: &'a [u8], marks_chunk_end: bool) -> (d: Delim<'a>)
        ensures
            d.sentinel() == sentinel@,
            d.marks_chunk_end() == marks_chunk_end,
    {
        Delim { sentinel, marks_chunk_end }
    }

    pub closed spec fn sentinel(&self) -> Seq<u8> {
        self.sentinel@
    }

    pub closed spec fn marks_chunk_end(&self) -> bool {
        self.marks_chunk_end
    }
}

/// Splits the bytes fed to it into chunks around a sentinel.
///
/// A byte is searched once, but for the last few before new input arrives,
/// where a sentinel may begin that the new input completes. The bytes
/// already handed out are dropped from the buffer when more arrive, so memory
/// stays bounded by the largest chunk.
pub struct Chunker<'a> {
    sentinel: &'a [u8],
    marks_chunk_end: bool,
    buf: Vec<u8>,
    /// Start of the chunk under way, in `buf`.
    from: usize,
    /// Where the next search for the sentinel begins, in `buf`.
    searched: usize,
    ended: bool,
    done: bool,
    /// How many bytes have been dropped from the front of `buf`.
    base: Ghost<int>,
    fed: Ghost<Seq<u8>>,
    emitted: Ghost<Seq<Seq<u8>>>,
}

/// A chunker for the sentinel of `delim`, with nothing fed yet.
pub fn chunks<'a>(delim: &Delim<'a>) -> (c: Chunker<'a>)
    ensures
        c.wf(),
        c.sentinel() == delim.sentinel(),
        c.marks_chunk_end() == delim.marks_chunk_end(),
        c.fed() == Seq::<u8>::empty(),
        c.emitted() == Seq::<Seq<u8>>::empty(),
        !c.ended(),
{
    let c = Chunker {
        sentinel: delim.sentinel,
        marks_chunk_end: delim.marks_chunk_end,
        buf: Vec::new(),
        from: 0,
        searched: 0,
        ended: false,
        done: false,
        base: Ghost(0),
        fed: Ghost(Seq::empty()),
        emitted: Ghost(Seq::empty()),
    };
    assert(c.buf@ =~= c.fed@.subrange(0, 0));
    assert forall|x: Seq<u8>| #[trigger] extends(x, c.fed@) implies {
        &&& cut(x, c.sentinel@, c.marks_chunk_end, 0, 0, true) == c.emitted@ + cut(x, c.sentinel@, c.marks_chunk_end, 0, 0, true)
        &&& cut(x, c.sentinel@, c.marks_chunk_end, 0, 0, false) == c.emitted@ + cut(x, c.sentinel@, c.marks_chunk_end, 0, 0, false)
    } by {
        assert(c.emitted@ + cut(x, c.sentinel@, c.marks_chunk_end, 0, 0, true) =~= cut(x, c.sentinel@, c.marks_chunk_end, 0, 0, true));
        assert(c.emitted@ + cut(x, c.sentinel@, c.marks_chunk_end, 0, 0, false) =~= cut(x, c.sentinel@, c.marks_chunk_end, 0, 0, false));
    }
    c
}

/// What has been handed out is the start of what a complete input gives.
proof fn lemma_emitted_prefix(c: &Chunker)
    requires
        c.wf(),
    ensures
        c.emitted().len() <= chunks_of(c.fed(), c.sentinel(), c.marks_chunk_end()).len(),
        c.emitted() == chunks_of(c.fed(), c.sentinel(), c.marks_chunk_end()).subrange(
            0,
            c.emitted().len() as int,
        ),
{
    if !c.done {
        assert(extends(c.fed@, c.fed@)) by {
            assert(c.fed@.subrange(0, c.fed@.len() as int) =~= c.fed@);
        }
    }
    assert(chunks_of(c.fed(), c.sentinel(), c.marks_chunk_end()).subrange(0, c.emitted().len() as int) =~= c.emitted());
}

impl<'a> Chunker<'a> {
    pub closed spec fn sentinel(&self) -> Seq<u8> {
        self.sentinel@
    }

    pub closed spec fn marks_chunk_end(&self) -> bool {
        self.marks_chunk_end
    }

    /// All the bytes fed so far.
    pub closed spec fn fed(&self) -> Seq<u8> {
        self.fed@
    }

    /// All the chunks handed out so far.
    pub closed spec fn emitted(&self) -> Seq<Seq<u8>> {
        self.emitted@
    }

    /// Whether the end of the input has been announced.
    pub closed spec fn ended(&self) -> bool {
        self.ended
    }

    pub closed spec fn wf(&self) -> bool {
        let pat = self.sentinel@;
        let me = self.marks_chunk_end;
        let f = self.base@ + self.from;
        let s = self.base@ + self.searched;
        &&& 0 <= self.base@ <= self.fed@.len()
        &&& self.buf@ == self.fed@.subrange(self.base@, self.fed@.len() as int)
        &&& self.from <= self.searched <= self.buf@.len()
        &&& self.done ==> self.ended && self.emitted@ == chunks_of(self.fed@, pat, me)
        &&& !self.done ==> forall|x: Seq<u8>| #[trigger] extends(x, self.fed@) ==> {
            &&& cut(x, pat, me, 0, 0, true) == self.emitted@ + cut(x, pat, me, f, s, true)
            &&& cut(x, pat, me, 0, 0, false) == self.emitted@ + cut(x, pat, me, f, s, false)
        }
    }

    /// Appends the next piece of the input.
    pub fn feed(&mut self, data: &[u8])
        requires
            old(self).wf(),
            !old(self).ended(),
        ensures
            final(self).wf(),
            final(self).fed() == old(self).fed() + data@,
            final(self).emitted() == old(self).emitted(),
            !final(self).ended(),
            final(self).sentinel() == old(self).sentinel(),
            final(self).marks_chunk_end() == old(self).marks_chunk_end(),
    {
        let ghost old_fed = self.fed@;
        let ghost f = self.base@ + self.from;
        let ghost s = self.base@ + self.searched;
        let cmp = compact_buf(self.from, &mut self.buf);
        self.base = Ghost(self.base@ + cmp);
        self.searched = self.searched - cmp;
        self.from = 0;
        append_bytes(&mut self.buf, data);
        self.fed = Ghost(old_fed + data@);
        assert(self.buf@ =~= self.fed@.subrange(self.base@, self.fed@.len() as int));
        assert forall|x: Seq<u8>| #[trigger] extends(x, self.fed@) implies extends(x, old_fed) by {
            assert(x.subrange(0, old_fed.len() as int) =~= self.fed@.subrange(0, old_fed.len() as int));
            assert(old_fed =~= self.fed@.subrange(0, old_fed.len() as int));
        }
    }

    /// Announces that no more input will come.
    pub fn finish(&mut self)
        requires
            old(self).wf(),
        ensures
            final(self).wf(),
            final(self).fed() == old(self).fed(),
            final(self).emitted() == old(self).emitted(),
            final(self).ended(),
            final(self).sentinel() == old(self).sentinel(),
            final(self).marks_chunk_end() == old(self).marks_chunk_end(),
    {
        self.ended = true;
    }

    /// Whether the end was announced and every chunk has been handed out.
    pub fn is_done(&self) -> (r: bool)
        requires
            self.wf(),
        ensures
            r ==> self.ended() && self.emitted() == chunks_of(self.fed(), self.sentinel(), self.marks_chunk_end()),
            !self.ended() ==> !r,
    {
        self.done
    }

    /// The next chunk, if one is complete. Before the end of the input a
    /// chunk is complete once the sentinel that ends it has been fed; after
    /// it, the bytes left over form the last chunk.
    pub fn next_chunk(&mut self) -> (r: Option<Vec<u8>>)
        requires
            old(self).wf(),
        ensures
            final(self).wf(),
            final(self).fed() == old(self).fed(),
            final(self).ended() == old(self).ended(),
            final(self).sentinel() == old(self).sentinel(),
            final(self).marks_chunk_end() == old(self).marks_chunk_end(),
            match r {
                Some(c) => final(self).emitted() == old(self).emitted().push(c@),
                None => final(self).emitted() == old(self).emitted(),
            },
            r is None ==> final(self).emitted() == if old(self).ended() {
                chunks_of(old(self).fed(), old(self).sentinel(), old(self).marks_chunk_end())
            } else {
                settled_chunks(old(self).fed(), old(self).sentinel(), old(self).marks_chunk_end())
            },
    {
        if self.done {
            return None;
        }
        let ghost pat = self.sentinel@;
        let ghost me = self.marks_chunk_end;
        let ghost fed = self.fed@;
        let ghost base = self.base@;
        loop
            invariant
                self.wf(),
                !self.done,
                self.fed@ == fed,
                self.base@ == base,
                self.sentinel@ == pat,
                self.marks_chunk_end == me,
                self.ended == old(self).ended,
                self.emitted@ == old(self).emitted@,
                fed == old(self).fed@,
                pat == old(self).sentinel@,
                me == old(self).marks_chunk_end,
            decreases self.buf@.len() - self.searched,
        {
            let n = self.sentinel.len();
            assert(n == pat.len());
            let ghost f = base + self.from;
            let ghost s = base + self.searched;
            proof {
                assert(extends(fed, fed)) by {
                    assert(fed.subrange(0, fed.len() as int) =~= fed);
                }
            }
            match find_from(self.sentinel, self.buf.as_slice(), self.searched) {
                Some(p) => {
                    let blen = self.buf.len();
                    assert(matches_at(self.buf@, pat, p as int));
                    assert(p + n <= blen);
                    let end = if self.marks_chunk_end { p + n } else { p };
                    let start = self.from;
                    let ghost e = base + end;
                    proof {
                        assert forall|x: Seq<u8>| #[trigger] extends(x, fed) implies {
                            &&& cut(x, pat, me, f, s, true) == (if f < e { seq![x.subrange(f, e)] } else { seq![] }) + cut(x, pat, me, e, base + p + n, true)
                            &&& cut(x, pat, me, f, s, false) == (if f < e { seq![x.subrange(f, e)] } else { seq![] }) + cut(x, pat, me, e, base + p + n, false)
                        } by {
                            assert(self.buf@ =~= x.subrange(base, base + self.buf@.len()));
                            assert forall|q: int| s <= q < base + p implies !#[trigger] matches_at(x, pat, q) by {
                                lemma_match_window(x, self.buf@, base, pat, q - base);
                                assert(!matches_at(self.buf@, pat, q - base));
                            }
                            lemma_match_window(x, self.buf@, base, pat, p as int);
                            lemma_cut_skip(x, pat, me, f, s, base + p, true);
                            lemma_cut_skip(x, pat, me, f, s, base + p, false);
                            if f < e {
                                assert(seq![x.subrange(f, e)] + cut(x, pat, me, e, base + p + n, true) == cut(x, pat, me, f, base + p, true));
                            } else {
                                assert(seq![] + cut(x, pat, me, e, base + p + n, true) =~= cut(x, pat, me, e, base + p + n, true));
                                assert(seq![] + cut(x, pat, me, e, base + p + n, false) =~= cut(x, pat, me, e, base + p + n, false));
                            }
                        }
                    }
                    self.from = end;
                    self.searched = p + n;
                    if start < end {
                        let chunk = slice_to_vec(slice_subrange(self.buf.as_slice(), start, end));
                        proof {
                            assert(chunk@ =~= fed.subrange(f, e));
                            let old_emitted = self.emitted@;
                            self.emitted = Ghost(self.emitted@.push(chunk@));
                            assert forall|x: Seq<u8>| #[trigger] extends(x, fed) implies {
                                &&& cut(x, pat, me, 0, 0, true) == self.emitted@ + cut(x, pat, me, e, base + p + n, true)
                                &&& cut(x, pat, me, 0, 0, false) == self.emitted@ + cut(x, pat, me, e, base + p + n, false)
                            } by {
                                assert(x.subrange(f, e) =~= fed.subrange(f, e));
                                assert(old_emitted + (seq![chunk@] + cut(x, pat, me, e, base + p + n, true)) =~= self.emitted@ + cut(x, pat, me, e, base + p + n, true));
                                assert(old_emitted + (seq![chunk@] + cut(x, pat, me, e, base + p + n, false)) =~= self.emitted@ + cut(x, pat, me, e, base + p + n, false));
                            }
                        }
                        return Some(chunk);
                    }
                },
                None => {
                    let len = self.buf.len();
                    if n > 0 && len >= n && len - n + 1 > self.searched {
                        self.searched = len - n + 1;
                    }
                    let ghost s2 = base + self.searched;
                    let ghost stop = if fed.len() + 1 >= pat.len() { fed.len() + 1 - pat.len() } else { 0int };
                    proof {
                        assert forall|x: Seq<u8>| #[trigger] extends(x, fed) implies {
                            &&& cut(x, pat, me, f, s, true) == cut(x, pat, me, f, s2, true)
                            &&& cut(x, pat, me, f, s, false) == cut(x, pat, me, f, s2, false)
                        } by {
                            assert(self.buf@ =~= x.subrange(base, base + self.buf@.len()));
                            assert forall|q: int| s <= q < s2 implies !#[trigger] matches_at(x, pat, q) by {
                                lemma_match_window(x, self.buf@, base, pat, q - base);
                                assert(!matches_at(self.buf@, pat, q - base));
                            }
                            lemma_cut_skip(x, pat, me, f, s, s2, true);
                            lemma_cut_skip(x, pat, me, f, s, s2, false);
                        }
                        if s <= stop {
                            assert forall|q: int| s <= q < stop implies !#[trigger] matches_at(fed, pat, q) by {
                                lemma_match_window(fed, self.buf@, base, pat, q - base);
                                assert(!matches_at(self.buf@, pat, q - base));
                            }
                            lemma_cut_skip(fed, pat, me, f, s, stop, true);
                            lemma_cut_skip(fed, pat, me, f, s, stop, false);
                        }
                    }
                    if self.ended {
                        self.done = true;
                        if self.from < len {
                            let chunk = slice_to_vec(slice_subrange(self.buf.as_slice(), self.from, len));
                            proof {
                                assert(chunk@ =~= fed.subrange(f, fed.len() as int));
                                let ss = if s <= stop { stop } else { s };
                                assert(cut(fed, pat, me, f, ss, true) == seq![fed.subrange(f, fed.len() as int)]);
                                assert(cut(fed, pat, me, 0, 0, true) == self.emitted@ + cut(fed, pat, me, f, s, true));
                                self.emitted = Ghost(self.emitted@.push(chunk@));
                            }
                            self.from = len;
                            self.searched = len;
                            return Some(chunk);
                        }
                        proof {
                            assert(self.emitted@ + seq![] =~= self.emitted@);
                        }
                        return None;
                    }
                    proof {
                        assert(self.emitted@ + seq![] =~= self.emitted@);
                    }
                    return None;
                },
            }
        }
    }
}

/// All the chunks of a complete input, in order.
pub fn split_chunks(input: &[u8], delim: &Delim) -> (r: Vec<Vec<u8>>)
    ensures
        r@.len() == chunks_of(input@, delim.sentinel(), delim.marks_chunk_end()).len(),
        forall|i: int|
            0 <= i < r@.len() ==> #[trigger] r@[i]@ == chunks_of(
                input@,
                delim.sentinel(),
                delim.marks_chunk_end(),
            )[i],
{
    let mut c = chunks(delim);
    c.feed(input);
    c.finish();
    assert(c.fed() =~= input@);
    let ghost all = chunks_of(input@, delim.sentinel(), delim.marks_chunk_end());
    let mut r: Vec<Vec<u8>> = Vec::new();
    loop
        invariant
            c.wf(),
            c.ended(),
            c.fed() == input@,
            c.sentinel() == delim.sentinel(),
            c.marks_chunk_end() == delim.marks_chunk_end(),
            all == chunks_of(input@, delim.sentinel(), delim.marks_chunk_end()),
            r@.len() == c.emitted().len(),
            forall|i: int| 0 <= i < r@.len() ==> #[trigger] r@[i]@ == c.emitted()[i],
            c.emitted().len() <= all.len(),
            c.emitted() == all.subrange(0, c.emitted().len() as int),
        decreases all.len() - c.emitted().len(),
    {
        let ghost before = c.emitted();
        match c.next_chunk() {
            Some(chunk) => {
                proof {
                    lemma_emitted_prefix(&c);
                }
                r.push(chunk);
            },
            None => {
                return r;
            },
        }
    }
}

} // verus!
