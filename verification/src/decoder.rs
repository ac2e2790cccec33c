//! The decoder: the pull-based buffering discipline that turns a source of
//! irregular decoded chunks into exact fixed-size reads, absorbing any
//! surplus in an overflow buffer that is drained first on the next pull.
//!
//! Samples are carried as 32-bit words, the little-endian bit pattern of one
//! interleaved sample exactly as the codec collaborator's resampler emits it.
//! The core never computes on a sample, it only moves samples, so their
//! numeric reading is irrelevant here; the thin device binding reinterprets
//! the words for the audio driver.

use vstd::math::min;
use vstd::prelude::*;

verus! {

/// The concatenation of `chunks[i..]`, each chunk viewed as the sample
/// sequence it holds: the part of the decoded stream not yet consumed when
/// the next unread chunk is `chunks[i]`.
pub open spec fn concat_from(chunks: Seq<Seq<u32>>, i: int) -> Seq<u32>
    decreases chunks.len() - i,
{
    if 0 <= i && i < chunks.len() {
        chunks[i] + concat_from(chunks, i + 1)
    } else {
        Seq::empty()
    }
}

/// Appending a chunk at the end extends every suffix concatenation by that
/// chunk.
proof fn lemma_concat_from_push(chunks: Seq<Seq<u32>>, chunk: Seq<u32>, i: int)
    requires
        0 <= i <= chunks.len(),
    ensures
        concat_from(chunks.push(chunk), i) == concat_from(chunks, i) + chunk,
    decreases chunks.len() - i,
{
    let pushed = chunks.push(chunk);
    if i == chunks.len() {
        assert(concat_from(pushed, i + 1) == Seq::<u32>::empty());
        assert(concat_from(pushed, i) == chunk + Seq::<u32>::empty());
        assert(concat_from(chunks, i) + chunk =~= chunk + Seq::<u32>::empty());
    } else {
        lemma_concat_from_push(chunks, chunk, i + 1);
        assert(pushed[i] == chunks[i]);
        assert(concat_from(pushed, i) == chunks[i] + (concat_from(chunks, i + 1) + chunk));
        assert(chunks[i] + (concat_from(chunks, i + 1) + chunk) =~= concat_from(chunks, i)
            + chunk);
    }
}

/// The media source and codec state as the pull discipline sees them: a
/// sequence of decoded, resampled chunks of irregular sizes, consumed front
/// to back. One chunk stands for the samples one codec submission yields;
/// the collaborator that actually runs the codec fills the source.
pub struct ChunkSource {
    chunks: Vec<Vec<u32>>,
    next: usize,
}

impl ChunkSource {
    /// The indices are within bounds.
    pub closed spec fn wf(self) -> bool {
        self.next <= self.chunks@.len()
    }

    /// The samples the source can still produce, in order.
    pub closed spec fn remaining(self) -> Seq<u32> {
        concat_from(self.chunks@.map_values(|c: Vec<u32>| c@), self.next as int)
    }

    /// An empty source: produces nothing.
    pub fn new() -> (source: ChunkSource)
        ensures
            source.wf(),
            source.remaining() == Seq::<u32>::empty(),
    {
        ChunkSource { chunks: Vec::new(), next: 0 }
    }

    /// Appends one decoded chunk at the end of the stream.
    pub fn push_chunk(&mut self, chunk: Vec<u32>)
        requires
            old(self).wf(),
        ensures
            final(self).wf(),
            final(self).remaining() == old(self).remaining() + chunk@,
    {
        proof {
            let views = self.chunks@.map_values(|c: Vec<u32>| c@);
            lemma_concat_from_push(views, chunk@, self.next as int);
            assert(self.chunks@.push(chunk).map_values(|c: Vec<u32>| c@) =~= views.push(chunk@));
        }
        self.chunks.push(chunk);
    }
}

/// How many samples a pull answered with `requested` delivers: all of them,
/// capped by what the decoder can still produce, and nothing once the
/// decoder has reported end of stream.
pub open spec fn pull_filled(avail: Seq<u32>, exhausted: bool, requested: int) -> int {
    if exhausted {
        0
    } else {
        min(requested, avail.len() as int)
    }
}

/// Whether the decoder has reported end of stream after such a pull: it had
/// already, or this pull ran out of samples before the request was met.
pub open spec fn pull_exhausted_after(avail: Seq<u32>, exhausted: bool, requested: int) -> bool {
    exhausted || avail.len() < requested
}

/// What the decoder can still produce after such a pull: everything it could
/// produce before, minus the delivered prefix.
pub open spec fn pull_avail_after(avail: Seq<u32>, exhausted: bool, requested: int) -> Seq<u32> {
    avail.skip(pull_filled(avail, exhausted, requested))
}

/// Owns the media source model and the overflow buffer, and reconciles the
/// source's irregular chunk sizes with the exact sample counts the render
/// callback demands. The overflow buffer absorbs the surplus when one chunk
/// yields more samples than requested and is drained first on the next pull.
pub struct Decoder {
    source: ChunkSource,
    overflow: Vec<u32>,
    read_index: usize,
    eof: bool,
}

impl Decoder {
    /// The drain position stays within the overflow buffer and the source is
    /// well formed.
    pub closed spec fn wf(self) -> bool {
        self.read_index <= self.overflow@.len() && self.source.wf()
    }

    /// The samples buffered in the overflow buffer, oldest first.
    pub closed spec fn pending(self) -> Seq<u32> {
        self.overflow@.skip(self.read_index as int)
    }

    /// Everything the decoder can still deliver, in order: buffered surplus
    /// first, then the rest of the source.
    pub closed spec fn avail(self) -> Seq<u32> {
        self.pending() + self.source.remaining()
    }

    /// Whether the decoder has reported end of stream. Once it has, every
    /// pull returns zero samples.
    pub closed spec fn exhausted(self) -> bool {
        self.eof
    }

    /// Takes ownership of an opened source; nothing is buffered yet.
    pub fn open(source: ChunkSource) -> (decoder: Decoder)
        requires
            source.wf(),
        ensures
            decoder.wf(),
            decoder.avail() == source.remaining(),
            !decoder.exhausted(),
    {
        let decoder = Decoder { source, overflow: Vec::new(), read_index: 0, eof: false };
        proof {
            assert(decoder.pending() =~= Seq::<u32>::empty());
            assert(decoder.avail() =~= decoder.source.remaining());
        }
        decoder
    }

    /// Whether this decoder has reported end of stream.
    pub fn is_exhausted(&self) -> (flag: bool)
        ensures
            flag == self.exhausted(),
    {
        self.eof
    }

    /// The central real-time-safe operation: fills `dst[0..filled]` with the
    /// next `filled` samples of the stream, where `filled` is the requested
    /// count unless the source runs out within this call; the rest of `dst`
    /// is left as it was. Surplus from the last consumed chunk is kept in
    /// the overflow buffer for the next pull, so no sample is ever dropped,
    /// duplicated or reordered. A result of zero for a positive request
    /// means end of stream, permanently.
    pub fn pull(&mut self, dst: &mut Vec<u32>, requested: usize) -> (filled: usize)
        requires
            old(self).wf(),
            requested <= old(dst)@.len(),
        ensures
            final(self).wf(),
            final(dst)@.len() == old(dst)@.len(),
            filled == pull_filled(old(self).avail(), old(self).exhausted(), requested as int),
            final(self).exhausted() == pull_exhausted_after(
                old(self).avail(),
                old(self).exhausted(),
                requested as int,
            ),
            final(self).avail() == pull_avail_after(
                old(self).avail(),
                old(self).exhausted(),
                requested as int,
            ),
            final(dst)@ == old(self).avail().take(filled as int) + old(dst)@.skip(filled as int),
    {
        if self.eof {
            proof {
                assert(old(self).avail().take(0) + old(dst)@.skip(0) =~= old(dst)@);
                assert(pull_avail_after(old(self).avail(), true, requested as int) =~= old(
                    self,
                ).avail());
            }
            return 0;
        }
        let ghost a0 = self.avail();
        let ghost dst0 = dst@;
        let n = requested;
        let mut pos: usize = 0;

        // Step one: drain buffered surplus from the previous pull.
        while pos < n && self.read_index < self.overflow.len()
            invariant
                self.wf(),
                !self.eof,
                pos <= n,
                n <= dst@.len(),
                dst@.len() == dst0.len(),
                pos <= a0.len(),
                dst@ == a0.take(pos as int) + dst0.skip(pos as int),
                self.avail() == a0.skip(pos as int),
            decreases n - pos,
        {
            let x = self.overflow[self.read_index];
            let ghost pos0 = pos as int;
            let ghost av_e = self.avail();
            proof {
                assert(self.pending().len() > 0);
                assert(self.avail()[0] == self.pending()[0]);
                assert(self.pending()[0] == x);
                assert(a0.skip(pos0).len() > 0);
                assert(pos < a0.len());
                assert(x == a0.skip(pos0)[0]);
                assert(x == a0[pos0]);
            }
            dst[pos] = x;
            pos = pos + 1;
            self.read_index = self.read_index + 1;
            proof {
                assert(dst@ =~= a0.take(pos as int) + dst0.skip(pos as int));
                assert(self.avail() =~= av_e.skip(1));
                assert(av_e.skip(1) == a0.skip(pos0).skip(1));
                assert(a0.skip(pos0).skip(1) =~= a0.skip(pos as int));
            }
        }
        // The buffer is reused from its start once fully drained.
        if self.read_index == self.overflow.len() {
            self.overflow.clear();
            self.read_index = 0;
            proof {
                assert(self.avail() =~= a0.skip(pos as int));
            }
        }

        // Steps two to four: consume chunks from the source until the
        // destination is full or the source is exhausted; within one chunk,
        // samples go to the destination while room remains and into the
        // overflow buffer afterwards.
        while pos < n && self.source.next < self.source.chunks.len()
            invariant
                self.wf(),
                !self.eof,
                pos <= n,
                n <= dst@.len(),
                dst@.len() == dst0.len(),
                pos <= a0.len(),
                dst@ == a0.take(pos as int) + dst0.skip(pos as int),
                self.avail() == a0.skip(pos as int),
                pos < n ==> self.pending() == Seq::<u32>::empty(),
            decreases n - pos, self.source.chunks@.len() - self.source.next,
        {
            let idx = self.source.next;
            let ghost src_len = self.source.chunks@.len();
            self.source.next = idx + 1;
            let ghost c_seq = self.source.chunks@[idx as int]@;
            let ghost rest = self.source.remaining();
            proof {
                let views = self.source.chunks@.map_values(|c: Vec<u32>| c@);
                assert(concat_from(views, idx as int) == views[idx as int] + concat_from(
                    views,
                    idx as int + 1,
                ));
                assert(Seq::<u32>::empty() + (c_seq + rest) =~= c_seq + rest);
                assert(c_seq.skip(0) + rest =~= a0.skip(pos as int));
            }
            let chunk_len = self.source.chunks[idx].len();
            let mut j: usize = 0;

            while pos < n && j < chunk_len
                invariant
                    self.wf(),
                    !self.eof,
                    idx < self.source.chunks@.len(),
                    self.source.chunks@.len() == src_len,
                    self.source.next == idx + 1,
                    chunk_len == c_seq.len(),
                    c_seq == self.source.chunks@[idx as int]@,
                    j <= chunk_len,
                    pos <= n,
                    n <= dst@.len(),
                    dst@.len() == dst0.len(),
                    pos <= a0.len(),
                    dst@ == a0.take(pos as int) + dst0.skip(pos as int),
                    self.pending() == Seq::<u32>::empty(),
                    self.source.remaining() == rest,
                    c_seq.skip(j as int) + rest == a0.skip(pos as int),
                decreases chunk_len - j,
            {
                let x = self.source.chunks[idx][j];
                let ghost pos0 = pos as int;
                let ghost j0 = j as int;
                proof {
                    assert(x == c_seq[j0]);
                    assert((c_seq.skip(j0) + rest)[0] == c_seq[j0]);
                    assert(a0.skip(pos0).len() > 0);
                    assert(pos < a0.len());
                    assert(x == a0.skip(pos0)[0]);
                    assert(x == a0[pos0]);
                }
                dst[pos] = x;
                pos = pos + 1;
                j = j + 1;
                proof {
                    assert(dst@ =~= a0.take(pos as int) + dst0.skip(pos as int));
                    assert(c_seq.skip(j as int) + rest =~= (c_seq.skip(j0) + rest).skip(1));
                    assert((c_seq.skip(j0) + rest).skip(1) == a0.skip(pos0).skip(1));
                    assert(a0.skip(pos0).skip(1) =~= a0.skip(pos as int));
                }
            }

            proof {
                assert(self.pending() + c_seq.skip(j as int) + rest =~= a0.skip(pos as int));
            }
            while j < chunk_len
                invariant
                    self.wf(),
                    !self.eof,
                    idx < self.source.chunks@.len(),
                    self.source.chunks@.len() == src_len,
                    self.source.next == idx + 1,
                    chunk_len == c_seq.len(),
                    c_seq == self.source.chunks@[idx as int]@,
                    j <= chunk_len,
                    pos <= n,
                    n <= dst@.len(),
                    dst@.len() == dst0.len(),
                    pos <= a0.len(),
                    dst@ == a0.take(pos as int) + dst0.skip(pos as int),
                    self.source.remaining() == rest,
                    self.pending() + c_seq.skip(j as int) + rest == a0.skip(pos as int),
                    j < chunk_len ==> pos == n,
                    pos < n ==> self.pending() == Seq::<u32>::empty(),
                decreases chunk_len - j,
            {
                let x = self.source.chunks[idx][j];
                let ghost p_old = self.pending();
                proof {
                    assert(x == c_seq[j as int]);
                }
                self.overflow.push(x);
                j = j + 1;
                proof {
                    assert(self.pending() =~= p_old.push(c_seq[j as int - 1]));
                    assert(self.pending() + c_seq.skip(j as int) + rest =~= a0.skip(pos as int));
                }
            }
            proof {
                assert(c_seq.skip(j as int) =~= Seq::<u32>::empty());
                assert(self.avail() =~= a0.skip(pos as int));
            }
        }

        if pos < n {
            // The source ran out before the request was met: everything
            // producible has been delivered, and this is the end of the
            // stream.
            self.eof = true;
            proof {
                assert(self.avail() =~= Seq::<u32>::empty());
                assert(a0.skip(pos as int).len() == 0);
                assert(pos == a0.len());
            }
        }
        proof {
            assert(dst@ =~= a0.take(pos as int) + dst0.skip(pos as int));
        }
        pos
    }
}

/// The sum of a sequence of request sizes.
pub open spec fn total(requests: Seq<int>) -> int
    decreases requests.len(),
{
    if requests.len() == 0 {
        0
    } else {
        requests[0] + total(requests.drop_first())
    }
}

proof fn lemma_total_nonneg(requests: Seq<int>)
    requires
        forall|i: int| 0 <= i < requests.len() ==> requests[i] >= 0,
    ensures
        total(requests) >= 0,
    decreases requests.len(),
{
    if requests.len() > 0 {
        lemma_total_nonneg(requests.drop_first());
    }
}

/// The concatenation of everything a fresh decoder delivers over a whole
/// sequence of pulls with the given request sizes, following the pull
/// contract step by step.
pub open spec fn deliveries(stream: Seq<u32>, requests: Seq<int>) -> Seq<u32>
    decreases requests.len(),
{
    if requests.len() == 0 {
        Seq::empty()
    } else {
        let filled = pull_filled(stream, false, requests[0]);
        stream.take(filled) + deliveries(
            pull_avail_after(stream, false, requests[0]),
            requests.drop_first(),
        )
    }
}

/// However a fixed stream is split across successive pulls, the
/// concatenation of everything delivered is exactly the prefix of the
/// stream whose length is the total delivered — no sample dropped,
/// duplicated or reordered — and once the requests add up to at least the
/// stream's length, the delivered concatenation is the whole stream.
pub proof fn lemma_chunked_delivery_exact(stream: Seq<u32>, requests: Seq<int>)
    requires
        forall|i: int| 0 <= i < requests.len() ==> requests[i] >= 0,
    ensures
        deliveries(stream, requests) == stream.take(
            min(total(requests), stream.len() as int),
        ),
        total(requests) >= stream.len() ==> deliveries(stream, requests) == stream,
    decreases requests.len(),
{
    if requests.len() == 0 {
        assert(stream.take(0) =~= Seq::<u32>::empty());
    } else {
        let r0 = requests[0];
        let filled = pull_filled(stream, false, r0);
        let rest_stream = pull_avail_after(stream, false, r0);
        let rest_requests = requests.drop_first();
        lemma_total_nonneg(rest_requests);
        lemma_chunked_delivery_exact(rest_stream, rest_requests);
        let m2 = min(total(rest_requests), rest_stream.len() as int);
        assert(stream.take(filled) + rest_stream.take(m2) =~= stream.take(filled + m2));
        assert(filled + m2 == min(total(requests), stream.len() as int));
        if total(requests) >= stream.len() {
            assert(stream.take(stream.len() as int) =~= stream);
        }
    }
}

/// A pull on a decoder that has not reported end of stream delivers
/// exactly the requested count whenever at least that many samples remain
/// producible, and fewer only when the stream runs out within that very
/// call.
pub proof fn lemma_pull_exactness(avail: Seq<u32>, requested: int)
    requires
        requested >= 0,
    ensures
        avail.len() >= requested ==> pull_filled(avail, false, requested) == requested,
        pull_filled(avail, false, requested) < requested ==> avail.len() < requested,
{
}

/// A pull that reports zero samples for a positive request leaves the
/// decoder at end of stream.
pub proof fn lemma_zero_pull_exhausts(avail: Seq<u32>, exhausted: bool, requested: int)
    requires
        requested > 0,
        pull_filled(avail, exhausted, requested) == 0,
    ensures
        pull_exhausted_after(avail, exhausted, requested),
{
}

/// A decoder at end of stream reports zero samples from every later pull,
/// and stays at end of stream: with the lemma above, a pull that once
/// returned zero for a positive request can never deliver again.
pub proof fn lemma_exhausted_pull_zero(avail: Seq<u32>, requested: int)
    ensures
        pull_filled(avail, true, requested) == 0,
        pull_exhausted_after(avail, true, requested),
{
}

/// The 32-bit word read little-endian from four consecutive bytes.
pub open spec fn le_word(b0: u8, b1: u8, b2: u8, b3: u8) -> u32 {
    (b0 as u32) | ((b1 as u32) << 8) | ((b2 as u32) << 16) | ((b3 as u32) << 24)
}

/// The samples a byte buffer encodes, four little-endian bytes each;
/// trailing bytes short of a full sample count for nothing.
pub open spec fn le_words(bytes: Seq<u8>) -> Seq<u32> {
    Seq::new(
        (bytes.len() as int / 4) as nat,
        |k: int| le_word(bytes[4 * k], bytes[4 * k + 1], bytes[4 * k + 2], bytes[4 * k + 3]),
    )
}

/// Reassembles one sample word from its four little-endian bytes, as the
/// resampler's output buffer encodes them.
pub fn sample_from_le_bytes(b0: u8, b1: u8, b2: u8, b3: u8) -> (sample: u32)
    ensures
        sample == le_word(b0, b1, b2, b3),
{
    (b0 as u32) | ((b1 as u32) << 8) | ((b2 as u32) << 16) | ((b3 as u32) << 24)
}

/// Regroups the resampler's output bytes into sample words: every four
/// consecutive little-endian bytes become one sample.
pub fn bytes_to_samples(bytes: &Vec<u8>) -> (samples: Vec<u32>)
    ensures
        samples@ == le_words(bytes@),
{
    let mut samples: Vec<u32> = Vec::new();
    let mut i: usize = 0;
    while i < bytes.len() && bytes.len() - i >= 4
        invariant
            i <= bytes@.len(),
            i % 4 == 0,
            samples@ == le_words(bytes@).take(i as int / 4),
        decreases bytes@.len() - i,
    {
        let sample = sample_from_le_bytes(bytes[i], bytes[i + 1], bytes[i + 2], bytes[i + 3]);
        samples.push(sample);
        i = i + 4;
        proof {
            assert(le_words(bytes@)[i as int / 4 - 1] == sample);
            assert(samples@ =~= le_words(bytes@).take(i as int / 4));
        }
    }
    proof {
        assert(i as int / 4 == le_words(bytes@).len());
        assert(le_words(bytes@).take(le_words(bytes@).len() as int) =~= le_words(bytes@));
    }
    samples
}

/// How many resampler input samples per channel one decoded frame holds,
/// from its line size in bytes: a planar frame stores one channel per line,
/// a packed (interleaved) frame stores all channels in line zero.
pub fn samples_per_channel(
    line_size: usize,
    planar: bool,
    channels: usize,
    bytes_per_sample: usize,
) -> (count: usize)
    requires
        channels > 0,
        bytes_per_sample > 0,
    ensures
        count == if planar {
            line_size as int / bytes_per_sample as int
        } else {
            (line_size as int / channels as int) / bytes_per_sample as int
        },
{
    if planar {
        line_size / bytes_per_sample
    } else {
        line_size / channels / bytes_per_sample
    }
}

/// The channel layout handed to the resampler: the stream's own layout, or
/// the default layout for its channel count when the stream declares none
/// (a zero layout).
pub fn resample_source_layout(channel_layout: u64, default_layout: u64) -> (layout: u64)
    ensures
        layout == if channel_layout == 0 {
            default_layout
        } else {
            channel_layout
        },
{
    if channel_layout == 0 {
        default_layout
    } else {
        channel_layout
    }
}

/// Picks the stream the player decodes: the first stream of the container
/// whose codec type is audio, given the codec type of each stream in order.
pub fn first_audio_stream_index(codec_types: &Vec<i32>, audio_type: i32) -> (found: Option<
    usize,
>)
    ensures
        match found {
            Some(i) => i < codec_types@.len() && codec_types@[i as int] == audio_type && forall|
                k: int,
            | 0 <= k < i ==> codec_types@[k] != audio_type,
            None => forall|k: int| 0 <= k < codec_types@.len() ==> codec_types@[k] != audio_type,
        },
{
    let mut i: usize = 0;
    while i < codec_types.len()
        invariant
            i <= codec_types@.len(),
            forall|k: int| 0 <= k < i ==> codec_types@[k] != audio_type,
        decreases codec_types@.len() - i,
    {
        if codec_types[i] == audio_type {
            return Some(i);
        }
        i = i + 1;
    }
    None
}

} // verus!
