//! Copying a byte stream up to a boundary marker, in chunks, with a byte cap.
use vstd::prelude::*;
use crate::matching::{
    boundary_start, content_len, extracted, lemma_content_len_bound, lemma_extracted_is_prefix,
    lemma_match_is_occurrence, match_from,
};
use vstd::utf8::encode_utf8;

verus! {

/// std's I/O error, declared to Verus as an opaque type: it is carried unchanged from a
/// source or sink to the caller, and nothing about it is assumed.
#[verifier::external_type_specification]
#[verifier::external_body]
pub struct ExIoError(std::io::Error);

/// Capacity of one chunk read from the source.
pub const CHUNK_SIZE: usize = 1024;

/// A readable byte source.
///
/// `remaining` is everything the source has yet to yield. A read hands out a prefix of
/// it; a read that yields nothing into a non-empty buffer marks the end of the stream.
/// A read that fails consumes nothing.
pub trait ByteSource {
    spec fn remaining(&self) -> Seq<u8>;

    fn read(&mut self, buf: &mut [u8]) -> (r: Result<usize, std::io::Error>)
        ensures
            final(buf)@.len() == old(buf)@.len(),
            match r {
                Ok(n) => {
                    &&& n <= old(buf)@.len()
                    &&& n <= old(self).remaining().len()
                    &&& final(buf)@.take(n as int) == old(self).remaining().take(n as int)
                    &&& final(self).remaining() == old(self).remaining().skip(n as int)
                    &&& n == 0 ==> old(buf)@.len() == 0 || old(self).remaining().len() == 0
                },
                Err(_) => final(self).remaining() == old(self).remaining(),
            },
    ;
}

/// A writable byte sink.
///
/// `sent` is everything the sink has accepted. A write accepts a prefix of what it is
/// given and says how long. A sink that accepts less than it is given is full, and a
/// full sink accepts nothing more. A write that fails accepts nothing.
pub trait ByteSink {
    spec fn sent(&self) -> Seq<u8>;

    spec fn is_full(&self) -> bool;

    fn write(&mut self, data: &[u8]) -> (r: Result<usize, std::io::Error>)
        ensures
            match r {
                Ok(n) => {
                    &&& n <= data@.len()
                    &&& final(self).sent() == old(self).sent() + data@.take(n as int)
                    &&& n < data@.len() ==> final(self).is_full()
                    &&& old(self).is_full() ==> n == 0 && final(self).is_full()
                },
                Err(_) => final(self).sent() == old(self).sent() && final(self).is_full()
                    == old(self).is_full(),
            },
    ;
}

/// One chunk read from the source, and where the scan over it stands.
pub struct Buffer {
    buff: [u8; CHUNK_SIZE],
    /// Number of bytes read into the buffer.
    used: usize,
    /// Number of leading bytes known to come before the boundary.
    non_boundary: usize,
    /// Number of bytes after those, all part of the match in progress.
    matched: usize,
}

impl Buffer {
    /// The bytes of the buffer, used or not.
    pub closed spec fn bytes(&self) -> Seq<u8> {
        self.buff@
    }

    /// Number of bytes read into the buffer.
    pub closed spec fn used(&self) -> nat {
        self.used as nat
    }

    /// Number of leading bytes known to come before the boundary.
    pub closed spec fn non_boundary(&self) -> nat {
        self.non_boundary as nat
    }

    /// Number of bytes in the match in progress.
    pub closed spec fn matched(&self) -> nat {
        self.matched as nat
    }

    pub fn new() -> (r: Buffer)
        ensures
            r.bytes() == Seq::new(CHUNK_SIZE as nat, |i: int| 0u8),
            r.used() == 0,
            r.non_boundary() == 0,
            r.matched() == 0,
    {
        let r = Buffer { buff: [0u8; CHUNK_SIZE], used: 0, non_boundary: 0, matched: 0 };
        assert(r.buff@ =~= Seq::new(CHUNK_SIZE as nat, |i: int| 0u8));
        r
    }

    /// Scans the used bytes, which stand in the stream `s` from position `t0` on, for
    /// the boundary, carrying on from a partial match of `held` bytes that ends at `t0`.
    /// Stops after the byte that completes a match. Returns the cursor it ends with.
    fn seek(&mut self, boundary: &[u8], held: usize, Ghost(s): Ghost<Seq<u8>>, Ghost(
        t0,
    ): Ghost<nat>) -> (c: usize)
        requires
            old(self).used <= CHUNK_SIZE,
            held < boundary@.len(),
            held <= t0,
            t0 + old(self).used <= s.len(),
            s.subrange(t0 as int, t0 + old(self).used) == old(self).buff@.take(
                old(self).used as int,
            ),
            s.subrange(t0 - held, t0 as int) == boundary@.take(held as int),
        ensures
            final(self).buff == old(self).buff,
            final(self).used == old(self).used,
            ({
                let nb = final(self).non_boundary as nat;
                let i = (nb + final(self).matched) as nat;
                &&& i <= final(self).used
                &&& c <= boundary@.len()
                &&& c < boundary@.len() ==> i == final(self).used
                &&& nb == 0 ==> c == held + i
                &&& nb > 0 ==> c == final(self).matched
                &&& c <= t0 + i
                &&& s.subrange(t0 + i - c, (t0 + i) as int) == boundary@.take(c as int)
                &&& match_from(s, boundary@, t0, held as nat) == match_from(
                    s,
                    boundary@,
                    t0 + i,
                    c as nat,
                )
            }),
    {
        let blen = boundary.len();
        let mut c = held;
        let mut i: usize = 0;
        self.non_boundary = 0;
        self.matched = 0;
        while i < self.used && c < blen
            invariant
                self.buff == old(self).buff,
                self.used == old(self).used,
                self.used <= CHUNK_SIZE,
                blen == boundary@.len(),
                held < blen,
                t0 + self.used <= s.len(),
                s.subrange(t0 as int, t0 + self.used) == self.buff@.take(self.used as int),
                i <= self.used,
                self.non_boundary <= i,
                self.matched == i - self.non_boundary,
                c <= blen,
                self.non_boundary == 0 ==> c == held + i,
                self.non_boundary > 0 ==> c == self.matched,
                c <= t0 + i,
                s.subrange(t0 + i - c, t0 + i) == boundary@.take(c as int),
                match_from(s, boundary@, t0, held as nat) == match_from(
                    s,
                    boundary@,
                    (t0 + i) as nat,
                    c as nat,
                ),
            decreases self.used - i,
        {
            let ghost p = t0 + i;
            assert(s[p as int] == self.buff@[i as int]) by {
                assert(s[p as int] == s.subrange(t0 as int, t0 + self.used)[i as int]);
            }
            if self.buff[i] == boundary[c] {
                assert(s.subrange(p + 1 - (c + 1), p + 1) =~= s.subrange(p - c, p as int).push(
                    s[p as int],
                ));
                assert(boundary@.take(c + 1) =~= boundary@.take(c as int).push(
                    boundary@[c as int],
                ));
                c = c + 1;
                self.matched = self.matched + 1;
            } else {
                assert(s.subrange(p + 1 - 0, p + 1) =~= boundary@.take(0));
                c = 0;
                self.non_boundary = i + 1;
                self.matched = 0;
            }
            i = i + 1;
        }
        c
    }
}

/// Where a scan stands between two chunks: `done` content bytes are settled and
/// `held` bytes after them are a partial match, a prefix of the boundary `b`.
pub open spec fn scan_state(s: Seq<u8>, b: Seq<u8>, max_len: nat, done: nat, held: nat) -> bool {
    &&& held < b.len()
    &&& done < max_len
    &&& done + held <= s.len()
    &&& s.subrange(done as int, (done + held) as int) == b.take(held as int)
    &&& boundary_start(s, b) == match_from(s, b, done + held, held)
}

/// The sink holds what it started with, `sent0`, followed by the first `total` of the
/// `done` bytes of `s` it was given, and it has refused bytes only if it is full.
pub open spec fn sink_holds(
    sent: Seq<u8>,
    full: bool,
    sent0: Seq<u8>,
    s: Seq<u8>,
    total: nat,
    done: nat,
) -> bool {
    &&& sent == sent0 + s.take(total as int)
    &&& total <= done
    &&& total < done ==> full
}

/// The sink holds what it started with followed by a prefix of `e`.
pub open spec fn holds_prefix(sent: Seq<u8>, sent0: Seq<u8>, e: Seq<u8>) -> bool {
    &&& sent0.len() <= sent.len() <= sent0.len() + e.len()
    &&& sent == sent0 + e.take(sent.len() - sent0.len())
}

/// What a scan that ends with `total` accepted bytes leaves in the sink.
pub open spec fn settled(sent: Seq<u8>, full: bool, sent0: Seq<u8>, e: Seq<u8>, total: nat) -> bool {
    &&& total <= e.len()
    &&& sent == sent0 + e.take(total as int)
    &&& total < e.len() ==> full
}

/// Settled content never passes what a scan forwards.
proof fn lemma_state_bound(s: Seq<u8>, b: Seq<u8>, max_len: nat, done: nat, held: nat)
    requires
        scan_state(s, b, max_len, done, held),
    ensures
        done <= extracted(s, b, max_len).len(),
        extracted(s, b, max_len) == s.take(extracted(s, b, max_len).len() as int),
        content_len(s, b) <= s.len(),
{
    lemma_match_is_occurrence(s, b, done + held, held);
    lemma_content_len_bound(s, b);
}

/// A sink that holds part of what was given to it holds a prefix of what the scan forwards.
proof fn lemma_holds_prefix(
    sent: Seq<u8>,
    full: bool,
    sent0: Seq<u8>,
    s: Seq<u8>,
    e: Seq<u8>,
    total: nat,
    done: nat,
)
    requires
        sink_holds(sent, full, sent0, s, total, done),
        done <= e.len() <= s.len(),
        e == s.take(e.len() as int),
    ensures
        holds_prefix(sent, sent0, e),
{
    assert(e.take(total as int) =~= s.take(total as int));
    assert(sent.len() == sent0.len() + total);
}

/// Hands `data`, which stands in the stream `s` at position `done`, to the sink.
fn forward<W: ByteSink>(
    output: &mut W,
    data: &[u8],
    total: usize,
    Ghost(s): Ghost<Seq<u8>>,
    Ghost(sent0): Ghost<Seq<u8>>,
    Ghost(done): Ghost<nat>,
) -> (r: Result<usize, std::io::Error>)
    requires
        sink_holds(old(output).sent(), old(output).is_full(), sent0, s, total as nat, done),
        done + data@.len() <= s.len(),
        done + data@.len() <= usize::MAX,
        data@ == s.subrange(done as int, (done + data@.len()) as int),
    ensures
        match r {
            Ok(t) => sink_holds(
                final(output).sent(),
                final(output).is_full(),
                sent0,
                s,
                t as nat,
                done + data@.len(),
            ),
            Err(_) => final(output).sent() == old(output).sent() && final(output).is_full()
                == old(output).is_full(),
        },
{
    match output.write(data) {
        Ok(n) => {
            proof {
                if total == done {
                    assert(s.take(total + n) =~= s.take(total as int) + data@.take(n as int));
                    assert(sent0 + s.take(total + n) =~= (sent0 + s.take(total as int))
                        + data@.take(n as int));
                }
            }
            Ok(total + n)
        },
        Err(e) => Err(e),
    }
}

/// Hands over the last piece of content, which stands in `s` at position `done` and
/// ends where the scan's result ends.
fn finish<W: ByteSink>(
    output: &mut W,
    data: &[u8],
    total: usize,
    Ghost(s): Ghost<Seq<u8>>,
    Ghost(sent0): Ghost<Seq<u8>>,
    Ghost(done): Ghost<nat>,
    Ghost(e): Ghost<Seq<u8>>,
) -> (r: Result<usize, std::io::Error>)
    requires
        sink_holds(old(output).sent(), old(output).is_full(), sent0, s, total as nat, done),
        done + data@.len() <= s.len(),
        done + data@.len() <= usize::MAX,
        data@ == s.subrange(done as int, (done + data@.len()) as int),
        e == s.take((done + data@.len()) as int),
    ensures
        match r {
            Ok(t) => settled(final(output).sent(), final(output).is_full(), sent0, e, t as nat),
            Err(_) => holds_prefix(final(output).sent(), sent0, e),
        },
{
    let r = forward(output, data, total, Ghost(s), Ghost(sent0), Ghost(done));
    proof {
        match r {
            Ok(t) => {
                assert(e.take(t as int) =~= s.take(t as int));
            },
            Err(_) => {
                lemma_holds_prefix(
                    output.sent(),
                    output.is_full(),
                    sent0,
                    s,
                    e,
                    total as nat,
                    done,
                );
            },
        }
    }
    r
}

/// What the scan does after a chunk: go on from a new state, or stop with the number
/// of bytes the sink accepted.
enum Step {
    Next { done: usize, held: usize, total: usize },
    Stop(usize),
}

/// The end of the stream: the bytes held back are content after all.
fn flush_held<W: ByteSink>(
    output: &mut W,
    b: &[u8],
    max_len: usize,
    done: usize,
    held: usize,
    total: usize,
    Ghost(s): Ghost<Seq<u8>>,
    Ghost(sent0): Ghost<Seq<u8>>,
) -> (r: Result<usize, std::io::Error>)
    requires
        scan_state(s, b@, max_len as nat, done as nat, held as nat),
        done + held == s.len(),
        sink_holds(
            old(output).sent(),
            old(output).is_full(),
            sent0,
            s,
            total as nat,
            done as nat,
        ),
    ensures
        ({
            let e = extracted(s, b@, max_len as nat);
            match r {
                Ok(t) => settled(final(output).sent(), final(output).is_full(), sent0, e, t as nat),
                Err(_) => holds_prefix(final(output).sent(), sent0, e),
            }
        }),
{
    let ghost e = extracted(s, b@, max_len as nat);
    let room = max_len - done;
    let k = if held < room {
        held
    } else {
        room
    };
    proof {
        lemma_state_bound(s, b@, max_len as nat, done as nat, held as nat);
        assert(s.subrange(done as int, done + k) =~= b@.take(held as int).take(k as int));
        assert(s.subrange(done as int, done + k) =~= b@.subrange(0, k as int));
        lemma_extracted_is_prefix(s, b@, max_len as nat, (done + k) as nat);
    }
    finish(output, &b[0..k], total, Ghost(s), Ghost(sent0), Ghost(done as nat), Ghost(e))
}

/// Scans the chunk just read, which stands in `s` right after the held bytes, and hands
/// the content it settles to the sink.
fn scan_chunk<W: ByteSink>(
    buffer: &mut Buffer,
    output: &mut W,
    b: &[u8],
    max_len: usize,
    done: usize,
    held: usize,
    total: usize,
    Ghost(s): Ghost<Seq<u8>>,
    Ghost(sent0): Ghost<Seq<u8>>,
) -> (r: Result<Step, std::io::Error>)
    requires
        scan_state(s, b@, max_len as nat, done as nat, held as nat),
        0 < old(buffer).used <= CHUNK_SIZE,
        done + held + old(buffer).used <= s.len(),
        s.subrange(done + held, done + held + old(buffer).used) == old(buffer).buff@.take(
            old(buffer).used as int,
        ),
        sink_holds(
            old(output).sent(),
            old(output).is_full(),
            sent0,
            s,
            total as nat,
            done as nat,
        ),
    ensures
        final(buffer).used == old(buffer).used,
        ({
            let e = extracted(s, b@, max_len as nat);
            match r {
                Ok(Step::Next { done: d, held: h, total: t }) => {
                    &&& scan_state(s, b@, max_len as nat, d as nat, h as nat)
                    &&& d + h == done + held + old(buffer).used
                    &&& sink_holds(
                        final(output).sent(),
                        final(output).is_full(),
                        sent0,
                        s,
                        t as nat,
                        d as nat,
                    )
                },
                Ok(Step::Stop(t)) => settled(
                    final(output).sent(),
                    final(output).is_full(),
                    sent0,
                    e,
                    t as nat,
                ),
                Err(_) => holds_prefix(final(output).sent(), sent0, e),
            }
        }),
{
    let ghost bs = b@;
    let ghost e = extracted(s, bs, max_len as nat);
    let ghost t0 = (done + held) as nat;
    let blen = b.len();
    let c = buffer.seek(b, held, Ghost(s), Ghost(t0));
    let nb = buffer.non_boundary;
    let ghost i = (nb + buffer.matched) as nat;
    proof {
        lemma_state_bound(s, bs, max_len as nat, done as nat, held as nat);
        lemma_match_is_occurrence(s, bs, t0 + i, c as nat);
        lemma_holds_prefix(output.sent(), output.is_full(), sent0, s, e, total as nat, done as nat);
    }
    let mut done = done;
    let mut total = total;
    if nb > 0 {
        // The held bytes and the first `nb` bytes of the chunk are content.
        let room = max_len - done;
        if held >= room {
            proof {
                assert(s.subrange(done as int, done + room) =~= bs.take(held as int).take(
                    room as int,
                ));
                assert(s.subrange(done as int, done + room) =~= bs.subrange(0, room as int));
                lemma_extracted_is_prefix(s, bs, max_len as nat, max_len as nat);
            }
            return match finish(output, &b[0..room], total, Ghost(s), Ghost(sent0), Ghost(done as nat), Ghost(e)) {
                Ok(t) => Ok(Step::Stop(t)),
                Err(err) => Err(err),
            };
        }
        total = match forward(output, &b[0..held], total, Ghost(s), Ghost(sent0), Ghost(done as nat)) {
            Ok(t) => t,
            Err(err) => return Err(err),
        };
        done = done + held;
        proof {
            lemma_holds_prefix(output.sent(), output.is_full(), sent0, s, e, total as nat, done as nat);
        }
        let chunk: &[u8] = buffer.buff.as_slice();
        let room = max_len - done;
        if nb >= room {
            proof {
                assert(s.subrange(done as int, done + room) =~= chunk@.take(room as int));
                lemma_extracted_is_prefix(s, bs, max_len as nat, max_len as nat);
            }
            return match finish(output, &chunk[0..room], total, Ghost(s), Ghost(sent0), Ghost(done as nat), Ghost(e)) {
                Ok(t) => Ok(Step::Stop(t)),
                Err(err) => Err(err),
            };
        }
        proof {
            assert(s.subrange(done as int, done + nb) =~= chunk@.take(nb as int));
        }
        total = match forward(output, &chunk[0..nb], total, Ghost(s), Ghost(sent0), Ghost(done as nat)) {
            Ok(t) => t,
            Err(err) => return Err(err),
        };
        done = done + nb;
    }
    if c == blen {
        // The boundary starts right after the content handed over.
        proof {
            lemma_extracted_is_prefix(s, bs, max_len as nat, done as nat);
            assert(e.take(total as int) =~= s.take(total as int));
        }
        return Ok(Step::Stop(total));
    }
    proof {
        assert(s.subrange(done as int, done + c) =~= bs.take(c as int));
    }
    Ok(Step::Next { done, held: c, total })
}

/// Reads `input` in chunks and forwards to `output` every byte before the first
/// `boundary` the scan finds, stopping there, at the end of the stream, or after
/// `max_len` bytes, whichever comes first. The boundary itself is not forwarded.
///
/// Memory use does not grow with the stream: one chunk buffer, and a count of the
/// bytes held back as a possible start of the boundary. Those bytes are a prefix of
/// the boundary, so they are written from it once they turn out to be content. A
/// match may therefore span any number of reads, and what is forwarded depends only
/// on the stream's bytes, never on how the source splits them into reads.
///
/// Returns the number of bytes the sink accepted. That is all of the forwarded
/// content unless the sink filled up. An error from the source or the sink ends the
/// scan and is returned as it came; what was forwarded until then stays forwarded.
#[verifier::loop_isolation(false)]
pub fn write_stream<R: ByteSource, W: ByteSink>(
    input: &mut R,
    output: &mut W,
    max_len: usize,
    boundary: String,
) -> (r: Result<usize, std::io::Error>)
    ensures
        ({
            let s = old(input).remaining();
            let e = extracted(s, encode_utf8(boundary@), max_len as nat);
            &&& holds_prefix(final(output).sent(), old(output).sent(), e)
            &&& final(input).remaining().len() <= s.len()
            &&& final(input).remaining() == s.skip(s.len() - final(input).remaining().len())
            &&& match r {
                Ok(n) => settled(final(output).sent(), final(output).is_full(), old(output).sent(), e, n as nat),
                Err(_) => true,
            }
        }),
{
    let b: &[u8] = boundary.as_str().as_bytes();
    let blen = b.len();
    let ghost bs = b@;
    let ghost s = input.remaining();
    let ghost sent0 = output.sent();
    let ghost e = extracted(s, bs, max_len as nat);
    proof {
        lemma_content_len_bound(s, bs);
        assert(s.skip(0) =~= s);
        assert(sent0 + s.take(0) =~= sent0);
    }
    if max_len == 0 || blen == 0 {
        proof {
            lemma_extracted_is_prefix(s, bs, max_len as nat, 0);
            assert(e.take(0) =~= Seq::<u8>::empty());
        }
        return Ok(0);
    }
    let mut buffer = Buffer::new();
    // Bytes of a partial match carried over from earlier chunks: `b[..held]`.
    let mut held: usize = 0;
    // Content bytes settled and handed to the sink.
    let mut done: usize = 0;
    // Bytes the sink accepted.
    let mut total: usize = 0;
    proof {
        assert(s.subrange(0, 0) =~= bs.take(0));
    }
    loop
        invariant
            b@ == bs,
            bs == encode_utf8(boundary@),
            blen == bs.len(),
            e == extracted(s, bs, max_len as nat),
            scan_state(s, bs, max_len as nat, done as nat, held as nat),
            input.remaining() == s.skip(done + held),
            buffer.used <= CHUNK_SIZE,
            sink_holds(output.sent(), output.is_full(), sent0, s, total as nat, done as nat),
        decreases input.remaining().len(),
    {
        proof {
            lemma_state_bound(s, bs, max_len as nat, done as nat, held as nat);
            lemma_holds_prefix(output.sent(), output.is_full(), sent0, s, e, total as nat, done as nat);
        }
        let got = input.read(&mut buffer.buff);
        let n = match got {
            Ok(n) => n,
            Err(err) => return Err(err),
        };
        buffer.used = n;
        if n == 0 {
            return flush_held(output, b, max_len, done, held, total, Ghost(s), Ghost(sent0));
        }
        proof {
            assert(s.subrange(done + held, done + held + n) =~= buffer.buff@.take(n as int));
        }
        match scan_chunk(&mut buffer, output, b, max_len, done, held, total, Ghost(s), Ghost(sent0)) {
            Ok(Step::Next { done: d, held: h, total: t }) => {
                done = d;
                held = h;
                total = t;
            },
            Ok(Step::Stop(t)) => return Ok(t),
            Err(err) => return Err(err),
        }
    }
}

/// A sink that throws away what it is given. Scanning into it only moves the source on.
pub struct Discard {
    taken: Ghost<Seq<u8>>,
}

impl Discard {
    pub fn new() -> (r: Discard)
        ensures
            r.sent() == Seq::<u8>::empty(),
            !r.is_full(),
    {
        Discard { taken: Ghost(Seq::empty()) }
    }
}

impl ByteSink for Discard {
    /// Everything the sink was given, though none of it is kept.
    closed spec fn sent(&self) -> Seq<u8> {
        self.taken@
    }

    open spec fn is_full(&self) -> bool {
        false
    }

    fn write(&mut self, data: &[u8]) -> (r: Result<usize, std::io::Error>)
        ensures
            r matches Ok(n) && n == data@.len(),
    {
        self.taken = Ghost(self.taken@ + data@);
        assert(data@.take(data@.len() as int) =~= data@);
        Ok(data.len())
    }
}

/// Moves `input` past the first `boundary` the scan finds, or past `max_len` content
/// bytes, or to the end of the stream, and returns the number of content bytes skipped.
pub fn advance<R: ByteSource>(input: &mut R, max_len: usize, boundary: String) -> (r: Result<
    usize,
    std::io::Error,
>)
    ensures
        ({
            let s = old(input).remaining();
            &&& final(input).remaining().len() <= s.len()
            &&& final(input).remaining() == s.skip(s.len() - final(input).remaining().len())
            &&& r matches Ok(n) ==> n == extracted(s, encode_utf8(boundary@), max_len as nat).len()
        }),
{
    let mut sink = Discard::new();
    write_stream(input, &mut sink, max_len, boundary)
}

/// A byte source over a slice of memory.
pub struct ReadBuffer<'a> {
    buffer: &'a [u8],
    read: usize,
}

impl<'a> ReadBuffer<'a> {
    /// The bytes of the underlying slice.
    pub closed spec fn data(&self) -> Seq<u8> {
        self.buffer@
    }

    /// How many bytes have been read so far.
    pub closed spec fn position(&self) -> nat {
        self.read as nat
    }

    pub fn new(b: &'a [u8]) -> (r: ReadBuffer<'a>)
        ensures
            r.data() == b@,
            r.position() == 0,
            r.remaining() == b@,
    {
        let r = ReadBuffer { buffer: b, read: 0 };
        assert(r.buffer@.subrange(0, r.buffer@.len() as int) =~= b@);
        r
    }
}

impl<'a> ByteSource for ReadBuffer<'a> {
    closed spec fn remaining(&self) -> Seq<u8> {
        if self.read <= self.buffer@.len() {
            self.buffer@.subrange(self.read as int, self.buffer@.len() as int)
        } else {
            Seq::empty()
        }
    }

    /// Copies as many unread bytes as fit into `buf`.
    fn read(&mut self, buf: &mut [u8]) -> (r: Result<usize, std::io::Error>)
        ensures
            r matches Ok(n) && n as int == if old(self).remaining().len() < old(buf)@.len() {
                old(self).remaining().len() as int
            } else {
                old(buf)@.len() as int
            },
            final(self).data() == old(self).data(),
    {
        let l = self.buffer.len();
        let available = if self.read <= l {
            l - self.read
        } else {
            0
        };
        let e = if available > buf.len() {
            buf.len()
        } else {
            available
        };
        let ghost rest = self.remaining();
        let mut k: usize = 0;
        while k < e
            invariant
                k <= e <= buf@.len(),
                e <= available,
                self.read <= l ==> available == l - self.read,
                self.read > l ==> available == 0,
                l == self.buffer@.len(),
                buf@.len() == old(buf)@.len(),
                rest == self.remaining(),
                forall|j: int| 0 <= j < k ==> buf@[j] == rest[j],
            decreases e - k,
        {
            buf[k] = self.buffer[self.read + k];
            k = k + 1;
        }
        self.read = self.read + e;
        assert(buf@.take(e as int) =~= rest.take(e as int));
        assert(self.remaining() =~= rest.skip(e as int));
        Ok(e)
    }
}

/// A byte sink over a slice of memory: bytes are stored from the start of the slice on,
/// and what does not fit is refused.
pub struct WriteBuffer<'a> {
    buffer: &'a mut [u8],
    written: usize,
}

impl<'a> WriteBuffer<'a> {
    #[verifier::type_invariant]
    spec fn stored_fit(&self) -> bool {
        self.written <= self.buffer@.len()
    }

    /// The current bytes of the underlying slice.
    pub closed spec fn contents(&self) -> Seq<u8> {
        self.buffer@
    }

    /// The underlying slice.
    pub closed spec fn target(self) -> &'a mut [u8] {
        self.buffer
    }

    /// How many bytes have been stored so far.
    pub closed spec fn written(&self) -> nat {
        self.written as nat
    }

    pub fn new(b: &'a mut [u8]) -> (r: WriteBuffer<'a>)
        ensures
            r.contents() == old(b)@,
            r.written() == 0,
            r.sent() == Seq::<u8>::empty(),
            final(b)@ == final(r.target())@,
    {
        let r = WriteBuffer { buffer: b, written: 0 };
        assert(r.sent() =~= Seq::<u8>::empty());
        r
    }
}

impl<'a> ByteSink for WriteBuffer<'a> {
    closed spec fn sent(&self) -> Seq<u8> {
        self.buffer@.take(self.written as int)
    }

    closed spec fn is_full(&self) -> bool {
        self.written >= self.buffer@.len()
    }

    /// Stores as many bytes of `data` as there is room for after those already stored;
    /// the rest of the slice is left as it was.
    fn write(&mut self, data: &[u8]) -> (r: Result<usize, std::io::Error>)
        ensures
            r matches Ok(n) && {
                let room = old(self).contents().len() - old(self).written();
                &&& n as int == if room < data@.len() {
                    room
                } else {
                    data@.len() as int
                }
                &&& final(self).written() == old(self).written() + n
                &&& final(self).contents() == old(self).contents().take(
                    old(self).written() as int,
                ) + data@.take(n as int) + old(self).contents().skip(old(self).written() + n)
            },
    {
        proof {
            use_type_invariant(&*self);
        }
        let w = self.written;
        let l = self.buffer.len();
        let room = l - w;
        let e = if room > data.len() {
            data.len()
        } else {
            room
        };
        let ghost before = self.buffer@;
        let mut k: usize = 0;
        while k < e
            invariant
                k <= e <= data@.len(),
                e <= room,
                w <= l,
                room == l - w,
                w == self.written,
                l == self.buffer@.len(),
                self.buffer@.len() == before.len(),
                forall|j: int| 0 <= j < w ==> self.buffer@[j] == before[j],
                forall|j: int| 0 <= j < k ==> self.buffer@[w + j] == data@[j],
                forall|j: int| w + k <= j < l ==> self.buffer@[j] == before[j],
            decreases e - k,
        {
            self.buffer[w + k] = data[k];
            k = k + 1;
        }
        self.written = w + e;
        assert(self.buffer@ =~= before.take(w as int) + data@.take(e as int) + before.skip(
            w + e,
        ));
        assert(self.buffer@.take(self.written as int) =~= before.take(w as int) + data@.take(
            e as int,
        ));
        Ok(e)
    }
}

} // verus!
